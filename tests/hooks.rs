use intellicomp::flat::{quotes_balanced, Argument, ArgumentType};
use intellicomp::{Bash, Command, CommandParseError, Fish, KeywordArgument, KeywordArgumentStyle, ValueType};

fn keyword(name: &str, shorthand: Option<char>) -> KeywordArgument {
    KeywordArgument {
        name: name.to_string(),
        description: format!("The {name}"),
        shorthand,
        repeatable: false,
        style: KeywordArgumentStyle::Standard,
        value_type: ValueType::String,
        incompatible_with: vec![],
    }
}

#[test]
fn bash_registration_line() {
    assert_eq!(
        Bash::generate_completions_from_schema("/bin/ic", "/data/git.yaml", "git.yaml"),
        vec!["complete -C \"/bin/ic complete bash /data/git.yaml\" git"]
    );
}

#[test]
fn bash_trims_every_schema_extension() {
    assert_eq!(
        Bash::generate_completions_from_schema("ic", "s", "a.yaml.yaml"),
        vec!["complete -C \"ic complete bash s\" a"]
    );
    assert_eq!(
        Bash::generate_completions_from_schema("ic", "s", "a.json"),
        vec!["complete -C \"ic complete bash s\" a.json"]
    );
}

#[test]
fn fish_declarations() {
    let schema = Command {
        description: String::new(),
        keyword_arguments: vec![keyword("all", Some('a')), keyword("long", None), keyword("dash", Some('-'))],
        positional_arguments: vec![],
    };
    assert_eq!(
        Fish::generate_completions_from_schema(&schema, "ls.yaml"),
        vec![
            "complete -c ls -l 'all' -d 'The all' -s 'a'",
            "complete -c ls -l 'long' -d 'The long'",
            "complete -c ls -l 'dash' -d 'The dash' -s ''",
        ]
    );
    assert!(Fish::generate_completions_from_schema(&schema, "ls.json").is_empty());
}

fn flat(arg_type: ArgumentType) -> Argument {
    Argument {
        name: "out".to_string(),
        description: String::new(),
        shorthand: None,
        repeatable: false,
        arg_type,
        incompatible_with: vec![],
    }
}

#[test]
fn consume_iter_takes_what_the_type_needs() {
    let words = vec!["a".to_string(), "b".to_string()];
    let mut next = 1;
    assert_eq!(flat(ArgumentType::Flag).consume_iter(&words, &mut next), Ok(vec![]));
    assert_eq!(next, 1);
    assert_eq!(
        flat(ArgumentType::String).consume_iter(&words, &mut next),
        Ok(vec!["b".to_string()])
    );
    assert_eq!(next, 2);
    assert_eq!(
        flat(ArgumentType::String).consume_iter(&words, &mut next),
        Err(CommandParseError::ArgumentMissingValue("out".to_string()))
    );
    assert_eq!(next, 2);
}

#[test]
fn quotes_counted_independently() {
    assert!(quotes_balanced("cmd 'a' \"b\""));
    assert!(!quotes_balanced("cmd \"it's\""));
    assert!(!quotes_balanced("cmd 'a"));
    assert!(quotes_balanced(""));
}
