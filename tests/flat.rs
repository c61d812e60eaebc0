use intellicomp::flat::{parse_words, Argument, ArgumentType, Command};
use intellicomp::CommandParseError;

fn argument(name: &str, repeatable: bool, arg_type: ArgumentType) -> Argument {
    Argument {
        name: name.to_string(),
        description: String::new(),
        shorthand: None,
        repeatable,
        arg_type,
        incompatible_with: vec![],
    }
}

fn values(v: &[&str]) -> Vec<String> {
    v.iter().map(|s| s.to_string()).collect()
}

fn flat_command() -> Command {
    Command {
        description: String::new(),
        keyword_arguments: vec![
            argument("--mode", false, ArgumentType::Enumeration(values(&["fast", "full", "safe"]))),
            argument("--verbose", true, ArgumentType::Flag),
            argument("--name", false, ArgumentType::String),
        ],
        positional_arguments: vec![argument("target", false, ArgumentType::Enumeration(values(&["a", "b"])))],
        arguments_valid_anywhere: true,
    }
}

#[test]
fn flat_keyword_value_completion() {
    let line = "tool --mode f";
    assert_eq!(
        flat_command().generate_completions(line, line.len()).unwrap(),
        vec!["fast", "full"]
    );
}

#[test]
fn flat_names_need_exact_match() {
    let line = "tool --mo";
    assert_eq!(
        flat_command().generate_completions(line, line.len()).unwrap(),
        vec!["--mode"]
    );
}

#[test]
fn flat_positional_offers_names_and_values() {
    let line = "tool --verbose ";
    assert_eq!(
        flat_command().generate_completions(line, line.len()).unwrap(),
        vec!["--mode", "--verbose", "--name", "a", "b"]
    );
    let line = "tool --mode fast ";
    assert_eq!(
        flat_command().generate_completions(line, line.len()).unwrap(),
        vec!["--verbose", "--name", "a", "b"]
    );
}

#[test]
fn flat_used_keyword_is_excluded() {
    let line = "tool --mode fast a --";
    assert_eq!(
        flat_command().generate_completions(line, line.len()).unwrap(),
        vec!["--verbose", "--name"]
    );
}

#[test]
fn flat_errors() {
    let line = "tool --name";
    assert_eq!(
        flat_command().generate_completions(line, line.len()),
        Err(CommandParseError::ArgumentMissingValue("--name".to_string()))
    );
    assert_eq!(
        flat_command().generate_completions(line, line.len() + 3),
        Err(CommandParseError::CursorOutOfRange(line.len() + 3))
    );
    let line = "tool 'open";
    assert_eq!(
        flat_command().generate_completions(line, line.len()),
        Err(CommandParseError::UnparseableCommand)
    );
}

#[test]
fn flat_parse_words_keeps_trailing_word() {
    assert_eq!(parse_words("tool a ").unwrap(), vec!["tool", "a", ""]);
    assert_eq!(parse_words("tool 'a b'").unwrap(), vec!["tool", "a b"]);
}
