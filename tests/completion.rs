use intellicomp::{
    Command, CommandParseError, KeywordArgument, KeywordArgumentStyle, PositionalArgument, Token,
    ValueType,
};

fn keyword(name: &str, repeatable: bool, style: KeywordArgumentStyle, value_type: ValueType) -> KeywordArgument {
    KeywordArgument {
        name: name.to_string(),
        description: "Some argument".to_string(),
        incompatible_with: vec![],
        style,
        repeatable,
        shorthand: Some('s'),
        value_type,
    }
}

fn strings(values: &[&str]) -> Vec<String> {
    values.iter().map(|v| v.to_string()).collect()
}

fn mock_command() -> Command {
    Command {
        description: "This is a mock command used for testing".to_string(),
        keyword_arguments: vec![
            keyword(
                "enum",
                false,
                KeywordArgumentStyle::Standard,
                ValueType::Enumeration(strings(&["foo", "bar", "baz"])),
            ),
            keyword("file", false, KeywordArgumentStyle::Standard, ValueType::Path),
        ],
        positional_arguments: vec![PositionalArgument {
            name: "positional".to_string(),
            description: "Some positional argument".to_string(),
            value_type: ValueType::Enumeration(strings(&["1", "2", "3"])),
            incompatible_with: vec![],
        }],
    }
}

#[test]
fn test_generate_enum_completions() {
    let command = "command-name --enum ";
    let completions = mock_command()
        .generate_completions(command, command.len())
        .unwrap();

    assert_eq!(completions, vec!["foo", "bar", "baz"])
}

#[test]
fn test_generate_keyword_and_positional_completions() {
    let command = "command-name ";
    let completions = mock_command()
        .generate_completions(command, command.len())
        .unwrap();

    assert_eq!(completions, vec!["--enum", "--file", "1", "2", "3"])
}

#[test]
fn test_generate_keyword_completions() {
    let command = "command-name 1 --";
    let completions = mock_command()
        .generate_completions(command, command.len())
        .unwrap();

    assert_eq!(completions, vec!["--enum", "--file"])
}

#[test]
fn test_provide_completions_from_partial_argument() {
    let command = "command-name --enum ba";
    let completions = mock_command()
        .generate_completions(command, command.len())
        .unwrap();

    assert_eq!(completions, vec!["bar", "baz"])
}

#[test]
fn test_cursor_out_of_range() {
    let command = "command-name --enum ";
    let index = command.len() + 1;
    let error = mock_command()
        .generate_completions(command, index)
        .unwrap_err();

    if let CommandParseError::CursorOutOfRange(position) = error {
        assert_eq!(position, index)
    } else {
        panic!("Wrong error variant: {error:?}")
    }
}

#[test]
fn cursor_truncates_the_line() {
    let command = "command-name --enum bazooka";
    let cursor = "command-name --enum ba".len();
    assert_eq!(
        mock_command().generate_completions(command, cursor).unwrap(),
        vec!["bar", "baz"]
    );
}

#[test]
fn keyword_without_value_is_reported() {
    let command = "command-name --enum";
    assert_eq!(
        mock_command().generate_completions(command, command.len()),
        Err(CommandParseError::ArgumentMissingValue("--enum".to_string()))
    );
}

#[test]
fn unparseable_line_is_reported() {
    let command = "command-name \\";
    assert_eq!(
        mock_command().generate_completions(command, command.len()),
        Err(CommandParseError::UnparseableCommand)
    );
}

#[test]
fn bad_path_pattern_is_a_path_failure() {
    let command = "command-name --file [";
    assert_eq!(
        mock_command().generate_completions(command, command.len()),
        Err(CommandParseError::PathCompletionFailure)
    );
}

#[test]
fn empty_line_has_no_candidates() {
    assert_eq!(mock_command().generate_completions("", 0), Ok(vec![]));
}

#[test]
fn program_name_alone_offers_top_level_candidates() {
    let command = "command-name";
    assert_eq!(
        mock_command().generate_completions(command, command.len()).unwrap(),
        vec!["--enum", "--file", "1", "2", "3"]
    );
}

#[test]
fn non_repeatable_keyword_is_excluded_once_used() {
    let command = "command-name --enum foo 1 --";
    assert_eq!(
        mock_command().generate_completions(command, command.len()).unwrap(),
        vec!["--file"]
    );
}

#[test]
fn repeatable_keyword_stays_offered() {
    let mut schema = mock_command();
    schema.keyword_arguments[0].repeatable = true;
    let command = "command-name --enum foo 1 --";
    assert_eq!(
        schema.generate_completions(command, command.len()).unwrap(),
        vec!["--enum", "--file"]
    );
}

#[test]
fn flag_consumes_no_value_and_old_style_has_one_dash() {
    let schema = Command {
        description: String::new(),
        keyword_arguments: vec![
            keyword("verbose", true, KeywordArgumentStyle::Standard, ValueType::Flag),
            keyword("name", false, KeywordArgumentStyle::Old, ValueType::String),
        ],
        positional_arguments: vec![],
    };
    let command = "find --verbose -n";
    assert_eq!(
        schema.generate_completions(command, command.len()).unwrap(),
        vec!["-name"]
    );
    let command = "find -name ";
    assert_eq!(
        schema.generate_completions(command, command.len()).unwrap(),
        Vec::<String>::new()
    );
}

#[test]
fn display_name_follows_style() {
    assert_eq!(
        keyword("depth", false, KeywordArgumentStyle::Old, ValueType::Flag).to_string(),
        "-depth"
    );
    assert_eq!(
        keyword("depth", false, KeywordArgumentStyle::Standard, ValueType::Flag).to_string(),
        "--depth"
    );
}

#[test]
fn classify_words_binds_keywords_and_positionals() {
    let words = strings(&["cmd", "--enum", "foo", "2", "--fi"]);
    let tokens = mock_command().classify_words(&words).unwrap();
    assert_eq!(tokens.len(), 3);
    assert!(matches!(&tokens[0], Token::PopulatedKeywordArgument { argument: 0, value } if value == "foo"));
    assert!(matches!(&tokens[1], Token::PopulatedPositionalArgument { argument: 0, value } if value == "2"));
    assert!(matches!(&tokens[2], Token::PartialKeywordArgument(p) if p == "fi"));
}

#[test]
fn complete_tokens_uses_given_paths() {
    let schema = mock_command();
    let tokens = vec![Token::PopulatedKeywordArgument { argument: 1, value: "sr".to_string() }];
    assert_eq!(
        schema.complete_tokens(&tokens, strings(&["src", "srv"])),
        vec!["src", "srv"]
    );
    let tokens = vec![Token::PartialKeywordArgument("fi".to_string())];
    assert_eq!(schema.complete_tokens(&tokens, vec![]), vec!["--file"]);
}

#[test]
fn complete_words_positional_then_keywords() {
    let schema = mock_command();
    assert_eq!(
        schema.complete_words(&strings(&["cmd", "2"])).unwrap(),
        vec!["2"]
    );
    assert_eq!(
        schema.complete_words(&strings(&["cmd", ""])).unwrap(),
        vec!["--enum", "--file", "1", "2", "3"]
    );
}
