use intellicomp::{get_quoting_state, parse_words, repair_quotes, words_from_split, CommandParseError, QuotingState};

#[test]
fn test_get_quoting_state_no_quotes() {
    let command = "the quick brown fox jumps over the lazy dog";

    assert_eq!(get_quoting_state(command), QuotingState::Balanced)
}

#[test]
fn test_get_quoting_state_balanced_quotes() {
    let command = "the quick 'brown' \"fox\" jumps 'over' the \"lazy\" dog";

    assert_eq!(get_quoting_state(command), QuotingState::Balanced)
}

#[test]
fn test_get_quoting_state_unbalanced_single_quotes() {
    let command = "the quick 'brown' \"fox\" jumps 'over the \"lazy\" dog";

    assert_eq!(
        get_quoting_state(command),
        QuotingState::UnbalancedSingleQuote
    )
}

#[test]
fn test_get_quoting_state_unbalanced_double_quotes() {
    let command = "the quick 'brown' \"fox\" jumps 'over' the \"lazy dog";

    assert_eq!(
        get_quoting_state(command),
        QuotingState::UnbalancedDoubleQuote
    )
}

#[test]
fn test_get_quoting_state_both_unbalanced() {
    let command = "the quick 'brown \"fox jumps 'over' the \"lazy dog";

    // The first unbalanced quote encountered was a single quote, thus this is a single
    assert_eq!(
        get_quoting_state(command),
        QuotingState::UnbalancedSingleQuote
    )
}

#[test]
fn test_parse_words() {
    let command = "command-name 'longer positional argument' --flag";

    assert_eq!(
        parse_words(command.to_string()).expect("Failed to parse command"),
        vec!["command-name", "longer positional argument", "--flag"]
    )
}

#[test]
fn test_parse_words_invalid_string() {
    let command = "command-name 'longer positional argument' --flag \\";

    parse_words(command.to_string()).expect_err("Command was unexpectedly treated as valid");
}

#[test]
fn test_parse_words_unclosed_single_quote() {
    let command = "command-name 'longer positional argument' --flag 'partial";

    assert_eq!(
        parse_words(command.to_string()).expect("Failed to parse command"),
        vec![
            "command-name",
            "longer positional argument",
            "--flag",
            "partial"
        ]
    )
}

#[test]
fn test_parse_words_unclosed_double_quote() {
    let command = "command-name 'longer positional argument' --flag \"partial";

    assert_eq!(
        parse_words(command.to_string()).expect("Failed to parse command"),
        vec![
            "command-name",
            "longer positional argument",
            "--flag",
            "partial"
        ]
    )
}

#[test]
fn quoteless_text_is_balanced() {
    assert_eq!(get_quoting_state(""), QuotingState::Balanced);
    assert_eq!(get_quoting_state("cmd --flag value"), QuotingState::Balanced);
}

#[test]
fn one_quote_opens_and_a_second_closes() {
    let base = "cmd 'a' \"b\"";
    assert_eq!(get_quoting_state(base), QuotingState::Balanced);
    assert_eq!(get_quoting_state(&format!("{base}'")), QuotingState::UnbalancedSingleQuote);
    assert_eq!(get_quoting_state(&format!("{base}\"")), QuotingState::UnbalancedDoubleQuote);
    assert_eq!(get_quoting_state(&format!("{base}''")), QuotingState::Balanced);
    assert_eq!(get_quoting_state(&format!("{base}\"\"")), QuotingState::Balanced);
}

#[test]
fn quote_inside_other_quote_is_inert() {
    assert_eq!(get_quoting_state("cmd \"it's"), QuotingState::UnbalancedDoubleQuote);
    assert_eq!(get_quoting_state("cmd 'say \"hi'"), QuotingState::Balanced);
}

#[test]
fn repaired_line_is_balanced() {
    assert_eq!(repair_quotes("cmd 'partial"), "cmd 'partial'");
    assert_eq!(repair_quotes("cmd \"partial"), "cmd \"partial\"");
    assert_eq!(repair_quotes("cmd done"), "cmd done");
    for line in ["cmd 'partial", "cmd \"it's", "cmd 'a' \"b"] {
        assert_eq!(get_quoting_state(&repair_quotes(line)), QuotingState::Balanced);
    }
}

#[test]
fn parse_words_quoted_argument() {
    assert_eq!(
        parse_words("cmd 'a b' --flag".to_string()).unwrap(),
        vec!["cmd", "a b", "--flag"]
    );
}

#[test]
fn parse_words_trailing_space_starts_a_word() {
    assert_eq!(
        parse_words("cmd 'a b' --flag ".to_string()).unwrap(),
        vec!["cmd", "a b", "--flag", ""]
    );
}

#[test]
fn parse_words_unterminated_quote() {
    assert_eq!(
        parse_words("cmd --flag 'partial".to_string()).unwrap(),
        vec!["cmd", "--flag", "partial"]
    );
    assert_eq!(parse_words("cmd '".to_string()).unwrap(), vec!["cmd", ""]);
}

#[test]
fn parse_words_trailing_backslash_fails() {
    assert_eq!(
        parse_words("cmd \\".to_string()),
        Err(CommandParseError::UnparseableCommand)
    );
}

#[test]
fn quoted_trailing_space_starts_no_word() {
    assert_eq!(parse_words("cmd 'a ".to_string()).unwrap(), vec!["cmd", "a "]);
}

#[test]
fn words_from_split_cases() {
    assert_eq!(
        words_from_split("cmd ", Some(vec!["cmd".to_string()])),
        Ok(vec!["cmd".to_string(), String::new()])
    );
    assert_eq!(
        words_from_split("cmd", Some(vec!["cmd".to_string()])),
        Ok(vec!["cmd".to_string()])
    );
    assert_eq!(
        words_from_split("cmd", None),
        Err(CommandParseError::UnparseableCommand)
    );
}
