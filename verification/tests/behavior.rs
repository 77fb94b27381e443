use argparse::ArgParseError;
use argparse::Parser;

fn to_args(args: Vec<&str>) -> Vec<String> {
    args.into_iter().map(|s| s.to_string()).collect()
}

#[test]
fn help_wins_over_registered_names() {
    let mut parser = Parser::new();
    parser.add_flag("help").with_short_name('h');
    let long = parser.parse(&to_args(vec!["program", "--help"]));
    assert_eq!(long.unwrap_err(), ArgParseError::HelpRequested);
    let short = parser.parse(&to_args(vec!["program", "-h"]));
    assert_eq!(short.unwrap_err(), ArgParseError::HelpRequested);
}

#[test]
fn help_wins_later_in_the_stream() {
    let mut parser = Parser::new();
    parser.add_flag("verbose").with_short_name('v');
    parser.add_positional("input");
    let result = parser.parse(&to_args(vec!["program", "-v", "data.csv", "--help"]));
    assert_eq!(result.unwrap_err(), ArgParseError::HelpRequested);
}

#[test]
fn help_consumed_as_an_option_value_is_a_value() {
    let mut parser = Parser::new();
    parser.add_option("output");
    let result = parser.parse(&to_args(vec!["program", "--output", "--help"])).unwrap();
    assert_eq!(result.option_value("output"), Some(&"--help".to_string()));
}

#[test]
fn repeated_flag_is_recorded_once() {
    let mut parser = Parser::new();
    parser.add_flag("verbose").with_short_name('v');
    let result = parser
        .parse(&to_args(vec!["program", "--verbose", "-v", "--verbose"]))
        .unwrap();
    assert!(result.has_flag("verbose"));
    assert_eq!(result.flags.len(), 1);
}

#[test]
fn repeated_option_keeps_the_last_value() {
    let mut parser = Parser::new();
    parser.add_option("opt");
    let result = parser
        .parse(&to_args(vec!["program", "--opt", "v1", "--opt", "v2"]))
        .unwrap();
    assert_eq!(result.option_value("opt"), Some(&"v2".to_string()));
    assert_eq!(result.options.len(), 1);
}

#[test]
fn single_character_option_group_consumes_value() {
    let mut parser = Parser::new();
    parser.add_option("o").with_short_name('o');
    let result = parser.parse(&to_args(vec!["program", "-o", "value"])).unwrap();
    assert_eq!(result.option_value("o"), Some(&"value".to_string()));
}

#[test]
fn empty_token_list_parses_to_empty_result() {
    let parser = Parser::new();
    let result = parser.parse(&to_args(vec![])).unwrap();
    assert!(result.flags.is_empty());
    assert!(result.options.is_empty());
    assert!(result.positional.is_empty());
}

#[test]
fn program_name_alone_parses_to_empty_result() {
    let mut parser = Parser::new();
    parser.add_flag("verbose");
    let result = parser.parse(&to_args(vec!["program"])).unwrap();
    assert!(result.flags.is_empty());
    assert!(result.positional.is_empty());
}

#[test]
fn lone_dash_is_positional() {
    let parser = Parser::new();
    let result = parser.parse(&to_args(vec!["program", "-"])).unwrap();
    assert_eq!(result.positional, vec!["-"]);
}

#[test]
fn double_dash_alone_is_an_unknown_empty_name() {
    let parser = Parser::new();
    let result = parser.parse(&to_args(vec!["program", "--"]));
    assert_eq!(
        result.unwrap_err(),
        ArgParseError::UnknownArgument("".to_string())
    );
}

#[test]
fn first_registered_definition_wins_for_duplicate_names() {
    let mut parser = Parser::new();
    parser.add_flag("x").with_short_name('x');
    parser.add_option("x").with_short_name('x');
    let result = parser.parse(&to_args(vec!["program", "--x", "-x"])).unwrap();
    assert!(result.has_flag("x"));
    assert_eq!(result.option_value("x"), None);
}

#[test]
fn positional_definition_never_matches_a_prefixed_token() {
    let mut parser = Parser::new();
    parser.add_positional("input").with_short_name('i');
    let long = parser.parse(&to_args(vec!["program", "--input"]));
    assert_eq!(
        long.unwrap_err(),
        ArgParseError::UnknownArgument("input".to_string())
    );
    let short = parser.parse(&to_args(vec!["program", "-i"]));
    assert_eq!(
        short.unwrap_err(),
        ArgParseError::UnknownArgument("i".to_string())
    );
}

#[test]
fn unknown_character_later_in_group_aborts() {
    let mut parser = Parser::new();
    parser.add_flag("all").with_short_name('a');
    let result = parser.parse(&to_args(vec!["program", "-ax"]));
    assert_eq!(
        result.unwrap_err(),
        ArgParseError::UnknownArgument("x".to_string())
    );
}

#[test]
fn help_check_applies_to_whole_tokens_only() {
    let mut parser = Parser::new();
    parser.add_flag("verbose").with_short_name('v');
    let result = parser.parse(&to_args(vec!["program", "-vh"]));
    assert_eq!(
        result.unwrap_err(),
        ArgParseError::UnknownArgument("h".to_string())
    );
}

#[test]
fn positional_tokens_keep_their_encounter_order() {
    let mut parser = Parser::new();
    parser.add_flag("verbose").with_short_name('v');
    let result = parser
        .parse(&to_args(vec!["program", "one", "-v", "two", "three"]))
        .unwrap();
    assert_eq!(result.positional, vec!["one", "two", "three"]);
}
