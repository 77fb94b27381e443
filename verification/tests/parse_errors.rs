use argparse::ArgParseError;
use argparse::Parser;

fn to_args(args: Vec<&str>) -> Vec<String> {
    args.into_iter().map(|s| s.to_string()).collect()
}

#[test]
fn test_err_unknown_long_argument() {
    let parser = Parser::new();
    let result = parser.parse(&to_args(vec!["program", "--unknown"]));
    assert!(matches!(result, Err(ArgParseError::UnknownArgument(_))));
}

#[test]
fn test_err_unknown_short_argument() {
    let parser = Parser::new();
    let result = parser.parse(&to_args(vec!["program", "-x"]));
    assert!(matches!(result, Err(ArgParseError::UnknownArgument(_))));
}

#[test]
fn test_err_missing_value_for_option() {
    let mut parser = Parser::new();
    parser.add_option("output").with_short_name('o').with_help("test");
    let result = parser.parse(&to_args(vec!["program", "--output"]));
    assert!(matches!(result, Err(ArgParseError::MissingValueForOption(_))));
}

#[test]
fn test_err_option_in_middle_of_group() {
    let mut parser = Parser::new();
    parser.add_option("output").with_short_name('o').with_help("test");
    parser.add_flag("verbose").with_short_name('v').with_help("test2");
    let result = parser.parse(&to_args(vec!["program", "-ov", "file.txt"]));
    assert!(matches!(result, Err(ArgParseError::OptionInMiddleOfGroup(_))));
}

#[test]
fn test_help_flag_returns_help_requested_error() {
    let mut parser = Parser::new();
    parser
        .add_flag("verbose")
        .with_short_name('v')
        .with_help("Enable verbose output.");

    // Test long form --help
    let long_args = to_args(vec!["program", "--help"]);
    let long_result = parser.parse(&long_args);
    assert_eq!(long_result.unwrap_err(), ArgParseError::HelpRequested);

    // Test short form -h
    let short_args = to_args(vec!["program", "-h"]);
    let short_result = parser.parse(&short_args);
    assert_eq!(short_result.unwrap_err(), ArgParseError::HelpRequested);
}

#[test]
fn test_required_option_is_present() {
    let mut parser = Parser::new();
    parser.add_option("output").required();
    let result = parser.parse(&to_args(vec!["program", "--output", "file.txt"]));
    assert!(result.is_ok());
}

#[test]
fn test_err_missing_required_option() {
    let mut parser = Parser::new();
    parser.add_option("output").required();
    let result = parser.parse(&to_args(vec!["program"]));
    assert!(matches!(
        result,
        Err(ArgParseError::MissingRequiredArgument(_))
    ));
}

#[test]
fn test_err_unknown_long_argument_carries_name() {
    let mut parser = Parser::new();
    parser.add_flag("verbose");
    let result = parser.parse(&to_args(vec!["program", "--bogus"]));
    assert_eq!(
        result.unwrap_err(),
        ArgParseError::UnknownArgument("bogus".to_string())
    );
}

#[test]
fn test_err_unknown_short_argument_carries_character() {
    let mut parser = Parser::new();
    parser.add_flag("verbose").with_short_name('v');
    let result = parser.parse(&to_args(vec!["program", "-x"]));
    assert_eq!(
        result.unwrap_err(),
        ArgParseError::UnknownArgument("x".to_string())
    );
}

#[test]
fn test_err_missing_value_for_option_carries_name() {
    let mut parser = Parser::new();
    parser.add_option("output");
    let result = parser.parse(&to_args(vec!["program", "--output"]));
    assert_eq!(
        result.unwrap_err(),
        ArgParseError::MissingValueForOption("output".to_string())
    );
}

#[test]
fn test_err_mid_group_carries_long_name_and_trailing_option_succeeds() {
    let mut parser = Parser::new();
    parser.add_option("output").with_short_name('o');
    parser.add_flag("verbose").with_short_name('v');

    // Option not last in the group: only that exact case fails.
    let mid = parser.parse(&to_args(vec!["program", "-ov", "file.txt"]));
    assert_eq!(
        mid.unwrap_err(),
        ArgParseError::OptionInMiddleOfGroup("output".to_string())
    );

    // Option last in the group: succeeds and consumes the value.
    let trailing = parser
        .parse(&to_args(vec!["program", "-vo", "file.txt"]))
        .unwrap();
    assert!(trailing.has_flag("verbose"));
    assert_eq!(trailing.option_value("output"), Some(&"file.txt".to_string()));
}

#[test]
fn test_err_missing_required_flag_and_positional() {
    let mut parser = Parser::new();
    parser.add_flag("force").required();
    let result = parser.parse(&to_args(vec!["program"]));
    assert_eq!(
        result.unwrap_err(),
        ArgParseError::MissingRequiredArgument("force".to_string())
    );

    let mut positional_parser = Parser::new();
    positional_parser.add_positional("input").required();
    let missing = positional_parser.parse(&to_args(vec!["program"]));
    assert_eq!(
        missing.unwrap_err(),
        ArgParseError::MissingRequiredArgument("input".to_string())
    );
    let present = positional_parser.parse(&to_args(vec!["program", "data.csv"]));
    assert!(present.is_ok());
}

#[test]
fn test_error_messages() {
    assert_eq!(
        ArgParseError::UnknownArgument("bogus".to_string()).message(),
        "unknown argument: 'bogus'"
    );
    assert_eq!(
        ArgParseError::MissingValueForOption("output".to_string()).message(),
        "missing value for option: 'output'"
    );
    assert_eq!(
        ArgParseError::OptionInMiddleOfGroup("output".to_string()).message(),
        "Option 'output' cannot be in the middle of the group"
    );
    assert_eq!(ArgParseError::HelpRequested.message(), "");
    assert_eq!(
        ArgParseError::MissingRequiredArgument("input".to_string()).message(),
        "missing required argument 'input'"
    );
}
