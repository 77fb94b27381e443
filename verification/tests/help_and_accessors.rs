use argparse::ParsedArgs;
use argparse::Parser;

#[test]
fn test_generate_help_message_formatting() {
    let mut parser = Parser::new();
    parser.add_flag("all").with_short_name('a').with_help("List all items.");
    parser
        .add_option("output")
        .with_short_name('o')
        .with_help("Specify output file.");
    parser
        .add_positional("input")
        .with_help("The input file to process.");

    let help_text = parser.generate_help();

    let expected_text = "Usage: [PROGRAM_NAME] [OPTIONS] [ARGUMENTS]\n\
                         \n\
                         Options:\n\
                         \x20 -a, all                  List all items.\n\
                         \x20 -o, output               Specify output file.\n\
                         \n\
                         Arguments:\n\
                         \x20 input                  The input file to process.\n";
    assert_eq!(help_text, expected_text);
}

#[test]
fn test_generate_help_without_short_name() {
    let mut parser = Parser::new();
    parser.add_flag("quiet").with_help("Say nothing.");

    let help_text = parser.generate_help();

    let expected_text = "Usage: [PROGRAM_NAME] [OPTIONS] [ARGUMENTS]\n\
                         \n\
                         Options:\n\
                         \x20     quiet                Say nothing.\n\
                         \n\
                         Arguments:\n";
    assert_eq!(help_text, expected_text);
}

#[test]
fn test_generate_help_empty_registry() {
    let parser = Parser::new();
    let help_text = parser.generate_help();
    assert_eq!(
        help_text,
        "Usage: [PROGRAM_NAME] [OPTIONS] [ARGUMENTS]\n\nOptions:\n\nArguments:\n"
    );
}

#[test]
fn test_get_value_as() {
    let options = vec![
        ("port".to_string(), "8080".to_string()),
        ("rate".to_string(), "hello".to_string()),
    ];

    let parsed_args = ParsedArgs { flags: vec![], options, positional: vec![] };

    // Success case: valid key and valid parse.
    let port = parsed_args
        .get_value_as("port", |s: &str| s.parse::<u32>())
        .unwrap()
        .unwrap();
    assert_eq!(port, 8080);

    // Failure case: valid key but invalid parse.
    let rate_result = parsed_args.get_value_as("rate", |s: &str| s.parse::<f64>());
    // We expect Some(Err(...))
    assert!(rate_result.is_some());
    assert!(rate_result.unwrap().is_err());

    // Absence case: key does not exist.
    let missing_result = parsed_args.get_value_as("missing", |s: &str| s.parse::<i32>());
    // We expect None
    assert!(missing_result.is_none());
}
