use argparse::Parser;

fn to_args(args: Vec<&str>) -> Vec<String> {
    args.into_iter().map(|s| s.to_string()).collect()
}

#[test]
fn test_long_flag() {
    let mut parser = Parser::new();
    parser
        .add_flag("verbose")
        .with_short_name('v')
        .with_help("increases the verbosity");
    let result = parser.parse(&to_args(vec!["program", "--verbose"])).unwrap();
    assert!(result.has_flag("verbose"));
}

#[test]
fn test_long_option() {
    let mut parser = Parser::new();
    parser
        .add_option("output")
        .with_short_name('o')
        .with_help("where the output should be stored");
    let result = parser
        .parse(&to_args(vec!["program", "--output", "file.txt"]))
        .unwrap();
    assert_eq!(result.option_value("output"), Some(&"file.txt".to_string()));
}

#[test]
fn test_short_combined_flags() {
    let mut parser = Parser::new();
    parser
        .add_flag("verbose")
        .with_short_name('v')
        .with_help("increased the verbosity");
    parser.add_flag("all").with_short_name('a').with_help("foobar");
    let result = parser.parse(&to_args(vec!["program", "-av"])).unwrap();
    assert!(result.has_flag("verbose"));
    assert!(result.has_flag("all"));
}

#[test]
fn test_short_option_with_value() {
    let mut parser = Parser::new();
    parser
        .add_option("output")
        .with_short_name('o')
        .with_help("foobaz");
    parser
        .add_flag("verbose")
        .with_short_name('v')
        .with_help("foobarbaz");
    let result = parser
        .parse(&to_args(vec!["program", "-vo", "file.txt"]))
        .unwrap();
    assert!(result.has_flag("verbose"));
    assert_eq!(result.option_value("output"), Some(&"file.txt".to_string()));
}

#[test]
fn test_positional_argument() {
    let mut parser = Parser::new();
    parser.add_positional("input_file").with_help("positional");
    let result = parser.parse(&to_args(vec!["program", "data.csv"])).unwrap();
    assert_eq!(result.positional, vec!["data.csv"]);
}

#[test]
fn test_mixed_arguments() {
    let mut parser = Parser::new();
    parser
        .add_flag("verbose")
        .with_short_name('v')
        .with_help("verbose city");
    parser
        .add_option("output")
        .with_short_name('o')
        .with_help("output city");
    parser.add_positional("input").with_help("positional city");
    let result = parser
        .parse(&to_args(vec![
            "program",
            "-v",
            "the_input.txt",
            "--output",
            "out.log",
        ]))
        .unwrap();
    assert!(result.has_flag("verbose"));
    assert_eq!(result.positional, vec!["the_input.txt"]);
    assert_eq!(result.option_value("output"), Some(&"out.log".to_string()));
}
