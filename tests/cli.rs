use rup::cli::{parse_port, Args, ArgsParser, ParseError, ParseResult, PortProblem, DEFAULT_PORT};

#[test]
fn test_p() {
    let args = vec!["rup".to_string(), "-p".to_string(), "1024".to_string()];
    let args = Args::parse(&args);
    assert_eq!(args.port, 1024);
}

#[test]
fn test_port() {
    let args = vec!["rup".to_string(), "--port".to_string(), "1024".to_string()];
    let args = Args::parse(&args);
    assert_eq!(args.port, 1024);
}

#[test]
fn test_version() {
    let args = vec!["--version".to_string(), "-p".to_string()];
    if let Ok(result) = ArgsParser::new(&args).parse() {
        assert_eq!(result, ParseResult::Version);
    } else {
        assert!(false);
    }
}

#[test]
fn test_help() {
    let args = vec!["--help".to_string(), "-p".to_string()];
    if let Ok(result) = ArgsParser::new(&args).parse() {
        assert_eq!(result, ParseResult::Help);
    } else {
        assert!(false);
    }
}

fn strings(v: &[&str]) -> Vec<String> {
    v.iter().map(|s| s.to_string()).collect()
}

#[test]
fn no_arguments_keep_the_default_port() {
    let args = strings(&["rup"]);
    assert_eq!(Args::parse(&args).port, DEFAULT_PORT);
    assert_eq!(DEFAULT_PORT, 3000);
}

#[test]
fn last_port_wins() {
    let args = strings(&["-p", "80", "--port", "+8080"]);
    let r = ArgsParser::new(&args).parse();
    assert!(matches!(r, Ok(ParseResult::Args(a)) if a.port == 8080));
}

#[test]
fn port_without_value_is_refused() {
    let args = strings(&["-p"]);
    assert!(matches!(ArgsParser::new(&args).parse(), Err(ParseError::MissingValue)));
    let args = strings(&["--port", "-V"]);
    assert!(matches!(ArgsParser::new(&args).parse(), Err(ParseError::MissingValue)));
}

#[test]
fn bad_port_value_is_refused() {
    let args = strings(&["-p", "70000"]);
    match ArgsParser::new(&args).parse() {
        Err(ParseError::InvalidValue { value, problem }) => {
            assert_eq!(value, "70000");
            assert_eq!(problem, PortProblem::TooLarge);
        }
        _ => panic!("expected an invalid value"),
    }
}

#[test]
fn unexpected_argument_is_refused() {
    let args = strings(&["--verbose"]);
    match ArgsParser::new(&args).parse() {
        Err(ParseError::Unexpected { arg }) => assert_eq!(arg, "--verbose"),
        _ => panic!("expected an unexpected argument"),
    }
}

#[test]
fn port_numbers() {
    assert_eq!(parse_port("0"), Ok(0));
    assert_eq!(parse_port("65535"), Ok(65535));
    assert_eq!(parse_port("+42"), Ok(42));
    assert_eq!(parse_port("007"), Ok(7));
    assert_eq!(parse_port(""), Err(PortProblem::Empty));
    assert_eq!(parse_port("+"), Err(PortProblem::InvalidDigit));
    assert_eq!(parse_port("12a"), Err(PortProblem::InvalidDigit));
    assert_eq!(parse_port("65536"), Err(PortProblem::TooLarge));
    assert_eq!(parse_port("99999x"), Err(PortProblem::TooLarge));
    assert_eq!(parse_port("9999x"), Err(PortProblem::InvalidDigit));
    // The parser of std agrees on each of these.
    for s in ["0", "65535", "+42", "007", "", "+", "12a", "65536", "99999x", "9999x"] {
        assert_eq!(parse_port(s).is_ok(), s.parse::<u16>().is_ok());
    }
}

#[test]
fn cursor_moves() {
    let args = strings(&["a", "b"]);
    let mut p = ArgsParser::new(&args);
    assert!(!p.is_at_end());
    assert_eq!(p.peek(), "a");
    assert_eq!(p.advance(), "a");
    assert_eq!(p.previous(), "a");
    assert_eq!(p.advance(), "b");
    assert!(p.is_at_end());
    assert_eq!(p.advance(), "b");
}
