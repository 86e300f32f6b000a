use minigrep::config::Config;
use minigrep::config::ParseError;

fn args(list: &[&str]) -> Vec<String> {
    list.iter().map(|s| s.to_string()).collect()
}

#[test]
fn fewer_than_three_arguments_is_insufficient() {
    for raw in [vec![], vec!["prog"], vec!["prog", "query"]] {
        let v = args(&raw);
        match Config::new(&v, false) {
            Err(ParseError::InsufficientArguments) => {}
            _ => panic!("expected InsufficientArguments for {:?} arguments", raw.len()),
        }
    }
}

#[test]
fn three_arguments_build_a_config() {
    let v = args(&["prog", "needle", "notes.txt"]);
    match Config::new(&v, false) {
        Ok(config) => {
            assert_eq!(config.query, "needle");
            assert_eq!(config.filename, "notes.txt");
            assert!(config.case_sensitive);
        }
        Err(_) => panic!("expected a configuration"),
    }
}

#[test]
fn option_i_forces_case_insensitive() {
    let v = args(&["prog", "q", "f", "-i"]);
    match Config::new(&v, false) {
        Ok(config) => assert!(!config.case_sensitive),
        Err(_) => panic!("expected a configuration"),
    }
}

#[test]
fn environment_flips_the_default() {
    let v = args(&["prog", "q", "f"]);
    match Config::new(&v, true) {
        Ok(config) => assert!(!config.case_sensitive),
        Err(_) => panic!("expected a configuration"),
    }
}

#[test]
fn option_i_with_environment_set_stays_insensitive() {
    let v = args(&["prog", "q", "f", "-i"]);
    match Config::new(&v, true) {
        Ok(config) => assert!(!config.case_sensitive),
        Err(_) => panic!("expected a configuration"),
    }
}

#[test]
fn repeated_option_letters_are_accepted() {
    let v = args(&["prog", "q", "f", "-ii", "-i"]);
    match Config::new(&v, false) {
        Ok(config) => assert!(!config.case_sensitive),
        Err(_) => panic!("expected a configuration"),
    }
}

#[test]
fn unknown_option_letter_is_unsupported() {
    let v = args(&["prog", "q", "f", "-x"]);
    match Config::new(&v, false) {
        Err(ParseError::UnsupportedOption(op)) => assert_eq!(op, "x"),
        _ => panic!("expected UnsupportedOption"),
    }
}

#[test]
fn first_unknown_letter_is_reported() {
    let v = args(&["prog", "q", "f", "-ixy"]);
    match Config::new(&v, false) {
        Err(ParseError::UnsupportedOption(op)) => assert_eq!(op, "x"),
        _ => panic!("expected UnsupportedOption"),
    }
}

#[test]
fn bare_dash_is_an_empty_unsupported_option() {
    let v = args(&["prog", "q", "f", "-"]);
    match Config::new(&v, false) {
        Err(ParseError::UnsupportedOption(op)) => assert_eq!(op, ""),
        _ => panic!("expected UnsupportedOption"),
    }
}

#[test]
fn non_option_trailing_argument_is_unexpected() {
    let v = args(&["prog", "q", "f", "extra"]);
    match Config::new(&v, false) {
        Err(ParseError::UnexpectedArgument(t)) => assert_eq!(t, "extra"),
        _ => panic!("expected UnexpectedArgument"),
    }
}

#[test]
fn empty_trailing_argument_is_unexpected() {
    let v = args(&["prog", "q", "f", ""]);
    match Config::new(&v, false) {
        Err(ParseError::UnexpectedArgument(t)) => assert_eq!(t, ""),
        _ => panic!("expected UnexpectedArgument"),
    }
}

#[test]
fn first_offending_argument_wins() {
    let v = args(&["prog", "q", "f", "stray", "-x"]);
    match Config::new(&v, false) {
        Err(ParseError::UnexpectedArgument(t)) => assert_eq!(t, "stray"),
        _ => panic!("expected UnexpectedArgument"),
    }
}

#[test]
fn options_after_a_good_option_are_still_checked() {
    let v = args(&["prog", "q", "f", "-i", "-x"]);
    match Config::new(&v, false) {
        Err(ParseError::UnsupportedOption(op)) => assert_eq!(op, "x"),
        _ => panic!("expected UnsupportedOption"),
    }
}

#[test]
fn insufficient_arguments_message_format() {
    let e = ParseError::InsufficientArguments;
    assert_eq!(
        e.message("prog"),
        "prog: Unsufficient arguments\nUsage: prog <query> <file> [-i]"
    );
}

#[test]
fn unsupported_option_message_format() {
    let e = ParseError::UnsupportedOption("x".to_string());
    assert_eq!(
        e.message("prog"),
        "prog: Unsupported option `x`\nUsage: prog <query> <file> [-i]"
    );
}

#[test]
fn unexpected_argument_message_format() {
    let e = ParseError::UnexpectedArgument("extra".to_string());
    assert_eq!(
        e.message("prog"),
        "prog: Unexpected argument extra\nUsage: prog <query> <file> [-i]"
    );
}
