use grab::error::CliError;
use grab::error::ParseIntErrorKind;
use grab::flag::Flags;
use grab::utils::colorize_pattern;
use grab::utils::compile_regex;
use grab::utils::parse_context_number;
use grab::utils::Colors;

#[test]
fn new_flags_have_every_switch_off() {
    let flags = Flags::new();
    assert!(!flags.count);
    assert!(!flags.line_number);
    assert!(!flags.colorize);
    assert!(!flags.ignore_case);
    assert!(!flags.invert_match);
    assert!(!flags.after_context);
    assert!(!flags.before_context);
    assert!(!flags.context);
}

#[test]
fn colorize_pattern_wraps_in_red() {
    assert_eq!(colorize_pattern("needle"), "\u{1b}[31mneedle\u{1b}[0m");
}

#[test]
fn colors_pick_their_own_escapes() {
    assert_eq!(
        Colors::colorize_pattern(Colors::Red, "r"),
        "\u{1b}[31mr\u{1b}[0m"
    );
    assert_eq!(
        Colors::colorize_pattern(Colors::Green, "g"),
        "\u{1b}[32mg\u{1b}[0m"
    );
    assert_eq!(
        Colors::colorize_pattern(Colors::Blue, "b"),
        "\u{1b}[34mb\u{1b}[0m"
    );
}

#[test]
fn parse_accepts_plain_digits() {
    assert!(matches!(parse_context_number("12"), Ok(12)));
    assert!(matches!(parse_context_number("0"), Ok(0)));
    assert!(matches!(parse_context_number("+7"), Ok(7)));
}

#[test]
fn parse_rejects_an_empty_string() {
    assert!(matches!(
        parse_context_number(""),
        Err(CliError::Parse(ParseIntErrorKind::Empty))
    ));
}

#[test]
fn parse_rejects_non_digits() {
    assert!(matches!(
        parse_context_number("12a"),
        Err(CliError::Parse(ParseIntErrorKind::InvalidDigit))
    ));
    assert!(matches!(
        parse_context_number("-1"),
        Err(CliError::Parse(ParseIntErrorKind::InvalidDigit))
    ));
    assert!(matches!(
        parse_context_number("+"),
        Err(CliError::Parse(ParseIntErrorKind::InvalidDigit))
    ));
}

#[test]
fn parse_rejects_a_value_that_leaves_usize() {
    assert!(matches!(
        parse_context_number("99999999999999999999999999"),
        Err(CliError::Parse(ParseIntErrorKind::PosOverflow))
    ));
}

#[test]
fn parse_agrees_with_the_standard_library() {
    for s in ["", "0", "5", "+5", "007", "18446744073709551615", "18446744073709551616", "4x", "x4", "+", "-3", " 3", "3 "] {
        let ours = parse_context_number(s);
        let std_result = s.parse::<usize>();
        match (ours, std_result) {
            (Ok(a), Ok(b)) => assert_eq!(a, b),
            (Err(CliError::Parse(_)), Err(_)) => {}
            _ => panic!("disagreement on a parse input"),
        }
    }
}

#[test]
fn compile_rejects_a_malformed_pattern() {
    assert!(matches!(
        compile_regex("[", false),
        Err(CliError::Regex(_))
    ));
}

#[test]
fn compile_accepts_case_insensitive_patterns() {
    let m = match compile_regex("abc", true) {
        Ok(m) => m,
        Err(_) => panic!("pattern should compile"),
    };
    let lines = vec!["xxABCxx".to_string()];
    let n = grab::process::count_matches(&m, &lines);
    assert_eq!(n, 1);
}

#[test]
fn line_numbers_render_in_decimal() {
    let m = match compile_regex("q", false) {
        Ok(m) => m,
        Err(_) => panic!("pattern should compile"),
    };
    let mut lines: Vec<String> = Vec::new();
    for _ in 0..99 {
        lines.push("z".to_string());
    }
    lines.push("q".to_string());
    let flags = Flags {
        count: false,
        line_number: true,
        colorize: false,
        ignore_case: false,
        invert_match: false,
        after_context: false,
        before_context: false,
        context: false,
    };
    let out = grab::process::print_matches(&m, &lines, &flags);
    assert_eq!(out, vec!["\u{1b}[32m100\u{1b}[0m: q".to_string()]);
}
