use codecrafters_interpreter::commands::{parse, ExitValue};

fn assert_parse_success(source: &str, expected_stdout: &str) {
    let out = parse(source);
    assert!(out.exit == ExitValue::Success, "parse failed; stderr:\n{}", out.stderr);
    assert_eq!(out.stdout, expected_stdout);
}

fn assert_parse_syntax_error(source: &str) {
    let out = parse(source);
    assert_eq!(out.exit.code(), 65, "expected exit code 65 (syntax error); stderr:\n{}", out.stderr);
    assert_eq!(out.stdout, "");
    assert_eq!(out.stderr, "");
}

#[test]
fn test_comma_two_operands() {
    assert_parse_success("1, 2", "(, 1.0 2.0)\n");
}

#[test]
fn test_comma_is_left_associative() {
    assert_parse_success("1, 2, 3", "(, (, 1.0 2.0) 3.0)\n");
}

#[test]
fn test_comma_has_lower_precedence_than_equality() {
    assert_parse_success("1 == 1, 2 == 2", "(, (== 1.0 1.0) (== 2.0 2.0))\n");
}

#[test]
fn test_comma_trailing_operator_is_syntax_error() {
    assert_parse_syntax_error("1,");
}
