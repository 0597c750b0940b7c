use codecrafters_interpreter::commands::{evaluate, run, ExitValue};

fn assert_evaluate_success(source: &str, expected_stdout: &str) {
    let out = evaluate(source);
    assert!(out.exit == ExitValue::Success, "evaluate failed; stderr:\n{}", out.stderr);
    assert_eq!(out.stdout, expected_stdout);
}

fn assert_run_success(source: &str, expected_stdout: &str) {
    let out = run(source);
    assert!(out.exit == ExitValue::Success, "run failed; stderr:\n{}", out.stderr);
    assert_eq!(out.stdout, expected_stdout);
}

fn assert_run_runtime_error(source: &str, expected_stderr_substring: &str) {
    let out = run(source);
    assert_eq!(out.exit.code(), 70);
    assert!(
        out.stderr.contains(expected_stderr_substring),
        "expected stderr to contain {:?}, got:\n{}",
        expected_stderr_substring,
        out.stderr
    );
}

#[test]
fn test_comma_evaluates_left_discards_it_and_returns_right() {
    assert_evaluate_success("1 + 2, 40 + 2", "42\n");

    let out = evaluate("undefined, 42");
    assert_eq!(out.exit.code(), 70);
}

#[test]
fn test_string_greater_than_true() {
    assert_evaluate_success(r#""banana" > "apple""#, "true\n");
}

#[test]
fn test_string_greater_than_false() {
    assert_evaluate_success(r#""apple" > "banana""#, "false\n");
}

#[test]
fn test_string_less_than_true() {
    assert_evaluate_success(r#""apple" < "banana""#, "true\n");
}

#[test]
fn test_string_less_than_false() {
    assert_evaluate_success(r#""banana" < "apple""#, "false\n");
}

#[test]
fn test_string_greater_equal_true_for_equal_strings() {
    assert_evaluate_success(r#""apple" >= "apple""#, "true\n");
}

#[test]
fn test_string_greater_equal_false() {
    assert_evaluate_success(r#""apple" >= "banana""#, "false\n");
}

#[test]
fn test_string_less_equal_true_for_equal_strings() {
    assert_evaluate_success(r#""apple" <= "apple""#, "true\n");
}

#[test]
fn test_string_less_equal_false() {
    assert_evaluate_success(r#""banana" <= "apple""#, "false\n");
}

#[test]
fn test_string_comparison_is_lexicographic_not_length_based() {
    assert_evaluate_success(r#""z" < "aa""#, "false\n");
}

#[test]
fn test_string_comparison_prefix_is_less_than_extended_string() {
    assert_evaluate_success(r#""app" < "apple""#, "true\n");
}

#[test]
fn test_concat_string_left_number_right() {
    assert_evaluate_success(r#""value: " + 1"#, "value: 1\n");
}

#[test]
fn test_concat_number_left_string_right() {
    assert_evaluate_success(r#"1 + " item""#, "1 item\n");
}

#[test]
fn test_concat_string_left_decimal_number_right() {
    assert_evaluate_success(r#""pi is " + 3.14"#, "pi is 3.14\n");
}

#[test]
fn test_concat_decimal_number_left_string_right() {
    assert_evaluate_success(r#"3.14 + " is pi""#, "3.14 is pi\n");
}

#[test]
fn evaluate_test_uninitialized_variable_is_runtime_error() {
    assert_run_runtime_error("var x; print x;", "Uninitialized variable");
}

#[test]
fn evaluate_test_initialized_variable_returns_its_value() {
    assert_run_success("var x = 42; print x;", "42\n");
}

#[test]
fn evaluate_test_explicit_nil_initializer_is_also_uninitialized() {
    assert_run_runtime_error("var x = nil; print x;", "Uninitialized variable");
}

#[test]
fn evaluate_test_never_declared_variable_is_undefined_not_uninitialized() {
    assert_run_runtime_error("x;", "Undefined variable");
}
