use codecrafters_interpreter::clock::seconds_since_epoch;
use codecrafters_interpreter::commands::{evaluate, run, tokenize, ExitValue};

fn expect_output(source: &str, expected_stdout: &str) {
    let out = run(source);
    assert!(out.exit == ExitValue::Success, "run failed; stderr:\n{}", out.stderr);
    assert_eq!(out.stdout, expected_stdout);
    assert_eq!(out.stderr, "");
}

fn expect_runtime_error(source: &str, expected_stdout: &str, expected_stderr: &str) {
    let out = run(source);
    assert!(out.exit == ExitValue::RuntimeError, "expected a runtime error; stdout:\n{}", out.stdout);
    assert_eq!(out.exit.code(), 70);
    assert_eq!(out.stdout, expected_stdout);
    assert_eq!(out.stderr, expected_stderr);
}

fn expect_static_error(source: &str, expected_stderr: &str) {
    let out = run(source);
    assert_eq!(out.exit.code(), 65);
    assert_eq!(out.stdout, "");
    assert_eq!(out.stderr, expected_stderr);
}

#[test]
fn program_class_initializer_sets_fields() {
    expect_output(
        "class Point { init(x, y) { this.x = x; this.y = y; } sum() { return this.x + this.y; } }\n\
         var p = Point(1, 2);\n\
         print p.sum();",
        "3\n",
    );
}

#[test]
fn program_super_calls_the_parent_method() {
    expect_output(
        "class A { greet() { return \"A\"; } }\n\
         class B < A { greet() { return \"B\" + super.greet(); } }\n\
         print B().greet();",
        "BA\n",
    );
}

#[test]
fn program_closure_keeps_its_variable() {
    expect_output(
        "fun makeCounter() { var i = 0; fun count() { i = i + 1; return i; } return count; }\n\
         var c = makeCounter();\n\
         print c();\n\
         print c();",
        "1\n2\n",
    );
}

#[test]
fn program_recursion() {
    expect_output(
        "fun fib(n) { if (n < 2) return n; return fib(n - 1) + fib(n - 2); }\nprint fib(10);",
        "55\n",
    );
}

#[test]
fn program_while_and_for_loops() {
    expect_output("var i = 0; while (i < 3) { print i; i = i + 1; }", "0\n1\n2\n");
    expect_output("for (var j = 0; j < 3; j = j + 1) print j;", "0\n1\n2\n");
}

#[test]
fn program_return_leaves_the_function_early() {
    expect_output(
        "fun first(a, b) { if (a) return \"a\"; return b; }\nprint first(true, \"b\");\nprint first(false, \"b\");",
        "a\nb\n",
    );
}

#[test]
fn program_bound_method_keeps_this() {
    expect_output(
        "class C { init() { this.v = 7; } get() { return this.v; } }\nvar g = C().get;\nprint g();",
        "7\n",
    );
}

#[test]
fn program_prints_callables_by_name() {
    expect_output(
        "fun f() {} class C {}\nprint f;\nprint C;\nprint C();\nprint clock;",
        "<fn f>\nC\nC instance\n<native fn>\n",
    );
}

#[test]
fn program_clock_gives_seconds_since_the_epoch() {
    expect_output("print clock() > 1000000000;", "true\n");
}

#[test]
fn program_logical_operators_short_circuit() {
    expect_output("print nil or \"yes\";\nprint false and 1;\nprint 1 and 2;", "yes\nfalse\n2\n");
}

#[test]
fn program_equality() {
    expect_output("print \"a\" == \"a\";\nprint \"a\" == \"b\";\nprint nil == false;\nprint 1 == 1;", "true\nfalse\nfalse\ntrue\n");
}

#[test]
fn program_runtime_error_keeps_earlier_output() {
    expect_runtime_error("print \"before\";\nprint -\"x\";\nprint \"after\";", "before\n", "Operand must be a number.\n[line 2]\n");
}

#[test]
fn program_operands_must_be_numbers() {
    expect_runtime_error("print 1 - \"a\";", "", "Operands must be numbers.\n[line 1]\n");
}

#[test]
fn program_only_functions_and_classes_are_called() {
    expect_runtime_error("\"a\"();", "", "Can only call functions and classes.\n[line 1]\n");
}

#[test]
fn program_wrong_number_of_arguments() {
    expect_runtime_error("fun f(a, b) { print a + b; }\nf(1);", "", "Expected 2 arguments but got 1.\n[line 2]\n");
}

#[test]
fn program_only_instances_have_properties() {
    expect_runtime_error("var x = 1;\nprint x.y;", "", "Only instances have properties.\n[line 2]\n");
}

#[test]
fn program_only_instances_have_fields() {
    expect_runtime_error("var x = 1;\nx.y = 2;", "", "Only instances have fields.\n[line 2]\n");
}

#[test]
fn program_undefined_property() {
    expect_runtime_error("class C {}\nprint C().nope;", "", "Undefined property 'nope'.\n[line 2]\n");
}

#[test]
fn program_superclass_must_be_a_class() {
    expect_runtime_error("var NotClass = 1;\nclass B < NotClass {}\nprint B;", "", "Superclass must be a class.\n[line 2]\n");
}

#[test]
fn program_return_at_top_level_is_refused() {
    expect_static_error("return 1;", "Can't return from top-level code.\n[line 1]\n");
}

#[test]
fn program_read_in_own_initializer_is_refused() {
    expect_static_error(
        "{ var a = 1; { var a = a; print a; } print a; }",
        "Can't read local variable in its own initializer.\n[line 1]\n",
    );
}

#[test]
fn program_lexical_error_prints_nothing() {
    let out = run("print 1; @");
    assert_eq!(out.exit.code(), 65);
    assert_eq!(out.stdout, "");
}

#[test]
fn evaluate_conditional_and_arithmetic() {
    let out = evaluate("true ? 10 / 4 : 0");
    assert!(out.exit == ExitValue::Success);
    assert_eq!(out.stdout, "2.5\n");
    let out = evaluate("\"a\" + \"b\"");
    assert_eq!(out.stdout, "ab\n");
}

#[test]
fn evaluate_runtime_error_status() {
    let out = evaluate("-\"a\"");
    assert_eq!(out.exit.code(), 70);
    assert_eq!(out.stdout, "");
}

#[test]
fn tokenize_reports_unexpected_character() {
    let out = tokenize("@");
    assert_eq!(out.exit.code(), 65);
    assert_eq!(out.stdout, "EOF  null\n");
    assert_eq!(out.stderr, "[line 1] Error: Unexpected character: @\n");
}

#[test]
fn evaluate_equality_has_no_coercion() {
    for (source, expected) in [
        ("nil == nil", "true\n"),
        ("nil == false", "false\n"),
        ("1 == \"1\"", "false\n"),
        ("\"a\" == \"a\"", "true\n"),
        ("1 != 2", "true\n"),
        ("nil != nil", "false\n"),
    ] {
        let out = evaluate(source);
        assert!(out.exit == ExitValue::Success, "{source}");
        assert_eq!(out.stdout, expected, "{source}");
    }
}

#[test]
fn evaluate_negation_and_order() {
    for (source, expected) in [
        ("-(1)", "-1\n"),
        ("-(-2.5)", "2.5\n"),
        ("2 < 10", "true\n"),
        ("-1 < 1", "true\n"),
        ("-3 < -2", "true\n"),
        ("0 == -0", "true\n"),
        ("1 >= 1", "true\n"),
        ("0 / 0 == 0 / 0", "false\n"),
    ] {
        let out = evaluate(source);
        assert!(out.exit == ExitValue::Success, "{source}");
        assert_eq!(out.stdout, expected, "{source}");
    }
}

#[test]
fn clock_reading_to_seconds() {
    assert_eq!(seconds_since_epoch(1, 500_000_000).to_display_text(), "1.5");
    assert_eq!(seconds_since_epoch(12, 0).to_display_text(), "12");
}
