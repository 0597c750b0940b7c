use codecrafters_interpreter::commands::{tokenize, ExitValue};

#[test]
fn test_multiline_comments() {
    let source = [
        "(1 + 2) /* outer /* inner */ still outer */ * 3\n",
        "\"string\" /* another\n",
        "multi\n",
        "line */ identifier\n",
    ]
    .concat();

    let out = tokenize(&source);
    assert!(out.exit == ExitValue::Success, "tokenize failed; stderr:\n{}", out.stderr);

    let expected = [
        "LEFT_PAREN ( null\n",
        "NUMBER 1 1.0\n",
        "PLUS + null\n",
        "NUMBER 2 2.0\n",
        "RIGHT_PAREN ) null\n",
        "STAR * null\n",
        "NUMBER 3 3.0\n",
        "STRING \"string\" string\n",
        "IDENTIFIER identifier null\n",
        "EOF  null\n",
    ]
    .concat();

    assert_eq!(out.stdout, expected);
}
