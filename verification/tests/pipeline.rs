use ego::errors::EgoError;
use ego::interpreter::{run, Interpreter};
use ego::lexer::lex;
use ego::parser::parse;
use ego::scopes::ScopesStack;

fn run_src(src: &str) -> Result<Vec<String>, EgoError> {
    run(String::from(src))
}

#[test]
fn string_declaration_prints() {
    let out = run_src("let x = \"hi\"; print(x);").unwrap();
    assert_eq!(out, vec!["hi".to_string()]);
}

#[test]
fn if_true_prints_body() {
    let out = run_src("if (true) { print(\"yes\"); }").unwrap();
    assert_eq!(out, vec!["yes".to_string()]);
}

#[test]
fn if_false_prints_nothing() {
    let out = run_src("if (false) { print(\"yes\"); }").unwrap();
    assert!(out.is_empty());
}

#[test]
fn undeclared_identifier_fails() {
    let err = run_src("print(undeclared);").unwrap_err();
    match err {
        EgoError::UndefinedIdentifier(name) => assert_eq!(name, "undeclared"),
        other => panic!("wrong error: {:?}", other),
    }
}

#[test]
fn undeclared_identifier_produces_no_output() {
    let tokens = lex(String::from("print(undeclared);"));
    let ast = parse(tokens).unwrap();
    let mut interp = Interpreter::new(ScopesStack::new(), ast);
    let r = interp.exec();
    assert!(r.is_err());
    assert!(interp.output.is_empty());
}

#[test]
fn division_by_zero_fails() {
    let err = run_src("print(10 / 0);").unwrap_err();
    assert!(matches!(err, EgoError::DivisionByZero));
}

#[test]
fn division_evaluates() {
    let out = run_src("print(10 / 2);").unwrap();
    assert_eq!(out, vec!["5".to_string()]);
}

#[test]
fn print_lines_in_source_order() {
    let out = run_src("print(1); print(2); print(3);").unwrap();
    assert_eq!(
        out,
        vec!["1".to_string(), "2".to_string(), "3".to_string()]
    );
}

#[test]
fn inner_binding_unreachable_after_block() {
    let tokens = lex(String::from(
        "let x = 1; { let y = 2; print(y); } print(y);",
    ));
    let ast = parse(tokens).unwrap();
    let mut interp = Interpreter::new(ScopesStack::new(), ast);
    let r = interp.exec();
    match r.unwrap_err() {
        EgoError::UndefinedIdentifier(name) => assert_eq!(name, "y"),
        other => panic!("wrong error: {:?}", other),
    }
    assert_eq!(interp.output, vec!["2".to_string()]);
}

#[test]
fn outer_binding_reachable_in_nested_block() {
    let out = run_src("let x = 1; { { print(x); } }").unwrap();
    assert_eq!(out, vec!["1".to_string()]);
}

#[test]
fn shadowing_does_not_alter_outer_binding() {
    let out = run_src("let x = 1; { let x = 2; print(x); } print(x);").unwrap();
    assert_eq!(out, vec!["2".to_string(), "1".to_string()]);
}

#[test]
fn redeclaration_in_same_frame_overwrites() {
    let out = run_src("let x = 1; let x = 2; print(x);").unwrap();
    assert_eq!(out, vec!["2".to_string()]);
}

#[test]
fn precedence_multiplicative_over_additive() {
    let out = run_src("print(1 + 2 * 3);").unwrap();
    assert_eq!(out, vec!["7".to_string()]);
}

#[test]
fn parentheses_override_precedence() {
    let out = run_src("print(( 1 + 2 ) * 3);").unwrap();
    assert_eq!(out, vec!["9".to_string()]);
}

#[test]
fn left_associativity_of_subtraction() {
    let out = run_src("print(10 - 3 - 2);").unwrap();
    assert_eq!(out, vec!["5".to_string()]);
}

#[test]
fn relational_and_equality_operators() {
    let out = run_src("print(1 < 2); print(2 <= 1); print(3 == 3); print(3 != 3);").unwrap();
    assert_eq!(
        out,
        vec![
            "true".to_string(),
            "false".to_string(),
            "true".to_string(),
            "false".to_string()
        ]
    );
}

#[test]
fn cross_kind_equality_is_false() {
    let out = run_src("print(1 == \"1\"); print(true != 1);").unwrap();
    assert_eq!(out, vec!["false".to_string(), "true".to_string()]);
}

#[test]
fn logical_or_short_circuits() {
    let out = run_src("print(true || undeclared);").unwrap();
    assert_eq!(out, vec!["true".to_string()]);
}

#[test]
fn logical_and_short_circuits() {
    let out = run_src("print(false && undeclared);").unwrap();
    assert_eq!(out, vec!["false".to_string()]);
}

#[test]
fn non_boolean_condition_is_type_error() {
    let err = run_src("if (1) { print(\"no\"); }").unwrap_err();
    assert!(matches!(err, EgoError::TypeError(_)));
}

#[test]
fn arithmetic_on_strings_is_type_error() {
    let err = run_src("print(\"a\" + 1);").unwrap_err();
    assert!(matches!(err, EgoError::TypeError(_)));
}

#[test]
fn unknown_function_fails() {
    let err = run_src("foo(1);").unwrap_err();
    match err {
        EgoError::UndefinedFunction(name) => assert_eq!(name, "foo"),
        other => panic!("wrong error: {:?}", other),
    }
}

#[test]
fn print_joins_arguments_with_spaces() {
    let out = run_src("print(\"a\", 1, true);").unwrap();
    assert_eq!(out, vec!["a 1 true".to_string()]);
}

#[test]
fn negative_number_renders_with_sign() {
    let out = run_src("print(0 - 5);").unwrap();
    assert_eq!(out, vec!["-5".to_string()]);
}

#[test]
fn missing_semicolon_is_syntax_error() {
    let err = run_src("let x = 1").unwrap_err();
    assert!(matches!(err, EgoError::SyntaxError(_)));
}

#[test]
fn unterminated_string_is_lexical_error() {
    let err = run_src("print(\"oops);").unwrap_err();
    assert!(matches!(err, EgoError::LexicalError(_)));
}

#[test]
fn comment_lines_are_ignored() {
    let out = run_src("// a comment\nprint(1); // trailing\nprint(2);").unwrap();
    assert_eq!(out, vec!["1".to_string(), "2".to_string()]);
}

#[test]
fn error_message_names_kind_and_culprit() {
    let err = run_src("print(undeclared);").unwrap_err();
    assert_eq!(err.message(), "UndefinedIdentifier: undeclared");
    let err = run_src("print(1 / 0);").unwrap_err();
    assert_eq!(err.message(), "DivisionByZero");
}

#[test]
fn no_execution_after_fatal_error() {
    let tokens = lex(String::from("print(1); print(no); print(2);"));
    let ast = parse(tokens).unwrap();
    let mut interp = Interpreter::new(ScopesStack::new(), ast);
    assert!(interp.exec().is_err());
    assert_eq!(interp.output, vec!["1".to_string()]);
}

#[test]
fn nothing_runs_when_parse_fails() {
    let err = run_src("print(1); let = 2;").unwrap_err();
    assert!(matches!(err, EgoError::SyntaxError(_)));
}

#[test]
fn number_too_large_is_syntax_error() {
    let err = run_src("print(99999999999999999999);").unwrap_err();
    assert!(matches!(err, EgoError::SyntaxError(_)));
    let out = run_src("print(9223372036854775807);").unwrap();
    assert_eq!(out, vec!["9223372036854775807".to_string()]);
}

#[test]
fn addition_wraps_at_the_numeric_limit() {
    let out = run_src("print(9223372036854775807 + 1);").unwrap();
    assert_eq!(out, vec!["-9223372036854775808".to_string()]);
}

#[test]
fn lexical_error_message_names_the_run() {
    let err = run_src("print(\"oops);").unwrap_err();
    assert_eq!(err.message(), "LexicalError: \"oops);");
}
