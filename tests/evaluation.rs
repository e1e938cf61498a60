use slang::{evaluate_source, Runtime};

fn eval(src: &str) -> Result<String, String> {
    let mut rt = Runtime::new();
    evaluate_source(&mut rt, &src.to_string()).map(|e| e.to_text())
}

fn eval_in(rt: &mut Runtime, src: &str) -> Result<String, String> {
    evaluate_source(rt, &src.to_string()).map(|e| e.to_text())
}

#[test]
fn literals_evaluate_to_themselves() {
    assert_eq!(eval("5").unwrap(), "5");
    assert_eq!(eval("-2.5e3").unwrap(), "-2500");
    assert_eq!(eval("\"hi there\"").unwrap(), "'hi there'");
    assert_eq!(eval("nil").unwrap(), "Φ");
    assert_eq!(eval("Φ").unwrap(), "Φ");
    assert_eq!(eval("").unwrap(), "Φ");
}

#[test]
fn def_scopes_its_body() {
    assert_eq!(eval("(δ x 1 x)").unwrap(), "1");
    assert_eq!(eval("(def x 1 x)").unwrap(), "1");
}

#[test]
fn def_binding_is_released_after_body() {
    let mut rt = Runtime::new();
    assert_eq!(eval_in(&mut rt, "(δ x 1 x)").unwrap(), "1");
    let err = eval_in(&mut rt, "x").unwrap_err();
    assert!(err.contains("Variable 'x' is not defined"), "{}", err);
}

#[test]
fn lambda_literal_guard() {
    assert_eq!(eval("(λ 5 \"ok\" 5)").unwrap(), "'ok'");
    let err = eval("(λ 5 \"ok\" 6)").unwrap_err();
    assert!(err.contains("'5'") && err.contains("'6'"), "{}", err);
    assert!(err.contains("expected"), "{}", err);
}

#[test]
fn def_arity_error() {
    let err = eval("(δ x 1)").unwrap_err();
    assert!(err.contains("3 arguments expected"), "{}", err);
    assert!(err.contains("2 provided"), "{}", err);
}

#[test]
fn lambda_arity_error() {
    let err = eval("(λ x)").unwrap_err();
    assert!(err.contains("2 or more arguments expected"), "{}", err);
}

#[test]
fn ignore_placeholder_skips_first_operand() {
    // foo is never defined: touching it would fail.
    assert_eq!(eval("(δ baz 7 (δ bar (λ v v) (_ foo bar baz)))").unwrap(), "7");
}

#[test]
fn ignore_with_few_operands() {
    assert_eq!(eval("(_)").unwrap(), "_");
    assert_eq!(eval("(_ a)").unwrap(), "Φ");
    assert_eq!(eval("(_ a b)").unwrap(), "Φ");
}

#[test]
fn curried_def_binding_persists_in_enclosing_scope() {
    let mut rt = Runtime::new();
    // A curried definition at top level keeps its binding.
    assert_eq!(eval_in(&mut rt, "(δ y (λ v v) ι 0)").unwrap(), "0");
    assert_eq!(eval_in(&mut rt, "(y 4)").unwrap(), "4");
    // The inner curried x overwrites the outer one in the same scope, and
    // stays after the failing call.
    let err = eval_in(&mut rt, "(δ x 1 y (δ x 2 y z))").unwrap_err();
    assert!(err.contains("Variable 'z' is not defined"), "{}", err);
    assert_eq!(eval_in(&mut rt, "x").unwrap(), "2");
}

#[test]
fn curried_def_on_empty_runtime_keeps_outer_binding() {
    let mut rt = Runtime::new();
    let err = eval_in(&mut rt, "(δ x 1 y (δ x 2 y z))").unwrap_err();
    assert!(err.contains("Variable 'y' is not defined"), "{}", err);
    assert_eq!(eval_in(&mut rt, "x").unwrap(), "1");
}

#[test]
fn lambda_application_and_currying() {
    assert_eq!(eval("(λ x x 3)").unwrap(), "3");
    assert_eq!(eval("(λ x (λ y x) 1 2)").unwrap(), "1");
    assert_eq!(eval("((λ x (λ y y)) 1 2)").unwrap(), "2");
    assert_eq!(eval("(λ _ 9 1)").unwrap(), "9");
    assert_eq!(eval("(λ x x)").unwrap(), "(λ x x)");
}

#[test]
fn identity_form() {
    assert_eq!(eval("(ι)").unwrap(), "(ι)");
    assert_eq!(eval("(ι 4)").unwrap(), "4");
    assert_eq!(eval("(ι (λ x x) 8)").unwrap(), "8");
    assert_eq!(eval("(5)").unwrap(), "5");
    assert!(eval("(1 2)").unwrap_err().contains("cannot evaluate '(1 2)'"));
}

#[test]
fn nil_form() {
    assert_eq!(eval("(Ω 1 2)").unwrap(), "Φ");
    assert_eq!(eval("(nih)").unwrap(), "Φ");
}

#[test]
fn reserved_forms_are_not_implemented() {
    assert!(eval("(-> a b)").unwrap_err().contains("not implemented"));
    assert!(eval("(ε a b)").unwrap_err().contains("not implemented"));
}

#[test]
fn invalid_forms() {
    assert!(eval("(δ 1 2 3)").unwrap_err().contains("invalid variable name '1'"));
    assert!(eval("(λ (a) 2 3)").unwrap_err().contains("Invalid lambda (λ) argument"));
    assert!(eval("λ").unwrap_err().contains("cannot evaluate"));
}

#[test]
fn deep_recursion_gives_up() {
    let err = eval("(δ w (λ f (f f)) (w w))").unwrap_err();
    assert!(err.contains("too deeply"), "{}", err);
}

#[test]
fn numbers_compare_by_value() {
    assert_eq!(eval("(λ 5 \"ok\" 5.0)").unwrap(), "'ok'");
    assert_eq!(eval("(λ 0.5e1 \"ok\" 5)").unwrap(), "'ok'");
    assert_eq!(eval("(λ 1 \"ok\" 10e-1)").unwrap(), "'ok'");
    assert_eq!(eval("(λ 0 \"ok\" -0.0)").unwrap(), "'ok'");
    assert_eq!(eval("(λ inf \"ok\" +Infinity)").unwrap(), "'ok'");
    assert_eq!(eval("(λ 007 \"ok\" 7)").unwrap(), "'ok'");
    assert!(eval("(λ nan \"ok\" nan)").is_err());
    assert!(eval("(λ 5 \"ok\" -5)").is_err());
    assert!(eval("(λ 5 \"ok\" \"5\")").is_err());
    assert!(eval("(λ inf \"ok\" -inf)").is_err());
}

#[test]
fn numbers_with_long_exponents_compare_by_numeral() {
    assert_eq!(eval("(λ 1e1234567890123456 \"ok\" 1e1234567890123456)").unwrap(), "'ok'");
    assert!(eval("(λ 1e1234567890123456 \"ok\" 10e1234567890123455)").is_err());
}

#[test]
fn texts_and_nil_compare_by_value() {
    assert_eq!(eval("(λ \"a\" 1 \"a\")").unwrap(), "1");
    assert!(eval("(λ \"a\" 1 \"b\")").is_err());
    assert_eq!(eval("(λ nil 1 Φ)").unwrap(), "1");
}

#[test]
fn numbers_are_written_back_by_value() {
    assert_eq!(eval("5.0").unwrap(), "5");
    assert_eq!(eval("1e3").unwrap(), "1000");
    assert_eq!(eval("0.050").unwrap(), "0.05");
    assert_eq!(eval(".5").unwrap(), "0.5");
    assert_eq!(eval("123.456e1").unwrap(), "1234.56");
    assert_eq!(eval("1e-3").unwrap(), "0.001");
    assert_eq!(eval("+7").unwrap(), "7");
    assert_eq!(eval("-0").unwrap(), "-0");
    assert_eq!(eval("0.0").unwrap(), "0");
    assert_eq!(eval("nan").unwrap(), "NaN");
    assert_eq!(eval("-Infinity").unwrap(), "-inf");
    assert_eq!(eval("1e500").unwrap(), "1e500");
}
