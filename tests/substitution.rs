use slang::{parse_source, Expr, Runtime};

fn parse(src: &str) -> Expr {
    parse_source(&src.to_string()).unwrap()
}

fn replaced(src: &str, name: &str, value: &str) -> String {
    Runtime::new()
        .replace_free(&name.to_string(), &parse(value), parse(src))
        .to_text()
}

#[test]
fn replace_free_lambda() {
    assert_eq!(replaced("(x (λ x x) x)", "x", "1"), "(1 (λ x x) 1)");
    assert_eq!(
        replaced("(f (λ f (f x)) 5)", "f", "(λ _ 5)"),
        "((λ _ 5) (λ f (f x)) 5)"
    );
}

#[test]
fn replace_free_def() {
    assert_eq!(replaced("(x (δ x x) y x)", "x", "1"), "(1 (δ x x) y 1)");
    assert_eq!(replaced("(δ f (λ x y x))", "y", "ι"), "(δ f (λ x ι x))");
    assert_eq!(
        replaced(
            "(δ true (λ p (λ q p))
      (δ false (λ p (λ q q))
        true
      )
    )",
            "p",
            "42"
        ),
        "(δ true (λ p (λ q p)) (δ false (λ p (λ q q)) true))"
    );
}

#[test]
fn replace_free_total_shadow_is_unchanged() {
    let src = "(δ true (λ p (λ q p)) (δ false (λ p (λ q q)) true))";
    assert_eq!(replaced(src, "p", "42"), src);
}

#[test]
fn replace_free_bare_variable() {
    assert_eq!(replaced("x", "x", "\"v\""), "'v'");
    assert_eq!(replaced("y", "x", "1"), "y");
}

#[test]
fn replace_free_enters_identity_form() {
    assert_eq!(replaced("(ι x)", "x", "3"), "(ι 3)");
}

#[test]
fn replace_free_external_binder_shadows() {
    assert_eq!(replaced("(ε x x)", "x", "3"), "(ε x x)");
}
