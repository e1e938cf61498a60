use slang::{command, parse_source, Command, Lexem, Lexer, Literal};

fn show(src: &str) -> String {
    parse_source(&src.to_string()).unwrap().to_text()
}

#[test]
fn curry_flattening() {
    assert_eq!(show("((f a) b)"), show("(f a b)"));
    assert_eq!(show("((f a) b)"), "(f a b)");
    assert_eq!(show("(((f a) b) c)"), "(f a b c)");
    assert_eq!(show("((5 a) b)"), "(ι 5 a b)");
}

#[test]
fn implicit_identity_head() {
    assert_eq!(show("(1 2 3)"), "(ι 1 2 3)");
}

#[test]
fn syntax_errors() {
    assert!(parse_source(&"(f a".to_string()).unwrap_err().contains("unexpected end"));
    assert!(parse_source(&"()".to_string()).unwrap_err().contains("unexpected token ')'"));
    assert!(parse_source(&")".to_string()).unwrap_err().contains("unexpected token ')'"));
}

#[test]
fn lexical_error_names_the_buffer() {
    let err = parse_source(&"a\"b".to_string()).unwrap_err();
    assert_eq!(err, "Cannot parse a\"b");
}

#[test]
fn tokens_of_a_line() {
    let mut lexer = Lexer::new();
    lexer.lex(&"(def x \"a b\" 1.5)".to_string()).unwrap();
    let toks = lexer.lexems();
    assert_eq!(toks.len(), 6);
    assert!(matches!(toks[0].0, Lexem::ParenthesisOpen));
    assert!(matches!(toks[1].0, Lexem::Keyword(slang::Keyword::Def)));
    assert!(matches!(&toks[2].0, Lexem::Identifier(n) if n == "x"));
    assert!(matches!(&toks[3].0, Lexem::Literal(Literal::String(s)) if s == "a b"));
    assert!(matches!(&toks[4].0, Lexem::Literal(Literal::Num(s)) if s == "1.5"));
    assert!(matches!(toks[5].0, Lexem::ParenthesisClose));
}

#[test]
fn literal_classifiers() {
    assert!(Literal::num(&"42".to_string()).is_some());
    assert!(Literal::num(&"-.5".to_string()).is_some());
    assert!(Literal::num(&"1e10".to_string()).is_some());
    assert!(Literal::num(&"NaN".to_string()).is_some());
    assert!(Literal::num(&"inf".to_string()).is_some());
    assert!(Literal::num(&"1e".to_string()).is_none());
    assert!(Literal::num(&".".to_string()).is_none());
    assert!(Literal::num(&"abc".to_string()).is_none());
    assert!(matches!(Literal::string(&"\"a\\\"b\"".to_string()), Some(Literal::String(s)) if s == "a\\\"b"));
    assert!(Literal::string(&"\"a\"b\"".to_string()).is_none());
    assert!(Literal::string(&"\"ab\\\"".to_string()).is_none());
    assert!(Literal::string(&"\"".to_string()).is_none());
    assert!(Literal::nil(&"nil".to_string()).is_some());
    assert!(Literal::nil(&"Φ".to_string()).is_some());
    assert!(Literal::nil(&"nul".to_string()).is_none());
}

#[test]
fn host_commands() {
    assert!(matches!(command(&"exit".to_string()), Command::Exit));
    assert!(matches!(command(&"load  lib.sl ".to_string()), Command::Load(p) if p == "lib.sl"));
    assert!(matches!(command(&"".to_string()), Command::Blank));
    assert!(matches!(command(&"(ι 1)".to_string()), Command::Evaluate));
    assert!(matches!(command(&"exits".to_string()), Command::Evaluate));
}

#[test]
fn positions_advance() {
    let mut p = slang::Position::new(0, 0);
    let q = p.next_col();
    assert_eq!((q.row, q.col), (0, 1));
    let r = p.next_row();
    assert_eq!((r.row, r.col), (1, 0));
}
