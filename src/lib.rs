//! A small expression language: a tokenizer, a curry-flattening parser and an
//! evaluator that mixes scoped bindings with free-variable substitution.
mod evaluator;
mod expr;
mod frame;
mod keywords;
mod laws;
mod lexer;
mod literal;
mod parser;
mod position;
mod render;
mod repl;
mod scopes;
mod subst;
mod text;

pub use evaluator::{
    apply_to, enter, eval_def, eval_id, eval_ignore, eval_lambda, eval_spec, leave, merge, outcome,
    resolve, EvalError, Fault, Runtime, Scopes, MAX_DEPTH,
};
pub use expr::{lemma_views, lemma_views_equal, views, Expr, Term};
pub use frame::{bindings, Frame};
pub use keywords::{keyword_symbol, Keyword};
pub use laws::{
    atom_term, binder_shadows_its_name, curried_parse_is_flat, ignore_skips_first_operand, is_atom,
    literal_is_fixed_point, pair_term, triple_term,
};
pub use lexer::{
    classify, flush, is_space, is_space_exec, keyword_of, lexems_of, scan, step, Lex, Lexem, Lexer,
    ScanState, Token,
};
pub use literal::{
    digits_end, interior_ok, is_decimal, is_exponent, is_nil_spelling, is_numeral, is_numeral_exec,
    num_value, same_value, string_body, Literal, NumValue, Val, MAX_EXPONENT_DIGITS,
};
pub use parser::{
    flatten, parse_expression_spec, parse_list_spec, parse_spec, parsed, parsed_list, run_parser,
    run_parser_spec, ParseResult, SyntaxError, SyntaxFault,
};
pub use position::Position;
pub use render::{decimal, decimal_text, fault_text, lex_text, render, render_operands, render_val, syntax_text};
pub use scopes::{evaluation_keeps_scope_count, scope_count_kept};
pub use repl::{command, evaluate_source, fresh_scan, parse_source, read_spec, trimmed, Command};
pub use subst::{is_binder, lemma_subst_all, subst, subst_all, substitute};
