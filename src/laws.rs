use vstd::prelude::*;
use crate::evaluator::{eval_ignore, eval_spec, Scopes};
use crate::subst::{is_binder, subst};
use crate::expr::Term;
use crate::keywords::Keyword;
use crate::lexer::Lex;
use crate::literal::Val;
use crate::parser::{flatten, parse_expression_spec, parse_list_spec, parse_spec, run_parser_spec};

verus! {

/// A literal evaluates to itself and leaves the scopes as they were.
pub proof fn literal_is_fixed_point(fs: Scopes, v: Val, depth: nat)
    requires
        depth > 0,
    ensures
        eval_spec(fs, Term::Lit(v), depth) == (fs, Ok::<Term, crate::evaluator::Fault>(Term::Lit(v))),
{
}

/// Substitution does not enter a binder form that binds the name itself:
/// `(δ x ...)`, `(λ x ...)` and `(ε x ...)` are left as they are when `x` is replaced.
pub proof fn binder_shadows_its_name(name: Seq<char>, v: Term, k: Keyword, args: Seq<Term>)
    requires
        is_binder(k),
        args.len() > 0,
        args[0] == Term::Var(name),
    ensures
        subst(name, v, Term::App(Box::new(Term::Form(k)), args)) == Term::App(Box::new(Term::Form(k)), args),
{
}

/// `(_ skipped f args...)` evaluates `f` applied to `args`, whatever the
/// skipped operand is: it is never evaluated.
pub proof fn ignore_skips_first_operand(fs: Scopes, skipped1: Term, skipped2: Term, rest: Seq<Term>, depth: nat)
    requires
        rest.len() >= 2,
    ensures
        eval_spec(fs, Term::App(Box::new(Term::Form(Keyword::Ignore)), seq![skipped1] + rest), depth)
            == eval_spec(fs, Term::App(Box::new(Term::Form(Keyword::Ignore)), seq![skipped2] + rest), depth),
{
    let a1 = seq![skipped1] + rest;
    let a2 = seq![skipped2] + rest;
    assert(a1[1] == a2[1]);
    assert(a1.subrange(2, a1.len() as int) =~= a2.subrange(2, a2.len() as int));
    assert(eval_ignore(fs, a1, depth) == eval_ignore(fs, a2, depth));
    if depth > 0 {
        assert(eval_spec(fs, Term::App(Box::new(Term::Form(Keyword::Ignore)), a1), depth) == eval_ignore(fs, a1, depth));
        assert(eval_spec(fs, Term::App(Box::new(Term::Form(Keyword::Ignore)), a2), depth) == eval_ignore(fs, a2, depth));
    }
}

/// A lexeme that parses to a leaf.
pub open spec fn is_atom(l: Lex) -> bool {
    l is Form || l is Lit || l is Ident
}

/// The leaf that an atom parses to.
pub open spec fn atom_term(l: Lex) -> Term {
    match l {
        Lex::Form(k) => Term::Form(k),
        Lex::Lit(v) => Term::Lit(v),
        Lex::Ident(n) => Term::Var(n),
        _ => Term::Lit(Val::Nil),
    }
}

proof fn lemma_parse_atom(ts: Seq<Lex>, p: int)
    requires
        0 <= p < ts.len(),
        is_atom(ts[p]),
    ensures
        parse_spec(ts, p) == Ok::<(Term, int), crate::parser::SyntaxFault>((atom_term(ts[p]), p + 1)),
{
}

/// The application that `(f a)` parses to, for atoms `f` and `a`.
pub open spec fn pair_term(f: Lex, a: Lex) -> Term {
    if f is Lit {
        Term::App(Box::new(Term::Form(Keyword::Id)), seq![atom_term(f), atom_term(a)])
    } else {
        Term::App(Box::new(atom_term(f)), seq![atom_term(a)])
    }
}

/// The application that `(f a b)` parses to, for atoms `f`, `a` and `b`.
pub open spec fn triple_term(f: Lex, a: Lex, b: Lex) -> Term {
    if f is Lit {
        Term::App(Box::new(Term::Form(Keyword::Id)), seq![atom_term(f), atom_term(a), atom_term(b)])
    } else {
        Term::App(Box::new(atom_term(f)), seq![atom_term(a), atom_term(b)])
    }
}

/// Parsing `((f a) b)` gives the same tree as parsing `(f a b)`: an operator
/// position that holds an application is spliced into the outer application.
pub proof fn curried_parse_is_flat(f: Lex, a: Lex, b: Lex)
    requires
        is_atom(f),
        is_atom(a),
        is_atom(b),
    ensures
        run_parser_spec(seq![Lex::Open, Lex::Open, f, a, Lex::Close, b, Lex::Close])
            == Ok::<(Term, int), crate::parser::SyntaxFault>((triple_term(f, a, b), 7)),
        run_parser_spec(seq![Lex::Open, f, a, b, Lex::Close])
            == Ok::<(Term, int), crate::parser::SyntaxFault>((triple_term(f, a, b), 5)),
{
    let nested = seq![Lex::Open, Lex::Open, f, a, Lex::Close, b, Lex::Close];
    let flat = seq![Lex::Open, f, a, b, Lex::Close];
    let fa = atom_term(f);
    let at = atom_term(a);
    let bt = atom_term(b);

    // the flat form
    assert(parse_list_spec(flat, 4) == Ok::<(Seq<Term>, int), crate::parser::SyntaxFault>((Seq::<Term>::empty(), 5)));
    lemma_parse_atom(flat, 3);
    assert(seq![bt] + Seq::<Term>::empty() =~= seq![bt]);
    assert(parse_list_spec(flat, 3) == Ok::<(Seq<Term>, int), crate::parser::SyntaxFault>((seq![bt], 5)));
    lemma_parse_atom(flat, 2);
    assert(seq![at] + seq![bt] =~= seq![at, bt]);
    assert(parse_list_spec(flat, 2) == Ok::<(Seq<Term>, int), crate::parser::SyntaxFault>((seq![at, bt], 5)));
    if f is Lit {
        lemma_parse_atom(flat, 1);
        assert(seq![fa] + seq![at, bt] =~= seq![fa, at, bt]);
        assert(parse_list_spec(flat, 1) == Ok::<(Seq<Term>, int), crate::parser::SyntaxFault>((seq![fa, at, bt], 5)));
    }
    assert(parse_expression_spec(flat, 0) == Ok::<(Term, int), crate::parser::SyntaxFault>((triple_term(f, a, b), 5)));

    // the nested form
    assert(parse_list_spec(nested, 6) == Ok::<(Seq<Term>, int), crate::parser::SyntaxFault>((Seq::<Term>::empty(), 7)));
    lemma_parse_atom(nested, 5);
    assert(parse_list_spec(nested, 5) == Ok::<(Seq<Term>, int), crate::parser::SyntaxFault>((seq![bt], 7)));
    assert(parse_list_spec(nested, 4) == Ok::<(Seq<Term>, int), crate::parser::SyntaxFault>((Seq::<Term>::empty(), 5)));
    lemma_parse_atom(nested, 3);
    assert(seq![at] + Seq::<Term>::empty() =~= seq![at]);
    assert(parse_list_spec(nested, 3) == Ok::<(Seq<Term>, int), crate::parser::SyntaxFault>((seq![at], 5)));
    if f is Lit {
        lemma_parse_atom(nested, 2);
        assert(seq![fa] + seq![at] =~= seq![fa, at]);
        assert(parse_list_spec(nested, 2) == Ok::<(Seq<Term>, int), crate::parser::SyntaxFault>((seq![fa, at], 5)));
        assert(seq![fa, at] + seq![bt] =~= seq![fa, at, bt]);
    } else {
        assert(seq![at] + seq![bt] =~= seq![at, bt]);
    }
    assert(parse_expression_spec(nested, 1) == Ok::<(Term, int), crate::parser::SyntaxFault>((pair_term(f, a), 5)));
    assert(flatten(pair_term(f, a), seq![bt]) == triple_term(f, a, b));
    assert(parse_expression_spec(nested, 0) == Ok::<(Term, int), crate::parser::SyntaxFault>((triple_term(f, a, b), 7)));
}

} // verus!
