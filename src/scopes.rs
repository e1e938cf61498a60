use vstd::prelude::*;
use crate::evaluator::{apply_to, enter, eval_def, eval_id, eval_ignore, eval_lambda, eval_spec, leave, merge, rest, Scopes};
use crate::expr::Term;
use crate::keywords::Keyword;
use crate::subst::{subst, subst_all};

verus! {

/// How the number of scopes may change over an evaluation that starts with
/// `before` of them: not at all, except that one may be opened when there
/// was none.
pub open spec fn scope_count_kept(before: nat, after: nat) -> bool {
    if before > 0 { after == before } else { after <= 1 }
}

/// Evaluation keeps the number of scopes: every scope it enters it leaves
/// again, and a curried definition binds into the innermost scope, opening
/// the outermost one when there is none. So curried bindings last as long as
/// the scope they were merged into.
pub proof fn evaluation_keeps_scope_count(fs: Scopes, t: Term, depth: nat)
    ensures
        scope_count_kept(fs.len(), eval_spec(fs, t, depth).0.len()),
    decreases depth, 2nat,
{
    if depth > 0 {
        let d = (depth - 1) as nat;
        match t {
            Term::Var(n) => {
                match crate::evaluator::resolve(fs, n) {
                    Some(v) => evaluation_keeps_scope_count(fs, v, d),
                    None => {},
                }
            },
            Term::App(op, args) => match *op {
                Term::Form(k) => match k {
                    Keyword::Def => lemma_def(fs, args, depth),
                    Keyword::Lambda => lemma_lambda(fs, args, depth),
                    Keyword::Id => lemma_id(fs, args, depth),
                    Keyword::Ignore => lemma_ignore(fs, args, depth),
                    _ => {},
                },
                Term::App(inner, inner_args) => {
                    evaluation_keeps_scope_count(fs, Term::App(inner, inner_args + args), d);
                },
                Term::Var(n) => {
                    evaluation_keeps_scope_count(fs, Term::Var(n), d);
                    let (fs1, r) = eval_spec(fs, Term::Var(n), d);
                    match r {
                        Err(_) => {},
                        Ok(f) => match f {
                            Term::App(f_op, f_args) => {
                                evaluation_keeps_scope_count(fs1, Term::App(f_op, f_args + args), d);
                            },
                            _ => {
                                evaluation_keeps_scope_count(fs1, Term::App(Box::new(f), args), d);
                            },
                        },
                    }
                },
                _ => {},
            },
            _ => {},
        }
    }
}

proof fn lemma_apply(fs: Scopes, head: Term, args: Seq<Term>, depth: nat)
    ensures
        scope_count_kept(fs.len(), apply_to(fs, head, args, depth).0.len()),
    decreases depth, 0nat,
{
    if depth > 0 {
        let d = (depth - 1) as nat;
        evaluation_keeps_scope_count(fs, head, d);
        let (fs1, r) = eval_spec(fs, head, d);
        match r {
            Err(_) => {},
            Ok(f) => {
                if args.len() > 0 {
                    evaluation_keeps_scope_count(fs1, Term::App(Box::new(f), args), d);
                }
            },
        }
    }
}

proof fn lemma_def(fs: Scopes, args: Seq<Term>, depth: nat)
    ensures
        scope_count_kept(fs.len(), eval_def(fs, args, depth).0.len()),
    decreases depth, 1nat,
{
    if depth > 0 && args.len() >= 3 {
        let d = (depth - 1) as nat;
        match args[0] {
            Term::Var(n) => {
                evaluation_keeps_scope_count(fs, args[1], d);
                let (fs1, r) = eval_spec(fs, args[1], d);
                match r {
                    Err(_) => {},
                    Ok(v) => {
                        if args.len() == 3 {
                            evaluation_keeps_scope_count(enter(fs1, n, v), subst(n, v, args[2]), d);
                        } else {
                            evaluation_keeps_scope_count(
                                merge(fs1, n, v),
                                Term::App(Box::new(subst(n, v, args[2])), subst_all(n, v, rest(args, 3))),
                                d,
                            );
                        }
                    },
                }
            },
            _ => {},
        }
    }
}

proof fn lemma_lambda(fs: Scopes, args: Seq<Term>, depth: nat)
    ensures
        scope_count_kept(fs.len(), eval_lambda(fs, args, depth).0.len()),
    decreases depth, 1nat,
{
    if depth > 0 && args.len() > 2 {
        let d = (depth - 1) as nat;
        let body = args[1];
        let more = rest(args, 3);
        evaluation_keeps_scope_count(fs, args[2], d);
        let (fs1, r) = eval_spec(fs, args[2], d);
        match r {
            Err(_) => {},
            Ok(v) => match args[0] {
                Term::Var(n) => {
                    let head = if more.len() == 0 { subst(n, v, body) } else { body };
                    lemma_apply(enter(fs1, n, v), head, more, depth);
                },
                _ => {
                    lemma_apply(fs1, body, more, depth);
                },
            },
        }
    }
}

proof fn lemma_id(fs: Scopes, args: Seq<Term>, depth: nat)
    ensures
        scope_count_kept(fs.len(), eval_id(fs, args, depth).0.len()),
    decreases depth, 1nat,
{
    if args.len() > 0 {
        lemma_apply(fs, args[0], rest(args, 1), depth);
    }
}

proof fn lemma_ignore(fs: Scopes, args: Seq<Term>, depth: nat)
    ensures
        scope_count_kept(fs.len(), eval_ignore(fs, args, depth).0.len()),
    decreases depth, 1nat,
{
    if args.len() > 2 {
        lemma_apply(fs, args[1], rest(args, 2), depth);
    }
}

} // verus!
