use vstd::prelude::*;
use crate::expr::{lemma_views, views, Expr, Term};
use crate::keywords::Keyword;

verus! {

/// The forms whose first operand binds a name in the rest of the form.
pub open spec fn is_binder(k: Keyword) -> bool {
    k == Keyword::Def || k == Keyword::Lambda || k == Keyword::External
}

/// Replaces every free occurrence of `name` in `t` by `v`.
///
/// A variable named `name` becomes `v`; an application headed by such a
/// variable gets `v` as its head; a binder form whose first operand is the
/// variable `name` shadows it and is left as it is; any other application has
/// its operands rewritten; everything else stays.
pub open spec fn subst(name: Seq<char>, v: Term, t: Term) -> Term
    decreases t,
{
    match t {
        Term::Var(n) => if n == name { v } else { t },
        Term::App(op, args) => match *op {
            Term::Var(n) => if n == name {
                Term::App(Box::new(v), subst_all(name, v, args))
            } else {
                Term::App(op, subst_all(name, v, args))
            },
            Term::Form(k) => if is_binder(k) && args.len() > 0 && args[0] == Term::Var(name) {
                t
            } else {
                Term::App(op, subst_all(name, v, args))
            },
            _ => Term::App(op, subst_all(name, v, args)),
        },
        _ => t,
    }
}

/// `subst` applied to each tree of a sequence.
pub open spec fn subst_all(name: Seq<char>, v: Term, s: Seq<Term>) -> Seq<Term>
    decreases s,
{
    if s.len() == 0 {
        Seq::empty()
    } else {
        subst_all(name, v, s.drop_last()).push(subst(name, v, s.last()))
    }
}

pub proof fn lemma_subst_all(name: Seq<char>, v: Term, s: Seq<Term>)
    ensures
        subst_all(name, v, s).len() == s.len(),
        forall|i: int| 0 <= i < s.len() ==> #[trigger] subst_all(name, v, s)[i] == subst(name, v, s[i]),
    decreases s.len(),
{
    if s.len() > 0 {
        lemma_subst_all(name, v, s.drop_last());
        assert(subst_all(name, v, s) == subst_all(name, v, s.drop_last()).push(subst(name, v, s.last())));
        assert forall|i: int| 0 <= i < s.len() implies #[trigger] subst_all(name, v, s)[i] == subst(name, v, s[i]) by {
            if i < s.len() - 1 {
                assert(s.drop_last()[i] == s[i]);
                assert(subst_all(name, v, s)[i] == subst_all(name, v, s.drop_last())[i]);
            }
        }
    }
}

/// Whether `e` is the variable `name`.
fn is_var_named(e: &Expr, name: &String) -> (r: bool)
    ensures
        r == (e@ == Term::Var(name@)),
{
    match e {
        Expr::Var { name: n } => n.eq(name),
        _ => false,
    }
}

/// Rewrites `ast`, replacing each free occurrence of `name` by a copy of `value`.
pub fn substitute(name: &String, value: &Expr, ast: &Expr) -> (r: Expr)
    ensures
        r@ == subst(name@, value@, ast@),
    decreases ast,
{
    match ast {
        Expr::Var { name: n } => {
            if n.eq(name) {
                value.copy()
            } else {
                ast.copy()
            }
        },
        Expr::Expr { operator, operands } => {
            proof { lemma_views(operands@); }
            let ghost args = views(operands@);
            assert(ast@ == Term::App(Box::new((**operator)@), args));
            let shadowed = match &**operator {
                Expr::Keyword(k) => {
                    (*k == Keyword::Def || *k == Keyword::Lambda || *k == Keyword::External)
                        && operands.len() > 0 && is_var_named(&operands[0], name)
                },
                _ => false,
            };
            if shadowed {
                return ast.copy();
            }
            let mut out: Vec<Expr> = Vec::new();
            let mut i: usize = 0;
            assert(decreases_to!(*ast => *operands));
            while i < operands.len()
                invariant
                    i <= operands.len(),
                    out@.len() == i,
                    args == views(operands@),
                    args.len() == operands.len(),
                    forall|j: int| 0 <= j < operands.len() ==> #[trigger] args[j] == operands@[j]@,
                    forall|j: int| 0 <= j < i ==> #[trigger] out@[j]@ == subst(name@, value@, operands@[j]@),
                    decreases_to!(*ast => *operands),
                decreases operands.len() - i,
            {
                let item = &operands[i];
                assert(decreases_to!(*operands => operands[i as int]));
                let c = substitute(name, value, item);
                out.push(c);
                i = i + 1;
            }
            proof {
                lemma_views(out@);
                lemma_subst_all(name@, value@, args);
                assert(views(out@) =~= subst_all(name@, value@, args));
            }
            let head = match &**operator {
                Expr::Var { name: n } => {
                    if n.eq(name) {
                        value.copy()
                    } else {
                        operator.copy()
                    }
                },
                _ => operator.copy(),
            };
            Expr::Expr { operator: Box::new(head), operands: out }
        },
        _ => ast.copy(),
    }
}

} // verus!
