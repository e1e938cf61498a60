use vstd::prelude::*;
use crate::keywords::Keyword;
use crate::literal::{Literal, Val};

verus! {

/// The mathematical shape of a syntax tree.
pub enum Term {
    App(Box<Term>, Seq<Term>),
    Var(Seq<char>),
    Lit(Val),
    Form(Keyword),
}

/// A syntax tree node.
#[derive(Debug)]
pub enum Expr {
    /// An application of an operator to its operands.
    Expr { operator: Box<Expr>, operands: Vec<Expr> },
    Var { name: String },
    Literal(Literal),
    Keyword(Keyword),
}

/// The trees of a sequence of nodes, in order.
pub open spec fn views(s: Seq<Expr>) -> Seq<Term>
    decreases s,
{
    if s.len() == 0 {
        Seq::empty()
    } else {
        views(s.drop_last()).push(s.last()@)
    }
}

impl View for Expr {
    type V = Term;

    open spec fn view(&self) -> Term
        decreases self,
    {
        match self {
            Expr::Expr { operator, operands } => Term::App(Box::new((**operator)@), views(operands@)),
            Expr::Var { name } => Term::Var(name@),
            Expr::Literal(l) => Term::Lit(l@),
            Expr::Keyword(k) => Term::Form(*k),
        }
    }
}

/// The trees of a sequence of nodes are taken one node at a time.
pub proof fn lemma_views(s: Seq<Expr>)
    ensures
        views(s).len() == s.len(),
        forall|i: int| 0 <= i < s.len() ==> #[trigger] views(s)[i] == s[i]@,
    decreases s.len(),
{
    if s.len() > 0 {
        lemma_views(s.drop_last());
        assert(views(s) == views(s.drop_last()).push(s.last()@));
        assert forall|i: int| 0 <= i < s.len() implies #[trigger] views(s)[i] == s[i]@ by {
            if i < s.len() - 1 {
                assert(s.drop_last()[i] == s[i]);
                assert(views(s)[i] == views(s.drop_last())[i]);
            }
        }
    }
}

/// Two sequences of nodes with the same trees, one by one, have the same trees.
pub proof fn lemma_views_equal(a: Seq<Expr>, b: Seq<Expr>)
    requires
        a.len() == b.len(),
        forall|i: int| 0 <= i < a.len() ==> #[trigger] a[i]@ == b[i]@,
    ensures
        views(a) == views(b),
{
    lemma_views(a);
    lemma_views(b);
    assert(views(a) =~= views(b));
}

impl Expr {
    /// A deep copy of this node.
    pub fn copy(&self) -> (r: Expr)
        ensures
            r@ == self@,
        decreases self,
    {
        match self {
            Expr::Expr { operator, operands } => {
                assert(self@ == Term::App(Box::new((**operator)@), views(operands@)));
                let op = operator.copy();
                let mut out: Vec<Expr> = Vec::new();
                let mut i: usize = 0;
                proof { lemma_views(operands@); }
                assert(decreases_to!(*self => *operands));
                while i < operands.len()
                    invariant
                        i <= operands.len(),
                        out@.len() == i,
                        views(operands@).len() == operands.len(),
                        forall|j: int| 0 <= j < operands.len() ==> #[trigger] views(operands@)[j] == operands@[j]@,
                        forall|j: int| 0 <= j < i ==> #[trigger] out@[j]@ == operands@[j]@,
                        self@ == Term::App(Box::new((**operator)@), views(operands@)),
                        decreases_to!(*self => *operands),
                    decreases operands.len() - i,
                {
                    assert(views(operands@)[i as int] == operands@[i as int]@);
                    let item = &operands[i];
                    assert(decreases_to!(*operands => operands[i as int]));
                    let c = item.copy();
                    out.push(c);
                    i = i + 1;
                }
                proof { lemma_views_equal(out@, operands@); }
                Expr::Expr { operator: Box::new(op), operands: out }
            },
            Expr::Var { name } => Expr::Var { name: name.clone() },
            Expr::Literal(l) => Expr::Literal(l.copy()),
            Expr::Keyword(k) => Expr::Keyword(*k),
        }
    }
}

} // verus!
