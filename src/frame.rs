use vstd::prelude::*;
use crate::expr::{Expr, Term};

verus! {

/// The mapping that a list of bindings stands for: a later binding of a name
/// overrides an earlier one.
pub open spec fn bindings(s: Seq<(String, Expr)>) -> Map<Seq<char>, Term>
    decreases s.len(),
{
    if s.len() == 0 {
        Map::empty()
    } else {
        bindings(s.drop_last()).insert(s.last().0@, s.last().1@)
    }
}

/// A name that no binding after index `k` carries resolves to the binding at `k`.
proof fn lemma_bindings_last(s: Seq<(String, Expr)>, k: int)
    requires
        0 <= k < s.len(),
        forall|j: int| k < j < s.len() ==> #[trigger] s[j].0@ != s[k].0@,
    ensures
        bindings(s).contains_key(s[k].0@),
        bindings(s)[s[k].0@] == s[k].1@,
    decreases s.len(),
{
    if k < s.len() - 1 {
        let t = s.drop_last();
        assert forall|j: int| k < j < t.len() implies #[trigger] t[j].0@ != t[k].0@ by {
            assert(t[j] == s[j]);
        }
        lemma_bindings_last(t, k);
        assert(s.last().0@ != s[k].0@);
    }
}

/// A name that no binding carries is not bound.
proof fn lemma_bindings_absent(s: Seq<(String, Expr)>, n: Seq<char>)
    requires
        forall|j: int| 0 <= j < s.len() ==> #[trigger] s[j].0@ != n,
    ensures
        !bindings(s).contains_key(n),
    decreases s.len(),
{
    if s.len() > 0 {
        let t = s.drop_last();
        assert forall|j: int| 0 <= j < t.len() implies #[trigger] t[j].0@ != n by {
            assert(t[j] == s[j]);
        }
        lemma_bindings_absent(t, n);
    }
}

/// One scope's bindings of names to values.
#[derive(Debug)]
pub struct Frame {
    variables: Vec<(String, Expr)>,
}

impl View for Frame {
    type V = Map<Seq<char>, Term>;

    closed spec fn view(&self) -> Map<Seq<char>, Term> {
        bindings(self.variables@)
    }
}

impl Frame {
    /// A scope that binds one name.
    pub fn new(name: String, value: Expr) -> (r: Self)
        ensures
            r@ == Map::<Seq<char>, Term>::empty().insert(name@, value@),
    {
        let mut variables: Vec<(String, Expr)> = Vec::new();
        variables.push((name, value));
        proof {
            assert(variables@.drop_last() =~= Seq::<(String, Expr)>::empty());
            assert(bindings(variables@) == bindings(variables@.drop_last()).insert(
                variables@.last().0@,
                variables@.last().1@,
            ));
        }
        Frame { variables }
    }

    /// The value bound to `name` in this scope.
    pub fn lookup(&self, name: &String) -> (r: Option<&Expr>)
        ensures
            r is Some == self@.contains_key(name@),
            r is Some ==> r->0@ == self@[name@],
    {
        let mut i: usize = self.variables.len();
        while i > 0
            invariant
                i <= self.variables.len(),
                forall|j: int| i <= j < self.variables.len() ==> #[trigger] self.variables@[j].0@ != name@,
            decreases i,
        {
            let entry = &self.variables[i - 1];
            if entry.0.eq(name) {
                proof { lemma_bindings_last(self.variables@, i - 1); }
                return Some(&entry.1);
            }
            i = i - 1;
        }
        proof { lemma_bindings_absent(self.variables@, name@); }
        None
    }

    /// Binds `name` to `value` in this scope, replacing an earlier binding of it.
    pub fn push(&mut self, name: String, value: Expr)
        ensures
            final(self)@ == old(self)@.insert(name@, value@),
    {
        let ghost before = self.variables@;
        self.variables.push((name, value));
        proof {
            assert(self.variables@.drop_last() =~= before);
        }
    }
}

} // verus!
