use vstd::prelude::*;
use crate::expr::{lemma_views, views, Expr, Term};
use crate::frame::Frame;
use crate::keywords::Keyword;
use crate::literal::{same_value, Literal, Val};
use crate::subst::{lemma_subst_all, subst, subst_all, substitute};

verus! {

/// The scopes of an evaluation, outermost first.
pub type Scopes = Seq<Map<Seq<char>, Term>>;

/// What can go wrong in an evaluation, as a mathematical value.
pub enum Fault {
    Undefined(Seq<char>),
    Arity(Keyword, nat),
    Mismatch(Val, Term),
    InvalidName(Term),
    InvalidParam(Term),
    NotImplemented(Keyword),
    CannotEvaluate(Term),
    TooDeep,
}

/// The value that `name` resolves to: its binding in the innermost scope that
/// binds it.
pub open spec fn resolve(fs: Scopes, name: Seq<char>) -> Option<Term>
    decreases fs.len(),
{
    if fs.len() == 0 {
        None
    } else if fs.last().contains_key(name) {
        Some(fs.last()[name])
    } else {
        resolve(fs.drop_last(), name)
    }
}

/// Enters a new scope that binds `name` to `v`.
pub open spec fn enter(fs: Scopes, name: Seq<char>, v: Term) -> Scopes {
    fs.push(Map::empty().insert(name, v))
}

/// Leaves the innermost scope, if there is one.
pub open spec fn leave(fs: Scopes) -> Scopes {
    if fs.len() > 0 {
        fs.drop_last()
    } else {
        fs
    }
}

/// Binds `name` to `v` in the innermost scope, opening one when there is none.
pub open spec fn merge(fs: Scopes, name: Seq<char>, v: Term) -> Scopes {
    if fs.len() > 0 {
        fs.update(fs.len() - 1, fs.last().insert(name, v))
    } else {
        enter(fs, name, v)
    }
}

pub open spec fn app(op: Term, args: Seq<Term>) -> Term {
    Term::App(Box::new(op), args)
}

/// The operands of an application from index `from` on.
pub open spec fn rest(args: Seq<Term>, from: int) -> Seq<Term> {
    args.subrange(from, args.len() as int)
}

/// Evaluates `t` in the scopes `fs`, with at most `depth` nested evaluations;
/// gives the scopes afterwards and the value or the fault.
pub open spec fn eval_spec(fs: Scopes, t: Term, depth: nat) -> (Scopes, Result<Term, Fault>)
    decreases depth, 2nat,
{
    if depth == 0 {
        (fs, Err(Fault::TooDeep))
    } else {
        let d = (depth - 1) as nat;
        match t {
            Term::Var(n) => match resolve(fs, n) {
                Some(v) => eval_spec(fs, v, d),
                None => (fs, Err(Fault::Undefined(n))),
            },
            Term::Lit(_) => (fs, Ok(t)),
            Term::Form(_) => (fs, Err(Fault::CannotEvaluate(t))),
            Term::App(op, args) => match *op {
                Term::Form(k) => match k {
                    Keyword::Def => eval_def(fs, args, depth),
                    Keyword::Lambda => eval_lambda(fs, args, depth),
                    Keyword::Id => eval_id(fs, args, depth),
                    Keyword::Ignore => eval_ignore(fs, args, depth),
                    Keyword::Nil => (fs, Ok(Term::Lit(Val::Nil))),
                    _ => (fs, Err(Fault::NotImplemented(k))),
                },
                Term::App(inner, inner_args) => eval_spec(fs, app(*inner, inner_args + args), d),
                Term::Var(n) => {
                    let (fs1, r) = eval_spec(fs, Term::Var(n), d);
                    match r {
                        Err(e) => (fs1, Err(e)),
                        Ok(f) => match f {
                            Term::App(f_op, f_args) => eval_spec(fs1, app(*f_op, f_args + args), d),
                            _ => eval_spec(fs1, app(f, args), d),
                        },
                    }
                },
                Term::Lit(_) => (fs, Err(Fault::CannotEvaluate(t))),
            },
        }
    }
}

/// Evaluates `head`, then, when `args` is not empty, applies its value to `args`.
pub open spec fn apply_to(fs: Scopes, head: Term, args: Seq<Term>, depth: nat) -> (Scopes, Result<Term, Fault>)
    decreases depth, 0nat,
{
    if depth == 0 {
        (fs, Err(Fault::TooDeep))
    } else {
        let d = (depth - 1) as nat;
        let (fs1, r) = eval_spec(fs, head, d);
        match r {
            Err(e) => (fs1, Err(e)),
            Ok(f) => if args.len() == 0 {
                (fs1, Ok(f))
            } else {
                eval_spec(fs1, app(f, args), d)
            },
        }
    }
}

/// `(δ name value body extra...)`.
///
/// With three operands the binding lives in a scope of its own, entered for
/// the body and left after it. With more, the form is curried: the binding
/// goes into the innermost scope (opened when there is none) and stays there
/// after the call, so that a curried definition at the outermost level stays
/// visible to later evaluations in the same runtime.
pub open spec fn eval_def(fs: Scopes, args: Seq<Term>, depth: nat) -> (Scopes, Result<Term, Fault>)
    decreases depth, 1nat,
{
    if depth == 0 {
        (fs, Err(Fault::TooDeep))
    } else if args.len() < 3 {
        (fs, Err(Fault::Arity(Keyword::Def, args.len())))
    } else {
        let d = (depth - 1) as nat;
        match args[0] {
            Term::Var(n) => {
                let (fs1, r) = eval_spec(fs, args[1], d);
                match r {
                    Err(e) => (fs1, Err(e)),
                    Ok(v) => if args.len() == 3 {
                        let (fs2, r2) = eval_spec(enter(fs1, n, v), subst(n, v, args[2]), d);
                        (leave(fs2), r2)
                    } else {
                        eval_spec(
                            merge(fs1, n, v),
                            app(subst(n, v, args[2]), subst_all(n, v, rest(args, 3))),
                            d,
                        )
                    },
                }
            },
            _ => (fs, Err(Fault::InvalidName(args[0]))),
        }
    }
}

/// `(λ param body arg extra...)`.
///
/// The argument is evaluated whatever the parameter: a variable binds it, a
/// literal must match it, `_` drops it. With more arguments the body's value
/// is applied to the rest of them.
pub open spec fn eval_lambda(fs: Scopes, args: Seq<Term>, depth: nat) -> (Scopes, Result<Term, Fault>)
    decreases depth, 1nat,
{
    if depth == 0 {
        (fs, Err(Fault::TooDeep))
    } else if args.len() < 2 {
        (fs, Err(Fault::Arity(Keyword::Lambda, args.len())))
    } else if args.len() == 2 {
        (fs, Ok(app(Term::Form(Keyword::Lambda), args)))
    } else {
        let d = (depth - 1) as nat;
        let body = args[1];
        let more = rest(args, 3);
        match args[0] {
            Term::Var(n) => {
                let (fs1, r) = eval_spec(fs, args[2], d);
                match r {
                    Err(e) => (fs1, Err(e)),
                    Ok(v) => {
                        let head = if more.len() == 0 { subst(n, v, body) } else { body };
                        let (fs2, r2) = apply_to(enter(fs1, n, v), head, more, depth);
                        (leave(fs2), r2)
                    },
                }
            },
            Term::Lit(expected) => {
                let (fs1, r) = eval_spec(fs, args[2], d);
                match r {
                    Err(e) => (fs1, Err(e)),
                    Ok(a) => if a is Lit && same_value(a->Lit_0, expected) {
                        apply_to(fs1, body, more, depth)
                    } else {
                        (fs1, Err(Fault::Mismatch(expected, a)))
                    },
                }
            },
            Term::Form(Keyword::Ignore) => {
                let (fs1, r) = eval_spec(fs, args[2], d);
                match r {
                    Err(e) => (fs1, Err(e)),
                    Ok(_) => apply_to(fs1, body, more, depth),
                }
            },
            _ => (fs, Err(Fault::InvalidParam(args[0]))),
        }
    }
}

/// `(ι)`, `(ι x)` and `(ι f args...)`.
pub open spec fn eval_id(fs: Scopes, args: Seq<Term>, depth: nat) -> (Scopes, Result<Term, Fault>)
    decreases depth, 1nat,
{
    if args.len() == 0 {
        (fs, Ok(app(Term::Form(Keyword::Id), args)))
    } else {
        apply_to(fs, args[0], rest(args, 1), depth)
    }
}

/// `(_)` is the placeholder itself; `(_ x)` and `(_ x y)` are nil;
/// `(_ skipped f args...)` applies `f` to `args`.
pub open spec fn eval_ignore(fs: Scopes, args: Seq<Term>, depth: nat) -> (Scopes, Result<Term, Fault>)
    decreases depth, 1nat,
{
    if args.len() == 0 {
        (fs, Ok(Term::Form(Keyword::Ignore)))
    } else if args.len() <= 2 {
        (fs, Ok(Term::Lit(Val::Nil)))
    } else {
        apply_to(fs, args[1], rest(args, 2), depth)
    }
}

/// How deeply evaluations may nest before evaluation gives up with
/// `EvalError::TooDeep` rather than exhaust the stack.
pub const MAX_DEPTH: usize = 256;

/// An evaluation error.
#[derive(Debug)]
pub enum EvalError {
    /// A variable that no scope binds.
    Undefined(String),
    /// A special form given a number of operands that it does not take.
    Arity(Keyword, usize),
    /// A literal parameter that the argument did not match: expected, actual.
    Mismatch(Literal, Expr),
    /// A definition whose name is not a variable.
    InvalidName(Expr),
    /// A function whose parameter is neither a variable, a literal nor `_`.
    InvalidParam(Expr),
    /// A special form that is reserved and not implemented.
    NotImplemented(Keyword),
    /// A node that no evaluation rule accepts.
    CannotEvaluate(Expr),
    /// Evaluations nested deeper than the evaluator allows.
    TooDeep,
}

impl View for EvalError {
    type V = Fault;

    open spec fn view(&self) -> Fault {
        match self {
            EvalError::Undefined(n) => Fault::Undefined(n@),
            EvalError::Arity(k, n) => Fault::Arity(*k, *n as nat),
            EvalError::Mismatch(l, e) => Fault::Mismatch(l@, e@),
            EvalError::InvalidName(e) => Fault::InvalidName(e@),
            EvalError::InvalidParam(e) => Fault::InvalidParam(e@),
            EvalError::NotImplemented(k) => Fault::NotImplemented(*k),
            EvalError::CannotEvaluate(e) => Fault::CannotEvaluate(e@),
            EvalError::TooDeep => Fault::TooDeep,
        }
    }
}

/// The mathematical value of an evaluation's result.
pub open spec fn outcome(r: Result<Expr, EvalError>) -> Result<Term, Fault> {
    match r {
        Ok(e) => Ok(e@),
        Err(e) => Err(e@),
    }
}

/// Appends copies of `v[from..]` to `out`.
fn copy_from(v: &Vec<Expr>, from: usize, out: &mut Vec<Expr>)
    requires
        from <= v.len(),
    ensures
        views(final(out)@) == views(old(out)@) + rest(views(v@), from as int),
{
    proof {
        lemma_views(v@);
        lemma_views(old(out)@);
    }
    let ghost start = out@;
    let mut i: usize = from;
    while i < v.len()
        invariant
            from <= i <= v.len(),
            out@.len() == start.len() + (i - from),
            forall|j: int| 0 <= j < start.len() ==> #[trigger] out@[j] == start[j],
            forall|j: int| from <= j < i ==> #[trigger] out@[start.len() + (j - from)]@ == v@[j]@,
        decreases v.len() - i,
    {
        let c = v[i].copy();
        out.push(c);
        i = i + 1;
    }
    proof {
        lemma_views(out@);
        lemma_views(start);
        assert(views(out@) =~= views(start) + rest(views(v@), from as int)) by {
            assert forall|j: int| 0 <= j < out@.len() implies #[trigger] views(out@)[j] == (views(start) + rest(views(v@), from as int))[j] by {
                if j >= start.len() {
                    let k = from + (j - start.len());
                    assert(out@[start.len() + (k - from)]@ == v@[k]@);
                }
            }
        }
    }
}

/// Copies of `v[from..]` with every free occurrence of `name` replaced by `value`.
fn substitute_from(name: &String, value: &Expr, v: &Vec<Expr>, from: usize) -> (r: Vec<Expr>)
    requires
        from <= v.len(),
    ensures
        views(r@) == subst_all(name@, value@, rest(views(v@), from as int)),
{
    proof { lemma_views(v@); }
    let mut out: Vec<Expr> = Vec::new();
    let mut i: usize = from;
    while i < v.len()
        invariant
            from <= i <= v.len(),
            out@.len() == i - from,
            forall|j: int| from <= j < i ==> #[trigger] out@[j - from]@ == subst(name@, value@, v@[j]@),
        decreases v.len() - i,
    {
        let c = substitute(name, value, &v[i]);
        out.push(c);
        i = i + 1;
    }
    proof {
        lemma_views(out@);
        let s = rest(views(v@), from as int);
        lemma_subst_all(name@, value@, s);
        assert(views(out@) =~= subst_all(name@, value@, s)) by {
            assert forall|j: int| 0 <= j < out@.len() implies #[trigger] views(out@)[j] == subst_all(name@, value@, s)[j] by {
                assert(out@[(j + from) - from]@ == subst(name@, value@, v@[j + from]@));
            }
        }
    }
    out
}

/// An evaluator: the stack of scopes that its evaluations share.
#[derive(Debug)]
pub struct Runtime {
    stack: Vec<Frame>,
}

impl View for Runtime {
    type V = Scopes;

    closed spec fn view(&self) -> Scopes {
        self.stack@.map_values(|f: Frame| f@)
    }
}

impl Runtime {
    /// An evaluator with no scopes.
    pub fn new() -> (r: Self)
        ensures
            r@ == Seq::<Map<Seq<char>, Term>>::empty(),
    {
        let r = Runtime { stack: Vec::new() };
        assert(r@ =~= Seq::<Map<Seq<char>, Term>>::empty());
        r
    }

    /// The value that `name` resolves to.
    fn lookup(&self, name: &String) -> (r: Option<&Expr>)
        ensures
            r is Some == resolve(self@, name@) is Some,
            r is Some ==> resolve(self@, name@) == Some(r->0@),
    {
        let mut i: usize = self.stack.len();
        assert(self@.subrange(0, i as int) =~= self@);
        while i > 0
            invariant
                i <= self.stack.len(),
                resolve(self@, name@) == resolve(self@.subrange(0, i as int), name@),
            decreases i,
        {
            let found = self.stack[i - 1].lookup(name);
            proof {
                let pre = self@.subrange(0, i as int);
                assert(self@.len() == self.stack@.len());
                assert(pre.last() == self.stack@[i - 1]@);
                assert(pre.drop_last() =~= self@.subrange(0, i - 1));
            }
            if found.is_some() {
                return found;
            }
            i = i - 1;
        }
        None
    }

    /// Enters a scope that binds `name` to `value`.
    fn enter(&mut self, name: String, value: Expr)
        ensures
            final(self)@ == enter(old(self)@, name@, value@),
    {
        let f = Frame::new(name, value);
        self.stack.push(f);
        proof { assert(self@ =~= enter(old(self)@, name@, value@)); }
    }

    /// Leaves the innermost scope, if there is one.
    fn leave(&mut self)
        ensures
            final(self)@ == leave(old(self)@),
    {
        if self.stack.len() > 0 {
            let _ = self.stack.pop();
            proof { assert(self@ =~= leave(old(self)@)); }
        }
    }

    /// Binds `name` to `value` in the innermost scope, opening one when there is none.
    fn push_var(&mut self, name: String, value: Expr)
        ensures
            final(self)@ == merge(old(self)@, name@, value@),
    {
        if self.stack.len() > 0 {
            let mut f = self.stack.pop().unwrap();
            f.push(name, value);
            self.stack.push(f);
            proof { assert(self@ =~= merge(old(self)@, name@, value@)); }
        } else {
            self.enter(name, value);
        }
    }

    /// Rewrites `ast`, replacing each free occurrence of `name` by `value`.
    pub fn replace_free(&self, name: &String, value: &Expr, ast: Expr) -> (r: Expr)
        ensures
            r@ == subst(name@, value@, ast@),
    {
        substitute(name, value, &ast)
    }

    /// Evaluates `ast` in the current scopes.
    pub fn eval(&mut self, ast: &Expr) -> (r: Result<Expr, EvalError>)
        ensures
            (final(self)@, outcome(r)) == eval_spec(old(self)@, ast@, MAX_DEPTH as nat),
    {
        self.eval_at(ast, MAX_DEPTH)
    }

    fn eval_at(&mut self, ast: &Expr, depth: usize) -> (r: Result<Expr, EvalError>)
        ensures
            (final(self)@, outcome(r)) == eval_spec(old(self)@, ast@, depth as nat),
        decreases depth, 2nat,
    {
        if depth == 0 {
            return Err(EvalError::TooDeep);
        }
        let d = depth - 1;
        match ast {
            Expr::Var { name } => match self.lookup(name) {
                Some(v) => {
                    let v = v.copy();
                    self.eval_at(&v, d)
                },
                None => Err(EvalError::Undefined(name.clone())),
            },
            Expr::Literal(l) => Ok(Expr::Literal(l.copy())),
            Expr::Keyword(_) => Err(EvalError::CannotEvaluate(ast.copy())),
            Expr::Expr { operator, operands } => {
            assert(ast@ == Term::App(Box::new((**operator)@), views(operands@)));
            match &**operator {
                Expr::Keyword(k) => match k {
                    Keyword::Def => self.eval_def(operands, depth),
                    Keyword::Lambda => self.eval_lambda(operands, depth),
                    Keyword::Id => self.eval_id(operands, depth),
                    Keyword::Ignore => self.eval_ignore(operands, depth),
                    Keyword::Nil => Ok(Expr::Literal(Literal::Nil)),
                    _ => Err(EvalError::NotImplemented(*k)),
                },
                Expr::Expr { operator: inner, operands: inner_args } => {
                    let mut all: Vec<Expr> = Vec::new();
                    copy_from(inner_args, 0, &mut all);
                    copy_from(operands, 0, &mut all);
                    proof {
                        assert(views(Seq::<Expr>::empty()) =~= Seq::<Term>::empty());
                        assert(rest(views(inner_args@), 0) =~= views(inner_args@));
                        assert(rest(views(operands@), 0) =~= views(operands@));
                    }
                    let e = Expr::Expr { operator: Box::new(inner.copy()), operands: all };
                    self.eval_at(&e, d)
                },
                Expr::Var { name } => {
                    let f = self.eval_at(&Expr::Var { name: name.clone() }, d);
                    match f {
                        Err(e) => Err(e),
                        Ok(f) => match f {
                            Expr::Expr { operator: f_op, operands: f_args } => {
                                let mut all = f_args;
                                copy_from(operands, 0, &mut all);
                                proof { assert(rest(views(operands@), 0) =~= views(operands@)); }
                                self.eval_at(&Expr::Expr { operator: f_op, operands: all }, d)
                            },
                            other => {
                                let mut all: Vec<Expr> = Vec::new();
                                copy_from(operands, 0, &mut all);
                                proof {
                                    assert(views(Seq::<Expr>::empty()) =~= Seq::<Term>::empty());
                                    assert(rest(views(operands@), 0) =~= views(operands@));
                                }
                                self.eval_at(&Expr::Expr { operator: Box::new(other), operands: all }, d)
                            },
                        },
                    }
                },
                Expr::Literal(_) => Err(EvalError::CannotEvaluate(ast.copy())),
            }
            },
        }
    }

    fn apply_to(&mut self, head: &Expr, args: Vec<Expr>, depth: usize) -> (r: Result<Expr, EvalError>)
        ensures
            (final(self)@, outcome(r)) == apply_to(old(self)@, head@, views(args@), depth as nat),
        decreases depth, 0nat,
    {
        if depth == 0 {
            return Err(EvalError::TooDeep);
        }
        proof { lemma_views(args@); }
        let r = self.eval_at(head, depth - 1);
        match r {
            Err(e) => Err(e),
            Ok(f) => if args.len() == 0 {
                Ok(f)
            } else {
                self.eval_at(&Expr::Expr { operator: Box::new(f), operands: args }, depth - 1)
            },
        }
    }

    fn eval_def(&mut self, args: &Vec<Expr>, depth: usize) -> (r: Result<Expr, EvalError>)
        ensures
            (final(self)@, outcome(r)) == eval_def(old(self)@, views(args@), depth as nat),
        decreases depth, 1nat,
    {
        proof { lemma_views(args@); }
        if depth == 0 {
            return Err(EvalError::TooDeep);
        }
        if args.len() < 3 {
            return Err(EvalError::Arity(Keyword::Def, args.len()));
        }
        let d = depth - 1;
        match &args[0] {
            Expr::Var { name } => {
                let r = self.eval_at(&args[1], d);
                match r {
                    Err(e) => Err(e),
                    Ok(v) => if args.len() == 3 {
                        let body = substitute(name, &v, &args[2]);
                        self.enter(name.clone(), v);
                        let r2 = self.eval_at(&body, d);
                        self.leave();
                        r2
                    } else {
                        let head = substitute(name, &v, &args[2]);
                        let tail = substitute_from(name, &v, args, 3);
                        self.push_var(name.clone(), v);
                        self.eval_at(&Expr::Expr { operator: Box::new(head), operands: tail }, d)
                    },
                }
            },
            _ => Err(EvalError::InvalidName(args[0].copy())),
        }
    }

    fn eval_lambda(&mut self, args: &Vec<Expr>, depth: usize) -> (r: Result<Expr, EvalError>)
        ensures
            (final(self)@, outcome(r)) == eval_lambda(old(self)@, views(args@), depth as nat),
        decreases depth, 1nat,
    {
        proof { lemma_views(args@); }
        if depth == 0 {
            return Err(EvalError::TooDeep);
        }
        if args.len() < 2 {
            return Err(EvalError::Arity(Keyword::Lambda, args.len()));
        }
        if args.len() == 2 {
            let mut all: Vec<Expr> = Vec::new();
            copy_from(args, 0, &mut all);
            proof {
                assert(views(Seq::<Expr>::empty()) =~= Seq::<Term>::empty());
                assert(rest(views(args@), 0) =~= views(args@));
                assert(views(all@) =~= views(args@));
            }
            let res = Expr::Expr { operator: Box::new(Expr::Keyword(Keyword::Lambda)), operands: all };
            assert(Expr::Keyword(Keyword::Lambda)@ == Term::Form(Keyword::Lambda));
            assert(res@ == Term::App(Box::new(Expr::Keyword(Keyword::Lambda)@), views(all@)));
            assert(res@ == app(Term::Form(Keyword::Lambda), views(args@)));
            return Ok(res);
        }
        let d = depth - 1;
        let mut more: Vec<Expr> = Vec::new();
        copy_from(args, 3, &mut more);
        proof { assert(views(Seq::<Expr>::empty()) =~= Seq::<Term>::empty()); }
        match &args[0] {
            Expr::Var { name } => {
                let r = self.eval_at(&args[2], d);
                match r {
                    Err(e) => Err(e),
                    Ok(v) => {
                        proof { lemma_views(more@); }
                        let head = if more.len() == 0 {
                            substitute(name, &v, &args[1])
                        } else {
                            args[1].copy()
                        };
                        self.enter(name.clone(), v);
                        let r2 = self.apply_to(&head, more, depth);
                        self.leave();
                        r2
                    },
                }
            },
            Expr::Literal(expected) => {
                let r = self.eval_at(&args[2], d);
                match r {
                    Err(e) => Err(e),
                    Ok(a) => {
                        let matched = match &a {
                            Expr::Literal(l) => l.same(expected),
                            _ => false,
                        };
                        if matched {
                            self.apply_to(&args[1], more, depth)
                        } else {
                            Err(EvalError::Mismatch(expected.copy(), a))
                        }
                    },
                }
            },
            Expr::Keyword(Keyword::Ignore) => {
                let r = self.eval_at(&args[2], d);
                match r {
                    Err(e) => Err(e),
                    Ok(_) => self.apply_to(&args[1], more, depth),
                }
            },
            _ => Err(EvalError::InvalidParam(args[0].copy())),
        }
    }

    fn eval_id(&mut self, args: &Vec<Expr>, depth: usize) -> (r: Result<Expr, EvalError>)
        ensures
            (final(self)@, outcome(r)) == eval_id(old(self)@, views(args@), depth as nat),
        decreases depth, 1nat,
    {
        proof { lemma_views(args@); }
        if args.len() == 0 {
            let none: Vec<Expr> = Vec::new();
            proof { assert(views(none@) =~= views(args@)); }
            let res = Expr::Expr { operator: Box::new(Expr::Keyword(Keyword::Id)), operands: none };
            assert(Expr::Keyword(Keyword::Id)@ == Term::Form(Keyword::Id));
            assert(res@ == Term::App(Box::new(Expr::Keyword(Keyword::Id)@), views(none@)));
            assert(res@ == app(Term::Form(Keyword::Id), views(args@)));
            return Ok(res);
        }
        let mut more: Vec<Expr> = Vec::new();
        copy_from(args, 1, &mut more);
        proof { assert(views(Seq::<Expr>::empty()) =~= Seq::<Term>::empty()); }
        self.apply_to(&args[0], more, depth)
    }

    fn eval_ignore(&mut self, args: &Vec<Expr>, depth: usize) -> (r: Result<Expr, EvalError>)
        ensures
            (final(self)@, outcome(r)) == eval_ignore(old(self)@, views(args@), depth as nat),
        decreases depth, 1nat,
    {
        proof { lemma_views(args@); }
        if args.len() == 0 {
            return Ok(Expr::Keyword(Keyword::Ignore));
        }
        if args.len() <= 2 {
            return Ok(Expr::Literal(Literal::Nil));
        }
        let mut more: Vec<Expr> = Vec::new();
        copy_from(args, 2, &mut more);
        proof { assert(views(Seq::<Expr>::empty()) =~= Seq::<Term>::empty()); }
        self.apply_to(&args[1], more, depth)
    }
}

} // verus!
