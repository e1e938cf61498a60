use vstd::prelude::*;
use crate::expr::{lemma_views, views, Expr, Term};
use crate::keywords::Keyword;
use crate::lexer::{lexems_of, Lex, Lexem, Token};
use crate::literal::{Literal, Val};

verus! {

/// What can go wrong in a parse, as a mathematical value.
pub enum SyntaxFault {
    End,
    Unexpected(Lex),
}

/// A syntax error: the input ended too soon, or a token stood where it cannot.
#[derive(Debug)]
pub enum SyntaxError {
    UnexpectedEnd,
    Unexpected(Lexem),
}

impl View for SyntaxError {
    type V = SyntaxFault;

    open spec fn view(&self) -> SyntaxFault {
        match self {
            SyntaxError::UnexpectedEnd => SyntaxFault::End,
            SyntaxError::Unexpected(l) => SyntaxFault::Unexpected(l@),
        }
    }
}

/// What a parse produced and the position of the first token after it.
#[derive(Debug)]
pub struct ParseResult<T> {
    pub expr: T,
    pub next_position: usize,
}

impl<T> ParseResult<T> {
    /// What was parsed.
    pub fn expr(&self) -> (r: &T)
        ensures
            *r == self.expr,
    {
        &self.expr
    }

    /// The position of the first token after what was parsed.
    pub fn next_position(&self) -> (r: usize)
        ensures
            r == self.next_position,
    {
        self.next_position
    }
}

/// An application of `op` to `args`, with an application in operator
/// position spliced in: its operands come first.
pub open spec fn flatten(op: Term, args: Seq<Term>) -> Term {
    match op {
        Term::App(inner, inner_args) => Term::App(inner, inner_args + args),
        _ => Term::App(Box::new(op), args),
    }
}

/// Parses one node at position `p`.
pub open spec fn parse_spec(ts: Seq<Lex>, p: int) -> Result<(Term, int), SyntaxFault>
    decreases ts.len() - p, 2int,
{
    if p < 0 || p >= ts.len() {
        Err(SyntaxFault::End)
    } else {
        match ts[p] {
            Lex::Form(k) => Ok((Term::Form(k), p + 1)),
            Lex::Lit(v) => Ok((Term::Lit(v), p + 1)),
            Lex::Ident(n) => Ok((Term::Var(n), p + 1)),
            Lex::Open => parse_expression_spec(ts, p),
            Lex::Close => Err(SyntaxFault::Unexpected(Lex::Close)),
        }
    }
}

/// Parses the parenthesized application whose `(` stands at position `p`.
pub open spec fn parse_expression_spec(ts: Seq<Lex>, p: int) -> Result<(Term, int), SyntaxFault>
    decreases ts.len() - p, 1int,
{
    if p < 0 || p + 1 >= ts.len() {
        Err(SyntaxFault::End)
    } else {
        match ts[p + 1] {
            Lex::Lit(_) | Lex::Close => match parse_list_spec(ts, p + 1) {
                Err(e) => Err(e),
                Ok((ops, q)) => if ops.len() == 0 {
                    Err(SyntaxFault::Unexpected(ts[p + 1]))
                } else {
                    Ok((Term::App(Box::new(Term::Form(Keyword::Id)), ops), q))
                },
            },
            _ => {
                let op: Result<(Term, int), SyntaxFault> = match ts[p + 1] {
                    Lex::Ident(n) => Ok((Term::Var(n), p + 2)),
                    Lex::Form(k) => Ok((Term::Form(k), p + 2)),
                    _ => parse_expression_spec(ts, p + 1),
                };
                match op {
                    Err(e) => Err(e),
                    Ok((o, q)) => if q <= p || q > ts.len() {
                        Err(SyntaxFault::End)
                    } else {
                        match parse_list_spec(ts, q) {
                            Err(e) => Err(e),
                            Ok((ops, q2)) => Ok((flatten(o, ops), q2)),
                        }
                    },
                }
            },
        }
    }
}

/// Parses nodes from position `p` up to and including the next `)` at this level.
pub open spec fn parse_list_spec(ts: Seq<Lex>, p: int) -> Result<(Seq<Term>, int), SyntaxFault>
    decreases ts.len() - p, 3int,
{
    if p < 0 || p >= ts.len() {
        Err(SyntaxFault::End)
    } else if ts[p] == Lex::Close {
        Ok((Seq::empty(), p + 1))
    } else {
        match parse_spec(ts, p) {
            Err(e) => Err(e),
            Ok((e, q)) => if q <= p || q > ts.len() {
                Err(SyntaxFault::End)
            } else {
                match parse_list_spec(ts, q) {
                    Err(err) => Err(err),
                    Ok((es, q2)) => Ok((seq![e] + es, q2)),
                }
            },
        }
    }
}

/// Parses a whole token stream: nil when it is empty.
pub open spec fn run_parser_spec(ts: Seq<Lex>) -> Result<(Term, int), SyntaxFault> {
    if ts.len() == 0 {
        Ok((Term::Lit(Val::Nil), 1))
    } else {
        parse_spec(ts, 0)
    }
}

/// The mathematical value of a node parse's outcome.
pub open spec fn parsed(r: Result<ParseResult<Expr>, SyntaxError>) -> Result<(Term, int), SyntaxFault> {
    match r {
        Ok(pr) => Ok((pr.expr@, pr.next_position as int)),
        Err(e) => Err(e@),
    }
}

/// The mathematical value of a list parse's outcome.
pub open spec fn parsed_list(r: Result<ParseResult<Vec<Expr>>, SyntaxError>) -> Result<(Seq<Term>, int), SyntaxFault> {
    match r {
        Ok(pr) => Ok((views(pr.expr@), pr.next_position as int)),
        Err(e) => Err(e@),
    }
}

fn parse(tokens: &Vec<Token>, position: usize) -> (r: Result<ParseResult<Expr>, SyntaxError>)
    requires
        position <= tokens.len(),
    ensures
        parsed(r) == parse_spec(lexems_of(tokens@), position as int),
        r is Ok ==> position < r->Ok_0.next_position <= tokens.len(),
    decreases tokens.len() - position, 2int,
{
    let ghost ts = lexems_of(tokens@);
    if position >= tokens.len() {
        return Err(SyntaxError::UnexpectedEnd);
    }
    assert(ts[position as int] == tokens@[position as int].0@);
    match &tokens[position].0 {
        Lexem::Keyword(k) => Ok(ParseResult { expr: Expr::Keyword(*k), next_position: position + 1 }),
        Lexem::Literal(l) => Ok(ParseResult { expr: Expr::Literal(l.copy()), next_position: position + 1 }),
        Lexem::Identifier(n) => Ok(ParseResult { expr: Expr::Var { name: n.clone() }, next_position: position + 1 }),
        Lexem::ParenthesisOpen => parse_expression(tokens, position),
        Lexem::ParenthesisClose => Err(SyntaxError::Unexpected(Lexem::ParenthesisClose)),
    }
}

fn parse_expression(tokens: &Vec<Token>, position: usize) -> (r: Result<ParseResult<Expr>, SyntaxError>)
    requires
        position < tokens.len(),
    ensures
        parsed(r) == parse_expression_spec(lexems_of(tokens@), position as int),
        r is Ok ==> position < r->Ok_0.next_position <= tokens.len(),
    decreases tokens.len() - position, 1int,
{
    let ghost ts = lexems_of(tokens@);
    if position + 1 >= tokens.len() {
        return Err(SyntaxError::UnexpectedEnd);
    }
    let head = &tokens[position + 1].0;
    assert(ts[position + 1] == head@);
    let op: Expr = match head {
        Lexem::Literal(_) | Lexem::ParenthesisClose => {
            let list = parse_list(tokens, position + 1);
            return match list {
                Err(e) => Err(e),
                Ok(ParseResult { expr: ops, next_position }) => {
                    proof { lemma_views(ops@); }
                    if ops.len() == 0 {
                        Err(SyntaxError::Unexpected(head.copy()))
                    } else {
                        let e = Expr::Expr { operator: Box::new(Expr::Keyword(Keyword::Id)), operands: ops };
                        assert(Expr::Keyword(Keyword::Id)@ == Term::Form(Keyword::Id));
                        Ok(ParseResult { expr: e, next_position })
                    }
                },
            };
        },
        Lexem::Identifier(n) => Expr::Var { name: n.clone() },
        Lexem::Keyword(k) => Expr::Keyword(*k),
        Lexem::ParenthesisOpen => {
            match parse_expression(tokens, position + 1) {
                Err(e) => {
                    return Err(e);
                },
                Ok(pr) => {
                    let ParseResult { expr, next_position } = pr;
                    let list = parse_list(tokens, next_position);
                    return match list {
                        Err(e) => Err(e),
                        Ok(ParseResult { expr: ops, next_position: q2 }) => {
                            Ok(ParseResult { expr: flatten_exec(expr, ops), next_position: q2 })
                        },
                    };
                },
            }
        },
    };
    let list = parse_list(tokens, position + 2);
    match list {
        Err(e) => Err(e),
        Ok(ParseResult { expr: ops, next_position: q2 }) => {
            Ok(ParseResult { expr: flatten_exec(op, ops), next_position: q2 })
        },
    }
}

/// The application of `op` to `ops`, curry-flattened.
fn flatten_exec(op: Expr, ops: Vec<Expr>) -> (r: Expr)
    ensures
        r@ == flatten(op@, views(ops@)),
{
    match op {
        Expr::Expr { operator, operands } => {
            let mut all = operands;
            let ghost first = all@;
            let mut i: usize = 0;
            proof {
                lemma_views(ops@);
                lemma_views(first);
            }
            while i < ops.len()
                invariant
                    i <= ops.len(),
                    all@.len() == first.len() + i,
                    forall|j: int| 0 <= j < first.len() ==> #[trigger] all@[j] == first[j],
                    forall|j: int| 0 <= j < i ==> #[trigger] all@[first.len() + j]@ == ops@[j]@,
                decreases ops.len() - i,
            {
                all.push(ops[i].copy());
                i = i + 1;
            }
            proof {
                lemma_views(all@);
                assert(views(all@) =~= views(first) + views(ops@)) by {
                    assert forall|j: int| 0 <= j < all@.len() implies #[trigger] views(all@)[j] == (views(first) + views(ops@))[j] by {
                        if j >= first.len() {
                            assert(all@[first.len() + (j - first.len())]@ == ops@[j - first.len()]@);
                        }
                    }
                }
            }
            Expr::Expr { operator, operands: all }
        },
        _ => Expr::Expr { operator: Box::new(op), operands: ops },
    }
}

fn parse_list(tokens: &Vec<Token>, position: usize) -> (r: Result<ParseResult<Vec<Expr>>, SyntaxError>)
    requires
        position <= tokens.len(),
    ensures
        parsed_list(r) == parse_list_spec(lexems_of(tokens@), position as int),
        r is Ok ==> position < r->Ok_0.next_position <= tokens.len(),
    decreases tokens.len() - position, 3int,
{
    let ghost ts = lexems_of(tokens@);
    if position >= tokens.len() {
        return Err(SyntaxError::UnexpectedEnd);
    }
    assert(ts[position as int] == tokens@[position as int].0@);
    if let Lexem::ParenthesisClose = &tokens[position].0 {
        let none: Vec<Expr> = Vec::new();
        proof { assert(views(none@) =~= Seq::<Term>::empty()); }
        return Ok(ParseResult { expr: none, next_position: position + 1 });
    }
    match parse(tokens, position) {
        Err(e) => Err(e),
        Ok(ParseResult { expr: e, next_position: q }) => match parse_list(tokens, q) {
            Err(err) => Err(err),
            Ok(ParseResult { expr: es, next_position: q2 }) => {
                let ghost tail = es@;
                let mut all: Vec<Expr> = Vec::new();
                all.push(e);
                let mut i: usize = 0;
                proof { lemma_views(tail); }
                while i < es.len()
                    invariant
                        i <= es.len(),
                        es@ == tail,
                        all@.len() == 1 + i,
                        all@[0]@ == e@,
                        forall|j: int| 0 <= j < i ==> #[trigger] all@[1 + j]@ == tail[j]@,
                    decreases es.len() - i,
                {
                    all.push(es[i].copy());
                    i = i + 1;
                }
                proof {
                    lemma_views(all@);
                    assert(views(all@) =~= seq![e@] + views(tail)) by {
                        assert forall|j: int| 0 <= j < all@.len() implies #[trigger] views(all@)[j] == (seq![e@] + views(tail))[j] by {
                            if j >= 1 {
                                assert(all@[1 + (j - 1)]@ == tail[j - 1]@);
                            }
                        }
                    }
                }
                Ok(ParseResult { expr: all, next_position: q2 })
            },
        },
    }
}

/// Parses a token stream into one node: nil when the stream is empty.
pub fn run_parser(tokens: &Vec<Token>) -> (r: Result<ParseResult<Expr>, SyntaxError>)
    ensures
        parsed(r) == run_parser_spec(lexems_of(tokens@)),
{
    if tokens.len() == 0 {
        return Ok(ParseResult { expr: Expr::Literal(Literal::Nil), next_position: 1 });
    }
    parse(tokens, 0)
}

} // verus!
