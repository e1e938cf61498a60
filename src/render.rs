use vstd::prelude::*;
use vstd::string::StringExecFns;
use crate::expr::{lemma_views, views, Expr, Term};
use crate::keywords::{keyword_symbol, Keyword};
use crate::evaluator::{EvalError, Fault};
use crate::lexer::{Lex, Lexem};
use crate::literal::{num_key, num_value, Literal, NumKey, NumValue, Val};
use crate::text::{chars_of, push_char};
use crate::parser::{SyntaxError, SyntaxFault};

verus! {

/// The largest power of ten that a number is written out to in full.
pub const MAX_SHOWN_EXPONENT: i128 = 400;

pub open spec fn zeros(n: nat) -> Seq<char> {
    Seq::new(n, |i: int| '0')
}

/// Significant digits `sig` scaled by ten to the power `e`, in positional notation.
pub open spec fn positional(sig: Seq<char>, e: int) -> Seq<char> {
    if e >= 0 {
        sig + zeros(e as nat)
    } else if -e < sig.len() {
        sig.take(sig.len() + e) + seq!['.'] + sig.skip(sig.len() + e)
    } else {
        seq!['0', '.'] + zeros((-e - sig.len()) as nat) + sig
    }
}

/// How a number is written back: its value in positional notation (`NaN`,
/// `inf` and `-inf` for the non-finite ones), or the numeral itself when its
/// value is not available or too far from one.
pub open spec fn render_num(s: Seq<char>) -> Seq<char> {
    match num_value(s) {
        Some(NumValue::Nan) => seq!['N', 'a', 'N'],
        Some(NumValue::Inf(neg)) => if neg { seq!['-', 'i', 'n', 'f'] } else { seq!['i', 'n', 'f'] },
        Some(NumValue::Zero) => if s.len() > 0 && s[0] == '-' { seq!['-', '0'] } else { seq!['0'] },
        Some(NumValue::Finite(neg, sig, e)) => if -MAX_SHOWN_EXPONENT <= e <= MAX_SHOWN_EXPONENT {
            (if neg { seq!['-'] } else { Seq::empty() }) + positional(sig, e)
        } else {
            s
        },
        None => s,
    }
}

/// How a literal is written back: a number by `render_num`, a string between
/// single quotes, nil as `Φ`.
pub open spec fn render_val(v: Val) -> Seq<char> {
    match v {
        Val::Num(s) => render_num(s),
        Val::Text(s) => seq!['\''] + s + seq!['\''],
        Val::Nil => seq!['Φ'],
    }
}

/// How a tree is written back: an application as `(operator operand ...)`.
pub open spec fn render(t: Term) -> Seq<char>
    decreases t,
{
    match t {
        Term::App(op, args) => seq!['('] + render(*op) + render_operands(args) + seq![')'],
        Term::Var(n) => n,
        Term::Lit(v) => render_val(v),
        Term::Form(k) => keyword_symbol(k),
    }
}

/// Each tree of `s`, with a space before it.
pub open spec fn render_operands(s: Seq<Term>) -> Seq<char>
    decreases s,
{
    if s.len() == 0 {
        Seq::empty()
    } else {
        render_operands(s.drop_last()) + seq![' '] + render(s.last())
    }
}

/// The decimal digits of `n`.
pub open spec fn decimal(n: nat) -> Seq<char>
    decreases n,
{
    if n < 10 {
        seq![digit_char(n)]
    } else {
        decimal(n / 10) + seq![digit_char(n % 10)]
    }
}

pub open spec fn digit_char(d: nat) -> char {
    if d < 10 { (('0' as nat) + d) as char } else { '?' }
}

fn digit_str(d: usize) -> (r: &'static str)
    requires
        d < 10,
    ensures
        r@ == seq![digit_char(d as nat)],
{
    proof {
        reveal_strlit("0");
        reveal_strlit("1");
        reveal_strlit("2");
        reveal_strlit("3");
        reveal_strlit("4");
        reveal_strlit("5");
        reveal_strlit("6");
        reveal_strlit("7");
        reveal_strlit("8");
        reveal_strlit("9");
    }
    let r = if d == 0 { "0" } else if d == 1 { "1" } else if d == 2 { "2" } else if d == 3 { "3" }
        else if d == 4 { "4" } else if d == 5 { "5" } else if d == 6 { "6" } else if d == 7 { "7" }
        else if d == 8 { "8" } else { "9" };
    assert(r@ =~= seq![digit_char(d as nat)]);
    r
}

/// The decimal digits of `n`.
pub fn decimal_text(n: usize) -> (r: String)
    ensures
        r@ == decimal(n as nat),
    decreases n,
{
    if n < 10 {
        String::from_str(digit_str(n))
    } else {
        let high = decimal_text(n / 10);
        high.concat(digit_str(n % 10))
    }
}

/// Appends `n` zeros to `out`.
fn push_zeros(out: &mut String, n: usize)
    ensures
        final(out)@ == old(out)@ + zeros(n as nat),
{
    let mut i: usize = 0;
    while i < n
        invariant
            i <= n,
            out@ == old(out)@ + zeros(i as nat),
        decreases n - i,
    {
        push_char(out, '0');
        i = i + 1;
        assert(out@ =~= old(out)@ + zeros(i as nat));
    }
}

/// Appends `d[lo..hi]` to `out`.
fn push_chars(out: &mut String, d: &Vec<char>, lo: usize, hi: usize)
    requires
        lo <= hi <= d.len(),
    ensures
        final(out)@ == old(out)@ + d@.subrange(lo as int, hi as int),
{
    let mut i: usize = lo;
    while i < hi
        invariant
            lo <= i <= hi <= d.len(),
            out@ == old(out)@ + d@.subrange(lo as int, i as int),
        decreases hi - i,
    {
        push_char(out, d[i]);
        i = i + 1;
        assert(out@ =~= old(out)@ + d@.subrange(lo as int, i as int));
    }
}

/// A number written back, by `render_num`.
fn num_text(s: &String) -> (r: String)
    ensures
        r@ == render_num(s@),
{
    let cs = chars_of(s.as_str());
    let mut out = String::new();
    match num_key(&cs) {
        Some(NumKey::Nan) => {
            push_char(&mut out, 'N');
            push_char(&mut out, 'a');
            push_char(&mut out, 'N');
        },
        Some(NumKey::Inf(neg)) => {
            if neg {
                push_char(&mut out, '-');
            }
            push_char(&mut out, 'i');
            push_char(&mut out, 'n');
            push_char(&mut out, 'f');
        },
        Some(NumKey::Zero) => {
            if cs.len() > 0 && cs[0] == '-' {
                push_char(&mut out, '-');
            }
            push_char(&mut out, '0');
        },
        Some(NumKey::Finite(neg, sig, e)) => {
            if e < -MAX_SHOWN_EXPONENT || e > MAX_SHOWN_EXPONENT {
                return s.clone();
            }
            if neg {
                push_char(&mut out, '-');
            }
            let ghost start = out@;
            let n = sig.len();
            if e >= 0 {
                push_chars(&mut out, &sig, 0, n);
                push_zeros(&mut out, e as usize);
                assert(sig@.subrange(0, n as int) =~= sig@);
            } else if -e < n as i128 {
                let cut = (n as i128 + e) as usize;
                push_chars(&mut out, &sig, 0, cut);
                push_char(&mut out, '.');
                push_chars(&mut out, &sig, cut, n);
                assert(sig@.subrange(0, cut as int) =~= sig@.take(cut as int));
                assert(sig@.subrange(cut as int, n as int) =~= sig@.skip(cut as int));
            } else {
                push_char(&mut out, '0');
                push_char(&mut out, '.');
                push_zeros(&mut out, (-e - n as i128) as usize);
                push_chars(&mut out, &sig, 0, n);
                assert(sig@.subrange(0, n as int) =~= sig@);
            }
            assert(out@ =~= start + positional(sig@, e as int));
        },
        None => {
            return s.clone();
        },
    }
    assert(out@ =~= render_num(s@));
    out
}

impl Literal {
    /// This literal written back as text.
    pub fn to_text(&self) -> (r: String)
        ensures
            r@ == render_val(self@),
    {
        match self {
            Literal::Num(s) => num_text(s),
            Literal::String(s) => {
                proof { reveal_strlit("'"); }
                let r = String::from_str("'").concat(s.as_str()).concat("'");
                assert(r@ =~= render_val(self@));
                r
            },
            Literal::Nil => {
                proof { reveal_strlit("Φ"); }
                let r = String::from_str("Φ");
                assert(r@ =~= render_val(self@));
                r
            },
        }
    }
}

impl Expr {
    /// This node written back in the language's syntax.
    pub fn to_text(&self) -> (r: String)
        ensures
            r@ == render(self@),
        decreases self,
    {
        match self {
            Expr::Expr { operator, operands } => {
                proof {
                    reveal_strlit("(");
                    reveal_strlit(" ");
                    reveal_strlit(")");
                    lemma_views(operands@);
                }
                let mut out = String::from_str("(").concat(operator.to_text().as_str());
                let ghost head = seq!['('] + render((**operator)@);
                assert(out@ =~= head);
                let mut i: usize = 0;
                assert(decreases_to!(*self => *operands));
                while i < operands.len()
                    invariant
                        i <= operands.len(),
                        views(operands@).len() == operands.len(),
                        forall|j: int| 0 <= j < operands.len() ==> #[trigger] views(operands@)[j] == operands@[j]@,
                        out@ == head + render_operands(views(operands@).take(i as int)),
                        decreases_to!(*self => *operands),
                    decreases operands.len() - i,
                {
                    let item = &operands[i];
                    assert(decreases_to!(*operands => operands[i as int]));
                    let t = item.to_text();
                    let ghost pre = views(operands@).take(i as int);
                    let ghost before = out@;
                    proof {
                        reveal_strlit(" ");
                        assert(" "@ =~= seq![' ']);
                    }
                    out = out.concat(" ").concat(t.as_str());
                    proof {
                        let nxt = views(operands@).take(i + 1);
                        assert(nxt.drop_last() =~= pre);
                        assert(nxt.last() == operands@[i as int]@);
                        assert(render_operands(nxt) == render_operands(nxt.drop_last()) + seq![' '] + render(nxt.last()));
                        assert(t@ == render(nxt.last()));
                        assert(out@ =~= before + seq![' '] + t@);
                        assert(out@ =~= head + render_operands(nxt));
                    }
                    i = i + 1;
                }
                assert(views(operands@).take(operands.len() as int) =~= views(operands@));
                let r = out.concat(")");
                assert(r@ =~= render(self@));
                r
            },
            Expr::Var { name } => name.clone(),
            Expr::Literal(l) => l.to_text(),
            Expr::Keyword(k) => String::from_str(k.symbol()),
        }
    }
}

/// The text of an evaluation fault.
pub open spec fn fault_text(f: Fault) -> Seq<char> {
    match f {
        Fault::Undefined(n) => "Variable '"@ + n + "' is not defined"@,
        Fault::Arity(k, n) => if k == Keyword::Def {
            "def (δ): 3 arguments expected, "@ + decimal(n) + " provided. Example usage: (δ x 5 (ι x))"@
        } else if k == Keyword::Lambda {
            "lambda (λ): 2 or more arguments expected, "@ + decimal(n) + " provided."@
        } else {
            keyword_symbol(k) + ": wrong number of arguments, "@ + decimal(n) + " provided."@
        },
        Fault::Mismatch(v, t) => "lambda (λ) expected '"@ + render_val(v) + "' but received '"@ + render(t) + "'"@,
        Fault::InvalidName(t) => "invalid variable name '"@ + render(t) + "'"@,
        Fault::InvalidParam(t) => "Invalid lambda (λ) argument: "@ + render(t),
        Fault::NotImplemented(k) => keyword_symbol(k) + " is not implemented"@,
        Fault::CannotEvaluate(t) => "cannot evaluate '"@ + render(t) + "'"@,
        Fault::TooDeep => "evaluation nested too deeply"@,
    }
}

/// How a lexeme is written.
pub open spec fn lex_text(l: Lex) -> Seq<char> {
    match l {
        Lex::Form(k) => keyword_symbol(k),
        Lex::Lit(v) => render_val(v),
        Lex::Open => seq!['('],
        Lex::Close => seq![')'],
        Lex::Ident(n) => n,
    }
}

/// The text of a syntax fault.
pub open spec fn syntax_text(f: SyntaxFault) -> Seq<char> {
    match f {
        SyntaxFault::End => "unexpected end of input"@,
        SyntaxFault::Unexpected(l) => "unexpected token '"@ + lex_text(l) + "'"@,
    }
}

fn join3(a: &str, b: String, c: &str) -> (r: String)
    ensures
        r@ == a@ + b@ + c@,
{
    String::from_str(a).concat(b.as_str()).concat(c)
}

impl Lexem {
    /// This lexeme as it is written.
    pub fn to_text(&self) -> (r: String)
        ensures
            r@ == lex_text(self@),
    {
        match self {
            Lexem::Keyword(k) => String::from_str(k.symbol()),
            Lexem::Literal(l) => l.to_text(),
            Lexem::ParenthesisOpen => {
                proof { reveal_strlit("("); }
                let r = String::from_str("(");
                assert(r@ =~= seq!['(']);
                r
            },
            Lexem::ParenthesisClose => {
                proof { reveal_strlit(")"); }
                let r = String::from_str(")");
                assert(r@ =~= seq![')']);
                r
            },
            Lexem::Identifier(n) => n.clone(),
        }
    }
}

impl SyntaxError {
    /// A description of this error.
    pub fn message(&self) -> (r: String)
        ensures
            r@ == syntax_text(self@),
    {
        match self {
            SyntaxError::UnexpectedEnd => String::from_str("unexpected end of input"),
            SyntaxError::Unexpected(l) => join3("unexpected token '", l.to_text(), "'"),
        }
    }
}

impl EvalError {
    /// A description of this error.
    pub fn message(&self) -> (r: String)
        ensures
            r@ == fault_text(self@),
    {
        proof { reveal_strlit(""); }
        let r = match self {
            EvalError::Undefined(n) => join3("Variable '", n.clone(), "' is not defined"),
            EvalError::Arity(k, n) => {
                if *k == Keyword::Def {
                    join3("def (δ): 3 arguments expected, ", decimal_text(*n), " provided. Example usage: (δ x 5 (ι x))")
                } else if *k == Keyword::Lambda {
                    join3("lambda (λ): 2 or more arguments expected, ", decimal_text(*n), " provided.")
                } else {
                    String::from_str(k.symbol()).concat(": wrong number of arguments, ")
                        .concat(decimal_text(*n).as_str()).concat(" provided.")
                }
            },
            EvalError::Mismatch(v, t) => {
                let head = join3("lambda (λ) expected '", v.to_text(), "' but received '");
                head.concat(t.to_text().as_str()).concat("'")
            },
            EvalError::InvalidName(t) => join3("invalid variable name '", t.to_text(), "'"),
            EvalError::InvalidParam(t) => join3("Invalid lambda (λ) argument: ", t.to_text(), ""),
            EvalError::NotImplemented(k) => String::from_str(k.symbol()).concat(" is not implemented"),
            EvalError::CannotEvaluate(t) => join3("cannot evaluate '", t.to_text(), "'"),
            EvalError::TooDeep => String::from_str("evaluation nested too deeply"),
        };
        assert(r@ =~= fault_text(self@));
        r
    }
}

} // verus!
