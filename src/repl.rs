use vstd::prelude::*;
use vstd::string::{StrSliceExecFns, StringExecFns};
use crate::evaluator::{eval_spec, Runtime, MAX_DEPTH};
use crate::expr::{Expr, Term};
use crate::lexer::{flush, is_space, is_space_exec, scan, Lexer, ScanState};
use crate::parser::run_parser_spec;
use crate::render::{fault_text, syntax_text};
use crate::text::chars_of;

verus! {

/// The state of a tokenizer that has read nothing.
pub open spec fn fresh_scan() -> ScanState {
    ScanState { buf: Seq::empty(), in_string: false, toks: Seq::empty(), failed: None }
}

/// What reading `src` gives: the tree, or the text of the lexical or syntax error.
pub open spec fn read_spec(src: Seq<char>) -> Result<Term, Seq<char>> {
    let st = flush(scan(fresh_scan(), src));
    if st.failed is Some {
        Err("Cannot parse "@ + st.failed->0)
    } else {
        match run_parser_spec(st.toks) {
            Ok((t, _)) => Ok(t),
            Err(f) => Err(syntax_text(f)),
        }
    }
}

/// Tokenizes and parses `src`.
pub fn parse_source(src: &String) -> (r: Result<Expr, String>)
    ensures
        match read_spec(src@) {
            Ok(t) => r is Ok && r->Ok_0@ == t,
            Err(m) => r is Err && r->Err_0@ == m,
        },
{
    let mut lexer = Lexer::new();
    match lexer.lex(src) {
        Err(m) => Err(m),
        Ok(()) => match crate::parser::run_parser(lexer.lexems()) {
            Ok(pr) => Ok(pr.expr),
            Err(e) => Err(e.message()),
        },
    }
}

/// Reads `src` and evaluates it in `runtime`; an error comes back as its text.
pub fn evaluate_source(runtime: &mut Runtime, src: &String) -> (r: Result<Expr, String>)
    ensures
        match read_spec(src@) {
            Err(m) => r is Err && r->Err_0@ == m && final(runtime)@ == old(runtime)@,
            Ok(t) => {
                let (fs, res) = eval_spec(old(runtime)@, t, MAX_DEPTH as nat);
                &&& final(runtime)@ == fs
                &&& match res {
                    Ok(v) => r is Ok && r->Ok_0@ == v,
                    Err(f) => r is Err && r->Err_0@ == fault_text(f),
                }
            },
        },
{
    match parse_source(src) {
        Err(m) => Err(m),
        Ok(ast) => match runtime.eval(&ast) {
            Ok(v) => Ok(v),
            Err(e) => Err(e.message()),
        },
    }
}

/// What the host does with a line of input.
#[derive(Debug)]
pub enum Command {
    /// Stop reading.
    Exit,
    /// Read the file at this path and handle its contents as input.
    Load(String),
    /// Evaluate the line.
    Evaluate,
    /// Nothing to do.
    Blank,
}

/// `s` without the separators at either end.
pub open spec fn trimmed(s: Seq<char>) -> Seq<char>
    decreases s.len(),
{
    if s.len() > 0 && is_space(s[0]) {
        trimmed(s.drop_first())
    } else if s.len() > 0 && is_space(s.last()) {
        trimmed(s.drop_last())
    } else {
        s
    }
}

/// The separators at either end of `s[from..to]` removed, as indices.
fn trim_bounds(s: &Vec<char>, from: usize, to: usize) -> (r: (usize, usize))
    requires
        from <= to <= s.len(),
    ensures
        r.0 <= r.1 <= s.len(),
        s@.subrange(r.0 as int, r.1 as int) == trimmed(s@.subrange(from as int, to as int)),
    decreases to - from,
{
    if from < to && is_space_exec(s[from]) {
        proof {
            assert(s@.subrange(from as int, to as int).drop_first() =~= s@.subrange(from + 1, to as int));
        }
        trim_bounds(s, from + 1, to)
    } else if from < to && is_space_exec(s[to - 1]) {
        proof {
            assert(s@.subrange(from as int, to as int).drop_last() =~= s@.subrange(from as int, to - 1));
        }
        trim_bounds(s, from, to - 1)
    } else {
        (from, to)
    }
}

/// Whether `s` begins with `p`.
fn starts_with(s: &Vec<char>, p: &str) -> (r: bool)
    ensures
        r == (p@.len() <= s@.len() && s@.subrange(0, p@.len() as int) == p@),
{
    let n = p.unicode_len();
    if n > s.len() {
        return false;
    }
    let mut i: usize = 0;
    while i < n
        invariant
            i <= n <= s.len(),
            n == p@.len(),
            forall|k: int| 0 <= k < i ==> #[trigger] s@[k] == p@[k],
        decreases n - i,
    {
        if s[i] != p.get_char(i) {
            assert(s@.subrange(0, n as int)[i as int] != p@[i as int]);
            return false;
        }
        i = i + 1;
    }
    assert(s@.subrange(0, n as int) =~= p@);
    true
}

/// The host command that a line of input (without its line break) stands for:
/// `exit`; `load ` followed by a path, taken without surrounding separators;
/// nothing for an empty line; else an expression to evaluate.
pub fn command(input: &String) -> (r: Command)
    ensures
        input@ == "exit"@ <==> r is Exit,
        r is Load <==> (input@ != "exit"@ && input@.len() >= 5 && input@.subrange(0, 5) == "load "@),
        r is Load ==> r->Load_0@ == trimmed(input@.subrange(5, input@.len() as int)),
        r is Blank <==> input@.len() == 0,
{
    proof {
        reveal_strlit("exit");
        reveal_strlit("load ");
        assert("exit"@ =~= seq!['e', 'x', 'i', 't']);
        assert("load "@ =~= seq!['l', 'o', 'a', 'd', ' ']);
    }
    let cs = chars_of(input.as_str());
    proof {
        if cs@.len() == 4 {
            assert(cs@.subrange(0, 4) =~= cs@);
        }
    }
    if cs.len() == 4 && starts_with(&cs, "exit") {
        assert(cs@ =~= cs@.subrange(0, 4));
        return Command::Exit;
    }
    if starts_with(&cs, "load ") {
        let (a, b) = trim_bounds(&cs, 5, cs.len());
        let path = String::from_str(input.as_str().substring_char(a, b));
        return Command::Load(path);
    }
    if cs.len() == 0 {
        assert(input@ != "exit"@);
        Command::Blank
    } else {
        Command::Evaluate
    }
}

} // verus!
