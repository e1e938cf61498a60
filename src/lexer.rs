use vstd::prelude::*;
use vstd::string::StrSliceExecFns;
use crate::keywords::Keyword;
use crate::literal::{is_nil_spelling, is_numeral, string_body, Literal, Val};
use crate::position::Position;
use crate::text::{chars_of, push_char};

verus! {

/// The mathematical value of a lexeme.
pub enum Lex {
    Form(Keyword),
    Lit(Val),
    Open,
    Close,
    Ident(Seq<char>),
}

/// A lexeme of the language.
#[derive(Debug)]
pub enum Lexem {
    Keyword(Keyword),
    Literal(Literal),
    ParenthesisOpen,
    ParenthesisClose,
    Identifier(String),
}

impl View for Lexem {
    type V = Lex;

    open spec fn view(&self) -> Lex {
        match self {
            Lexem::Keyword(k) => Lex::Form(*k),
            Lexem::Literal(l) => Lex::Lit(l@),
            Lexem::ParenthesisOpen => Lex::Open,
            Lexem::ParenthesisClose => Lex::Close,
            Lexem::Identifier(n) => Lex::Ident(n@),
        }
    }
}

impl Lexem {
    /// A copy of this lexeme.
    pub fn copy(&self) -> (r: Lexem)
        ensures
            r@ == self@,
    {
        match self {
            Lexem::Keyword(k) => Lexem::Keyword(*k),
            Lexem::Literal(l) => Lexem::Literal(l.copy()),
            Lexem::ParenthesisOpen => Lexem::ParenthesisOpen,
            Lexem::ParenthesisClose => Lexem::ParenthesisClose,
            Lexem::Identifier(n) => Lexem::Identifier(n.clone()),
        }
    }
}

/// A lexeme with the place where it was read.
pub type Token = (Lexem, Position);

/// The lexemes of a token stream.
pub open spec fn lexems_of(ts: Seq<Token>) -> Seq<Lex> {
    ts.map_values(|t: Token| t.0@)
}

/// The special form that `s` spells, by its symbol or its ASCII alias.
pub open spec fn keyword_of(s: Seq<char>) -> Option<Keyword> {
    if s == seq!['δ'] || s == seq!['d', 'e', 'f'] {
        Some(Keyword::Def)
    } else if s == seq!['ε'] || s == seq!['e', 'x', 't', 'e', 'r', 'n', 'a', 'l'] {
        Some(Keyword::External)
    } else if s == seq!['λ'] || s == seq!['l', 'a', 'm', 'b', 'd', 'a'] {
        Some(Keyword::Lambda)
    } else if s == seq!['-', '>'] {
        Some(Keyword::Arrow)
    } else if s == seq!['ι'] || s == seq!['i', 'd'] {
        Some(Keyword::Id)
    } else if s == seq!['_'] {
        Some(Keyword::Ignore)
    } else if s == seq!['Ω'] || s == seq!['n', 'i', 'h'] {
        Some(Keyword::Nil)
    } else {
        None
    }
}

/// What a non-empty buffer reads as: a special form, a number, a string, nil
/// or an identifier, in that order; nothing when it holds a stray quote.
pub open spec fn classify(s: Seq<char>) -> Option<Lex> {
    if keyword_of(s) is Some {
        Some(Lex::Form(keyword_of(s)->0))
    } else if is_numeral(s) {
        Some(Lex::Lit(Val::Num(s)))
    } else if string_body(s) is Some {
        Some(Lex::Lit(Val::Text(string_body(s)->0)))
    } else if is_nil_spelling(s) {
        Some(Lex::Lit(Val::Nil))
    } else if s.len() > 0 && !s.contains('"') {
        Some(Lex::Ident(s))
    } else {
        None
    }
}

/// The characters that separate tokens (Unicode's White_Space).
pub open spec fn is_space(c: char) -> bool {
    ||| ('\t' <= c && c <= '\r')
    ||| c == ' '
    ||| c == '\u{85}'
    ||| c == '\u{A0}'
    ||| c == '\u{1680}'
    ||| ('\u{2000}' <= c && c <= '\u{200A}')
    ||| c == '\u{2028}'
    ||| c == '\u{2029}'
    ||| c == '\u{202F}'
    ||| c == '\u{205F}'
    ||| c == '\u{3000}'
}

/// The tokenizer's state between two characters.
pub struct ScanState {
    pub buf: Seq<char>,
    pub in_string: bool,
    pub toks: Seq<Lex>,
    /// The buffer that could not be read, once one could not.
    pub failed: Option<Seq<char>>,
}

/// Empties the buffer into the lexemes.
pub open spec fn flush(st: ScanState) -> ScanState {
    if st.failed is Some || st.buf.len() == 0 {
        st
    } else {
        match classify(st.buf) {
            Some(l) => ScanState { buf: Seq::empty(), toks: st.toks.push(l), ..st },
            None => ScanState { buf: Seq::empty(), failed: Some(st.buf), ..st },
        }
    }
}

/// Reads one character.
pub open spec fn step(st: ScanState, c: char) -> ScanState {
    if st.failed is Some {
        st
    } else if is_space(c) && !st.in_string {
        flush(st)
    } else if c == '(' || c == ')' {
        let f = flush(st);
        if f.failed is Some {
            f
        } else {
            ScanState { toks: f.toks.push(if c == '(' { Lex::Open } else { Lex::Close }), ..f }
        }
    } else {
        ScanState {
            buf: st.buf.push(c),
            in_string: if c == '"' { !st.in_string } else { st.in_string },
            ..st
        }
    }
}

/// Reads the characters of `s` in order.
pub open spec fn scan(st: ScanState, s: Seq<char>) -> ScanState
    decreases s.len(),
{
    if s.len() == 0 {
        st
    } else {
        step(scan(st, s.drop_last()), s.last())
    }
}

/// Whether `s` spells `w`.
fn is_word(s: &Vec<char>, w: &str) -> (r: bool)
    ensures
        r == (s@ == w@),
{
    let n = w.unicode_len();
    if s.len() != n {
        return false;
    }
    let mut i: usize = 0;
    while i < n
        invariant
            i <= n,
            n == w@.len(),
            s.len() == n,
            forall|k: int| 0 <= k < i ==> #[trigger] s@[k] == w@[k],
        decreases n - i,
    {
        if s[i] != w.get_char(i) {
            return false;
        }
        i = i + 1;
    }
    assert(s@ =~= w@);
    true
}

fn keyword_of_exec(s: &Vec<char>) -> (r: Option<Keyword>)
    ensures
        r == keyword_of(s@),
{
    proof {
        reveal_strlit("δ");
        reveal_strlit("def");
        reveal_strlit("ε");
        reveal_strlit("external");
        reveal_strlit("λ");
        reveal_strlit("lambda");
        reveal_strlit("->");
        reveal_strlit("ι");
        reveal_strlit("id");
        reveal_strlit("_");
        reveal_strlit("Ω");
        reveal_strlit("nih");
        assert("δ"@ =~= seq!['δ']);
        assert("def"@ =~= seq!['d', 'e', 'f']);
        assert("ε"@ =~= seq!['ε']);
        assert("external"@ =~= seq!['e', 'x', 't', 'e', 'r', 'n', 'a', 'l']);
        assert("λ"@ =~= seq!['λ']);
        assert("lambda"@ =~= seq!['l', 'a', 'm', 'b', 'd', 'a']);
        assert("->"@ =~= seq!['-', '>']);
        assert("ι"@ =~= seq!['ι']);
        assert("id"@ =~= seq!['i', 'd']);
        assert("_"@ =~= seq!['_']);
        assert("Ω"@ =~= seq!['Ω']);
        assert("nih"@ =~= seq!['n', 'i', 'h']);
    }
    if is_word(s, "δ") || is_word(s, "def") {
        Some(Keyword::Def)
    } else if is_word(s, "ε") || is_word(s, "external") {
        Some(Keyword::External)
    } else if is_word(s, "λ") || is_word(s, "lambda") {
        Some(Keyword::Lambda)
    } else if is_word(s, "->") {
        Some(Keyword::Arrow)
    } else if is_word(s, "ι") || is_word(s, "id") {
        Some(Keyword::Id)
    } else if is_word(s, "_") {
        Some(Keyword::Ignore)
    } else if is_word(s, "Ω") || is_word(s, "nih") {
        Some(Keyword::Nil)
    } else {
        None
    }
}

fn has_quote(s: &Vec<char>) -> (r: bool)
    ensures
        r == s@.contains('"'),
{
    let mut i: usize = 0;
    while i < s.len()
        invariant
            i <= s.len(),
            forall|k: int| 0 <= k < i ==> #[trigger] s@[k] != '"',
        decreases s.len() - i,
    {
        if s[i] == '"' {
            assert(s@[i as int] == '"');
            return true;
        }
        i = i + 1;
    }
    false
}

/// Whether `c` separates tokens.
pub fn is_space_exec(c: char) -> (r: bool)
    ensures
        r == is_space(c),
{
    ('\t' <= c && c <= '\r') || c == ' ' || c == '\u{85}' || c == '\u{A0}' || c == '\u{1680}'
        || ('\u{2000}' <= c && c <= '\u{200A}') || c == '\u{2028}' || c == '\u{2029}'
        || c == '\u{202F}' || c == '\u{205F}' || c == '\u{3000}'
}

/// A tokenizer: the buffer it is filling and the tokens it has read so far.
pub struct Lexer {
    current: String,
    position: Position,
    in_string: bool,
    pub tokens: Vec<Token>,
}

impl Lexer {
    /// The state of this tokenizer, as a mathematical value.
    pub closed spec fn state(&self) -> ScanState {
        ScanState {
            buf: self.current@,
            in_string: self.in_string,
            toks: lexems_of(self.tokens@),
            failed: None,
        }
    }

    /// A tokenizer with an empty buffer and no tokens.
    pub fn new() -> (r: Self)
        ensures
            r.state() == (ScanState {
                buf: Seq::empty(),
                in_string: false,
                toks: Seq::empty(),
                failed: None,
            }),
    {
        let r = Lexer {
            current: String::new(),
            position: Position::new(0, 0),
            tokens: Vec::new(),
            in_string: false,
        };
        assert(lexems_of(r.tokens@) =~= Seq::<Lex>::empty());
        r
    }

    /// The tokens read so far.
    pub fn lexems(&self) -> (r: &Vec<Token>)
        ensures
            lexems_of(r@) == self.state().toks,
    {
        &self.tokens
    }

    /// What the buffer reads as.
    fn sublex(&self) -> (r: Option<Lexem>)
        ensures
            self.current@.len() > 0 ==> (r is Some == classify(self.current@) is Some),
            self.current@.len() > 0 && r is Some ==> classify(self.current@) == Some(r->0@),
    {
        let cs = chars_of(self.current.as_str());
        if let Some(k) = keyword_of_exec(&cs) {
            return Some(Lexem::Keyword(k));
        }
        if let Some(l) = Literal::num(&self.current) {
            return Some(Lexem::Literal(l));
        }
        if let Some(l) = Literal::string(&self.current) {
            return Some(Lexem::Literal(l));
        }
        if let Some(l) = Literal::nil(&self.current) {
            return Some(Lexem::Literal(l));
        }
        if cs.len() > 0 && !has_quote(&cs) {
            return Some(Lexem::Identifier(self.current.clone()));
        }
        None
    }

    /// Empties the buffer into the tokens, then adds `token` if one is given.
    fn push(&mut self, token: Option<Lexem>) -> (r: Result<(), String>)
        ensures
            ({
                let f = flush(old(self).state());
                &&& r is Ok == f.failed is None
                &&& r is Ok ==> final(self).state() == (ScanState {
                    toks: match token {
                        Some(t) => f.toks.push(t@),
                        None => f.toks,
                    },
                    ..f
                })
                &&& r is Err ==> r->Err_0@ == "Cannot parse "@ + f.failed->0
            }),
    {
        let ghost before = self.tokens@;
        let ghost old_buf = self.current@;
        if self.current.as_str().unicode_len() > 0 {
            match self.sublex() {
                Some(t) => {
                    self.tokens.push((t, self.position));
                    proof {
                        assert(lexems_of(self.tokens@) =~= lexems_of(before).push(t@));
                    }
                },
                None => {
                    proof { reveal_strlit("Cannot parse "); }
                    let msg = String::from_str("Cannot parse ").concat(self.current.as_str());
                    self.current = String::new();
                    return Err(msg);
                },
            }
        }
        proof {
            if old_buf.len() == 0 {
                assert(old_buf =~= Seq::<char>::empty());
            }
        }
        self.current = String::new();
        assert(self.current@ =~= Seq::<char>::empty());
        let ghost mid = self.tokens@;
        if let Some(t) = token {
            let ghost tv = t@;
            self.tokens.push((t, self.position));
            proof {
                assert(lexems_of(self.tokens@) =~= lexems_of(mid).push(tv));
            }
        }
        Ok(())
    }

    fn advance_col(&mut self)
        ensures
            final(self).state() == old(self).state(),
    {
        if self.position.col < usize::MAX {
            self.position.next_col();
        }
    }

    /// Reads `source` into tokens, after what was read before.
    pub fn lex(&mut self, source: &String) -> (r: Result<(), String>)
        ensures
            ({
                let f = flush(scan(old(self).state(), source@));
                &&& r is Ok == f.failed is None
                &&& r is Ok ==> final(self).state() == f
                &&& r is Err ==> r->Err_0@ == "Cannot parse "@ + f.failed->0
            }),
    {
        let cs = chars_of(source.as_str());
        let ghost st0 = old(self).state();
        let mut i: usize = 0;
        while i < cs.len()
            invariant
                i <= cs.len(),
                cs@ == source@,
                self.state() == scan(st0, cs@.take(i as int)),
                st0 == old(self).state(),
            decreases cs.len() - i,
        {
            let c = cs[i];
            proof {
                assert(cs@.take(i + 1).drop_last() =~= cs@.take(i as int));
                assert(cs@.take(i + 1).last() == c);
                assert(scan(st0, cs@.take(i + 1)) == step(scan(st0, cs@.take(i as int)), c));
            }
            self.advance_col();
            if is_space_exec(c) && !self.in_string {
                let ghost pre = self.state();
                let pushed = self.push(None);
                if pushed.is_err() {
                    proof {
                        assert(step(pre, c) == flush(pre));
                        lemma_scan_failed(st0, cs@, i as int + 1);
                    }
                    return pushed;
                }
                if c == '\n' {
                    if self.position.row < usize::MAX {
                        self.position.next_row();
                    }
                } else {
                    self.advance_col();
                }
            } else if c == '(' || c == ')' {
                let t = if c == '(' { Lexem::ParenthesisOpen } else { Lexem::ParenthesisClose };
                let pushed = self.push(Some(t));
                if pushed.is_err() {
                    proof { lemma_scan_failed(st0, cs@, i as int + 1); }
                    return pushed;
                }
            } else {
                if c == '"' {
                    self.in_string = !self.in_string;
                }
                push_char(&mut self.current, c);
            }
            i = i + 1;
        }
        proof { assert(cs@.take(cs@.len() as int) =~= source@); }
        self.push(None)
    }
}

/// Once the scan fails it stays failed, with the same buffer.
proof fn lemma_scan_failed(st0: ScanState, s: Seq<char>, i: int)
    requires
        0 <= i <= s.len(),
        scan(st0, s.take(i)).failed is Some,
    ensures
        flush(scan(st0, s)) == scan(st0, s.take(i)),
    decreases s.len() - i,
{
    if i < s.len() {
        assert(s.take(i + 1).drop_last() =~= s.take(i));
        lemma_scan_failed(st0, s, i + 1);
    } else {
        assert(s.take(i) =~= s);
    }
}

} // verus!
