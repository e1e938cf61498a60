use vstd::prelude::*;
use vstd::string::{StrSliceExecFns, StringExecFns};
use crate::text::chars_of;

verus! {

/// The value of a literal as the evaluator sees it.
pub enum Val {
    /// A number, held as the numeral that spelled it.
    Num(Seq<char>),
    Text(Seq<char>),
    Nil,
}

/// A literal value: a number, a piece of text, or nil.
///
/// A number keeps the numeral it was written with; two numbers are the same
/// value when they denote the same decimal value (see `same_value`).
#[derive(Debug)]
pub enum Literal {
    Num(String),
    String(String),
    Nil,
}

impl View for Literal {
    type V = Val;

    open spec fn view(&self) -> Val {
        match self {
            Literal::Num(s) => Val::Num(s@),
            Literal::String(s) => Val::Text(s@),
            Literal::Nil => Val::Nil,
        }
    }
}

pub open spec fn is_digit(c: char) -> bool {
    '0' <= c && c <= '9'
}

/// The first index at or after `i` that does not hold a decimal digit.
pub open spec fn digits_end(s: Seq<char>, i: int) -> int
    decreases s.len() - i,
{
    if 0 <= i < s.len() && is_digit(s[i]) {
        digits_end(s, i + 1)
    } else {
        i
    }
}

/// `s[j..]` is an exponent's digits with an optional sign, and nothing else.
pub open spec fn is_exponent(s: Seq<char>, j: int) -> bool {
    let k = if j < s.len() && (s[j] == '+' || s[j] == '-') { j + 1 } else { j };
    digits_end(s, k) > k && digits_end(s, k) == s.len()
}

/// `s[i..]` is a decimal numeral: digits with an optional fraction (at least
/// one digit in all), then an optional exponent.
pub open spec fn is_decimal(s: Seq<char>, i: int) -> bool {
    let a = digits_end(s, i);
    let b = if a < s.len() && s[a] == '.' { digits_end(s, a + 1) } else { a };
    let frac = if a < s.len() && s[a] == '.' { b - (a + 1) } else { 0 };
    &&& (a - i) + frac > 0
    &&& (b == s.len() || ((s[b] == 'e' || s[b] == 'E') && is_exponent(s, b + 1)))
}

pub open spec fn ascii_lower(c: char) -> char {
    if 'A' <= c && c <= 'Z' { ((c as u32) + 32) as char } else { c }
}

/// `s[i..]` spells `word` (given in lower case) in any mix of cases.
pub open spec fn spells_folded(s: Seq<char>, i: int, word: Seq<char>) -> bool {
    &&& s.len() - i == word.len()
    &&& forall|k: int| 0 <= k < word.len() ==> #[trigger] ascii_lower(s[i + k]) == word[k]
}

/// A numeral: an optional sign, then a decimal numeral, or `inf`, `infinity`
/// or `nan` in any case.
pub open spec fn is_numeral(s: Seq<char>) -> bool {
    let i = if s.len() > 0 && (s[0] == '+' || s[0] == '-') { 1int } else { 0int };
    ||| is_decimal(s, i)
    ||| spells_folded(s, i, seq!['i', 'n', 'f'])
    ||| spells_folded(s, i, seq!['i', 'n', 'f', 'i', 'n', 'i', 't', 'y'])
    ||| spells_folded(s, i, seq!['n', 'a', 'n'])
}

/// The interior of a string literal from index `i` on holds no unescaped
/// quote and does not end in an unescaped backslash.
pub open spec fn interior_ok(s: Seq<char>, i: int) -> bool
    decreases s.len() - i,
{
    if i < 0 || i >= s.len() {
        true
    } else if s[i] == '"' {
        false
    } else if s[i] == '\\' {
        if i + 1 >= s.len() { false } else { interior_ok(s, i + 2) }
    } else {
        interior_ok(s, i + 1)
    }
}

/// The text of a string literal: what stands between its quotes.
pub open spec fn string_body(s: Seq<char>) -> Option<Seq<char>> {
    if s.len() >= 2 && s[0] == '"' && s.last() == '"'
        && interior_ok(s.subrange(1, s.len() - 1), 0) {
        Some(s.subrange(1, s.len() - 1))
    } else {
        None
    }
}

pub open spec fn is_nil_spelling(s: Seq<char>) -> bool {
    s == seq!['Φ'] || s == seq!['n', 'i', 'l']
}

fn digits_end_exec(s: &Vec<char>, i: usize) -> (r: usize)
    requires
        i <= s.len(),
    ensures
        r as int == digits_end(s@, i as int),
        i <= r <= s.len(),
{
    let mut j: usize = i;
    while j < s.len() && '0' <= s[j] && s[j] <= '9'
        invariant
            i <= j <= s.len(),
            digits_end(s@, i as int) == digits_end(s@, j as int),
        decreases s.len() - j,
    {
        j = j + 1;
    }
    j
}

fn spells_folded_exec(s: &Vec<char>, i: usize, word: &str) -> (r: bool)
    requires
        i <= s.len(),
        word.is_ascii(),
    ensures
        r == spells_folded(s@, i as int, word@),
{
    let n = word.unicode_len();
    if s.len() - i != n {
        return false;
    }
    let mut k: usize = 0;
    while k < n
        invariant
            k <= n,
            n == word@.len(),
            s.len() - i == n,
            forall|m: int| 0 <= m < k ==> #[trigger] ascii_lower(s@[i + m]) == word@[m],
        decreases n - k,
    {
        let c = s[i + k];
        let lower = if 'A' <= c && c <= 'Z' { ((c as u32) + 32) as u8 as char } else { c };
        assert(lower == ascii_lower(c)) by {
            if 'A' <= c && c <= 'Z' {
                assert(((c as u32) + 32) < 256);
            }
        }
        if lower != word.get_char(k) {
            return false;
        }
        k = k + 1;
    }
    true
}

/// The longest exponent, in digits, for which numbers compare by value.
pub const MAX_EXPONENT_DIGITS: usize = 15;

/// The numeric value of a numeral, in a canonical form.
pub enum NumValue {
    Nan,
    Inf(bool),
    Zero,
    /// Negative or not, significant digits with no zero at either end, and the
    /// power of ten of the last of them.
    Finite(bool, Seq<char>, int),
}

/// The value of the decimal digits `s[lo..hi]`.
pub open spec fn digits_value(s: Seq<char>, lo: int, hi: int) -> int
    decreases hi - lo,
{
    if hi <= lo {
        0
    } else {
        digits_value(s, lo, hi - 1) * 10 + (s[hi - 1] as int - '0' as int)
    }
}

pub open spec fn strip_leading_zeros(d: Seq<char>) -> Seq<char>
    decreases d.len(),
{
    if d.len() > 0 && d[0] == '0' { strip_leading_zeros(d.drop_first()) } else { d }
}

pub open spec fn strip_trailing_zeros(d: Seq<char>) -> Seq<char>
    decreases d.len(),
{
    if d.len() > 0 && d.last() == '0' { strip_trailing_zeros(d.drop_last()) } else { d }
}

/// Where the digits of the exponent begin, for a numeral whose mantissa ends at `b`.
pub open spec fn exponent_digits_start(s: Seq<char>, b: int) -> int {
    let j = b + 1;
    if j < s.len() && (s[j] == '+' || s[j] == '-') { j + 1 } else { j }
}

/// The exponent of a numeral whose mantissa ends at `b` (zero when it has none).
pub open spec fn exponent(s: Seq<char>, b: int) -> int {
    let k = exponent_digits_start(s, b);
    if b >= s.len() {
        0
    } else if b + 1 < s.len() && s[b + 1] == '-' {
        -digits_value(s, k, s.len() as int)
    } else {
        digits_value(s, k, s.len() as int)
    }
}

/// The value of a numeral; none when `s` is not a numeral or its exponent has
/// more than `MAX_EXPONENT_DIGITS` digits.
pub open spec fn num_value(s: Seq<char>) -> Option<NumValue> {
    let neg = s.len() > 0 && s[0] == '-';
    let i = if s.len() > 0 && (s[0] == '+' || s[0] == '-') { 1int } else { 0int };
    if !is_numeral(s) {
        None
    } else if !is_decimal(s, i) {
        if spells_folded(s, i, seq!['n', 'a', 'n']) { Some(NumValue::Nan) } else { Some(NumValue::Inf(neg)) }
    } else {
        let a = digits_end(s, i);
        let dot = a < s.len() && s[a] == '.';
        let b = if dot { digits_end(s, a + 1) } else { a };
        let frac = if dot { s.subrange(a + 1, b) } else { Seq::<char>::empty() };
        let lead = strip_leading_zeros(s.subrange(i, a) + frac);
        let sig = strip_trailing_zeros(lead);
        if b < s.len() && s.len() - exponent_digits_start(s, b) > MAX_EXPONENT_DIGITS {
            None
        } else if sig.len() == 0 {
            Some(NumValue::Zero)
        } else {
            Some(NumValue::Finite(neg, sig, exponent(s, b) - frac.len() + (lead.len() - sig.len())))
        }
    }
}

/// Whether two literals are the same value: numbers by their value (NaN
/// equals nothing), or by their numerals where a value is not available;
/// texts by their characters.
pub open spec fn same_value(a: Val, b: Val) -> bool {
    match (a, b) {
        (Val::Num(x), Val::Num(y)) => match (num_value(x), num_value(y)) {
            (Some(v), Some(w)) => v != NumValue::Nan && v == w,
            _ => x == y,
        },
        (Val::Text(x), Val::Text(y)) => x == y,
        (Val::Nil, Val::Nil) => true,
        _ => false,
    }
}

fn is_decimal_exec(s: &Vec<char>, i: usize) -> (r: bool)
    requires
        i <= s.len(),
    ensures
        r == is_decimal(s@, i as int),
{
    let a = digits_end_exec(s, i);
    let dot = a < s.len() && s[a] == '.';
    let b = if dot { digits_end_exec(s, a + 1) } else { a };
    let frac = if dot { b - (a + 1) } else { 0 };
    let mut decimal = (a - i) + frac > 0;
    if decimal && b < s.len() {
        if s[b] == 'e' || s[b] == 'E' {
            let j = b + 1;
            let k = if j < s.len() && (s[j] == '+' || s[j] == '-') { j + 1 } else { j };
            let e = digits_end_exec(s, k);
            decimal = e > k && e == s.len();
        } else {
            decimal = false;
        }
    }
    decimal
}

/// Whether `s` is a numeral.
pub fn is_numeral_exec(s: &Vec<char>) -> (r: bool)
    ensures
        r == is_numeral(s@),
{
    let i: usize = if s.len() > 0 && (s[0] == '+' || s[0] == '-') { 1 } else { 0 };
    if is_decimal_exec(s, i) {
        return true;
    }
    proof {
        reveal_strlit("inf");
        reveal_strlit("infinity");
        reveal_strlit("nan");
    }
    spells_folded_exec(s, i, "inf") || spells_folded_exec(s, i, "infinity")
        || spells_folded_exec(s, i, "nan")
}

pub open spec fn pow10(n: nat) -> int
    decreases n,
{
    if n == 0 { 1 } else { 10 * pow10((n - 1) as nat) }
}

proof fn lemma_pow10_mono(a: nat, b: nat)
    requires
        a <= b,
    ensures
        1 <= pow10(a) <= pow10(b),
    decreases b,
{
    if b > 0 {
        if a < b {
            lemma_pow10_mono(a, (b - 1) as nat);
        } else {
            lemma_pow10_mono((a - 1) as nat, (b - 1) as nat);
        }
    }
}

/// The value of the digits `s[lo..hi]`, at most `MAX_EXPONENT_DIGITS` of them.
fn digits_value_exec(s: &Vec<char>, lo: usize, hi: usize) -> (r: i128)
    requires
        lo <= hi <= s.len(),
        hi - lo <= MAX_EXPONENT_DIGITS,
        forall|j: int| lo <= j < hi ==> #[trigger] is_digit(s@[j]),
    ensures
        r == digits_value(s@, lo as int, hi as int),
        0 <= r < 1_000_000_000_000_000,
{
    proof {
        reveal_with_fuel(pow10, 16);
        assert(pow10(15) == 1_000_000_000_000_000);
    }
    let mut v: i128 = 0;
    let mut m: usize = lo;
    while m < hi
        invariant
            lo <= m <= hi <= s.len(),
            hi - lo <= MAX_EXPONENT_DIGITS,
            forall|j: int| lo <= j < hi ==> #[trigger] is_digit(s@[j]),
            v == digits_value(s@, lo as int, m as int),
            0 <= v < pow10((m - lo) as nat),
            pow10(15) == 1_000_000_000_000_000,
        decreases hi - m,
    {
        proof { lemma_pow10_mono((m + 1 - lo) as nat, 15); }
        assert(is_digit(s@[m as int]));
        let d = (s[m] as u32 - '0' as u32) as i128;
        assert(0 <= d < 10);
        assert(v * 10 + d < pow10((m + 1 - lo) as nat)) by (nonlinear_arith)
            requires
                0 <= v < pow10((m - lo) as nat),
                0 <= d < 10,
                pow10((m + 1 - lo) as nat) == 10 * pow10((m - lo) as nat),
        ;
        v = v * 10 + d;
        m = m + 1;
    }
    proof { lemma_pow10_mono((hi - lo) as nat, 15); }
    v
}

proof fn lemma_strip_leading(d: Seq<char>, n: int)
    requires
        0 <= n <= d.len(),
        forall|j: int| 0 <= j < n ==> #[trigger] d[j] == '0',
        n == d.len() || d[n] != '0',
    ensures
        strip_leading_zeros(d) == d.subrange(n, d.len() as int),
    decreases n,
{
    if n == 0 {
        assert(d.subrange(0, d.len() as int) =~= d);
    } else {
        let t = d.drop_first();
        assert forall|j: int| 0 <= j < n - 1 implies #[trigger] t[j] == '0' by {
            assert(t[j] == d[j + 1]);
        }
        lemma_strip_leading(t, n - 1);
        assert(t.subrange(n - 1, t.len() as int) =~= d.subrange(n, d.len() as int));
    }
}

proof fn lemma_strip_trailing(d: Seq<char>, n: int)
    requires
        0 <= n <= d.len(),
        forall|j: int| n <= j < d.len() ==> #[trigger] d[j] == '0',
        n == 0 || d[n - 1] != '0',
    ensures
        strip_trailing_zeros(d) == d.subrange(0, n),
    decreases d.len() - n,
{
    if n == d.len() {
        assert(d.subrange(0, n) =~= d);
    } else {
        let t = d.drop_last();
        assert forall|j: int| n <= j < t.len() implies #[trigger] t[j] == '0' by {
            assert(t[j] == d[j]);
        }
        lemma_strip_trailing(t, n);
        assert(t.subrange(0, n) =~= d.subrange(0, n));
    }
}

/// Every index from `i` up to where the digits end holds a digit.
proof fn lemma_digits_end(s: Seq<char>, i: int, m: int)
    requires
        0 <= i <= m < digits_end(s, i),
    ensures
        is_digit(s[m]),
    decreases m - i,
{
    if i < m {
        lemma_digits_end(s, i + 1, m);
    }
}

/// The canonical value of a numeral, as the program holds it.
pub enum NumKey {
    Nan,
    Inf(bool),
    Zero,
    Finite(bool, Vec<char>, i128),
}

impl View for NumKey {
    type V = NumValue;

    open spec fn view(&self) -> NumValue {
        match self {
            NumKey::Nan => NumValue::Nan,
            NumKey::Inf(n) => NumValue::Inf(*n),
            NumKey::Zero => NumValue::Zero,
            NumKey::Finite(n, d, e) => NumValue::Finite(*n, d@, *e as int),
        }
    }
}

fn chars_equal(a: &Vec<char>, b: &Vec<char>) -> (r: bool)
    ensures
        r == (a@ == b@),
{
    if a.len() != b.len() {
        return false;
    }
    let mut i: usize = 0;
    while i < a.len()
        invariant
            i <= a.len() == b.len(),
            forall|j: int| 0 <= j < i ==> #[trigger] a@[j] == b@[j],
        decreases a.len() - i,
    {
        if a[i] != b[i] {
            return false;
        }
        i = i + 1;
    }
    assert(a@ =~= b@);
    true
}

/// The exponent of a decimal numeral whose mantissa ends at `b`, if it has
/// at most `MAX_EXPONENT_DIGITS` digits.
fn exponent_exec(s: &Vec<char>, b: usize) -> (r: Option<i128>)
    requires
        b <= s.len(),
        b == s.len() || ((s@[b as int] == 'e' || s@[b as int] == 'E') && is_exponent(s@, b + 1)),
    ensures
        r is None == (b < s.len() && s.len() - exponent_digits_start(s@, b as int) > MAX_EXPONENT_DIGITS),
        r is Some ==> r->0 == exponent(s@, b as int),
        r is Some ==> -1_000_000_000_000_000 < r->0 < 1_000_000_000_000_000,
{
    if b >= s.len() {
        return Some(0);
    }
    let j = b + 1;
    let k = if j < s.len() && (s[j] == '+' || s[j] == '-') { j + 1 } else { j };
    if s.len() - k > MAX_EXPONENT_DIGITS {
        return None;
    }
    proof {
        assert forall|m: int| k <= m < s.len() implies #[trigger] is_digit(s@[m]) by {
            lemma_digits_end(s@, k as int, m);
        }
    }
    let v = digits_value_exec(s, k, s.len());
    if j < s.len() && s[j] == '-' {
        Some(-v)
    } else {
        Some(v)
    }
}

/// The characters `s[lo..hi]`.
fn chars_range(s: &Vec<char>, lo: usize, hi: usize, out: &mut Vec<char>)
    requires
        lo <= hi <= s.len(),
    ensures
        final(out)@ == old(out)@ + s@.subrange(lo as int, hi as int),
{
    let mut m: usize = lo;
    while m < hi
        invariant
            lo <= m <= hi <= s.len(),
            out@ == old(out)@ + s@.subrange(lo as int, m as int),
        decreases hi - m,
    {
        out.push(s[m]);
        m = m + 1;
        assert(out@ =~= old(out)@ + s@.subrange(lo as int, m as int));
    }
}

/// Where the significant digits of `d` begin and end.
fn significant_bounds(d: &Vec<char>) -> (r: (usize, usize))
    ensures
        r.0 <= r.1 <= d.len(),
        strip_leading_zeros(d@) == d@.subrange(r.0 as int, d.len() as int),
        strip_trailing_zeros(strip_leading_zeros(d@)) == d@.subrange(r.0 as int, r.1 as int),
{
    let mut lead: usize = 0;
    while lead < d.len() && d[lead] == '0'
        invariant
            lead <= d.len(),
            forall|q: int| 0 <= q < lead ==> #[trigger] d@[q] == '0',
        decreases d.len() - lead,
    {
        lead = lead + 1;
    }
    proof { lemma_strip_leading(d@, lead as int); }
    let ghost lead_seq = d@.subrange(lead as int, d@.len() as int);
    let mut end: usize = d.len();
    while end > lead && d[end - 1] == '0'
        invariant
            lead <= end <= d.len(),
            forall|q: int| end <= q < d.len() ==> #[trigger] d@[q] == '0',
        decreases end,
    {
        end = end - 1;
    }
    proof {
        assert forall|q: int| end - lead <= q < lead_seq.len() implies #[trigger] lead_seq[q] == '0' by {
            assert(lead_seq[q] == d@[q + lead]);
        }
        if end > lead {
            assert(lead_seq[end - lead - 1] == d@[end - 1]);
        }
        lemma_strip_trailing(lead_seq, end - lead);
        assert(lead_seq.subrange(0, end - lead) =~= d@.subrange(lead as int, end as int));
    }
    (lead, end)
}

pub(crate) fn num_key(s: &Vec<char>) -> (r: Option<NumKey>)
    ensures
        match r {
            Some(k) => num_value(s@) == Some(k@),
            None => num_value(s@) is None,
        },
{
    if !is_numeral_exec(s) {
        return None;
    }
    let neg = s.len() > 0 && s[0] == '-';
    let i: usize = if s.len() > 0 && (s[0] == '+' || s[0] == '-') { 1 } else { 0 };
    if !is_decimal_exec(s, i) {
        proof {
            reveal_strlit("nan");
            assert("nan"@ =~= seq!['n', 'a', 'n']);
        }
        if spells_folded_exec(s, i, "nan") {
            return Some(NumKey::Nan);
        }
        return Some(NumKey::Inf(neg));
    }
    let a = digits_end_exec(s, i);
    let dot = a < s.len() && s[a] == '.';
    let b = if dot { digits_end_exec(s, a + 1) } else { a };
    let e = match exponent_exec(s, b) {
        None => {
            return None;
        },
        Some(e) => e,
    };
    let frac_start: usize = if dot { a + 1 } else { b };
    let mut digits: Vec<char> = Vec::new();
    chars_range(s, i, a, &mut digits);
    chars_range(s, frac_start, b, &mut digits);
    let ghost frac = if dot { s@.subrange(a + 1, b as int) } else { Seq::<char>::empty() };
    assert(s@.subrange(frac_start as int, b as int) =~= frac);
    assert(digits@ =~= s@.subrange(i as int, a as int) + frac);
    let (lead, end) = significant_bounds(&digits);
    if end == lead {
        return Some(NumKey::Zero);
    }
    let mut sig: Vec<char> = Vec::new();
    chars_range(&digits, lead, end, &mut sig);
    assert(sig@ =~= digits@.subrange(lead as int, end as int));
    let frac_len: usize = b - frac_start;
    let exp: i128 = e - (frac_len as i128) + ((digits.len() - end) as i128);
    Some(NumKey::Finite(neg, sig, exp))
}

fn interior_ok_exec(s: &Vec<char>, from: usize, to: usize) -> (r: bool)
    requires
        from <= to <= s.len(),
    ensures
        r == interior_ok(s@.subrange(from as int, to as int), 0),
{
    let ghost t = s@.subrange(from as int, to as int);
    let mut i: usize = from;
    while i < to
        invariant
            from <= i,
            i <= to + 1,
            to <= s.len(),
            t == s@.subrange(from as int, to as int),
            interior_ok(t, 0) == interior_ok(t, i - from),
        decreases to + 1 - i,
    {
        let c = s[i];
        assert(t[i - from] == c);
        if c == '"' {
            return false;
        }
        if c == '\\' {
            if i + 1 >= to {
                return false;
            }
            i = i + 2;
        } else {
            i = i + 1;
        }
    }
    true
}

impl Literal {
    /// The number that `s` spells, if it is a numeral.
    pub fn num(s: &String) -> (r: Option<Literal>)
        ensures
            r is Some == is_numeral(s@),
            r is Some ==> r->0@ == Val::Num(s@),
    {
        let cs = chars_of(s.as_str());
        if is_numeral_exec(&cs) {
            Some(Literal::Num(s.clone()))
        } else {
            None
        }
    }

    /// The string literal that `s` spells, quotes included, if it is one.
    pub fn string(s: &String) -> (r: Option<Literal>)
        ensures
            r is Some == string_body(s@) is Some,
            r is Some ==> r->0@ == Val::Text(string_body(s@)->0),
    {
        let cs = chars_of(s.as_str());
        let n = cs.len();
        if n < 2 || cs[0] != '"' || cs[n - 1] != '"' {
            return None;
        }
        if !interior_ok_exec(&cs, 1, n - 1) {
            return None;
        }
        let body = String::from_str(s.as_str().substring_char(1, n - 1));
        Some(Literal::String(body))
    }

    /// Nil, if `s` is one of its spellings.
    pub fn nil(s: &String) -> (r: Option<Literal>)
        ensures
            r is Some == is_nil_spelling(s@),
            r is Some ==> r->0@ == Val::Nil,
    {
        let cs = chars_of(s.as_str());
        if (cs.len() == 1 && cs[0] == 'Φ') || (cs.len() == 3 && cs[0] == 'n' && cs[1] == 'i' && cs[2] == 'l') {
            assert(cs@ =~= seq!['Φ'] || cs@ =~= seq!['n', 'i', 'l']);
            Some(Literal::Nil)
        } else {
            None
        }
    }
}

impl Literal {
    /// A copy of this literal.
    pub fn copy(&self) -> (r: Literal)
        ensures
            r@ == self@,
    {
        match self {
            Literal::Num(s) => Literal::Num(s.clone()),
            Literal::String(s) => Literal::String(s.clone()),
            Literal::Nil => Literal::Nil,
        }
    }

    /// Whether two literals are the same value.
    pub fn same(&self, other: &Literal) -> (r: bool)
        ensures
            r == same_value(self@, other@),
    {
        match self {
            Literal::Num(a) => match other {
                Literal::Num(b) => {
                    let ka = num_key(&chars_of(a.as_str()));
                    let kb = num_key(&chars_of(b.as_str()));
                    match (ka, kb) {
                        (Some(x), Some(y)) => match (x, y) {
                            (NumKey::Inf(n), NumKey::Inf(m)) => n == m,
                            (NumKey::Zero, NumKey::Zero) => true,
                            (NumKey::Finite(n, d, e), NumKey::Finite(m, c, f)) => {
                                n == m && e == f && chars_equal(&d, &c)
                            },
                            _ => false,
                        },
                        _ => a.eq(b),
                    }
                },
                _ => false,
            },
            Literal::String(a) => match other {
                Literal::String(b) => a.eq(b),
                _ => false,
            },
            Literal::Nil => match other {
                Literal::Nil => true,
                _ => false,
            },
        }
    }
}

} // verus!
