//! Building blocks of the command grammar: keywords matched under Unicode
//! simple case folding, whitespace and decimal-digit runs, and the
//! "whitespace, then the rest of the line" tail that ends most commands.
//!
//! Character classes follow the Unicode tables of a Unicode-aware regular
//! expression engine: `\s` is White_Space and `\d` is Decimal_Number.
use vstd::prelude::*;
use crate::text::{is_ws, leading_ws, lemma_leading_ws, is_whitespace};

verus! {

/// `c` matches the pattern char `k` (a space or an ASCII lowercase letter)
/// under simple case folding: `k` itself, its uppercase form, and for `k`
/// and `s` the KELVIN SIGN and the LATIN SMALL LETTER LONG S.
pub open spec fn ci_char(c: char, k: char) -> bool {
    ||| c == k
    ||| ('a' <= k && k <= 'z' && (c as u32) + 32 == (k as u32))
    ||| (k == 'k' && c == '\u{212a}')
    ||| (k == 's' && c == '\u{17f}')
}

/// `a` spells `kw` char by char, ignoring case.
pub open spec fn ci_eq(a: Seq<char>, kw: Seq<char>) -> bool {
    &&& a.len() == kw.len()
    &&& forall|j: int| 0 <= j < kw.len() ==> ci_char(#[trigger] a[j], kw[j])
}

/// The keyword `kw` occurs at char position `i` of `s`, ignoring case.
pub open spec fn ci_at(s: Seq<char>, i: int, kw: Seq<char>) -> bool {
    &&& 0 <= i
    &&& i + kw.len() <= s.len()
    &&& ci_eq(s.subrange(i, i + kw.len()), kw)
}

/// Unicode Decimal_Number (general category Nd).
pub open spec fn is_decimal(c: char) -> bool {
    ||| ('\u{30}' <= c && c <= '\u{39}')
    ||| ('\u{660}' <= c && c <= '\u{669}')
    ||| ('\u{6f0}' <= c && c <= '\u{6f9}')
    ||| ('\u{7c0}' <= c && c <= '\u{7c9}')
    ||| ('\u{966}' <= c && c <= '\u{96f}')
    ||| ('\u{9e6}' <= c && c <= '\u{9ef}')
    ||| ('\u{a66}' <= c && c <= '\u{a6f}')
    ||| ('\u{ae6}' <= c && c <= '\u{aef}')
    ||| ('\u{b66}' <= c && c <= '\u{b6f}')
    ||| ('\u{be6}' <= c && c <= '\u{bef}')
    ||| ('\u{c66}' <= c && c <= '\u{c6f}')
    ||| ('\u{ce6}' <= c && c <= '\u{cef}')
    ||| ('\u{d66}' <= c && c <= '\u{d6f}')
    ||| ('\u{de6}' <= c && c <= '\u{def}')
    ||| ('\u{e50}' <= c && c <= '\u{e59}')
    ||| ('\u{ed0}' <= c && c <= '\u{ed9}')
    ||| ('\u{f20}' <= c && c <= '\u{f29}')
    ||| ('\u{1040}' <= c && c <= '\u{1049}')
    ||| ('\u{1090}' <= c && c <= '\u{1099}')
    ||| ('\u{17e0}' <= c && c <= '\u{17e9}')
    ||| ('\u{1810}' <= c && c <= '\u{1819}')
    ||| ('\u{1946}' <= c && c <= '\u{194f}')
    ||| ('\u{19d0}' <= c && c <= '\u{19d9}')
    ||| ('\u{1a80}' <= c && c <= '\u{1a89}')
    ||| ('\u{1a90}' <= c && c <= '\u{1a99}')
    ||| ('\u{1b50}' <= c && c <= '\u{1b59}')
    ||| ('\u{1bb0}' <= c && c <= '\u{1bb9}')
    ||| ('\u{1c40}' <= c && c <= '\u{1c49}')
    ||| ('\u{1c50}' <= c && c <= '\u{1c59}')
    ||| ('\u{a620}' <= c && c <= '\u{a629}')
    ||| ('\u{a8d0}' <= c && c <= '\u{a8d9}')
    ||| ('\u{a900}' <= c && c <= '\u{a909}')
    ||| ('\u{a9d0}' <= c && c <= '\u{a9d9}')
    ||| ('\u{a9f0}' <= c && c <= '\u{a9f9}')
    ||| ('\u{aa50}' <= c && c <= '\u{aa59}')
    ||| ('\u{abf0}' <= c && c <= '\u{abf9}')
    ||| ('\u{ff10}' <= c && c <= '\u{ff19}')
    ||| ('\u{104a0}' <= c && c <= '\u{104a9}')
    ||| ('\u{10d30}' <= c && c <= '\u{10d39}')
    ||| ('\u{10d40}' <= c && c <= '\u{10d49}')
    ||| ('\u{11066}' <= c && c <= '\u{1106f}')
    ||| ('\u{110f0}' <= c && c <= '\u{110f9}')
    ||| ('\u{11136}' <= c && c <= '\u{1113f}')
    ||| ('\u{111d0}' <= c && c <= '\u{111d9}')
    ||| ('\u{112f0}' <= c && c <= '\u{112f9}')
    ||| ('\u{11450}' <= c && c <= '\u{11459}')
    ||| ('\u{114d0}' <= c && c <= '\u{114d9}')
    ||| ('\u{11650}' <= c && c <= '\u{11659}')
    ||| ('\u{116c0}' <= c && c <= '\u{116c9}')
    ||| ('\u{116d0}' <= c && c <= '\u{116e3}')
    ||| ('\u{11730}' <= c && c <= '\u{11739}')
    ||| ('\u{118e0}' <= c && c <= '\u{118e9}')
    ||| ('\u{11950}' <= c && c <= '\u{11959}')
    ||| ('\u{11bf0}' <= c && c <= '\u{11bf9}')
    ||| ('\u{11c50}' <= c && c <= '\u{11c59}')
    ||| ('\u{11d50}' <= c && c <= '\u{11d59}')
    ||| ('\u{11da0}' <= c && c <= '\u{11da9}')
    ||| ('\u{11f50}' <= c && c <= '\u{11f59}')
    ||| ('\u{16130}' <= c && c <= '\u{16139}')
    ||| ('\u{16a60}' <= c && c <= '\u{16a69}')
    ||| ('\u{16ac0}' <= c && c <= '\u{16ac9}')
    ||| ('\u{16b50}' <= c && c <= '\u{16b59}')
    ||| ('\u{16d70}' <= c && c <= '\u{16d79}')
    ||| ('\u{1ccf0}' <= c && c <= '\u{1ccf9}')
    ||| ('\u{1d7ce}' <= c && c <= '\u{1d7ff}')
    ||| ('\u{1e140}' <= c && c <= '\u{1e149}')
    ||| ('\u{1e2f0}' <= c && c <= '\u{1e2f9}')
    ||| ('\u{1e4f0}' <= c && c <= '\u{1e4f9}')
    ||| ('\u{1e5f1}' <= c && c <= '\u{1e5fa}')
    ||| ('\u{1e950}' <= c && c <= '\u{1e959}')
    ||| ('\u{1fbf0}' <= c && c <= '\u{1fbf9}')
}

/// Number of leading decimal digits of `s`.
pub open spec fn leading_digits(s: Seq<char>) -> nat
    decreases s.len(),
{
    if s.len() > 0 && is_decimal(s[0]) {
        1 + leading_digits(s.drop_first())
    } else {
        0
    }
}

/// Length of the whitespace run that starts at position `i`.
pub open spec fn ws_run(s: Seq<char>, i: int) -> nat {
    leading_ws(s.skip(i))
}

/// Length of the decimal-digit run that starts at position `i`.
pub open spec fn digit_run(s: Seq<char>, i: int) -> nat {
    leading_digits(s.skip(i))
}

/// `t` holds no line feed (what `.` cannot match).
pub open spec fn no_nl(t: Seq<char>) -> bool {
    forall|j: int| 0 <= j < t.len() ==> #[trigger] t[j] != '\n'
}

/// The tail `\s+(.+)$` read from position `q`: one or more whitespace
/// chars, then a non-empty rest of the text without a line feed. The
/// whitespace run is taken whole, so the rest starts after it.
pub open spec fn tail_rest(s: Seq<char>, q: int) -> Option<Seq<char>> {
    if 0 <= q < s.len() && is_ws(s[q]) {
        let r = q + ws_run(s, q);
        if r < s.len() && no_nl(s.skip(r)) {
            Some(s.skip(r))
        } else {
            None
        }
    } else {
        None
    }
}

pub proof fn lemma_ws_run(s: Seq<char>, i: int)
    requires
        0 <= i <= s.len(),
    ensures
        i + ws_run(s, i) <= s.len(),
        forall|k: int| i <= k < i + ws_run(s, i) ==> is_ws(#[trigger] s[k]),
        i + ws_run(s, i) < s.len() ==> !is_ws(s[i + ws_run(s, i)]),
{
    let t = s.skip(i);
    lemma_leading_ws(t);
    assert forall|k: int| i <= k < i + ws_run(s, i) implies is_ws(#[trigger] s[k]) by {
        assert(s[k] == t[k - i]);
    }
    if i + ws_run(s, i) < s.len() {
        assert(s[i + ws_run(s, i)] == t[ws_run(s, i) as int]);
    }
}

pub proof fn lemma_leading_digits(s: Seq<char>)
    ensures
        leading_digits(s) <= s.len(),
        forall|i: int| 0 <= i < leading_digits(s) ==> is_decimal(#[trigger] s[i]),
        leading_digits(s) < s.len() ==> !is_decimal(s[leading_digits(s) as int]),
    decreases s.len(),
{
    if s.len() > 0 && is_decimal(s[0]) {
        lemma_leading_digits(s.drop_first());
        assert forall|i: int| 0 <= i < leading_digits(s) implies is_decimal(#[trigger] s[i]) by {
            if i > 0 {
                assert(s[i] == s.drop_first()[i - 1]);
            }
        }
    }
}

pub proof fn lemma_digit_run(s: Seq<char>, i: int)
    requires
        0 <= i <= s.len(),
    ensures
        i + digit_run(s, i) <= s.len(),
        forall|k: int| i <= k < i + digit_run(s, i) ==> is_decimal(#[trigger] s[k]),
        i + digit_run(s, i) < s.len() ==> !is_decimal(s[i + digit_run(s, i)]),
{
    let t = s.skip(i);
    lemma_leading_digits(t);
    assert forall|k: int| i <= k < i + digit_run(s, i) implies is_decimal(#[trigger] s[k]) by {
        assert(s[k] == t[k - i]);
    }
    if i + digit_run(s, i) < s.len() {
        assert(s[i + digit_run(s, i)] == t[digit_run(s, i) as int]);
    }
}

pub fn ci_char_exec(c: char, k: char) -> (r: bool)
    ensures
        r == ci_char(c, k),
{
    c == k || ('a' <= k && k <= 'z' && (c as u32) + 32 == (k as u32)) || (k == 'k' && c
        == '\u{212a}') || (k == 's' && c == '\u{17f}')
}

/// Whether the keyword `kw` occurs at position `i` of `v`, ignoring case.
pub fn ci_at_exec(v: &Vec<char>, i: usize, kw: &str) -> (r: bool)
    ensures
        r == ci_at(v@, i as int, kw@),
{
    let n = kw.unicode_len();
    if i > v.len() || n > v.len() - i {
        return false;
    }
    let ghost a = v@.subrange(i as int, i + n);
    let mut j: usize = 0;
    while j < n
        invariant
            j <= n == kw@.len(),
            i + n <= v.len(),
            a == v@.subrange(i as int, i + n),
            forall|t: int| 0 <= t < j ==> ci_char(#[trigger] a[t], kw@[t]),
        decreases n - j,
    {
        let k = kw.get_char(j);
        if !ci_char_exec(v[i + j], k) {
            assert(a[j as int] == v@[i + j]);
            return false;
        }
        assert(a[j as int] == v@[i + j]);
        j = j + 1;
    }
    true
}

pub fn is_decimal_exec(c: char) -> (r: bool)
    ensures
        r == is_decimal(c),
{
    ('\u{30}' <= c && c <= '\u{39}')
        || ('\u{660}' <= c && c <= '\u{669}')
        || ('\u{6f0}' <= c && c <= '\u{6f9}')
        || ('\u{7c0}' <= c && c <= '\u{7c9}')
        || ('\u{966}' <= c && c <= '\u{96f}')
        || ('\u{9e6}' <= c && c <= '\u{9ef}')
        || ('\u{a66}' <= c && c <= '\u{a6f}')
        || ('\u{ae6}' <= c && c <= '\u{aef}')
        || ('\u{b66}' <= c && c <= '\u{b6f}')
        || ('\u{be6}' <= c && c <= '\u{bef}')
        || ('\u{c66}' <= c && c <= '\u{c6f}')
        || ('\u{ce6}' <= c && c <= '\u{cef}')
        || ('\u{d66}' <= c && c <= '\u{d6f}')
        || ('\u{de6}' <= c && c <= '\u{def}')
        || ('\u{e50}' <= c && c <= '\u{e59}')
        || ('\u{ed0}' <= c && c <= '\u{ed9}')
        || ('\u{f20}' <= c && c <= '\u{f29}')
        || ('\u{1040}' <= c && c <= '\u{1049}')
        || ('\u{1090}' <= c && c <= '\u{1099}')
        || ('\u{17e0}' <= c && c <= '\u{17e9}')
        || ('\u{1810}' <= c && c <= '\u{1819}')
        || ('\u{1946}' <= c && c <= '\u{194f}')
        || ('\u{19d0}' <= c && c <= '\u{19d9}')
        || ('\u{1a80}' <= c && c <= '\u{1a89}')
        || ('\u{1a90}' <= c && c <= '\u{1a99}')
        || ('\u{1b50}' <= c && c <= '\u{1b59}')
        || ('\u{1bb0}' <= c && c <= '\u{1bb9}')
        || ('\u{1c40}' <= c && c <= '\u{1c49}')
        || ('\u{1c50}' <= c && c <= '\u{1c59}')
        || ('\u{a620}' <= c && c <= '\u{a629}')
        || ('\u{a8d0}' <= c && c <= '\u{a8d9}')
        || ('\u{a900}' <= c && c <= '\u{a909}')
        || ('\u{a9d0}' <= c && c <= '\u{a9d9}')
        || ('\u{a9f0}' <= c && c <= '\u{a9f9}')
        || ('\u{aa50}' <= c && c <= '\u{aa59}')
        || ('\u{abf0}' <= c && c <= '\u{abf9}')
        || ('\u{ff10}' <= c && c <= '\u{ff19}')
        || ('\u{104a0}' <= c && c <= '\u{104a9}')
        || ('\u{10d30}' <= c && c <= '\u{10d39}')
        || ('\u{10d40}' <= c && c <= '\u{10d49}')
        || ('\u{11066}' <= c && c <= '\u{1106f}')
        || ('\u{110f0}' <= c && c <= '\u{110f9}')
        || ('\u{11136}' <= c && c <= '\u{1113f}')
        || ('\u{111d0}' <= c && c <= '\u{111d9}')
        || ('\u{112f0}' <= c && c <= '\u{112f9}')
        || ('\u{11450}' <= c && c <= '\u{11459}')
        || ('\u{114d0}' <= c && c <= '\u{114d9}')
        || ('\u{11650}' <= c && c <= '\u{11659}')
        || ('\u{116c0}' <= c && c <= '\u{116c9}')
        || ('\u{116d0}' <= c && c <= '\u{116e3}')
        || ('\u{11730}' <= c && c <= '\u{11739}')
        || ('\u{118e0}' <= c && c <= '\u{118e9}')
        || ('\u{11950}' <= c && c <= '\u{11959}')
        || ('\u{11bf0}' <= c && c <= '\u{11bf9}')
        || ('\u{11c50}' <= c && c <= '\u{11c59}')
        || ('\u{11d50}' <= c && c <= '\u{11d59}')
        || ('\u{11da0}' <= c && c <= '\u{11da9}')
        || ('\u{11f50}' <= c && c <= '\u{11f59}')
        || ('\u{16130}' <= c && c <= '\u{16139}')
        || ('\u{16a60}' <= c && c <= '\u{16a69}')
        || ('\u{16ac0}' <= c && c <= '\u{16ac9}')
        || ('\u{16b50}' <= c && c <= '\u{16b59}')
        || ('\u{16d70}' <= c && c <= '\u{16d79}')
        || ('\u{1ccf0}' <= c && c <= '\u{1ccf9}')
        || ('\u{1d7ce}' <= c && c <= '\u{1d7ff}')
        || ('\u{1e140}' <= c && c <= '\u{1e149}')
        || ('\u{1e2f0}' <= c && c <= '\u{1e2f9}')
        || ('\u{1e4f0}' <= c && c <= '\u{1e4f9}')
        || ('\u{1e5f1}' <= c && c <= '\u{1e5fa}')
        || ('\u{1e950}' <= c && c <= '\u{1e959}')
        || ('\u{1fbf0}' <= c && c <= '\u{1fbf9}')
}

/// Length of the whitespace run of `v` that starts at `i`.
pub fn ws_run_exec(v: &Vec<char>, i: usize) -> (n: usize)
    requires
        i <= v.len(),
    ensures
        n == ws_run(v@, i as int),
        i + n <= v.len(),
{
    let mut k = i;
    assert(v@.skip(i as int) =~= v@.skip(k as int));
    while k < v.len() && is_whitespace(v[k])
        invariant
            i <= k <= v.len(),
            ws_run(v@, i as int) == (k - i) + leading_ws(v@.skip(k as int)),
        decreases v.len() - k,
    {
        assert(v@.skip(k as int).drop_first() =~= v@.skip(k + 1));
        k = k + 1;
    }
    if k == v.len() {
        assert(v@.skip(k as int).len() == 0);
    }
    k - i
}

/// Length of the decimal-digit run of `v` that starts at `i`.
pub fn digit_run_exec(v: &Vec<char>, i: usize) -> (n: usize)
    requires
        i <= v.len(),
    ensures
        n == digit_run(v@, i as int),
        i + n <= v.len(),
{
    let mut k = i;
    assert(v@.skip(i as int) =~= v@.skip(k as int));
    while k < v.len() && is_decimal_exec(v[k])
        invariant
            i <= k <= v.len(),
            digit_run(v@, i as int) == (k - i) + leading_digits(v@.skip(k as int)),
        decreases v.len() - k,
    {
        assert(v@.skip(k as int).drop_first() =~= v@.skip(k + 1));
        k = k + 1;
    }
    if k == v.len() {
        assert(v@.skip(k as int).len() == 0);
    }
    k - i
}

/// Whether `v[i..]` holds no line feed.
pub fn no_nl_from(v: &Vec<char>, i: usize) -> (r: bool)
    requires
        i <= v.len(),
    ensures
        r == no_nl(v@.skip(i as int)),
{
    let mut k = i;
    while k < v.len()
        invariant
            i <= k <= v.len(),
            forall|j: int| i <= j < k ==> v@[j] != '\n',
        decreases v.len() - k,
    {
        if v[k] == '\n' {
            assert(v@.skip(i as int)[k - i] == '\n');
            return false;
        }
        k = k + 1;
    }
    assert forall|j: int| 0 <= j < v@.skip(i as int).len() implies #[trigger] v@.skip(i as int)[j]
        != '\n' by {
        assert(v@.skip(i as int)[j] == v@[i + j]);
    }
    true
}

/// The start of the rest matched by the tail `\s+(.+)$` from position `q`.
pub fn tail_exec(v: &Vec<char>, q: usize) -> (r: Option<usize>)
    ensures
        match tail_rest(v@, q as int) {
            Some(t) => r is Some && r->0 <= v.len() && t == v@.skip(r->0 as int),
            None => r is None,
        },
{
    if q >= v.len() || !is_whitespace(v[q]) {
        return None;
    }
    let n = ws_run_exec(v, q);
    let r = q + n;
    if r < v.len() && no_nl_from(v, r) {
        Some(r)
    } else {
        None
    }
}

} // verus!
