//! Character-level helpers shared by the parsers and validators.
//!
//! Text is reasoned about as its sequence of chars (`s@`). Lexicographic
//! order on chars coincides with the byte order of UTF-8 text, which is the
//! order std uses for `str`.
use vstd::prelude::*;

verus! {

/// The Unicode White_Space property, which both `char::is_whitespace` and the
/// `\s` class of a Unicode regex use.
pub open spec fn is_ws(c: char) -> bool {
    ||| ('\t' <= c && c <= '\r')
    ||| c == ' '
    ||| c == '\u{85}'
    ||| c == '\u{a0}'
    ||| c == '\u{1680}'
    ||| ('\u{2000}' <= c && c <= '\u{200a}')
    ||| c == '\u{2028}'
    ||| c == '\u{2029}'
    ||| c == '\u{202f}'
    ||| c == '\u{205f}'
    ||| c == '\u{3000}'
}

pub fn is_whitespace(c: char) -> (r: bool)
    ensures
        r == is_ws(c),
{
    ('\t' <= c && c <= '\r') || c == ' ' || c == '\u{85}' || c == '\u{a0}' || c == '\u{1680}'
        || ('\u{2000}' <= c && c <= '\u{200a}') || c == '\u{2028}' || c == '\u{2029}'
        || c == '\u{202f}' || c == '\u{205f}' || c == '\u{3000}'
}

pub open spec fn is_ascii_digit(c: char) -> bool {
    '0' <= c && c <= '9'
}

/// Number of leading whitespace chars.
pub open spec fn leading_ws(s: Seq<char>) -> nat
    decreases s.len(),
{
    if s.len() > 0 && is_ws(s[0]) {
        1 + leading_ws(s.drop_first())
    } else {
        0
    }
}

/// Number of trailing whitespace chars.
pub open spec fn trailing_ws(s: Seq<char>) -> nat
    decreases s.len(),
{
    if s.len() > 0 && is_ws(s.last()) {
        1 + trailing_ws(s.drop_last())
    } else {
        0
    }
}

/// `s` without leading and trailing whitespace, as `str::trim` gives it.
pub open spec fn trim(s: Seq<char>) -> Seq<char> {
    let t = s.skip(leading_ws(s) as int);
    t.take(t.len() - trailing_ws(t))
}

pub proof fn lemma_leading_ws(s: Seq<char>)
    ensures
        leading_ws(s) <= s.len(),
        forall|i: int| 0 <= i < leading_ws(s) ==> is_ws(#[trigger] s[i]),
        leading_ws(s) < s.len() ==> !is_ws(s[leading_ws(s) as int]),
    decreases s.len(),
{
    if s.len() > 0 && is_ws(s[0]) {
        lemma_leading_ws(s.drop_first());
        assert forall|i: int| 0 <= i < leading_ws(s) implies is_ws(#[trigger] s[i]) by {
            if i > 0 {
                assert(s[i] == s.drop_first()[i - 1]);
            }
        }
    }
}

pub proof fn lemma_trailing_ws(s: Seq<char>)
    ensures
        trailing_ws(s) <= s.len(),
        forall|i: int| s.len() - trailing_ws(s) <= i < s.len() ==> is_ws(#[trigger] s[i]),
        trailing_ws(s) < s.len() ==> !is_ws(s[s.len() - trailing_ws(s) - 1]),
    decreases s.len(),
{
    if s.len() > 0 && is_ws(s.last()) {
        lemma_trailing_ws(s.drop_last());
        assert forall|i: int| s.len() - trailing_ws(s) <= i < s.len() implies is_ws(
            #[trigger] s[i],
        ) by {
            if i < s.len() - 1 {
                assert(s[i] == s.drop_last()[i]);
            }
        }
    }
}

/// Count of leading whitespace chars in `v[from..]`.
fn count_leading_ws(v: &Vec<char>) -> (n: usize)
    ensures
        n == leading_ws(v@),
{
    let mut i: usize = 0;
    assert(v@.skip(0) =~= v@);
    while i < v.len() && is_whitespace(v[i])
        invariant
            i <= v.len(),
            leading_ws(v@) == i + leading_ws(v@.skip(i as int)),
        decreases v.len() - i,
    {
        assert(v@.skip(i as int).drop_first() =~= v@.skip(i + 1));
        i = i + 1;
    }
    proof {
        if i == v.len() {
            assert(v@.skip(i as int).len() == 0);
        }
    }
    i
}

fn count_trailing_ws(v: &Vec<char>, lo: usize) -> (n: usize)
    requires
        lo <= v.len(),
    ensures
        n == trailing_ws(v@.skip(lo as int)),
{
    let ghost t = v@.skip(lo as int);
    let mut j: usize = v.len();
    assert(t.take(j - lo) =~= t);
    while j > lo && is_whitespace(v[j - 1])
        invariant
            lo <= j <= v.len(),
            t == v@.skip(lo as int),
            trailing_ws(t) == (v.len() - j) + trailing_ws(t.take(j - lo)),
        decreases j,
    {
        assert(t.take(j - lo).drop_last() =~= t.take(j - 1 - lo));
        j = j - 1;
    }
    proof {
        assert(t.take(0) =~= Seq::<char>::empty());
    }
    v.len() - j
}

/// The chars of a string slice, in order.
pub fn chars_of(s: &str) -> (v: Vec<char>)
    ensures
        v@ == s@,
{
    let mut v: Vec<char> = Vec::new();
    for c in it: s.chars()
        invariant
            v@ == it.seq().take(it.index() as int),
    {
        v.push(c);
    }
    v
}

/// `String::push`. Trusted to append `c` to the string's chars and to
/// change nothing else.
#[verifier::external_body]
pub(crate) fn push_char(s: &mut String, c: char)
    ensures
        final(s)@ == old(s)@.push(c),
{
    s.push(c);
}

/// A string holding exactly the chars `v[lo..hi]`.
pub fn string_of(v: &Vec<char>, lo: usize, hi: usize) -> (s: String)
    requires
        lo <= hi <= v.len(),
    ensures
        s@ == v@.subrange(lo as int, hi as int),
{
    let mut s = String::new();
    let mut i = lo;
    while i < hi
        invariant
            lo <= i <= hi <= v.len(),
            s@ == v@.subrange(lo as int, i as int),
        decreases hi - i,
    {
        push_char(&mut s, v[i]);
        assert(v@.subrange(lo as int, i + 1) =~= v@.subrange(lo as int, i as int).push(v@[i as int]));
        i = i + 1;
    }
    s
}

/// The whitespace-trimmed chars of `all`, as `str::trim` gives them.
pub fn trim_vec(all: &Vec<char>) -> (v: Vec<char>)
    ensures
        v@ == trim(all@),
{
    let lo = count_leading_ws(all);
    proof { lemma_leading_ws(all@); }
    let tr = count_trailing_ws(all, lo);
    proof { lemma_trailing_ws(all@.skip(lo as int)); }
    let hi = all.len() - tr;
    let v = sub_chars(all, lo, hi);
    assert(v@ =~= trim(all@));
    v
}

/// The chars `v[lo..hi]`.
pub fn sub_chars(v: &Vec<char>, lo: usize, hi: usize) -> (r: Vec<char>)
    requires
        lo <= hi <= v.len(),
    ensures
        r@ == v@.subrange(lo as int, hi as int),
{
    let mut r: Vec<char> = Vec::new();
    let mut i = lo;
    while i < hi
        invariant
            lo <= i <= hi <= v.len(),
            r@ == v@.subrange(lo as int, i as int),
        decreases hi - i,
    {
        r.push(v[i]);
        assert(v@.subrange(lo as int, i + 1) =~= v@.subrange(lo as int, i as int).push(v@[i as int]));
        i = i + 1;
    }
    r
}

/// The whitespace-trimmed chars of `s`, as `str::trim` gives them.
pub fn trimmed_chars(s: &str) -> (v: Vec<char>)
    ensures
        v@ == trim(s@),
{
    let all = chars_of(s);
    trim_vec(&all)
}

/// A string holding the chars of `v`.
pub fn string_from(v: &Vec<char>) -> (s: String)
    ensures
        s@ == v@,
{
    let s = string_of(v, 0, v.len());
    assert(v@.subrange(0, v.len() as int) =~= v@);
    s
}

/// What `str::to_lowercase` gives for the text `s`: its lowercase
/// equivalent under the Unicode Lowercase mapping, where one char may become
/// several and a final capital sigma depends on its neighbours. It depends
/// on the text alone.
pub uninterp spec fn lowercase(s: Seq<char>) -> Seq<char>;

/// `str::to_lowercase`. Trusted to return `lowercase` of its argument; the
/// Unicode case tables behind it are not restated here.
#[verifier::external_body]
pub(crate) fn to_lowercase(s: &str) -> (r: String)
    ensures
        r@ == lowercase(s@),
{
    s.to_lowercase()
}

/// `s.trim()` as an owned string.
pub fn trim_string(s: &str) -> (r: String)
    ensures
        r@ == trim(s@),
{
    let v = trimmed_chars(s);
    string_of(&v, 0, v.len())
}

/// Lexicographic order on char sequences (a strict prefix sorts first).
pub open spec fn seq_lt(a: Seq<char>, b: Seq<char>) -> bool
    decreases a.len(),
{
    if b.len() == 0 {
        false
    } else if a.len() == 0 {
        true
    } else if a[0] != b[0] {
        a[0] < b[0]
    } else {
        seq_lt(a.drop_first(), b.drop_first())
    }
}

pub open spec fn seq_le(a: Seq<char>, b: Seq<char>) -> bool {
    seq_lt(a, b) || a == b
}

pub fn chars_lt(a: &Vec<char>, b: &Vec<char>) -> (r: bool)
    ensures
        r == seq_lt(a@, b@),
{
    let mut i: usize = 0;
    assert(a@.skip(0) =~= a@);
    assert(b@.skip(0) =~= b@);
    while i < a.len() && i < b.len() && a[i] == b[i]
        invariant
            i <= a.len(),
            i <= b.len(),
            seq_lt(a@, b@) == seq_lt(a@.skip(i as int), b@.skip(i as int)),
        decreases a.len() - i,
    {
        assert(a@.skip(i as int).drop_first() =~= a@.skip(i + 1));
        assert(b@.skip(i as int).drop_first() =~= b@.skip(i + 1));
        i = i + 1;
    }
    if i == b.len() {
        false
    } else if i == a.len() {
        true
    } else {
        a[i] < b[i]
    }
}

/// `a < b` for string slices.
pub fn str_lt(a: &str, b: &str) -> (r: bool)
    ensures
        r == seq_lt(a@, b@),
{
    let va = chars_of(a);
    let vb = chars_of(b);
    chars_lt(&va, &vb)
}

pub fn chars_eq(a: &Vec<char>, b: &Vec<char>) -> (r: bool)
    ensures
        r == (a@ == b@),
{
    if a.len() != b.len() {
        return false;
    }
    let mut i: usize = 0;
    while i < a.len()
        invariant
            i <= a.len() == b.len(),
            forall|k: int| 0 <= k < i ==> a@[k] == b@[k],
        decreases a.len() - i,
    {
        if a[i] != b[i] {
            return false;
        }
        i = i + 1;
    }
    assert(a@ =~= b@);
    true
}

/// `a == b` for string slices.
pub fn str_eq(a: &str, b: &str) -> (r: bool)
    ensures
        r == (a@ == b@),
{
    let va = chars_of(a);
    let vb = chars_of(b);
    chars_eq(&va, &vb)
}

/// Number of bytes that `c` takes in UTF-8.
pub open spec fn utf8_width(c: char) -> nat {
    if (c as u32) < 0x80 {
        1
    } else if (c as u32) < 0x800 {
        2
    } else if (c as u32) < 0x10000 {
        3
    } else {
        4
    }
}

/// Length in bytes of the UTF-8 text of `s`, as `str::len` gives it.
pub open spec fn byte_len(s: Seq<char>) -> nat
    decreases s.len(),
{
    if s.len() == 0 {
        0
    } else {
        utf8_width(s[0]) + byte_len(s.drop_first())
    }
}

/// The char index at which byte offset `b` falls, when `b` is a char boundary.
pub open spec fn char_at_byte(s: Seq<char>, b: int) -> Option<int>
    decreases s.len(),
{
    if b == 0 {
        Some(0)
    } else if b < 0 || s.len() == 0 {
        None
    } else {
        match char_at_byte(s.drop_first(), b - utf8_width(s[0])) {
            Some(k) => Some(k + 1),
            None => None,
        }
    }
}

pub open spec fn is_boundary(s: Seq<char>, b: int) -> bool {
    char_at_byte(s, b) is Some
}

/// The chars of the byte range `s[a..b]`.
pub open spec fn byte_slice(s: Seq<char>, a: int, b: int) -> Seq<char> {
    s.subrange(char_at_byte(s, a)->0, char_at_byte(s, b)->0)
}

pub fn char_width(c: char) -> (w: usize)
    ensures
        w == utf8_width(c),
{
    let u = c as u32;
    if u < 0x80 {
        1
    } else if u < 0x800 {
        2
    } else if u < 0x10000 {
        3
    } else {
        4
    }
}

proof fn lemma_char_at_byte_skip(s: Seq<char>, i: int, b: int)
    requires
        0 <= i < s.len(),
        b > 0,
    ensures
        char_at_byte(s.skip(i), b) == match char_at_byte(s.skip(i + 1), b - utf8_width(s[i])) {
            Some(k) => Some(k + 1),
            None => None::<int>,
        },
{
    assert(s.skip(i).drop_first() =~= s.skip(i + 1));
}

/// The char index of byte offset `b` of `v`, or None when `b` is not a char boundary.
pub fn char_index_of_byte(v: &Vec<char>, b: usize) -> (r: Option<usize>)
    ensures
        match char_at_byte(v@, b as int) {
            Some(k) => r == Some(k as usize),
            None => r is None,
        },
{
    let mut i: usize = 0;
    let mut rem: usize = b;
    assert(v@.skip(0) =~= v@);
    while i < v.len() && rem > 0
        invariant
            i <= v.len(),
            rem <= b,
            char_at_byte(v@, b as int) == match char_at_byte(v@.skip(i as int), rem as int) {
                Some(k) => Some(k + i),
                None => None::<int>,
            },
        decreases v.len() - i,
    {
        let w = char_width(v[i]);
        proof { lemma_char_at_byte_skip(v@, i as int, rem as int); }
        if w > rem {
            assert(char_at_byte(v@.skip(i + 1), rem - w) is None) by {
                lemma_char_at_byte_neg(v@.skip(i + 1), rem - w);
            }
            return None;
        }
        rem = rem - w;
        i = i + 1;
    }
    if rem == 0 {
        Some(i)
    } else {
        assert(v@.skip(i as int).len() == 0);
        None
    }
}

proof fn lemma_char_at_byte_neg(s: Seq<char>, b: int)
    requires
        b < 0,
    ensures
        char_at_byte(s, b) is None,
{
}

/// `str::len`: the number of bytes of the UTF-8 text.
pub fn byte_length(v: &Vec<char>) -> (n: usize)
    requires
        v.len() <= 0x1000_0000,
    ensures
        n == byte_len(v@),
{
    let mut i: usize = v.len();
    let mut n: usize = 0;
    assert(v@.skip(v.len() as int) =~= Seq::<char>::empty());
    while i > 0
        invariant
            i <= v.len() <= 0x1000_0000,
            n == byte_len(v@.skip(i as int)),
            n <= 4 * (v.len() - i),
        decreases i,
    {
        assert(v@.skip(i - 1).drop_first() =~= v@.skip(i as int));
        n = n + char_width(v[i - 1]);
        i = i - 1;
    }
    assert(v@.skip(0) =~= v@);
    n
}

proof fn lemma_byte_len_push(s: Seq<char>, c: char)
    ensures
        byte_len(s.push(c)) == byte_len(s) + utf8_width(c),
    decreases s.len(),
{
    if s.len() > 0 {
        assert(s.push(c).drop_first() =~= s.drop_first().push(c));
        assert(s.push(c)[0] == s[0]);
        lemma_byte_len_push(s.drop_first(), c);
        assert(byte_len(s.push(c)) == utf8_width(s[0]) + byte_len(s.drop_first().push(c)));
    } else {
        assert(s.push(c).drop_first() =~= Seq::<char>::empty());
        assert(s.push(c)[0] == c);
        assert(byte_len(s.push(c).drop_first()) == 0);
        assert(byte_len(s.push(c)) == utf8_width(c) + byte_len(s.push(c).drop_first()));
    }
}

proof fn lemma_byte_len_split(s: Seq<char>, i: int)
    requires
        0 <= i <= s.len(),
    ensures
        byte_len(s.take(i)) <= byte_len(s),
    decreases s.len() - i,
{
    if i < s.len() {
        lemma_byte_len_split(s, i + 1);
        assert(s.take(i + 1) =~= s.take(i).push(s[i]));
        lemma_byte_len_push(s.take(i), s[i]);
    } else {
        assert(s.take(i) =~= s);
    }
}

/// Whether the UTF-8 text of `v` is at least `n` bytes long.
pub(crate) fn bytes_at_least(v: &Vec<char>, n: usize) -> (r: bool)
    requires
        n <= 1_000_000,
    ensures
        r == (byte_len(v@) >= n),
{
    let mut acc: usize = 0;
    let mut i: usize = 0;
    assert(v@.take(0) =~= Seq::<char>::empty());
    while i < v.len() && acc < n
        invariant
            i <= v.len(),
            n <= 1_000_000,
            acc == byte_len(v@.take(i as int)),
            acc < n + 4,
        decreases v.len() - i,
    {
        proof {
            assert(v@.take(i + 1) =~= v@.take(i as int).push(v@[i as int]));
            lemma_byte_len_push(v@.take(i as int), v@[i as int]);
        }
        acc = acc + char_width(v[i]);
        i = i + 1;
    }
    proof {
        lemma_byte_len_split(v@, i as int);
        if i == v.len() {
            assert(v@.take(i as int) =~= v@);
        }
    }
    acc >= n
}

} // verus!
