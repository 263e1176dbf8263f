//! Decimal text of integers, as `{}` / `{:0w}` print them and as
//! `i64::from_str` reads them.
use vstd::prelude::*;
use crate::text::{is_ascii_digit, push_char};
use vstd::string::StrSliceExecFns;
use vstd::string::StringExecFns;

verus! {

pub open spec fn digit_char(d: int) -> char {
    if d == 0 { '0' }
    else if d == 1 { '1' }
    else if d == 2 { '2' }
    else if d == 3 { '3' }
    else if d == 4 { '4' }
    else if d == 5 { '5' }
    else if d == 6 { '6' }
    else if d == 7 { '7' }
    else if d == 8 { '8' }
    else { '9' }
}

pub open spec fn char_digit(c: char) -> int {
    (c as int) - ('0' as int)
}

/// Decimal digits of a natural number, most significant first.
pub open spec fn decimal(n: nat) -> Seq<char>
    decreases n,
{
    if n < 10 {
        seq![digit_char(n as int)]
    } else {
        decimal(n / 10).push(digit_char((n % 10) as int))
    }
}

/// `{}` of an integer.
pub open spec fn int_text(v: int) -> Seq<char> {
    if v < 0 {
        seq!['-'] + decimal((-v) as nat)
    } else {
        decimal(v as nat)
    }
}

pub open spec fn zeros(n: int) -> Seq<char> {
    Seq::new(if n > 0 { n as nat } else { 0 }, |i: int| '0')
}

/// `{:0w}` of an integer: the sign, then zeros up to the width, then the digits.
pub open spec fn padded_text(v: int, width: int) -> Seq<char> {
    if v < 0 {
        let ds = decimal((-v) as nat);
        seq!['-'] + zeros(width - 1 - ds.len()) + ds
    } else {
        let ds = decimal(v as nat);
        zeros(width - ds.len()) + ds
    }
}

pub open spec fn all_digits(s: Seq<char>) -> bool {
    forall|i: int| 0 <= i < s.len() ==> is_ascii_digit(#[trigger] s[i])
}

/// Value of a string of decimal digits.
pub open spec fn digits_value(s: Seq<char>) -> nat
    decreases s.len(),
{
    if s.len() == 0 {
        0
    } else {
        digits_value(s.drop_last()) * 10 + (char_digit(s.last()) as nat)
    }
}

pub open spec fn in_i64(v: int) -> bool {
    i64::MIN <= v <= i64::MAX
}

/// What `i64::from_str` gives: an optional sign, then one or more ASCII
/// digits, with a value that fits.
pub open spec fn parse_int(s: Seq<char>) -> Option<int> {
    if s.len() == 0 {
        None
    } else {
        let neg = s[0] == '-';
        let body = if s[0] == '-' || s[0] == '+' { s.drop_first() } else { s };
        if body.len() == 0 || !all_digits(body) {
            None
        } else {
            let v = if neg { -(digits_value(body) as int) } else { digits_value(body) as int };
            if in_i64(v) { Some(v) } else { None }
        }
    }
}

pub proof fn lemma_decimal_len(n: nat)
    ensures
        decimal(n).len() >= 1,
        n < 10 ==> decimal(n).len() == 1,
        n >= 10 ==> decimal(n).len() >= 2,
    decreases n,
{
    if n >= 10 {
        lemma_decimal_len(n / 10);
    }
}

fn digit_of(d: u64) -> (c: char)
    requires
        d < 10,
    ensures
        c == digit_char(d as int),
{
    if d == 0 { '0' }
    else if d == 1 { '1' }
    else if d == 2 { '2' }
    else if d == 3 { '3' }
    else if d == 4 { '4' }
    else if d == 5 { '5' }
    else if d == 6 { '6' }
    else if d == 7 { '7' }
    else if d == 8 { '8' }
    else { '9' }
}

pub fn push_decimal(s: &mut String, n: u64)
    ensures
        final(s)@ == old(s)@ + decimal(n as nat),
    decreases n,
{
    if n >= 10 {
        push_decimal(s, n / 10);
    }
    let c = digit_of(n % 10);
    push_char(s, c);
    proof {
        if n < 10 {
            assert(decimal(n as nat) =~= seq![digit_char(n as int)]);
        }
    }
    assert(final(s)@ =~= old(s)@ + decimal(n as nat));
}

/// Magnitude of an i64 without overflow.
fn magnitude(v: i64) -> (m: u64)
    ensures
        m as int == if v < 0 { -(v as int) } else { v as int },
{
    if v < 0 {
        ((-(v + 1)) as u64) + 1
    } else {
        v as u64
    }
}

/// Appends `{}` of `v`.
pub fn push_int(s: &mut String, v: i64)
    ensures
        final(s)@ == old(s)@ + int_text(v as int),
{
    let m = magnitude(v);
    if v < 0 {
        push_char(s, '-');
    }
    push_decimal(s, m);
    assert(final(s)@ =~= old(s)@ + int_text(v as int));
}

/// `{}` of `v` as a new string.
pub fn int_to_string(v: i64) -> (r: String)
    ensures
        r@ == int_text(v as int),
{
    let mut s = String::new();
    push_int(&mut s, v);
    assert(s@ =~= int_text(v as int));
    s
}

fn push_zeros(s: &mut String, n: usize)
    ensures
        final(s)@ == old(s)@ + zeros(n as int),
{
    let mut i: usize = 0;
    while i < n
        invariant
            i <= n,
            s@ == old(s)@ + zeros(i as int),
        decreases n - i,
    {
        push_char(s, '0');
        assert(old(s)@ + zeros(i + 1) =~= (old(s)@ + zeros(i as int)).push('0'));
        i = i + 1;
    }
}

/// Appends `{:0width}` of `v`.
pub fn push_padded(s: &mut String, v: i64, width: usize)
    requires
        width <= 64,
    ensures
        final(s)@ == old(s)@ + padded_text(v as int, width as int),
{
    let m = magnitude(v);
    let mut ds = String::new();
    push_decimal(&mut ds, m);
    let len = ds.as_str().unicode_len();
    if v < 0 {
        push_char(s, '-');
        if width >= 1 && width - 1 > len {
            push_zeros(s, width - 1 - len);
        } else {
            push_zeros(s, 0);
        }
    } else {
        if width > len {
            push_zeros(s, width - len);
        } else {
            push_zeros(s, 0);
        }
    }
    s.append(ds.as_str());
    assert(final(s)@ =~= old(s)@ + padded_text(v as int, width as int));
}

proof fn lemma_digits_value_prefix(s: Seq<char>, k: int)
    requires
        0 <= k <= s.len(),
        all_digits(s),
    ensures
        digits_value(s.take(k)) <= digits_value(s),
    decreases s.len(),
{
    if k < s.len() {
        assert(s.drop_last().take(k) =~= s.take(k));
        lemma_digits_value_prefix(s.drop_last(), k);
    } else {
        assert(s.take(k) =~= s);
    }
}

/// `v[lo..hi]` read with `i64::from_str`.
pub fn parse_int_chars(v: &Vec<char>, lo: usize, hi: usize) -> (r: Option<i64>)
    requires
        lo <= hi <= v.len(),
    ensures
        match parse_int(v@.subrange(lo as int, hi as int)) {
            Some(x) => r == Some(x as i64),
            None => r is None,
        },
{
    let ghost s = v@.subrange(lo as int, hi as int);
    if lo == hi {
        return None;
    }
    let neg = v[lo] == '-';
    let start = if v[lo] == '-' || v[lo] == '+' { lo + 1 } else { lo };
    let ghost body = v@.subrange(start as int, hi as int);
    assert(body =~= (if s[0] == '-' || s[0] == '+' { s.drop_first() } else { s }));
    if start == hi {
        return None;
    }
    let mut acc: u64 = 0;
    let mut i = start;
    let mut overflow = false;
    while i < hi
        invariant
            start <= i <= hi <= v.len(),
            body == v@.subrange(start as int, hi as int),
            s == v@.subrange(lo as int, hi as int),
            s.len() > 0,
            body == (if s[0] == '-' || s[0] == '+' { s.drop_first() } else { s }),
            forall|k: int| start <= k < i ==> is_ascii_digit(#[trigger] v@[k]),
            !overflow ==> acc as nat == digits_value(body.take(i - start)),
            overflow ==> digits_value(body.take(i - start)) > u64::MAX,
        decreases hi - i,
    {
        let c = v[i];
        assert(body[i - start] == c);
        if !('0' <= c && c <= '9') {
            assert(!is_ascii_digit(body[i - start]));
            return None;
        }
        assert(body.take(i - start + 1).drop_last() =~= body.take(i - start));
        assert(body.take(i - start + 1).last() == c);
        let d = (c as u64) - ('0' as u64);
        if !overflow {
            match acc.checked_mul(10) {
                Some(a10) => match a10.checked_add(d) {
                    Some(a) => { acc = a; }
                    None => { overflow = true; }
                },
                None => {
                    overflow = true;
                    assert(digits_value(body.take(i - start + 1)) >= (acc as nat) * 10) by (nonlinear_arith)
                        requires digits_value(body.take(i - start + 1)) == (acc as nat) * 10 + char_digit(c) as nat,
                            char_digit(c) >= 0;
                }
            }
        } else {
            assert(digits_value(body.take(i - start + 1)) >= digits_value(body.take(i - start)) * 10) by (nonlinear_arith)
                requires digits_value(body.take(i - start + 1)) == digits_value(body.take(i - start)) * 10 + char_digit(c) as nat,
                    char_digit(c) >= 0;
        }
        i = i + 1;
    }
    assert(body.take(hi - start) =~= body);
    assert(all_digits(body));
    if overflow {
        return None;
    }
    if neg {
        if acc > 9223372036854775808 {
            None
        } else if acc == 9223372036854775808 {
            Some(i64::MIN)
        } else {
            Some(-(acc as i64))
        }
    } else {
        if acc > 9223372036854775807 {
            None
        } else {
            Some(acc as i64)
        }
    }
}

} // verus!
