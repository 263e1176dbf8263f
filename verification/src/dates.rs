//! Proleptic Gregorian calendar arithmetic on day counts since 1970-01-01
//! (Howard Hinnant's `days_from_civil` / `civil_from_days`).
use vstd::prelude::*;
use vstd::arithmetic::div_mod::*;
use crate::num::{parse_int, padded_text, decimal, digits_value, zeros, all_digits, char_digit,
    digit_char, parse_int_chars, push_padded, lemma_decimal_len};
use crate::text::{chars_of, char_at_byte, byte_slice, is_boundary, char_index_of_byte, push_char,
    utf8_width};

verus! {

/// Days since 1970-01-01 of the civil date (y, m, d). Months are 1..=12 for
/// real dates; other values follow the same formula.
pub open spec fn days_from_civil(y: int, m: int, d: int) -> int {
    let y2 = if m <= 2 { y - 1 } else { y };
    let era = y2 / 400;
    let yoe = y2 - era * 400;
    let mp = (m + 9) % 12;
    let doy = (153 * mp + 2) / 5 + d - 1;
    let doe = yoe * 365 + yoe / 4 - yoe / 100 + doy;
    era * 146097 + doe - 719468
}

/// Day of the era (0..146096) of a day count.
pub open spec fn doe_of(z: int) -> int {
    (z + 719468) - ((z + 719468) / 146097) * 146097
}

pub open spec fn yoe_of_doe(doe: int) -> int {
    (doe - doe / 1460 + doe / 36524 - doe / 146096) / 365
}

pub open spec fn doy_of_doe(doe: int) -> int {
    let yoe = yoe_of_doe(doe);
    doe - (365 * yoe + yoe / 4 - yoe / 100)
}

/// The civil date (y, m, d) of a day count since 1970-01-01.
pub open spec fn civil_from_days(z: int) -> (int, int, int) {
    let era = (z + 719468) / 146097;
    let doe = doe_of(z);
    let yoe = yoe_of_doe(doe);
    let y = yoe + era * 400;
    let doy = doy_of_doe(doe);
    let mp = (5 * doy + 2) / 153;
    let d = doy - (153 * mp + 2) / 5 + 1;
    let m = if mp < 10 { mp + 3 } else { mp - 9 };
    (if m <= 2 { y + 1 } else { y }, m, d)
}

pub open spec fn is_leap_year(y: int) -> bool {
    (y % 4 == 0 && y % 100 != 0) || y % 400 == 0
}

pub open spec fn days_in_month(y: int, m: int) -> int {
    if m == 2 {
        if is_leap_year(y) { 29 } else { 28 }
    } else if m == 4 || m == 6 || m == 9 || m == 11 {
        30
    } else {
        31
    }
}

/// A real calendar date.
pub open spec fn valid_civil(y: int, m: int, d: int) -> bool {
    1 <= m <= 12 && 1 <= d <= days_in_month(y, m)
}

/// Weekday of a day count: 0 = Sunday .. 6 = Saturday (1970-01-01 was a Thursday).
pub open spec fn weekday_of_days(z: int) -> int {
    (z + 4) % 7
}

proof fn lemma_doe_bounds(doe: u32)
    requires
        doe <= 146096,
    ensures
        ((doe - doe / 1460 + doe / 36524 - doe / 146096) / 365) <= 399,
        365 * ((doe - doe / 1460 + doe / 36524 - doe / 146096) / 365)
            + ((doe - doe / 1460 + doe / 36524 - doe / 146096) / 365) / 4
            - ((doe - doe / 1460 + doe / 36524 - doe / 146096) / 365) / 100 <= doe,
        doe - (365 * ((doe - doe / 1460 + doe / 36524 - doe / 146096) / 365)
            + ((doe - doe / 1460 + doe / 36524 - doe / 146096) / 365) / 4
            - ((doe - doe / 1460 + doe / 36524 - doe / 146096) / 365) / 100) <= 365,
{
    assert(((doe - doe / 1460 + doe / 36524 - doe / 146096) / 365) <= 399 && 365 * ((doe - doe
        / 1460 + doe / 36524 - doe / 146096) / 365) + ((doe - doe / 1460 + doe / 36524 - doe
        / 146096) / 365) / 4 - ((doe - doe / 1460 + doe / 36524 - doe / 146096) / 365) / 100
        <= doe && doe - (365 * ((doe - doe / 1460 + doe / 36524 - doe / 146096) / 365) + ((doe
        - doe / 1460 + doe / 36524 - doe / 146096) / 365) / 4 - ((doe - doe / 1460 + doe / 36524
        - doe / 146096) / 365) / 100) <= 365) by (bit_vector)
        requires
            doe <= 146096,
    ;
}

/// Within an era, the year and day of year are recovered from the day of era.
pub proof fn lemma_doe_parts(doe: int)
    requires
        0 <= doe <= 146096,
    ensures
        0 <= yoe_of_doe(doe) <= 399,
        0 <= doy_of_doe(doe) <= 365,
{
    lemma_doe_bounds(doe as u32);
    assert(0 <= yoe_of_doe(doe)) by {
        lemma_div_pos_is_pos(doe, 1460);
        lemma_div_is_ordered_by_denominator(doe, 1460, 146096);
        lemma_div_pos_is_pos(doe - doe / 1460 + doe / 36524 - doe / 146096, 365);
        assert(doe / 1460 <= doe) by {
            lemma_div_is_ordered_by_denominator(doe, 1, 1460);
        }
        assert(doe / 36524 >= doe / 146096) by {
            lemma_div_is_ordered_by_denominator(doe, 36524, 146096);
        }
    }
}

proof fn lemma_era_split(x: int, d: int)
    requires
        d > 0,
    ensures
        0 <= x - (x / d) * d < d,
{
    lemma_fundamental_div_mod(x, d);
    lemma_mod_division_less_than_divisor(x, d);
    lemma_mul_is_commutative_nl(x / d, d);
}

proof fn lemma_mul_is_commutative_nl(a: int, b: int)
    ensures
        a * b == b * a,
{
}

proof fn lemma_mp_roundtrip(doy: u32)
    requires
        doy <= 365,
    ensures
        (5 * doy + 2) / 153 <= 11,
        (153 * ((5 * doy + 2) / 153) + 2) / 5 <= doy,
        doy - (153 * ((5 * doy + 2) / 153) + 2) / 5 <= 30,
{
    assert((5 * doy + 2) / 153 <= 11 && (153 * ((5 * doy + 2) / 153) + 2) / 5 <= doy && doy - (153
        * ((5 * doy + 2) / 153) + 2) / 5 <= 30) by (bit_vector)
        requires
            doy <= 365,
    ;
}

/// Formatting a day count as a date and counting it back gives the same day.
pub proof fn lemma_days_civil_roundtrip(z: int)
    ensures
        ({
            let (y, m, d) = civil_from_days(z);
            days_from_civil(y, m, d) == z
        }),
{
    let era = (z + 719468) / 146097;
    let doe = doe_of(z);
    lemma_era_split(z + 719468, 146097);
    lemma_doe_parts(doe);
    let yoe = yoe_of_doe(doe);
    let doy = doy_of_doe(doe);
    lemma_mp_roundtrip(doy as u32);
    let mp = (5 * doy + 2) / 153;
    let (y, m, d) = civil_from_days(z);
    let y2 = if m <= 2 { y - 1 } else { y };
    assert(y2 == yoe + era * 400);
    lemma_fundamental_div_mod_converse_div(y2, 400, era, yoe);
    assert(y2 / 400 == era);
    assert(0 <= mp <= 11) by {
        lemma_div_pos_is_pos(5 * doy + 2, 153);
    }
    assert((m + 9) % 12 == mp) by {
        if mp < 10 {
            lemma_fundamental_div_mod_converse_mod(m + 9, 12, 1, mp);
        } else {
            lemma_fundamental_div_mod_converse_mod(m + 9, 12, 0, mp);
        }
    }
}

/// Calendar year of era-relative March-based year `yoe` holding February.
proof fn lemma_leap_in_era(era: int, yoe: int)
    requires
        0 <= yoe <= 399,
    ensures
        is_leap_year(era * 400 + yoe + 1) <==> (((yoe + 1) % 4 == 0 && (yoe + 1) % 100 != 0)
            || yoe == 399),
{
    let y = era * 400 + yoe + 1;
    lemma_mod_multiples_vanish(era * 100, yoe + 1, 4);
    assert(era * 400 == (era * 100) * 4);
    lemma_mod_multiples_vanish(era * 4, yoe + 1, 100);
    assert(era * 400 == (era * 4) * 100);
    lemma_mod_multiples_vanish(era, yoe + 1, 400);
    assert(era * 400 == era * 400);
    if yoe == 399 {
        lemma_mod_self_0(400);
    } else {
        lemma_small_mod((yoe + 1) as nat, 400);
    }
}

proof fn lemma_year_of_doe(yoe: u32, doy: u32, n: u32)
    requires
        yoe <= 399,
        n == yoe + 1,
        doy <= 365,
        doy == 365 ==> ((n % 4 == 0 && n % 100 != 0) || n == 400),
    ensures
        365 * yoe + yoe / 4 - yoe / 100 + doy <= 146096,
        ((365 * yoe + yoe / 4 - yoe / 100 + doy) - (365 * yoe + yoe / 4 - yoe / 100 + doy) / 1460
            + (365 * yoe + yoe / 4 - yoe / 100 + doy) / 36524 - (365 * yoe + yoe / 4 - yoe / 100
            + doy) / 146096) / 365 == yoe,
{
    assert(365 * yoe + yoe / 4 - yoe / 100 + doy <= 146096 && ((365 * yoe + yoe / 4 - yoe / 100
        + doy) - (365 * yoe + yoe / 4 - yoe / 100 + doy) / 1460 + (365 * yoe + yoe / 4 - yoe
        / 100 + doy) / 36524 - (365 * yoe + yoe / 4 - yoe / 100 + doy) / 146096) / 365 == yoe)
        by (bit_vector)
        requires
            yoe <= 399,
            n == yoe + 1,
            doy <= 365,
            doy == 365 ==> ((n % 4 == 0 && n % 100 != 0) || n == 400),
    ;
}

proof fn lemma_month_of_doy(mp: u32, d: u32)
    requires
        mp <= 11,
        1 <= d <= 31,
        (mp == 1 || mp == 3 || mp == 6 || mp == 8) ==> d <= 30,
        mp == 11 ==> d <= 29,
    ensures
        (153 * mp + 2) / 5 + d - 1 <= 365,
        (5 * ((153 * mp + 2) / 5 + d - 1) + 2) / 153 == mp,
        ((153 * mp + 2) / 5 + d - 1 == 365) ==> (mp == 11 && d == 29),
{
    assert((153 * mp + 2) / 5 + d - 1 <= 365 && (5 * ((153 * mp + 2) / 5 + d - 1) + 2) / 153 == mp
        && (((153 * mp + 2) / 5 + d - 1 == 365) ==> (mp == 11 && d == 29))) by (bit_vector)
        requires
            mp <= 11,
            1 <= d <= 31,
            (mp == 1 || mp == 3 || mp == 6 || mp == 8) ==> d <= 30,
            mp == 11 ==> d <= 29,
    ;
}

/// Counting the days of a real calendar date and converting back gives the date.
pub proof fn lemma_civil_days_roundtrip(y: int, m: int, d: int)
    requires
        valid_civil(y, m, d),
    ensures
        civil_from_days(days_from_civil(y, m, d)) == (y, m, d),
{
    let y2 = if m <= 2 { y - 1 } else { y };
    let era = y2 / 400;
    lemma_era_split(y2, 400);
    let yoe = y2 - era * 400;
    let mp = (m + 9) % 12;
    assert(mp == if m <= 2 { m + 9 } else { m - 3 }) by {
        if m <= 2 {
            lemma_small_mod((m + 9) as nat, 12);
        } else {
            lemma_fundamental_div_mod_converse_mod(m + 9, 12, 1, m - 3);
        }
    }
    if m == 2 {
        lemma_leap_in_era(era, yoe);
        assert(y == era * 400 + yoe + 1);
    }
    lemma_month_of_doy(mp as u32, d as u32);
    let doy = (153 * mp + 2) / 5 + d - 1;
    lemma_year_of_doe(yoe as u32, doy as u32, (yoe + 1) as u32);
    let doe = yoe * 365 + yoe / 4 - yoe / 100 + doy;
    let z = days_from_civil(y, m, d);
    assert(z + 719468 == era * 146097 + doe);
    lemma_fundamental_div_mod_converse_div(z + 719468, 146097, era, doe);
    assert(doe_of(z) == doe);
    assert(yoe_of_doe(doe) == yoe);
    assert(doy_of_doe(doe) == doy);
}

proof fn lemma_floor_div_neg(x: int, q: int, d: int)
    requires
        d > 0,
        x < 0,
        q == (d - 1 - x) / d,
    ensures
        x / d == -q,
{
    lemma_fundamental_div_mod(d - 1 - x, d);
    lemma_mod_division_less_than_divisor(d - 1 - x, d);
    let r = (d - 1 - x) % d;
    assert(x == (-q) * d + (d - 1 - r)) by {
        assert(d * q == q * d);
        assert((-q) * d == -(q * d)) by (nonlinear_arith);
    }
    lemma_fundamental_div_mod_converse_div(x, d, -q, d - 1 - r);
}

/// `x` divided by a positive `d`, rounded toward negative infinity.
fn floor_div(x: i64, d: i64) -> (r: i64)
    requires
        d > 0,
        -9_100_000_000_000_000_000 <= x <= 9_100_000_000_000_000_000,
        d <= 1_000_000,
    ensures
        r == x / d,
{
    if x >= 0 {
        x / d
    } else {
        let q = (d - 1 - x) / d;
        proof {
            lemma_floor_div_neg(x as int, q as int, d as int);
        }
        -q
    }
}

/// Days since 1970-01-01 of (y, m, d).
pub fn days_from_civil_exec(y: i64, m: i64, d: i64) -> (r: i64)
    requires
        -9 <= m <= 1_000_000,
        -1_000_000_000 <= y <= 1_000_000_000,
        -1_000_000_000 <= d <= 1_000_000_000,
    ensures
        r == days_from_civil(y as int, m as int, d as int),
{
    let y2 = if m <= 2 { y - 1 } else { y };
    let era = floor_div(y2, 400);
    proof {
        lemma_era_split(y2 as int, 400);
    }
    let yoe = y2 - era * 400;
    let mp = (m + 9) % 12;
    assert(0 <= mp < 12) by {
        lemma_mod_division_less_than_divisor((m + 9) as int, 12);
    }
    let doy = (153 * mp + 2) / 5 + d - 1;
    let doe = yoe * 365 + yoe / 4 - yoe / 100 + doy;
    era * 146097 + doe - 719468
}

/// The civil date (y, m, d) of a day count since 1970-01-01.
pub fn civil_from_days_exec(z: i64) -> (r: (i64, i64, i64))
    requires
        -9_000_000_000_000_000_000 <= z <= 9_000_000_000_000_000_000,
    ensures
        (r.0 as int, r.1 as int, r.2 as int) == civil_from_days(z as int),
{
    let z2 = z + 719468;
    let era = floor_div(z2, 146097);
    proof {
        lemma_era_split(z2 as int, 146097);
        lemma_doe_parts(doe_of(z as int));
    }
    let doe = z2 - era * 146097;
    let yoe = (doe - doe / 1460 + doe / 36524 - doe / 146096) / 365;
    let y = yoe + era * 400;
    let doy = doe - (365 * yoe + yoe / 4 - yoe / 100);
    let mp = (5 * doy + 2) / 153;
    proof {
        lemma_mp_roundtrip(doy as u32);
    }
    let d = doy - (153 * mp + 2) / 5 + 1;
    let m = if mp < 10 { mp + 3 } else { mp - 9 };
    (if m <= 2 { y + 1 } else { y }, m, d)
}

/// 0 = Sunday .. 6 = Saturday.
pub fn weekday_of_days_exec(z: i64) -> (r: i64)
    requires
        -9_000_000_000_000_000_000 <= z <= 9_000_000_000_000_000_000,
    ensures
        r == weekday_of_days(z as int),
        0 <= r < 7,
{
    let w = z + 4;
    let q = floor_div(w, 7);
    proof {
        lemma_era_split(w as int, 7);
        lemma_fundamental_div_mod(w as int, 7);
    }
    w - q * 7
}


/// (y, m, d) of a `YYYY-MM-DD` string as the planner reads it: exactly ten
/// chars, '-' at 4 and 7, each field read with `i64::from_str`.
pub open spec fn ymd_of(s: Seq<char>) -> Option<(int, int, int)> {
    if s.len() == 10 && s[4] == '-' && s[7] == '-' {
        match (
            parse_int(s.subrange(0, 4)),
            parse_int(s.subrange(5, 7)),
            parse_int(s.subrange(8, 10)),
        ) {
            (Some(y), Some(m), Some(d)) => Some((y, m, d)),
            _ => None,
        }
    } else {
        None
    }
}

/// Whole days from `from` to `to`, 0 when either is not a date.
pub open spec fn days_between_spec(from: Seq<char>, to: Seq<char>) -> int {
    match (ymd_of(from), ymd_of(to)) {
        (Some(a), Some(b)) => days_from_civil(b.0, b.1, b.2) - days_from_civil(a.0, a.1, a.2),
        _ => 0,
    }
}

pub open spec fn pow10(k: nat) -> nat
    decreases k,
{
    if k == 0 { 1 } else { 10 * pow10((k - 1) as nat) }
}

pub proof fn lemma_digits_value_bound(s: Seq<char>)
    requires
        all_digits(s),
    ensures
        digits_value(s) < pow10(s.len()),
    decreases s.len(),
{
    if s.len() > 0 {
        lemma_digits_value_bound(s.drop_last());
        assert(0 <= char_digit(s.last()) <= 9) by {
            assert(crate::text::is_ascii_digit(s[s.len() - 1]));
        }
    }
}

/// A field of at most `k` chars reads as a value of fewer than `k` digits.
proof fn lemma_parse_int_bound(s: Seq<char>)
    requires
        1 <= s.len() <= 4,
        parse_int(s) is Some,
    ensures
        s.len() == 4 ==> -999 <= parse_int(s)->0 <= 9999,
        s.len() == 2 ==> -9 <= parse_int(s)->0 <= 99,
{
    let body = if s[0] == '-' || s[0] == '+' { s.drop_first() } else { s };
    lemma_digits_value_bound(body);
    assert(pow10(0) == 1);
    assert(pow10(1) == 10);
    assert(pow10(2) == 100);
    assert(pow10(3) == 1000);
    assert(pow10(4) == 10000);
}

/// The planner's date reader.
pub fn ymd(s: &str) -> (r: Option<(i64, i64, i64)>)
    ensures
        match ymd_of(s@) {
            Some(t) => r == Some((t.0 as i64, t.1 as i64, t.2 as i64)) && -999 <= t.0 <= 9999
                && -9 <= t.1 <= 99 && -9 <= t.2 <= 99,
            None => r is None,
        },
{
    let v = chars_of(s);
    if v.len() != 10 || v[4] != '-' || v[7] != '-' {
        return None;
    }
    let y = parse_int_chars(&v, 0, 4);
    let m = parse_int_chars(&v, 5, 7);
    let d = parse_int_chars(&v, 8, 10);
    match (y, m, d) {
        (Some(y), Some(m), Some(d)) => {
            proof {
                lemma_parse_int_bound(v@.subrange(0, 4));
                lemma_parse_int_bound(v@.subrange(5, 7));
                lemma_parse_int_bound(v@.subrange(8, 10));
            }
            Some((y, m, d))
        },
        _ => None,
    }
}

/// Whole days from `from` to `to`, both YYYY-MM-DD. Negative if `to` is past;
/// 0 when either is not a date.
pub fn days_between(from: &str, to: &str) -> (r: i64)
    ensures
        r == days_between_spec(from@, to@),
{
    match (ymd(from), ymd(to)) {
        (Some(a), Some(b)) => days_from_civil_exec(b.0, b.1, b.2) - days_from_civil_exec(
            a.0,
            a.1,
            a.2,
        ),
        _ => 0,
    }
}

/// The byte ranges 0..4, 5..7 and 8..10 of `s` can be sliced.
pub open spec fn date_slices_ok(s: Seq<char>) -> bool {
    &&& is_boundary(s, 4)
    &&& is_boundary(s, 5)
    &&& is_boundary(s, 7)
    &&& is_boundary(s, 8)
    &&& is_boundary(s, 10)
}

/// The integer in the byte range `s[a..b]`, or `default` when it does not parse.
pub open spec fn field_or(s: Seq<char>, a: int, b: int, default: int) -> int {
    match parse_int(byte_slice(s, a, b)) {
        Some(v) => v,
        None => default,
    }
}

/// (y, m, d) read field by field, falling back to 1970-01-01's fields.
pub open spec fn lenient_ymd(s: Seq<char>) -> (int, int, int) {
    (field_or(s, 0, 4, 1970), field_or(s, 5, 7, 1), field_or(s, 8, 10, 1))
}

/// `{:04}-{:02}-{:02}`.
pub open spec fn date_text(y: int, m: int, d: int) -> Seq<char> {
    padded_text(y, 4) + seq!['-'] + padded_text(m, 2) + seq!['-'] + padded_text(d, 2)
}

pub open spec fn add_days_spec(date: Seq<char>, n: int) -> Seq<char> {
    let (y, m, d) = lenient_ymd(date);
    let (ny, nm, nd) = civil_from_days(days_from_civil(y, m, d) + n);
    date_text(ny, nm, nd)
}

pub open spec fn weekday_of_spec(date: Seq<char>) -> int {
    let (y, m, d) = lenient_ymd(date);
    weekday_of_days(days_from_civil(y, m, d))
}

pub proof fn lemma_char_at_byte_mono(s: Seq<char>, a: int, b: int)
    requires
        a <= b,
        char_at_byte(s, a) is Some,
        char_at_byte(s, b) is Some,
    ensures
        0 <= char_at_byte(s, a)->0 <= char_at_byte(s, b)->0 <= s.len(),
    decreases s.len(),
{
    if a == 0 {
        lemma_char_at_byte_range(s, b);
    } else {
        lemma_char_at_byte_mono(s.drop_first(), a - utf8_width(s[0]), b - utf8_width(s[0]));
    }
}

proof fn lemma_char_at_byte_range(s: Seq<char>, b: int)
    requires
        char_at_byte(s, b) is Some,
    ensures
        0 <= char_at_byte(s, b)->0 <= s.len(),
    decreases s.len(),
{
    if b != 0 {
        lemma_char_at_byte_range(s.drop_first(), b - utf8_width(s[0]));
    }
}

/// The integer in the byte range `s[a..b]`, or `default`.
fn field_or_exec(v: &Vec<char>, a: usize, b: usize, default: i64) -> (r: i64)
    requires
        a <= b,
        is_boundary(v@, a as int),
        is_boundary(v@, b as int),
        -999 <= default <= 9999,
        b - a <= 4,
    ensures
        r == field_or(v@, a as int, b as int, default as int),
        -999 <= r <= 9999,
{
    proof { lemma_char_at_byte_mono(v@, a as int, b as int); }
    let oa = char_index_of_byte(v, a);
    let ob = char_index_of_byte(v, b);
    let ghost ga = char_at_byte(v@, a as int)->0;
    let ghost gb = char_at_byte(v@, b as int)->0;
    assert(0 <= ga <= gb <= v@.len());
    assert(v@.len() == v.len());
    assert(oa == Some(ga as usize));
    assert(ob == Some(gb as usize));
    let ka = match oa { Some(k) => k, None => 0 };
    let kb = match ob { Some(k) => k, None => 0 };
    assert(ka as int == ga && kb as int == gb);
    proof { lemma_slice_len(v@, a as int, b as int); }
    assert(v@.subrange(ka as int, kb as int) == byte_slice(v@, a as int, b as int));
    match parse_int_chars(v, ka, kb) {
        Some(x) => {
            proof {
                let t = v@.subrange(ka as int, kb as int);
                lemma_parse_short(t);
            }
            x
        },
        None => default,
    }
}

/// The integer in the byte range `s[a..b]` read with `i64::from_str`.
pub fn byte_field(v: &Vec<char>, a: usize, b: usize) -> (r: Option<i64>)
    requires
        a <= b,
        is_boundary(v@, a as int),
        is_boundary(v@, b as int),
        b - a <= 4,
    ensures
        match parse_int(byte_slice(v@, a as int, b as int)) {
            Some(x) => r == Some(x as i64) && -999 <= x <= 9999 && (b - a <= 2 ==> -9 <= x <= 99),
            None => r is None,
        },
{
    proof { lemma_char_at_byte_mono(v@, a as int, b as int); }
    let oa = char_index_of_byte(v, a);
    let ob = char_index_of_byte(v, b);
    let ghost ga = char_at_byte(v@, a as int)->0;
    let ghost gb = char_at_byte(v@, b as int)->0;
    assert(v@.len() == v.len());
    let ka = match oa { Some(k) => k, None => 0 };
    let kb = match ob { Some(k) => k, None => 0 };
    assert(ka as int == ga && kb as int == gb);
    proof { lemma_slice_len(v@, a as int, b as int); }
    assert(v@.subrange(ka as int, kb as int) == byte_slice(v@, a as int, b as int));
    let r = parse_int_chars(v, ka, kb);
    proof {
        if r is Some {
            lemma_parse_short(v@.subrange(ka as int, kb as int));
            if b - a <= 2 {
                lemma_short_field_range(v@.subrange(ka as int, kb as int));
            }
        }
    }
    r
}

/// A byte range of `n` bytes holds at most `n` chars.
proof fn lemma_slice_len(s: Seq<char>, a: int, b: int)
    requires
        0 <= a <= b,
        char_at_byte(s, a) is Some,
        char_at_byte(s, b) is Some,
    ensures
        char_at_byte(s, b)->0 - char_at_byte(s, a)->0 <= b - a,
    decreases s.len(),
{
    if a == 0 {
        lemma_chars_le_bytes(s, b);
    } else {
        assert(utf8_width(s[0]) >= 1);
        lemma_slice_len(s.drop_first(), a - utf8_width(s[0]), b - utf8_width(s[0]));
    }
}

proof fn lemma_chars_le_bytes(s: Seq<char>, b: int)
    requires
        char_at_byte(s, b) is Some,
    ensures
        char_at_byte(s, b)->0 <= b,
    decreases s.len(),
{
    if b != 0 {
        lemma_chars_le_bytes(s.drop_first(), b - utf8_width(s[0]));
    }
}

proof fn lemma_parse_short(t: Seq<char>)
    requires
        t.len() <= 4,
        parse_int(t) is Some,
    ensures
        -999 <= parse_int(t)->0 <= 9999,
{
    let body = if t[0] == '-' || t[0] == '+' { t.drop_first() } else { t };
    lemma_digits_value_bound(body);
    assert(pow10(0) == 1);
    assert(pow10(1) == 10);
    assert(pow10(2) == 100);
    assert(pow10(3) == 1000);
    assert(pow10(4) == 10000);
}

/// Reads the three fields of a date-shaped string, with defaults.
pub fn lenient_ymd_exec(date: &str) -> (r: (i64, i64, i64))
    requires
        date_slices_ok(date@),
    ensures
        (r.0 as int, r.1 as int, r.2 as int) == lenient_ymd(date@),
        -999 <= r.0 <= 9999,
        -999 <= r.1 <= 9999,
        -999 <= r.2 <= 9999,
{
    let v = chars_of(date);
    let y = field_or_exec(&v, 0, 4, 1970);
    let m = field_or_exec(&v, 5, 7, 1);
    let d = field_or_exec(&v, 8, 10, 1);
    (y, m, d)
}

/// `{:04}-{:02}-{:02}` of a date.
pub fn format_date(y: i64, m: i64, d: i64) -> (r: String)
    ensures
        r@ == date_text(y as int, m as int, d as int),
{
    let mut s = String::new();
    push_padded(&mut s, y, 4);
    push_char(&mut s, '-');
    push_padded(&mut s, m, 2);
    push_char(&mut s, '-');
    push_padded(&mut s, d, 2);
    assert(s@ =~= date_text(y as int, m as int, d as int));
    s
}

/// Day number of the date's (lenient) fields.
pub open spec fn date_day(date: Seq<char>) -> int {
    let (y, m, d) = lenient_ymd(date);
    days_from_civil(y, m, d)
}

/// The three fields of a readable date each lie in -999..=9999.
proof fn lemma_field_bounds(date: Seq<char>)
    requires
        date_slices_ok(date),
    ensures
        -999 <= lenient_ymd(date).0 <= 9999,
        -999 <= lenient_ymd(date).1 <= 9999,
        -999 <= lenient_ymd(date).2 <= 9999,
{
    lemma_byte_slice_len(date, 0, 4);
    lemma_byte_slice_len(date, 5, 7);
    lemma_byte_slice_len(date, 8, 10);
    lemma_field_range(byte_slice(date, 0, 4));
    lemma_field_range(byte_slice(date, 5, 7));
    lemma_field_range(byte_slice(date, 8, 10));
}

/// A date whose fields can be read has a day number within five million.
pub proof fn lemma_date_day_range(date: Seq<char>)
    requires
        date_slices_ok(date),
    ensures
        -5_000_000 <= date_day(date) <= 5_000_000,
{
    lemma_month_field(date);
    lemma_field_bounds(date);
    let (y, m, d) = lenient_ymd(date);
    lemma_days_from_civil_range(y, m, d);
}

/// `date` moved by `days` days (the resulting day number must stay clear
/// of the i64 limit, where the calendar arithmetic overflows).
pub fn add_days(date: &str, days: i64) -> (r: String)
    requires
        date_slices_ok(date@),
        -9_000_000_000_000_000_000 <= date_day(date@) + days <= 9_000_000_000_000_000_000,
    ensures
        r@ == add_days_spec(date@, days as int),
{
    let (y, m, d) = lenient_ymd_exec(date);
    if m < -9 {
        proof { assert(false) by { lemma_month_field(date@); } }
    }
    let z = days_from_civil_exec(y, m, d) + days;
    let (ny, nm, nd) = civil_from_days_exec(z);
    format_date(ny, nm, nd)
}

/// 0 = Sunday .. 6 = Saturday.
pub fn weekday_of(date: &str) -> (r: i64)
    requires
        date_slices_ok(date@),
    ensures
        r == weekday_of_spec(date@),
        0 <= r < 7,
{
    let (y, m, d) = lenient_ymd_exec(date);
    if m < -9 {
        proof { assert(false) by { lemma_month_field(date@); } }
    }
    weekday_of_days_exec(days_from_civil_exec(y, m, d))
}

/// The month field is two bytes, so it reads as at least -9.
pub proof fn lemma_month_field(s: Seq<char>)
    requires
        date_slices_ok(s),
    ensures
        lenient_ymd(s).1 >= -9,
{
    lemma_char_at_byte_mono(s, 5, 7);
    lemma_slice_len(s, 5, 7);
    let t = byte_slice(s, 5, 7);
    if parse_int(t) is Some {
        let body = if t[0] == '-' || t[0] == '+' { t.drop_first() } else { t };
        lemma_digits_value_bound(body);
        assert(pow10(0) == 1);
        assert(pow10(1) == 10);
        assert(pow10(2) == 100);
    }
}


proof fn lemma_digit_roundtrip(k: int)
    requires
        0 <= k <= 9,
    ensures
        char_digit(digit_char(k)) == k,
        crate::text::is_ascii_digit(digit_char(k)),
{
}

pub proof fn lemma_decimal_value(n: nat)
    ensures
        digits_value(decimal(n)) == n,
        all_digits(decimal(n)),
    decreases n,
{
    if n < 10 {
        lemma_digit_roundtrip(n as int);
        assert(decimal(n).drop_last() =~= Seq::<char>::empty());
        assert(digits_value(decimal(n)) == digits_value(Seq::<char>::empty()) * 10 + char_digit(digit_char(n as int)));
    } else {
        lemma_decimal_value(n / 10);
        lemma_digit_roundtrip((n % 10) as int);
        assert(decimal(n).drop_last() =~= decimal(n / 10));
        assert(decimal(n).last() == digit_char((n % 10) as int));
        lemma_fundamental_div_mod(n as int, 10);
        assert(digits_value(decimal(n)) == digits_value(decimal(n / 10)) * 10 + (n % 10));
        assert((n / 10) * 10 == 10 * (n / 10)) by (nonlinear_arith);
        assert forall|i: int| 0 <= i < decimal(n).len() implies crate::text::is_ascii_digit(
            #[trigger] decimal(n)[i],
        ) by {
            if i < decimal(n).len() - 1 {
                assert(decimal(n)[i] == decimal(n / 10)[i]);
            }
        }
    }
}

proof fn lemma_zeros_value(k: int, t: Seq<char>)
    requires
        all_digits(t),
    ensures
        digits_value(zeros(k) + t) == digits_value(t),
        all_digits(zeros(k) + t),
    decreases t.len(), (if k > 0 { k } else { 0 }),
{
    if t.len() > 0 {
        assert((zeros(k) + t).drop_last() =~= zeros(k) + t.drop_last());
        lemma_zeros_value(k, t.drop_last());
    } else if k > 0 {
        assert(zeros(k) + t =~= zeros(k));
        assert(zeros(k).drop_last() =~= zeros(k - 1) + t);
        lemma_zeros_value(k - 1, t);
        assert(zeros(k - 1) + t =~= zeros(k - 1));
    } else {
        assert(zeros(k) + t =~= Seq::<char>::empty());
    }
    assert forall|i: int| 0 <= i < (zeros(k) + t).len() implies crate::text::is_ascii_digit(
        #[trigger] (zeros(k) + t)[i],
    ) by {
        if i >= zeros(k).len() {
            assert((zeros(k) + t)[i] == t[i - zeros(k).len()]);
        }
    }
}

proof fn lemma_decimal_short(n: nat)
    ensures
        n <= 9999 ==> decimal(n).len() <= 4,
        n <= 99 ==> decimal(n).len() <= 2,
{
    lemma_decimal_len(n);
    if n >= 10 {
        lemma_decimal_len(n / 10);
        if n / 10 >= 10 {
            lemma_decimal_len(n / 100);
            assert(n / 10 / 10 == n / 100);
            if n / 100 >= 10 {
                assert(n / 100 / 10 == n / 1000);
                lemma_decimal_len(n / 1000);
            }
        }
    }
}

/// `{:0w}` of a non-negative value with at most `w` digits reads back as the value.
proof fn lemma_padded_parse(v: int, w: int)
    requires
        0 <= v,
        (w == 4 && v <= 9999) || (w == 2 && v <= 99),
    ensures
        padded_text(v, w).len() == w,
        parse_int(padded_text(v, w)) == Some(v),
        forall|i: int| 0 <= i < w ==> crate::text::is_ascii_digit(#[trigger] padded_text(v, w)[i]),
{
    let ds = decimal(v as nat);
    lemma_decimal_short(v as nat);
    lemma_decimal_value(v as nat);
    lemma_zeros_value(w - ds.len(), ds);
    let p = padded_text(v, w);
    assert(p == zeros(w - ds.len()) + ds);
    assert(crate::text::is_ascii_digit(p[0]));
    assert(p[0] != '-' && p[0] != '+');
}

proof fn lemma_date_text_parse(y: int, m: int, d: int)
    requires
        0 <= y <= 9999,
        1 <= m <= 12,
        1 <= d <= 31,
    ensures
        ymd_of(date_text(y, m, d)) == Some((y, m, d)),
        forall|i: int| 0 <= i < 10 ==> (#[trigger] date_text(y, m, d)[i] as u32) < 0x80,
{
    lemma_padded_parse(y, 4);
    lemma_padded_parse(m, 2);
    lemma_padded_parse(d, 2);
    let t = date_text(y, m, d);
    assert(t.subrange(0, 4) =~= padded_text(y, 4));
    assert(t.subrange(5, 7) =~= padded_text(m, 2));
    assert(t.subrange(8, 10) =~= padded_text(d, 2));
    assert forall|i: int| 0 <= i < 10 implies (#[trigger] t[i] as u32) < 0x80 by {
        if i < 4 {
            assert(t[i] == padded_text(y, 4)[i]);
        } else if 5 <= i < 7 {
            assert(t[i] == padded_text(m, 2)[i - 5]);
        } else if 8 <= i {
            assert(t[i] == padded_text(d, 2)[i - 8]);
        }
    }
}

proof fn lemma_ascii_char_at_byte(s: Seq<char>, b: int)
    requires
        0 <= b <= s.len(),
        forall|i: int| 0 <= i < s.len() ==> (#[trigger] s[i] as u32) < 0x80,
    ensures
        char_at_byte(s, b) == Some(b),
    decreases s.len(),
{
    if b > 0 {
        assert((s[0] as u32) < 0x80);
        assert forall|i: int| 0 <= i < s.drop_first().len() implies (
        #[trigger] s.drop_first()[i] as u32) < 0x80 by {
            assert(s.drop_first()[i] == s[i + 1]);
        }
        lemma_ascii_char_at_byte(s.drop_first(), b - 1);
    }
}

/// A date the planner reads is ASCII text, and the lenient reader agrees with it.
proof fn lemma_ymd_lenient(s: Seq<char>)
    requires
        ymd_of(s) is Some,
    ensures
        date_slices_ok(s),
        lenient_ymd(s) == ymd_of(s)->0,
{
    let y = s.subrange(0, 4);
    let m = s.subrange(5, 7);
    let d = s.subrange(8, 10);
    assert forall|i: int| 0 <= i < s.len() implies (#[trigger] s[i] as u32) < 0x80 by {
        if i < 4 {
            lemma_parsed_ascii(y, i);
            assert(y[i] == s[i]);
        } else if 5 <= i < 7 {
            lemma_parsed_ascii(m, i - 5);
            assert(m[i - 5] == s[i]);
        } else if 8 <= i < 10 {
            lemma_parsed_ascii(d, i - 8);
            assert(d[i - 8] == s[i]);
        }
    }
    lemma_ascii_char_at_byte(s, 0);
    lemma_ascii_char_at_byte(s, 4);
    lemma_ascii_char_at_byte(s, 5);
    lemma_ascii_char_at_byte(s, 7);
    lemma_ascii_char_at_byte(s, 8);
    lemma_ascii_char_at_byte(s, 10);
}

proof fn lemma_parsed_ascii(t: Seq<char>, i: int)
    requires
        parse_int(t) is Some,
        0 <= i < t.len(),
    ensures
        (t[i] as u32) < 0x80,
{
    let body = if t[0] == '-' || t[0] == '+' { t.drop_first() } else { t };
    if !(i == 0 && (t[0] == '-' || t[0] == '+')) {
        let j = if t[0] == '-' || t[0] == '+' { i - 1 } else { i };
        assert(body[j] == t[i]);
        assert(crate::text::is_ascii_digit(body[j]));
    }
}

/// The civil date of a day count is a month 1..=12 and a day 1..=31.
pub proof fn lemma_civil_from_days_ranges(z: int)
    ensures
        1 <= civil_from_days(z).1 <= 12,
        1 <= civil_from_days(z).2 <= 31,
{
    lemma_era_split(z + 719468, 146097);
    lemma_doe_parts(doe_of(z));
    let doy = doy_of_doe(doe_of(z));
    lemma_mp_roundtrip(doy as u32);
    lemma_div_pos_is_pos(5 * doy + 2, 153);
}

/// `s` is a `YYYY-MM-DD` string naming a real calendar day.
pub open spec fn is_real_date(s: Seq<char>) -> bool {
    match ymd_of(s) {
        Some(t) => valid_civil(t.0, t.1, t.2),
        None => false,
    }
}

/// Days since 1970-01-01 of a date string the planner reads.
pub open spec fn day_number(s: Seq<char>) -> int {
    let t = ymd_of(s)->0;
    days_from_civil(t.0, t.1, t.2)
}

/// Moving a date by `n` days and measuring the distance back gives `n`
/// (for real dates whose result is still a four-digit year).
pub proof fn lemma_add_days_then_days_between(date: Seq<char>, n: int)
    requires
        is_real_date(date),
        0 <= civil_from_days(day_number(date) + n).0 <= 9999,
    ensures
        days_between_spec(date, add_days_spec(date, n)) == n,
{
    lemma_ymd_lenient(date);
    let (y, m, d) = ymd_of(date)->0;
    let z = days_from_civil(y, m, d) + n;
    let (ny, nm, nd) = civil_from_days(z);
    lemma_civil_from_days_ranges(z);
    lemma_date_text_parse(ny, nm, nd);
    lemma_days_civil_roundtrip(z);
}


/// Distances between dates the planner reads stay within a few million days.
pub proof fn lemma_days_between_small(a: Seq<char>, b: Seq<char>)
    ensures
        -10_000_000 <= days_between_spec(a, b) <= 10_000_000,
{
    if ymd_of(a) is Some && ymd_of(b) is Some {
        lemma_ymd_range(a);
        lemma_ymd_range(b);
        let (y1, m1, d1) = ymd_of(a)->0;
        let (y2, m2, d2) = ymd_of(b)->0;
        lemma_days_from_civil_range(y1, m1, d1);
        lemma_days_from_civil_range(y2, m2, d2);
    }
}

proof fn lemma_ymd_range(s: Seq<char>)
    requires
        ymd_of(s) is Some,
    ensures
        ({
            let t = ymd_of(s)->0;
            -999 <= t.0 <= 9999 && -9 <= t.1 <= 99 && -9 <= t.2 <= 99
        }),
{
    lemma_parse_int_bound(s.subrange(0, 4));
    lemma_parse_int_bound(s.subrange(5, 7));
    lemma_parse_int_bound(s.subrange(8, 10));
}

pub proof fn lemma_days_from_civil_range(y: int, m: int, d: int)
    requires
        -999 <= y <= 9999,
        -9 <= m <= 9999,
        -999 <= d <= 9999,
    ensures
        -5_000_000 <= days_from_civil(y, m, d) <= 5_000_000,
{
    let y2 = if m <= 2 { y - 1 } else { y };
    lemma_era_split(y2, 400);
    let era = y2 / 400;
    assert(-3 <= era <= 25) by {
        lemma_fundamental_div_mod(y2, 400);
        lemma_mod_division_less_than_divisor(y2, 400);
    }
    let mp = (m + 9) % 12;
    lemma_mod_division_less_than_divisor(m + 9, 12);
    let yoe = y2 - era * 400;
    assert(0 <= yoe / 4 <= 100) by {
        lemma_div_pos_is_pos(yoe, 4);
    }
    assert(0 <= yoe / 100 <= 4) by {
        lemma_div_pos_is_pos(yoe, 100);
    }
    assert(0 <= (153 * mp + 2) / 5 <= 400) by {
        lemma_div_pos_is_pos(153 * mp + 2, 5);
    }
}

/// Moving a real date by `n` days moves its day of week by `n` (for
/// results with a four-digit year).
pub proof fn lemma_add_days_weekday(date: Seq<char>, n: int)
    requires
        is_real_date(date),
        0 <= civil_from_days(day_number(date) + n).0 <= 9999,
    ensures
        weekday_of_spec(add_days_spec(date, n)) == (weekday_of_spec(date) + n) % 7,
{
    let z0 = day_number(date);
    assert(weekday_of_spec(date) == (z0 + 4) % 7) by {
        lemma_ymd_lenient(date);
    }
    let z = z0 + n;
    let t = civil_from_days(z);
    assert(add_days_spec(date, n) == date_text(t.0, t.1, t.2)) by {
        lemma_ymd_lenient(date);
    }
    assert(lenient_ymd(date_text(t.0, t.1, t.2)) == t) by {
        lemma_civil_from_days_ranges(z);
        lemma_date_text_parse(t.0, t.1, t.2);
        lemma_ymd_lenient(date_text(t.0, t.1, t.2));
    }
    assert(days_from_civil(t.0, t.1, t.2) == z) by {
        lemma_days_civil_roundtrip(z);
    }
    lemma_mod7_shift(z0 + 4, n);
}

proof fn lemma_mod7_shift(x: int, n: int)
    ensures
        (x % 7 + n) % 7 == (x + n) % 7,
{
    lemma_add_mod_noop(x, n, 7);
    lemma_add_mod_noop(x % 7, n, 7);
    lemma_mod_twice(x, 7);
}

/// A field of at most four bytes that reads as a number lies in -999..=9999.
pub proof fn lemma_field_range(t: Seq<char>)
    requires
        t.len() <= 4,
    ensures
        parse_int(t) matches Some(x) ==> -999 <= x <= 9999,
{
    if parse_int(t) is Some {
        lemma_parse_short(t);
    }
}

/// A byte range between two char boundaries holds at most as many chars as
/// bytes.
pub proof fn lemma_byte_slice_len(s: Seq<char>, a: int, b: int)
    requires
        0 <= a <= b,
        is_boundary(s, a),
        is_boundary(s, b),
    ensures
        byte_slice(s, a, b).len() <= b - a,
{
    lemma_char_at_byte_mono(s, a, b);
    lemma_slice_len(s, a, b);
}

/// A field of at most two chars that reads as a number lies in -9..=99.
pub proof fn lemma_short_field_range(t: Seq<char>)
    requires
        t.len() <= 2,
    ensures
        parse_int(t) matches Some(x) ==> -9 <= x <= 99,
{
    if parse_int(t) is Some {
        let body = if t[0] == '-' || t[0] == '+' { t.drop_first() } else { t };
        lemma_digits_value_bound(body);
        assert(pow10(0) == 1);
        assert(pow10(1) == 10);
        assert(pow10(2) == 100);
    }
}

/// Whether the byte ranges 0..4, 5..7 and 8..10 of `s` can be sliced.
pub fn date_slices_valid(s: &str) -> (r: bool)
    ensures
        r == date_slices_ok(s@),
{
    let v = chars_of(s);
    char_index_of_byte(&v, 4).is_some() && char_index_of_byte(&v, 5).is_some()
        && char_index_of_byte(&v, 7).is_some() && char_index_of_byte(&v, 8).is_some()
        && char_index_of_byte(&v, 10).is_some()
}

} // verus!
