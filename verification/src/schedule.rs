//! The reminder loop's decisions: how long to sleep until the next
//! reminder, and what to say about reminders missed while closed.
use vstd::prelude::*;
use vstd::string::StringExecFns;
use crate::dates::{
    days_from_civil, days_from_civil_exec, byte_field, lemma_days_from_civil_range,
    lemma_byte_slice_len, lemma_field_range, lemma_short_field_range,
};
use crate::num::{parse_int, decimal, push_decimal};
use crate::text::{byte_len, byte_slice, is_boundary, chars_of, bytes_at_least};

verus! {

/// Never sleep longer than this, so changes to reminders are picked up
/// within a bounded time even without an explicit wake.
pub const MAX_SLEEP_SECS: u64 = 60;

/// The number in the byte range `s[a..b]`.
pub open spec fn field(s: Seq<char>, a: int, b: int) -> Option<int> {
    parse_int(byte_slice(s, a, b))
}

/// Seconds since the epoch of a `YYYY-MM-DDTHH:MM:SSZ` text: the six
/// fields are read from their byte ranges (the separators are not
/// checked); None when the text is shorter than 19 bytes or a field does
/// not read as a number.
pub open spec fn utc_seconds(s: Seq<char>) -> Option<int> {
    if byte_len(s) < 19 {
        None
    } else {
        match (field(s, 0, 4), field(s, 5, 7), field(s, 8, 10), field(s, 11, 13), field(s, 14, 16), field(s, 17, 19)) {
            (Some(y), Some(mo), Some(d), Some(h), Some(mi), Some(sec)) => Some(
                days_from_civil(y, mo, d) * 86400 + h * 3600 + mi * 60 + sec,
            ),
            _ => None,
        }
    }
}

/// The byte ranges that reading a timestamp slices fall on char
/// boundaries, up to the first field that does not read as a number
/// (reading stops there).
pub open spec fn utc_slicing_ok(s: Seq<char>) -> bool {
    byte_len(s) >= 19 ==> {
        &&& is_boundary(s, 4)
        &&& (field(s, 0, 4) is Some ==> is_boundary(s, 5) && is_boundary(s, 7) && (field(s, 5, 7) is Some
            ==> is_boundary(s, 8) && is_boundary(s, 10) && (field(s, 8, 10) is Some ==> is_boundary(s, 11)
            && is_boundary(s, 13) && (field(s, 11, 13) is Some ==> is_boundary(s, 14) && is_boundary(s, 16)
            && (field(s, 14, 16) is Some ==> is_boundary(s, 17) && is_boundary(s, 19))))))
    }
}

/// Parses `YYYY-MM-DDTHH:MM:SSZ` into seconds since the Unix epoch.
pub fn parse_utc(s: &str) -> (r: Option<i64>)
    requires
        utc_slicing_ok(s@),
    ensures
        match utc_seconds(s@) {
            Some(x) => r == Some(x as i64),
            None => r is None,
        },
{
    let v = chars_of(s);
    if !bytes_at_least(&v, 19) {
        return None;
    }
    assert(is_boundary(v@, 0));
    let y = match byte_field(&v, 0, 4) {
        Some(x) => x,
        None => return None,
    };
    let mo = match byte_field(&v, 5, 7) {
        Some(x) => x,
        None => return None,
    };
    let d = match byte_field(&v, 8, 10) {
        Some(x) => x,
        None => return None,
    };
    let h = match byte_field(&v, 11, 13) {
        Some(x) => x,
        None => return None,
    };
    let mi = match byte_field(&v, 14, 16) {
        Some(x) => x,
        None => return None,
    };
    let sec = match byte_field(&v, 17, 19) {
        Some(x) => x,
        None => return None,
    };
    proof {
        lemma_days_from_civil_range(y as int, mo as int, d as int);
    }
    let days = days_from_civil_exec(y, mo, d);
    Some(days * 86400 + h * 3600 + mi * 60 + sec)
}

/// Seconds from `now` until `then`: 0 when `then` is past or either text
/// is not a timestamp.
pub open spec fn seconds_between(now: Seq<char>, then: Seq<char>) -> int {
    match (utc_seconds(now), utc_seconds(then)) {
        (Some(a), Some(b)) => if b - a > 0 {
            b - a
        } else {
            0
        },
        _ => 0,
    }
}

pub fn seconds_until(now: &str, then: &str) -> (r: i64)
    requires
        utc_slicing_ok(now@),
        utc_slicing_ok(then@),
    ensures
        r == seconds_between(now@, then@),
{
    match (parse_utc(now), parse_utc(then)) {
        (Some(a), Some(b)) => {
            proof {
                lemma_utc_range(now@);
                lemma_utc_range(then@);
            }
            if b - a > 0 {
                b - a
            } else {
                0
            }
        },
        _ => 0,
    }
}

/// Timestamps the loop reads stay far from the i64 limits.
proof fn lemma_utc_range(s: Seq<char>)
    requires
        utc_slicing_ok(s),
        utc_seconds(s) is Some,
    ensures
        -1_000_000_000_000 <= utc_seconds(s)->0 <= 1_000_000_000_000,
{
    let y = field(s, 0, 4)->0;
    let mo = field(s, 5, 7)->0;
    let d = field(s, 8, 10)->0;
    assert(is_boundary(s, 0));
    lemma_byte_slice_len(s, 0, 4);
    lemma_byte_slice_len(s, 5, 7);
    lemma_byte_slice_len(s, 8, 10);
    lemma_byte_slice_len(s, 11, 13);
    lemma_byte_slice_len(s, 14, 16);
    lemma_byte_slice_len(s, 17, 19);
    lemma_field_range(byte_slice(s, 0, 4));
    lemma_short_field_range(byte_slice(s, 5, 7));
    lemma_short_field_range(byte_slice(s, 8, 10));
    lemma_short_field_range(byte_slice(s, 11, 13));
    lemma_short_field_range(byte_slice(s, 14, 16));
    lemma_short_field_range(byte_slice(s, 17, 19));
    lemma_days_from_civil_range(y, mo, d);
}

/// How long the loop sleeps: until the next pending reminder, at least one
/// second and at most `MAX_SLEEP_SECS`; `MAX_SLEEP_SECS` when none is pending.
pub open spec fn sleep_spec(now: Seq<char>, next: Option<Seq<char>>) -> int {
    match next {
        Some(t) => {
            let secs = seconds_between(now, t);
            if secs < 1 {
                1
            } else if secs > MAX_SLEEP_SECS {
                MAX_SLEEP_SECS as int
            } else {
                secs
            }
        },
        None => MAX_SLEEP_SECS as int,
    }
}

/// Seconds to sleep before checking again, given when the next pending
/// reminder fires.
pub fn sleep_secs(now: &str, next_fire_at: Option<&str>) -> (r: u64)
    requires
        utc_slicing_ok(now@),
        next_fire_at matches Some(t) ==> utc_slicing_ok(t@),
    ensures
        r == sleep_spec(now@, match next_fire_at {
            Some(t) => Some(t@),
            None => None::<Seq<char>>,
        }),
        1 <= r <= MAX_SLEEP_SECS,
{
    match next_fire_at {
        Some(t) => {
            let secs = seconds_until(now, t);
            if secs < 1 {
                1
            } else if secs > MAX_SLEEP_SECS as i64 {
                MAX_SLEEP_SECS
            } else {
                secs as u64
            }
        },
        None => MAX_SLEEP_SECS,
    }
}

/// The digest shown at startup for reminders missed while closed; none
/// when nothing was missed.
pub fn missed_digest(count: usize) -> (r: Option<String>)
    ensures
        count == 0 ==> r is None,
        count > 0 ==> (r matches Some(m) && m@ == decimal(count as nat)
            + " reminder(s) were missed while Stark was closed."@),
{
    if count == 0 {
        return None;
    }
    let mut m = String::new();
    push_decimal(&mut m, count as u64);
    m.append(" reminder(s) were missed while Stark was closed.");
    Some(m)
}

/// Whether reading `s` as a timestamp slices only at char boundaries.
pub fn utc_slices_valid(s: &str) -> (r: bool)
    ensures
        r == utc_slicing_ok(s@),
{
    let v = chars_of(s);
    if !bytes_at_least(&v, 19) {
        return true;
    }
    assert(is_boundary(v@, 0));
    if !is_boundary_exec(&v, 4) {
        return false;
    }
    if byte_field(&v, 0, 4).is_none() {
        return true;
    }
    if !is_boundary_exec(&v, 5) || !is_boundary_exec(&v, 7) {
        return false;
    }
    if byte_field(&v, 5, 7).is_none() {
        return true;
    }
    if !is_boundary_exec(&v, 8) || !is_boundary_exec(&v, 10) {
        return false;
    }
    if byte_field(&v, 8, 10).is_none() {
        return true;
    }
    if !is_boundary_exec(&v, 11) || !is_boundary_exec(&v, 13) {
        return false;
    }
    if byte_field(&v, 11, 13).is_none() {
        return true;
    }
    if !is_boundary_exec(&v, 14) || !is_boundary_exec(&v, 16) {
        return false;
    }
    if byte_field(&v, 14, 16).is_none() {
        return true;
    }
    is_boundary_exec(&v, 17) && is_boundary_exec(&v, 19)
}

fn is_boundary_exec(v: &Vec<char>, b: usize) -> (r: bool)
    ensures
        r == is_boundary(v@, b as int),
{
    crate::text::char_index_of_byte(v, b).is_some()
}

} // verus!
