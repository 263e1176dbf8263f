//! A day's capacity: the weekly windows for its weekday, plus the exceptions
//! that add time on that date, minus the exceptions that block time.
use vstd::prelude::*;
use crate::capacity::{
    Interval, covers, in_interval, is_normal, minutes_sum, interval_minutes, lemma_covers_push, normalize, subtract,
    total_minutes,
};
use crate::domain::{AvailabilityWindow, AvailabilityException};

verus! {

/// The free time of one date.
#[derive(Debug, Clone)]
pub struct DayCapacity {
    pub date: String,
    pub windows: Vec<Interval>,
    pub total_minutes: i64,
}

/// Minute `x` lies in one of the first `n` weekly windows for `weekday`.
pub open spec fn weekly_covers(ws: Seq<AvailabilityWindow>, weekday: int, n: int, x: int) -> bool {
    exists|i: int|
        0 <= i < n && (#[trigger] ws[i]).weekday == weekday && ws[i].start_minute <= x
            < ws[i].end_minute
}

/// Minute `x` lies in one of the first `n` exceptions whose availability
/// is `available`.
pub open spec fn exception_covers(es: Seq<AvailabilityException>, available: bool, n: int, x: int) -> bool {
    exists|i: int|
        0 <= i < n && (#[trigger] es[i]).is_available == available && es[i].start_minute <= x
            < es[i].end_minute
}

/// Minute `x` is free on the date: in a window for its weekday or an
/// adding exception, and in no blocking exception.
pub open spec fn free_minute(
    ws: Seq<AvailabilityWindow>,
    es: Seq<AvailabilityException>,
    weekday: int,
    x: int,
) -> bool {
    (weekly_covers(ws, weekday, ws.len() as int, x) || exception_covers(es, true, es.len() as int, x))
        && !exception_covers(es, false, es.len() as int, x)
}

/// All the minutes of the windows and exceptions lie within ±2^61, where
/// sums of lengths cannot overflow.
pub open spec fn minutes_in_range(ws: Seq<AvailabilityWindow>, es: Seq<AvailabilityException>) -> bool {
    &&& forall|i: int|
        0 <= i < ws.len() ==> -0x2000_0000_0000_0000 <= (#[trigger] ws[i]).start_minute
            <= 0x2000_0000_0000_0000 && -0x2000_0000_0000_0000 <= ws[i].end_minute
            <= 0x2000_0000_0000_0000
    &&& forall|i: int|
        0 <= i < es.len() ==> -0x2000_0000_0000_0000 <= (#[trigger] es[i]).start_minute
            <= 0x2000_0000_0000_0000 && -0x2000_0000_0000_0000 <= es[i].end_minute
            <= 0x2000_0000_0000_0000
}

/// A normal interval set lies between the start of its first interval and
/// the end of its last, so its minutes add up to at most that span.
proof fn lemma_normal_sum(ivs: Seq<Interval>)
    requires
        is_normal(ivs),
        ivs.len() > 0,
    ensures
        minutes_sum(ivs) <= ivs.last().end - ivs[0].start,
        minutes_sum(ivs) >= 0,
    decreases ivs.len(),
{
    let last = ivs[ivs.len() - 1];
    assert(last.start < last.end);
    assert(minutes_sum(ivs) == minutes_sum(ivs.drop_last()) + interval_minutes(last));
    if ivs.len() == 1 {
        assert(ivs.drop_last().len() == 0);
    }
    if ivs.len() > 1 {
        let init = ivs.drop_last();
        assert(is_normal(init)) by {
            assert forall|i: int, j: int| 0 <= i < j < init.len() implies (#[trigger] init[i]).end
                < (#[trigger] init[j]).start by {
                assert(init[i] == ivs[i] && init[j] == ivs[j]);
            }
        }
        lemma_normal_sum(init);
        assert(init.last() == ivs[ivs.len() - 2]);
        assert(ivs[ivs.len() - 2].end < ivs.last().start);
        assert(init[0] == ivs[0]);
    }
}

/// The intervals of `ws` for `weekday` and of the adding exceptions.
fn base_intervals(ws: &[AvailabilityWindow], es: &[AvailabilityException], weekday: i64) -> (out: Vec<Interval>)
    ensures
        forall|x: int| #[trigger] covers(out@, x) <==> (weekly_covers(ws@, weekday as int, ws@.len() as int, x)
            || exception_covers(es@, true, es@.len() as int, x)),
{
    let mut out: Vec<Interval> = Vec::new();
    let mut i: usize = 0;
    while i < ws.len()
        invariant
            i <= ws.len(),
            forall|x: int| #[trigger] covers(out@, x) <==> weekly_covers(ws@, weekday as int, i as int, x),
        decreases ws.len() - i,
    {
        let ghost before = out@;
        let w = &ws[i];
        if w.weekday == weekday {
            let iv = Interval { start: w.start_minute, end: w.end_minute };
            out.push(iv);
            assert forall|x: int| #[trigger] covers(out@, x) <==> weekly_covers(ws@, weekday as int, i + 1, x) by {
                lemma_covers_push(before, iv, x);
                if weekly_covers(ws@, weekday as int, i + 1, x) && !in_interval(iv, x) {
                    let k = choose|k: int| 0 <= k < i + 1 && (#[trigger] ws@[k]).weekday == weekday && ws@[k].start_minute <= x < ws@[k].end_minute;
                    assert(k < i);
                }
            }
        } else {
            assert forall|x: int| #[trigger] covers(out@, x) <==> weekly_covers(ws@, weekday as int, i + 1, x) by {
                if weekly_covers(ws@, weekday as int, i + 1, x) {
                    let k = choose|k: int| 0 <= k < i + 1 && (#[trigger] ws@[k]).weekday == weekday && ws@[k].start_minute <= x < ws@[k].end_minute;
                    assert(k < i);
                }
            }
        }
        i = i + 1;
    }
    let mut j: usize = 0;
    while j < es.len()
        invariant
            j <= es.len(),
            forall|x: int| #[trigger] covers(out@, x) <==> (weekly_covers(ws@, weekday as int, ws@.len() as int, x)
                || exception_covers(es@, true, j as int, x)),
        decreases es.len() - j,
    {
        let ghost before = out@;
        let e = &es[j];
        if e.is_available {
            let iv = Interval { start: e.start_minute, end: e.end_minute };
            out.push(iv);
            assert forall|x: int| #[trigger] covers(out@, x) <==> (weekly_covers(ws@, weekday as int, ws@.len() as int, x)
                || exception_covers(es@, true, j + 1, x)) by {
                lemma_covers_push(before, iv, x);
                if exception_covers(es@, true, j + 1, x) && !in_interval(iv, x) {
                    let k = choose|k: int| 0 <= k < j + 1 && (#[trigger] es@[k]).is_available == true && es@[k].start_minute <= x < es@[k].end_minute;
                    assert(k < j);
                }
            }
        } else {
            assert forall|x: int| #[trigger] covers(out@, x) <==> (weekly_covers(ws@, weekday as int, ws@.len() as int, x)
                || exception_covers(es@, true, j + 1, x)) by {
                if exception_covers(es@, true, j + 1, x) {
                    let k = choose|k: int| 0 <= k < j + 1 && (#[trigger] es@[k]).is_available == true && es@[k].start_minute <= x < es@[k].end_minute;
                    assert(k < j);
                }
            }
        }
        j = j + 1;
    }
    out
}

/// The intervals of the blocking exceptions.
fn cut_intervals(es: &[AvailabilityException]) -> (out: Vec<Interval>)
    ensures
        forall|x: int| #[trigger] covers(out@, x) <==> exception_covers(es@, false, es@.len() as int, x),
{
    let mut out: Vec<Interval> = Vec::new();
    let mut j: usize = 0;
    while j < es.len()
        invariant
            j <= es.len(),
            forall|x: int| #[trigger] covers(out@, x) <==> exception_covers(es@, false, j as int, x),
        decreases es.len() - j,
    {
        let ghost before = out@;
        let e = &es[j];
        if !e.is_available {
            let iv = Interval { start: e.start_minute, end: e.end_minute };
            out.push(iv);
            assert forall|x: int| #[trigger] covers(out@, x) <==> exception_covers(es@, false, j + 1, x) by {
                lemma_covers_push(before, iv, x);
                if exception_covers(es@, false, j + 1, x) && !in_interval(iv, x) {
                    let k = choose|k: int| 0 <= k < j + 1 && (#[trigger] es@[k]).is_available == false && es@[k].start_minute <= x < es@[k].end_minute;
                    assert(k < j);
                }
            }
        } else {
            assert forall|x: int| #[trigger] covers(out@, x) <==> exception_covers(es@, false, j + 1, x) by {
                if exception_covers(es@, false, j + 1, x) {
                    let k = choose|k: int| 0 <= k < j + 1 && (#[trigger] es@[k]).is_available == false && es@[k].start_minute <= x < es@[k].end_minute;
                    assert(k < j);
                }
            }
        }
        j = j + 1;
    }
    out
}

/// Capacity for one date (`weekday` is its day of week, 0 = Sunday): the
/// weekly windows for that weekday plus the adding exceptions, minus the
/// blocking ones, normalised, with their total minutes. `exceptions` are
/// the exceptions on that date.
pub fn capacity_for_date(
    date: &str,
    weekday: i64,
    windows: &[AvailabilityWindow],
    exceptions: &[AvailabilityException],
) -> (r: DayCapacity)
    requires
        minutes_in_range(windows@, exceptions@),
    ensures
        r.date@ == date@,
        is_normal(r.windows@),
        forall|x: int| #[trigger] covers(r.windows@, x) <==> free_minute(
            windows@,
            exceptions@,
            weekday as int,
            x,
        ),
        r.total_minutes == minutes_sum(r.windows@),
{
    let base = base_intervals(windows, exceptions, weekday);
    let cuts = cut_intervals(exceptions);
    let result = subtract(base, cuts);
    let ghost rs = result@;
    proof {
        assert forall|i: int| 0 <= i < rs.len() implies -0x2000_0000_0000_0000 <= (#[trigger] rs[i]).start
            && rs[i].end <= 0x2000_0000_0000_0000 by {
            assert(in_interval(rs[i], rs[i].start as int));
            assert(covers(rs, rs[i].start as int));
            assert(in_interval(rs[i], rs[i].end - 1));
            assert(covers(rs, rs[i].end - 1));
            let a = rs[i].start as int;
            let b = rs[i].end - 1;
            if weekly_covers(windows@, weekday as int, windows@.len() as int, a) {
                let k = choose|k: int| 0 <= k < windows@.len() && (#[trigger] windows@[k]).weekday == weekday && windows@[k].start_minute <= a < windows@[k].end_minute;
            } else {
                let k = choose|k: int| 0 <= k < exceptions@.len() && (#[trigger] exceptions@[k]).is_available == true && exceptions@[k].start_minute <= a < exceptions@[k].end_minute;
            }
            if weekly_covers(windows@, weekday as int, windows@.len() as int, b) {
                let k = choose|k: int| 0 <= k < windows@.len() && (#[trigger] windows@[k]).weekday == weekday && windows@[k].start_minute <= b < windows@[k].end_minute;
            } else {
                let k = choose|k: int| 0 <= k < exceptions@.len() && (#[trigger] exceptions@[k]).is_available == true && exceptions@[k].start_minute <= b < exceptions@[k].end_minute;
            }
        }
        if rs.len() > 0 {
            lemma_normal_sum(rs);
            assert(rs[0].start >= -0x2000_0000_0000_0000);
            assert(rs.last().end <= 0x2000_0000_0000_0000);
        }
    }
    let total = total_minutes(result.as_slice());
    DayCapacity { date: date.to_owned(), windows: result, total_minutes: total }
}

/// Whether all the minutes of the windows and exceptions lie within ±2^61.
pub fn minutes_within_range(ws: &[AvailabilityWindow], es: &[AvailabilityException]) -> (r: bool)
    ensures
        r == minutes_in_range(ws@, es@),
{
    let lim: i64 = 0x2000_0000_0000_0000;
    let mut i: usize = 0;
    while i < ws.len()
        invariant
            i <= ws@.len(),
            lim == 0x2000_0000_0000_0000,
            forall|k: int|
                0 <= k < i ==> -0x2000_0000_0000_0000 <= (#[trigger] ws@[k]).start_minute
                    <= 0x2000_0000_0000_0000 && -0x2000_0000_0000_0000 <= ws@[k].end_minute
                    <= 0x2000_0000_0000_0000,
        decreases ws.len() - i,
    {
        let w = &ws[i];
        if w.start_minute < -lim || w.start_minute > lim || w.end_minute < -lim || w.end_minute > lim {
            return false;
        }
        i = i + 1;
    }
    let mut j: usize = 0;
    while j < es.len()
        invariant
            j <= es@.len(),
            lim == 0x2000_0000_0000_0000,
            forall|k: int|
                0 <= k < i ==> -0x2000_0000_0000_0000 <= (#[trigger] ws@[k]).start_minute
                    <= 0x2000_0000_0000_0000 && -0x2000_0000_0000_0000 <= ws@[k].end_minute
                    <= 0x2000_0000_0000_0000,
            i == ws@.len(),
            forall|k: int|
                0 <= k < j ==> -0x2000_0000_0000_0000 <= (#[trigger] es@[k]).start_minute
                    <= 0x2000_0000_0000_0000 && -0x2000_0000_0000_0000 <= es@[k].end_minute
                    <= 0x2000_0000_0000_0000,
        decreases es.len() - j,
    {
        let e = &es[j];
        if e.start_minute < -lim || e.start_minute > lim || e.end_minute < -lim || e.end_minute > lim {
            return false;
        }
        j = j + 1;
    }
    true
}

} // verus!
