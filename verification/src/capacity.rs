//! Availability windows as half-open minute intervals, and the interval
//! arithmetic that turns a weekly template plus exceptions into capacity.
use vstd::prelude::*;

verus! {

/// A half-open interval [start, end) in minutes from local midnight.
#[derive(Debug, Clone, Copy, PartialEq, Eq, Structural)]
pub struct Interval {
    pub start: i64,
    pub end: i64,
}

/// Minute `x` lies in `iv`.
pub open spec fn in_interval(iv: Interval, x: int) -> bool {
    iv.start <= x < iv.end
}

/// Minute `x` lies in one of the intervals.
pub open spec fn covers(ivs: Seq<Interval>, x: int) -> bool {
    exists|i: int| 0 <= i < ivs.len() && in_interval(#[trigger] ivs[i], x)
}

/// Sorted, non-empty, and separated by at least one uncovered minute: the
/// one representation of a set of minutes.
pub open spec fn is_normal(ivs: Seq<Interval>) -> bool {
    &&& forall|i: int| 0 <= i < ivs.len() ==> (#[trigger] ivs[i]).start < ivs[i].end
    &&& forall|i: int, j: int| 0 <= i < j < ivs.len() ==> (#[trigger] ivs[i]).end < (
    #[trigger] ivs[j]).start
}

pub open spec fn interval_minutes(iv: Interval) -> int {
    if iv.end - iv.start > 0 { iv.end - iv.start } else { 0 }
}

/// Sum of the minutes of the intervals.
pub open spec fn minutes_sum(ivs: Seq<Interval>) -> int
    decreases ivs.len(),
{
    if ivs.len() == 0 {
        0
    } else {
        minutes_sum(ivs.drop_last()) + interval_minutes(ivs.last())
    }
}

impl Interval {
    /// Length in minutes; 0 for an empty or reversed interval.
    pub fn minutes(&self) -> (r: i64)
        requires
            i64::MIN <= self.end - self.start <= i64::MAX,
        ensures
            r == interval_minutes(*self),
    {
        let d = self.end - self.start;
        if d > 0 { d } else { 0 }
    }
}

pub open spec fn sorted_by_start(ivs: Seq<Interval>) -> bool {
    forall|i: int, j: int| 0 <= i < j < ivs.len() ==> (#[trigger] ivs[i]).start <= (
    #[trigger] ivs[j]).start
}

pub proof fn lemma_covers_push(s: Seq<Interval>, iv: Interval, x: int)
    ensures
        covers(s.push(iv), x) <==> (covers(s, x) || in_interval(iv, x)),
{
    if covers(s, x) {
        let i = choose|i: int| 0 <= i < s.len() && in_interval(#[trigger] s[i], x);
        assert(s.push(iv)[i] == s[i]);
    }
    if in_interval(iv, x) {
        assert(s.push(iv)[s.len() as int] == iv);
    }
    if covers(s.push(iv), x) {
        let i = choose|i: int| 0 <= i < s.push(iv).len() && in_interval(#[trigger] s.push(iv)[i], x);
        if i < s.len() {
            assert(s.push(iv)[i] == s[i]);
        }
    }
}

proof fn lemma_covers_insert(s: Seq<Interval>, k: int, iv: Interval, x: int)
    requires
        0 <= k <= s.len(),
    ensures
        covers(s.insert(k, iv), x) <==> (covers(s, x) || in_interval(iv, x)),
{
    let t = s.insert(k, iv);
    if covers(s, x) {
        let i = choose|i: int| 0 <= i < s.len() && in_interval(#[trigger] s[i], x);
        if i < k {
            assert(t[i] == s[i]);
        } else {
            assert(t[i + 1] == s[i]);
        }
    }
    if in_interval(iv, x) {
        assert(t[k] == iv);
    }
    if covers(t, x) {
        let i = choose|i: int| 0 <= i < t.len() && in_interval(#[trigger] t[i], x);
        if i < k {
            assert(t[i] == s[i]);
        } else if i > k {
            assert(t[i] == s[i - 1]);
        }
    }
}

/// The intervals ordered by start, covering the same minutes.
fn sort_by_start(ivs: &Vec<Interval>) -> (out: Vec<Interval>)
    ensures
        sorted_by_start(out@),
        forall|x: int| #[trigger] covers(out@, x) <==> covers(ivs@, x),
{
    let mut out: Vec<Interval> = Vec::new();
    let mut i: usize = 0;
    while i < ivs.len()
        invariant
            i <= ivs.len(),
            sorted_by_start(out@),
            forall|x: int| #[trigger] covers(out@, x) <==> covers(ivs@.take(i as int), x),
        decreases ivs.len() - i,
    {
        let iv = ivs[i];
        let mut k: usize = out.len();
        while k > 0 && out[k - 1].start > iv.start
            invariant
                k <= out.len(),
                forall|j: int| k <= j < out.len() ==> (#[trigger] out@[j]).start > iv.start,
            decreases k,
        {
            k = k - 1;
        }
        let ghost before = out@;
        out.insert(k, iv);
        proof {
            assert(out@ == before.insert(k as int, iv));
            assert forall|a: int, b: int| 0 <= a < b < out@.len() implies (#[trigger] out@[a]).start
                <= (#[trigger] out@[b]).start by {
                if b < k {
                    assert(out@[a] == before[a] && out@[b] == before[b]);
                } else if b == k {
                    assert(out@[a] == before[a]);
                } else if a == k {
                    assert(out@[b] == before[b - 1]);
                } else if a < k {
                    assert(out@[a] == before[a] && out@[b] == before[b - 1]);
                    if k > 0 {
                        assert(before[a].start <= before[k - 1].start || a == k - 1);
                    }
                } else {
                    assert(out@[a] == before[a - 1] && out@[b] == before[b - 1]);
                }
            }
            assert(ivs@.take(i + 1) =~= ivs@.take(i as int).push(iv));
            assert forall|x: int| #[trigger] covers(out@, x) <==> covers(ivs@.take(i + 1), x) by {
                lemma_covers_insert(before, k as int, iv, x);
                lemma_covers_push(ivs@.take(i as int), iv, x);
            }
        }
        i = i + 1;
    }
    assert(ivs@.take(ivs.len() as int) =~= ivs@);
    out
}

/// Merge overlapping and adjacent intervals into a normalised, sorted set;
/// empty and reversed intervals are dropped.
pub fn normalize(intervals: Vec<Interval>) -> (out: Vec<Interval>)
    ensures
        is_normal(out@),
        forall|x: int| #[trigger] covers(out@, x) <==> covers(intervals@, x),
{
    let sorted = sort_by_start(&intervals);
    let mut out: Vec<Interval> = Vec::new();
    let mut i: usize = 0;
    while i < sorted.len()
        invariant
            i <= sorted.len(),
            sorted_by_start(sorted@),
            is_normal(out@),
            forall|x: int| #[trigger] covers(out@, x) <==> covers(sorted@.take(i as int), x),
            out.len() > 0 ==> exists|j: int| 0 <= j < i && (#[trigger] sorted@[j]).start == out@.last().start,
        decreases sorted.len() - i,
    {
        let iv = sorted[i];
        let ghost before = out@;
        assert(sorted@.take(i + 1) =~= sorted@.take(i as int).push(iv));
        if iv.end <= iv.start {
            assert forall|x: int| #[trigger] covers(out@, x) <==> covers(sorted@.take(i + 1), x) by {
                lemma_covers_push(sorted@.take(i as int), iv, x);
            }
        } else {
            let n = out.len();
            if n > 0 && iv.start <= out[n - 1].end {
                let last = out[n - 1];
                proof {
                    let j = choose|j: int| 0 <= j < i && (#[trigger] sorted@[j]).start == out@.last().start;
                    assert(sorted@[j].start <= sorted@[i as int].start);
                }
                if iv.end > last.end {
                    out.set(n - 1, Interval { start: last.start, end: iv.end });
                }
                proof {
                    let nl = out@[n - 1];
                    assert(out@ == before.update(n - 1, nl));
                    assert forall|x: int| #[trigger] covers(out@, x) <==> covers(sorted@.take(i + 1), x) by {
                        lemma_covers_push(sorted@.take(i as int), iv, x);
                        lemma_covers_update_last(before, nl, x);
                        lemma_covers_push(before.drop_last(), last, x);
                        lemma_covers_push(before.drop_last(), nl, x);
                        assert(before.drop_last().push(last) =~= before);
                        assert(before.drop_last().push(nl) =~= out@);
                    }
                    assert forall|a: int, b: int| 0 <= a < b < out@.len() implies (#[trigger] out@[a]).end
                        < (#[trigger] out@[b]).start by {
                        assert(before[a].end < before[b].start);
                    }
                }
            } else {
                out.push(iv);
                proof {
                    assert forall|x: int| #[trigger] covers(out@, x) <==> covers(sorted@.take(i + 1), x) by {
                        lemma_covers_push(sorted@.take(i as int), iv, x);
                        lemma_covers_push(before, iv, x);
                    }
                    assert forall|a: int, b: int| 0 <= a < b < out@.len() implies (#[trigger] out@[a]).end
                        < (#[trigger] out@[b]).start by {
                        if b == n {
                            if a < n - 1 {
                                assert(before[a].end < before[n - 1].start);
                            }
                        } else {
                            assert(before[a].end < before[b].start);
                        }
                    }
                    assert(sorted@[i as int].start == out@.last().start);
                }
            }
        }
        i = i + 1;
    }
    assert(sorted@.take(sorted.len() as int) =~= sorted@);
    out
}

proof fn lemma_covers_update_last(s: Seq<Interval>, iv: Interval, x: int)
    requires
        s.len() > 0,
    ensures
        s.update(s.len() - 1, iv) =~= s.drop_last().push(iv),
{
}


/// `segments` minus the minutes of `c`.
fn cut_segments(segments: &Vec<Interval>, c: Interval) -> (next: Vec<Interval>)
    ensures
        forall|x: int| #[trigger] covers(next@, x) <==> (covers(segments@, x) && !in_interval(c, x)),
{
    let mut next: Vec<Interval> = Vec::new();
    let mut k: usize = 0;
    while k < segments.len()
        invariant
            k <= segments.len(),
            forall|x: int| #[trigger] covers(next@, x) <==> (covers(segments@.take(k as int), x) && !in_interval(c, x)),
        decreases segments.len() - k,
    {
        let s = segments[k];
        let ghost before = next@;
        assert(segments@.take(k + 1) =~= segments@.take(k as int).push(s));
        if c.end <= s.start || c.start >= s.end {
            next.push(s);
            proof {
                assert forall|x: int| #[trigger] covers(next@, x) <==> (covers(segments@.take(k + 1), x) && !in_interval(c, x)) by {
                    lemma_covers_push(before, s, x);
                    lemma_covers_push(segments@.take(k as int), s, x);
                }
            }
        } else {
            let left = Interval { start: s.start, end: c.start };
            let right = Interval { start: c.end, end: s.end };
            if c.start > s.start {
                next.push(left);
            }
            let ghost mid = next@;
            if c.end < s.end {
                next.push(right);
            }
            proof {
                assert forall|x: int| #[trigger] covers(next@, x) <==> (covers(segments@.take(k + 1), x) && !in_interval(c, x)) by {
                    lemma_covers_push(before, left, x);
                    lemma_covers_push(mid, right, x);
                    lemma_covers_push(segments@.take(k as int), s, x);
                }
            }
        }
        k = k + 1;
    }
    assert(segments@.take(segments.len() as int) =~= segments@);
    next
}

/// The minutes of `b` that no interval of `cuts` covers.
fn cut_all(b: Interval, cuts: &Vec<Interval>) -> (segments: Vec<Interval>)
    ensures
        forall|x: int| #[trigger] covers(segments@, x) <==> (in_interval(b, x) && !covers(cuts@, x)),
{
    let mut segments: Vec<Interval> = Vec::new();
    segments.push(b);
    proof {
        assert(Seq::<Interval>::empty().push(b) =~= segments@);
        assert forall|x: int| #[trigger] covers(segments@, x) <==> (in_interval(b, x) && !covers(
            cuts@.take(0),
            x,
        )) by {
            lemma_covers_push(Seq::<Interval>::empty(), b, x);
            assert(cuts@.take(0) =~= Seq::<Interval>::empty());
        }
    }
    let mut ci: usize = 0;
    while ci < cuts.len()
        invariant
            ci <= cuts.len(),
            forall|x: int| #[trigger] covers(segments@, x) <==> (in_interval(b, x) && !covers(
                cuts@.take(ci as int),
                x,
            )),
        decreases cuts.len() - ci,
    {
        let c = cuts[ci];
        let ghost old_seg = segments@;
        segments = cut_segments(&segments, c);
        proof {
            assert(cuts@.take(ci + 1) =~= cuts@.take(ci as int).push(c));
            assert forall|x: int| #[trigger] covers(segments@, x) <==> (in_interval(b, x) && !covers(
                cuts@.take(ci + 1),
                x,
            )) by {
                lemma_covers_push(cuts@.take(ci as int), c, x);
                assert(covers(old_seg, x) <==> (in_interval(b, x) && !covers(
                    cuts@.take(ci as int),
                    x,
                )));
            }
        }
        ci = ci + 1;
    }
    assert(cuts@.take(cuts.len() as int) =~= cuts@);
    segments
}

/// Appends all of `segs` to `acc`.
fn append_all(acc: &mut Vec<Interval>, segs: &Vec<Interval>)
    ensures
        forall|x: int| #[trigger] covers(final(acc)@, x) <==> (covers(old(acc)@, x) || covers(segs@, x)),
{
    let ghost before = acc@;
    let mut k: usize = 0;
    while k < segs.len()
        invariant
            k <= segs.len(),
            forall|x: int| #[trigger] covers(acc@, x) <==> (covers(before, x) || covers(
                segs@.take(k as int),
                x,
            )),
        decreases segs.len() - k,
    {
        let ghost prev = acc@;
        let iv = segs[k];
        acc.push(iv);
        proof {
            assert(acc@ == prev.push(iv));
            assert(segs@[k as int] == iv);
            assert(segs@.take(k + 1) =~= segs@.take(k as int).push(iv));
            assert(forall|x: int| #[trigger] covers(prev, x) <==> (covers(before, x) || covers(segs@.take(k as int), x)));
            assert forall|x: int| #[trigger] covers(acc@, x) <==> (covers(before, x) || covers(
                segs@.take(k + 1),
                x,
            )) by {
                lemma_covers_push(prev, iv, x);
                lemma_covers_push(segs@.take(k as int), iv, x);
                assert(covers(prev, x) <==> (covers(before, x) || covers(
                    segs@.take(k as int),
                    x,
                )));
            }
        }
        k = k + 1;
    }
    assert(segs@.take(segs.len() as int) =~= segs@);
}

/// Subtract `cuts` from `base`, returning the remaining intervals, normalised.
pub fn subtract(base: Vec<Interval>, cuts: Vec<Interval>) -> (out: Vec<Interval>)
    ensures
        is_normal(out@),
        forall|x: int| #[trigger] covers(out@, x) <==> (covers(base@, x) && !covers(cuts@, x)),
{
    let base_n = normalize(base);
    let cuts_n = normalize(cuts);
    let mut acc: Vec<Interval> = Vec::new();
    let mut bi: usize = 0;
    assert forall|x: int| #[trigger] covers(acc@, x) <==> (covers(base_n@.take(0), x) && !covers(
        cuts_n@,
        x,
    )) by {
        assert(base_n@.take(0) =~= Seq::<Interval>::empty());
    }
    while bi < base_n.len()
        invariant
            bi <= base_n.len(),
            forall|x: int| #[trigger] covers(acc@, x) <==> (covers(base_n@.take(bi as int), x) && !covers(
                cuts_n@,
                x,
            )),
        decreases base_n.len() - bi,
    {
        let b = base_n[bi];
        let segments = cut_all(b, &cuts_n);
        let ghost prev = acc@;
        append_all(&mut acc, &segments);
        proof {
            assert(base_n@.take(bi + 1) =~= base_n@.take(bi as int).push(b));
            assert forall|x: int| #[trigger] covers(acc@, x) <==> (covers(base_n@.take(bi + 1), x)
                && !covers(cuts_n@, x)) by {
                lemma_covers_push(base_n@.take(bi as int), b, x);
                assert(covers(prev, x) <==> (covers(base_n@.take(bi as int), x) && !covers(
                    cuts_n@,
                    x,
                )));
                assert(covers(segments@, x) <==> (in_interval(b, x) && !covers(cuts_n@, x)));
            }
        }
        bi = bi + 1;
    }
    assert(base_n@.take(base_n.len() as int) =~= base_n@);
    normalize(acc)
}

proof fn lemma_minutes_sum_mono(s: Seq<Interval>, k: int)
    requires
        0 <= k <= s.len(),
    ensures
        0 <= minutes_sum(s.take(k)) <= minutes_sum(s),
    decreases s.len(),
{
    if k < s.len() {
        assert(s.drop_last().take(k) =~= s.take(k));
        lemma_minutes_sum_mono(s.drop_last(), k);
    } else {
        assert(s.take(k) =~= s);
        if s.len() > 0 {
            lemma_minutes_sum_mono(s.drop_last(), s.len() - 1);
            assert(s.drop_last().take(s.len() - 1) =~= s.drop_last());
        }
    }
}

/// The sum of the intervals' minutes.
pub fn total_minutes(intervals: &[Interval]) -> (r: i64)
    requires
        forall|i: int| 0 <= i < intervals@.len() ==> i64::MIN <= (#[trigger] intervals@[i]).end
            - intervals@[i].start <= i64::MAX,
        minutes_sum(intervals@) <= i64::MAX,
    ensures
        r == minutes_sum(intervals@),
{
    let mut acc: i64 = 0;
    let mut i: usize = 0;
    while i < intervals.len()
        invariant
            i <= intervals@.len(),
            acc == minutes_sum(intervals@.take(i as int)),
            forall|i: int| 0 <= i < intervals@.len() ==> i64::MIN <= (#[trigger] intervals@[i]).end
                - intervals@[i].start <= i64::MAX,
            minutes_sum(intervals@) <= i64::MAX,
        decreases intervals@.len() - i,
    {
        proof {
            lemma_minutes_sum_mono(intervals@, i + 1);
            assert(intervals@.take(i + 1).drop_last() =~= intervals@.take(i as int));
        }
        let m = intervals[i].minutes();
        acc = acc + m;
        i = i + 1;
    }
    assert(intervals@.take(intervals@.len() as int) =~= intervals@);
    acc
}

/// The suffix after the first interval of a normal set covers exactly the
/// minutes of the set from the end of the first interval on.
proof fn lemma_normal_tail(a: Seq<Interval>, x: int)
    requires
        is_normal(a),
        a.len() > 0,
    ensures
        is_normal(a.drop_first()),
        covers(a.drop_first(), x) <==> (covers(a, x) && x >= a[0].end),
{
    let t = a.drop_first();
    assert forall|i: int, j: int| 0 <= i < j < t.len() implies (#[trigger] t[i]).end < (#[trigger] t[j]).start by {
        assert(t[i] == a[i + 1] && t[j] == a[j + 1]);
    }
    assert forall|i: int| 0 <= i < t.len() implies (#[trigger] t[i]).start < t[i].end by {
        assert(t[i] == a[i + 1]);
    }
    if covers(t, x) {
        let i = choose|i: int| 0 <= i < t.len() && in_interval(#[trigger] t[i], x);
        assert(t[i] == a[i + 1]);
        assert(a[0].end < a[i + 1].start);
        assert(in_interval(a[i + 1], x));
    }
    if covers(a, x) && x >= a[0].end {
        let i = choose|i: int| 0 <= i < a.len() && in_interval(#[trigger] a[i], x);
        assert(i != 0);
        assert(t[i - 1] == a[i]);
        assert(in_interval(t[i - 1], x));
    }
}

/// The first interval of a normal set starts at its smallest minute.
proof fn lemma_normal_first(a: Seq<Interval>, x: int)
    requires
        is_normal(a),
        covers(a, x),
    ensures
        a[0].start <= x,
        x < a[0].end || x > a[0].end,
{
    let i = choose|i: int| 0 <= i < a.len() && in_interval(#[trigger] a[i], x);
    if i > 0 {
        assert(a[0].end < a[i].start);
        assert(a[0].start < a[0].end);
    }
}

/// Normal form is unique: two normal interval sets that cover the same
/// minutes are the same sequence. So `normalize` gives the one
/// representation of a set of minutes, whatever order or overlap its input
/// had.
pub proof fn lemma_normal_unique(a: Seq<Interval>, b: Seq<Interval>)
    requires
        is_normal(a),
        is_normal(b),
        forall|x: int| #[trigger] covers(a, x) <==> covers(b, x),
    ensures
        a == b,
    decreases a.len() + b.len(),
{
    if a.len() == 0 || b.len() == 0 {
        if a.len() > 0 {
            assert(in_interval(a[0], a[0].start as int));
            assert(covers(a, a[0].start as int));
            assert(covers(b, a[0].start as int));
        }
        if b.len() > 0 {
            assert(in_interval(b[0], b[0].start as int));
            assert(covers(b, b[0].start as int));
            assert(covers(a, b[0].start as int));
        }
        assert(a =~= b);
    } else {
        let a0 = a[0];
        let b0 = b[0];
        assert(in_interval(a0, a0.start as int));
        assert(covers(a, a0.start as int));
        assert(covers(b, a0.start as int));
        lemma_normal_first(b, a0.start as int);
        assert(in_interval(b0, b0.start as int));
        assert(covers(b, b0.start as int));
        assert(covers(a, b0.start as int));
        lemma_normal_first(a, b0.start as int);
        assert(a0.start == b0.start);
        if a0.end < b0.end {
            assert(in_interval(b0, a0.end as int));
            assert(covers(b, a0.end as int));
            assert(covers(a, a0.end as int));
            lemma_normal_first(a, a0.end as int);
            let i = choose|i: int| 0 <= i < a.len() && in_interval(#[trigger] a[i], a0.end as int);
            assert(i != 0);
            assert(a0.end < a[i].start);
        }
        if b0.end < a0.end {
            assert(in_interval(a0, b0.end as int));
            assert(covers(a, b0.end as int));
            assert(covers(b, b0.end as int));
            let i = choose|i: int| 0 <= i < b.len() && in_interval(#[trigger] b[i], b0.end as int);
            assert(i != 0);
            assert(b0.end < b[i].start);
        }
        assert(a0 == b0);
        assert forall|x: int| #[trigger] covers(a.drop_first(), x) <==> covers(b.drop_first(), x) by {
            lemma_normal_tail(a, x);
            lemma_normal_tail(b, x);
        }
        lemma_normal_tail(a, 0);
        lemma_normal_tail(b, 0);
        lemma_normal_unique(a.drop_first(), b.drop_first());
        assert(a =~= seq![a0] + a.drop_first());
        assert(b =~= seq![b0] + b.drop_first());
    }
}

} // verus!
