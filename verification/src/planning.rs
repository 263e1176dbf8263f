//! The deterministic planning engine: it reads a snapshot of goals, tasks and
//! capacity and says, for each goal, whether the remaining work fits the time
//! available before its deadline.
//!
//! Fractions (progress, estimate coverage) are kept as exact
//! numerator/denominator pairs; risk thresholds are compared exactly.
use vstd::prelude::*;
use vstd::string::StringExecFns;
use crate::domain::{Goal, Milestone, Status, Task};
use crate::num::{decimal, int_text, push_decimal, push_int};
use crate::text::{push_char, seq_lt, seq_le, str_lt, str_eq};
use crate::dates::{days_between, days_between_spec};

verus! {

#[derive(Debug, Clone, Copy, PartialEq, Eq, Structural)]
pub enum GoalHealth {
    OnTrack,
    AtRisk,
    Behind,
    Critical,
    /// No deadline, or nothing left to do: risk is not meaningful.
    NotApplicable,
}

/// How much of the analysis rests on real data rather than gaps.
#[derive(Debug, Clone, Copy, PartialEq, Eq, Structural)]
pub enum Confidence {
    High,
    Medium,
    Low,
}

#[derive(Debug, Clone, Copy, PartialEq, Eq, Structural)]
pub enum UpcomingKind {
    TaskDue,
    MilestoneTarget,
    GoalTarget,
}

impl GoalHealth {
    /// The variant's name, as `{:?}` prints it.
    pub fn name(&self) -> (r: &'static str)
        ensures
            r@ == health_name(*self),
    {
        match self {
            GoalHealth::OnTrack => "OnTrack",
            GoalHealth::AtRisk => "AtRisk",
            GoalHealth::Behind => "Behind",
            GoalHealth::Critical => "Critical",
            GoalHealth::NotApplicable => "NotApplicable",
        }
    }
}

pub open spec fn health_name(h: GoalHealth) -> Seq<char> {
    match h {
        GoalHealth::OnTrack => "OnTrack"@,
        GoalHealth::AtRisk => "AtRisk"@,
        GoalHealth::Behind => "Behind"@,
        GoalHealth::Critical => "Critical"@,
        GoalHealth::NotApplicable => "NotApplicable"@,
    }
}

/// Risk thresholds, as shortfall relative to remaining workload: any
/// shortfall at all is at risk; more than 1/5 is behind; more than 1/2 is
/// critical.
pub const BEHIND_NUM: i64 = 1;
pub const BEHIND_DEN: i64 = 5;
pub const CRITICAL_NUM: i64 = 1;
pub const CRITICAL_DEN: i64 = 2;

/// Below 3/5 of outstanding tasks estimated the analysis is low confidence; from 9/10 it is high.
pub const LOW_COVERAGE_NUM: i64 = 3;
pub const LOW_COVERAGE_DEN: i64 = 5;
pub const HIGH_COVERAGE_NUM: i64 = 9;
pub const HIGH_COVERAGE_DEN: i64 = 10;

/// `num / den > p / q` as rationals (`den != 0`, `q > 0`).
pub open spec fn ratio_exceeds(num: int, den: int, p: int, q: int) -> bool {
    if den > 0 {
        num * q > p * den
    } else {
        num * q < p * den
    }
}

/// `{}h {}m` text of a number of minutes, with a leading '-' for negatives.
pub open spec fn fmt_minutes_text(m: int) -> Seq<char> {
    let sign = if m < 0 { seq!['-'] } else { Seq::<char>::empty() };
    let a = if m < 0 { -m } else { m };
    let h = a / 60;
    let mn = a % 60;
    if h == 0 {
        sign + decimal(mn as nat) + "m"@
    } else if mn == 0 {
        sign + decimal(h as nat) + "h"@
    } else {
        sign + decimal(h as nat) + "h "@ + decimal(mn as nat) + "m"@
    }
}

fn append_minutes(s: &mut String, m: i64)
    requires
        m > i64::MIN,
    ensures
        final(s)@ == old(s)@ + fmt_minutes_text(m as int),
{
    let a: u64 = if m < 0 { (-m) as u64 } else { m as u64 };
    let h = a / 60;
    let mn = a % 60;
    if m < 0 {
        push_char(s, '-');
    }
    if h == 0 {
        push_decimal(s, mn);
        s.append("m");
    } else if mn == 0 {
        push_decimal(s, h);
        s.append("h");
    } else {
        push_decimal(s, h);
        s.append("h ");
        push_decimal(s, mn);
        s.append("m");
    }
    assert(final(s)@ =~= old(s)@ + fmt_minutes_text(m as int));
}

/// Minutes as readable text: `45m`, `2h`, `2h 30m`, `-1h 30m`.
pub fn fmt_minutes(m: i64) -> (r: String)
    requires
        m > i64::MIN,
    ensures
        r@ == fmt_minutes_text(m as int),
{
    let mut s = String::new();
    append_minutes(&mut s, m);
    assert(s@ =~= fmt_minutes_text(m as int));
    s
}

/// The health verdict and its explanation.
pub open spec fn classify_spec(
    complete: bool,
    days_remaining: Option<int>,
    workload: int,
    capacity: int,
    shortfall: int,
    outstanding: int,
) -> (GoalHealth, Seq<char>) {
    if complete {
        (GoalHealth::NotApplicable, "Goal is complete."@)
    } else if days_remaining is None {
        (GoalHealth::NotApplicable, "No target date set, so deadline risk cannot be calculated."@)
    } else if outstanding == 0 {
        (GoalHealth::NotApplicable, "No outstanding tasks."@)
    } else if days_remaining->0 < 0 {
        (
            GoalHealth::Critical,
            "Deadline passed "@ + int_text(-days_remaining->0) + " day(s) ago with "@ + decimal(
                outstanding as nat,
            ) + " task(s) outstanding."@,
        )
    } else if workload == 0 {
        (
            GoalHealth::NotApplicable,
            decimal(outstanding as nat) + " outstanding task(s), but none have time estimates."@,
        )
    } else if shortfall <= 0 {
        (
            GoalHealth::OnTrack,
            fmt_minutes_text(workload) + " of work remaining, "@ + fmt_minutes_text(capacity)
                + " available before the deadline."@,
        )
    } else {
        let msg = fmt_minutes_text(workload) + " of work remaining but only "@ + fmt_minutes_text(
            capacity,
        ) + " available \u{2014} short by "@ + fmt_minutes_text(shortfall) + "."@;
        if ratio_exceeds(shortfall, workload, CRITICAL_NUM as int, CRITICAL_DEN as int) {
            (GoalHealth::Critical, msg)
        } else if ratio_exceeds(shortfall, workload, BEHIND_NUM as int, BEHIND_DEN as int) {
            (GoalHealth::Behind, msg)
        } else {
            (GoalHealth::AtRisk, msg)
        }
    }
}

/// Bound on the minute figures the engine handles.
pub open spec fn small_minutes(m: int) -> bool {
    -100_000_000_000_000_000 <= m <= 100_000_000_000_000_000
}

fn exceeds(num: i64, den: i64, p: i64, q: i64) -> (r: bool)
    requires
        small_minutes(num as int),
        small_minutes(den as int),
        den != 0,
        1 <= p <= 2,
        1 <= q <= 5,
    ensures
        r == ratio_exceeds(num as int, den as int, p as int, q as int),
{
    assert(-5_000_000_000_000_000_000 <= num * q <= 5_000_000_000_000_000_000) by (nonlinear_arith)
        requires
            small_minutes(num as int),
            1 <= q <= 5;
    assert(-2_000_000_000_000_000_000 <= p * den <= 2_000_000_000_000_000_000) by (nonlinear_arith)
        requires
            small_minutes(den as int),
            1 <= p <= 2;
    let a = num * q;
    let b = p * den;
    if den > 0 { a > b } else { a < b }
}

pub fn classify(
    complete: bool,
    days_remaining: Option<i64>,
    workload: i64,
    capacity: i64,
    shortfall: i64,
    outstanding_count: usize,
) -> (r: (GoalHealth, String))
    requires
        small_minutes(workload as int),
        small_minutes(capacity as int),
        small_minutes(shortfall as int),
        days_remaining matches Some(d) ==> d > i64::MIN,
    ensures
        ({
            let s = classify_spec(
                complete,
                match days_remaining { Some(d) => Some(d as int), None => None },
                workload as int,
                capacity as int,
                shortfall as int,
                outstanding_count as int,
            );
            r.0 == s.0 && r.1@ == s.1
        }),
{
    let mut msg = String::new();
    if complete {
        msg.append("Goal is complete.");
        return (GoalHealth::NotApplicable, msg);
    }
    let days = match days_remaining {
        None => {
            msg.append("No target date set, so deadline risk cannot be calculated.");
            return (GoalHealth::NotApplicable, msg);
        },
        Some(d) => d,
    };
    if outstanding_count == 0 {
        msg.append("No outstanding tasks.");
        return (GoalHealth::NotApplicable, msg);
    }
    if days < 0 {
        msg.append("Deadline passed ");
        push_int(&mut msg, -days);
        msg.append(" day(s) ago with ");
        push_decimal(&mut msg, outstanding_count as u64);
        msg.append(" task(s) outstanding.");
        return (GoalHealth::Critical, msg);
    }
    if workload == 0 {
        push_decimal(&mut msg, outstanding_count as u64);
        msg.append(" outstanding task(s), but none have time estimates.");
        return (GoalHealth::NotApplicable, msg);
    }
    if shortfall <= 0 {
        append_minutes(&mut msg, workload);
        msg.append(" of work remaining, ");
        append_minutes(&mut msg, capacity);
        msg.append(" available before the deadline.");
        return (GoalHealth::OnTrack, msg);
    }
    append_minutes(&mut msg, workload);
    msg.append(" of work remaining but only ");
    append_minutes(&mut msg, capacity);
    msg.append(" available \u{2014} short by ");
    append_minutes(&mut msg, shortfall);
    msg.append(".");
    if exceeds(shortfall, workload, CRITICAL_NUM, CRITICAL_DEN) {
        (GoalHealth::Critical, msg)
    } else if exceeds(shortfall, workload, BEHIND_NUM, BEHIND_DEN) {
        (GoalHealth::Behind, msg)
    } else {
        (GoalHealth::AtRisk, msg)
    }
}


/// Available minutes on one date.
#[derive(Debug, Clone)]
pub struct DateCapacity {
    pub date: String,
    pub minutes: i64,
}

/// Minutes already logged for one goal.
#[derive(Debug, Clone)]
pub struct GoalMinutes {
    pub goal_id: String,
    pub minutes: i64,
}

/// Everything the engine needs, assembled by the storage layer. The engine
/// never queries; it only reads this.
#[derive(Debug, Clone)]
pub struct PlanningSnapshot {
    /// Today, as a local YYYY-MM-DD date.
    pub today: String,
    pub goals: Vec<Goal>,
    pub milestones: Vec<Milestone>,
    /// All non-deleted tasks, completed and outstanding.
    pub tasks: Vec<Task>,
    /// Available minutes per date, for dates from today forward.
    pub capacity_by_date: Vec<DateCapacity>,
    /// Minutes already logged per goal, all time.
    pub logged_minutes_by_goal: Vec<GoalMinutes>,
}

#[derive(Debug, Clone)]
pub struct GoalAnalysis {
    pub goal_id: String,
    pub title: String,
    /// Effort-weighted completion, `progress_num / progress_den` in 0..=1.
    pub progress_num: i64,
    pub progress_den: i64,
    pub tasks_total: usize,
    pub tasks_completed: usize,
    /// Estimated minutes still outstanding.
    pub workload_remaining_minutes: i64,
    /// Capacity between today and the deadline, shared across all goals.
    pub capacity_available_minutes: i64,
    /// Positive means short of time.
    pub shortfall_minutes: i64,
    pub days_remaining: Option<i64>,
    pub health: GoalHealth,
    /// Share of the goal's outstanding tasks that carry an estimate,
    /// `estimate_coverage_num / estimate_coverage_den` in 0..=1 (1/1 when
    /// nothing is outstanding).
    pub estimate_coverage_num: usize,
    pub estimate_coverage_den: usize,
    pub unestimated_task_count: usize,
    pub confidence: Confidence,
    /// Human-readable explanation of the health verdict.
    pub reason: String,
}

pub open spec fn is_finished(s: Status) -> bool {
    s == Status::Completed || s == Status::Cancelled
}

/// A live, not cancelled task of the goal with id `gid`.
pub open spec fn goal_task(t: Task, gid: Seq<char>) -> bool {
    &&& t.deleted_at is None
    &&& t.goal_id matches Some(g) && g.0@ == gid
    &&& t.status != Status::Cancelled
}

pub open spec fn est_bounded(t: Task) -> bool {
    match t.estimated_minutes {
        Some(m) => -1_000_000_000 <= m <= 1_000_000_000,
        None => true,
    }
}

pub open spec fn est(t: Task) -> int {
    match t.estimated_minutes {
        Some(m) => m as int,
        None => 0,
    }
}

/// Per-goal task figures.
pub struct GoalStats {
    pub total: nat,
    pub completed: nat,
    pub total_est: int,
    pub done_est: int,
    /// Tasks (done or not) that carry an estimate.
    pub est_count: nat,
    /// Outstanding tasks that carry an estimate.
    pub open_estimated: nat,
    pub outstanding: nat,
    pub workload: int,
    pub unestimated: nat,
}

pub open spec fn goal_stats(ts: Seq<Task>, gid: Seq<char>) -> GoalStats
    decreases ts.len(),
{
    if ts.len() == 0 {
        GoalStats {
            total: 0,
            completed: 0,
            total_est: 0,
            done_est: 0,
            est_count: 0,
            open_estimated: 0,
            outstanding: 0,
            workload: 0,
            unestimated: 0,
        }
    } else {
        let s = goal_stats(ts.drop_last(), gid);
        let t = ts.last();
        if goal_task(t, gid) {
            let done = t.status == Status::Completed;
            let open = !is_finished(t.status);
            GoalStats {
                total: s.total + 1,
                completed: s.completed + if done { 1nat } else { 0nat },
                total_est: s.total_est + est(t),
                done_est: s.done_est + if done { est(t) } else { 0 },
                est_count: s.est_count + if t.estimated_minutes is Some { 1nat } else { 0nat },
                open_estimated: s.open_estimated + if open && t.estimated_minutes is Some { 1nat } else { 0nat },
                outstanding: s.outstanding + if open { 1nat } else { 0nat },
                workload: s.workload + if open { est(t) } else { 0 },
                unestimated: s.unestimated + if open && t.estimated_minutes is None { 1nat } else { 0nat },
            }
        } else {
            s
        }
    }
}

/// Sum of the minutes of the capacity entries dated within [lo, hi].
pub open spec fn capacity_between(cs: Seq<DateCapacity>, lo: Seq<char>, hi: Seq<char>) -> int
    decreases cs.len(),
{
    if cs.len() == 0 {
        0
    } else {
        let c = cs.last();
        capacity_between(cs.drop_last(), lo, hi) + if !seq_lt(c.date@, lo) && !seq_lt(hi, c.date@) {
            c.minutes as int
        } else {
            0
        }
    }
}

/// `estimated / counted` is at least `p / q`, nothing counted counting as
/// fully estimated.
pub open spec fn coverage_at_least(estimated: int, counted: int, p: int, q: int) -> bool {
    counted == 0 || estimated * q >= p * counted
}

/// Bounds on the snapshot that keep every sum within i64.
pub open spec fn snapshot_bounded(s: PlanningSnapshot) -> bool {
    &&& s.tasks@.len() <= 1_000_000
    &&& forall|i: int| 0 <= i < s.tasks@.len() ==> est_bounded(#[trigger] s.tasks@[i])
    &&& s.capacity_by_date@.len() <= 1_000_000
    &&& forall|i: int| 0 <= i < s.capacity_by_date@.len() ==> -1_000_000_000 <= (
    #[trigger] s.capacity_by_date@[i]).minutes <= 1_000_000_000
    &&& s.goals@.len() <= 1_000_000
    &&& s.milestones@.len() <= 1_000_000
}

pub open spec fn goal_analysis_ok(r: GoalAnalysis, g: Goal, snap: PlanningSnapshot) -> bool {
    let st = goal_stats(snap.tasks@, g.id.0@);
    let today = snap.today@;
    let days: Option<int> = match g.target_date {
        Some(t) => Some(days_between_spec(today, t@)),
        None => None,
    };
    let capacity = match g.target_date {
        Some(t) => capacity_between(snap.capacity_by_date@, today, t@),
        None => 0,
    };
    let shortfall = st.workload - capacity;
    let low_ok = coverage_at_least(st.open_estimated as int, st.outstanding as int, LOW_COVERAGE_NUM as int, LOW_COVERAGE_DEN as int);
    let high_ok = coverage_at_least(st.open_estimated as int, st.outstanding as int, HIGH_COVERAGE_NUM as int, HIGH_COVERAGE_DEN as int);
    // Progress is weighted by effort when at least 3/5 of all the goal's
    // tasks, done or not, carry an estimate.
    let weighted_ok = coverage_at_least(st.est_count as int, st.total as int, LOW_COVERAGE_NUM as int, LOW_COVERAGE_DEN as int);
    let verdict = classify_spec(g.status == Status::Completed, days, st.workload, capacity, shortfall, st.outstanding as int);
    &&& r.goal_id@ == g.id.0@
    &&& r.title@ == g.title@
    &&& if st.total_est > 0 && weighted_ok {
        r.progress_num == st.done_est && r.progress_den == st.total_est
    } else if st.total > 0 {
        r.progress_num == st.completed && r.progress_den == st.total
    } else {
        r.progress_num == 0 && r.progress_den == 1
    }
    &&& r.tasks_total == st.total
    &&& r.tasks_completed == st.completed
    &&& r.workload_remaining_minutes == st.workload
    &&& r.capacity_available_minutes == capacity
    &&& r.shortfall_minutes == shortfall
    &&& match days {
        Some(d) => r.days_remaining == Some(d as i64),
        None => r.days_remaining is None,
    }
    &&& r.health == verdict.0
    &&& r.reason@ == verdict.1
    &&& if st.outstanding == 0 {
        r.estimate_coverage_num == 1 && r.estimate_coverage_den == 1
    } else {
        r.estimate_coverage_num == st.open_estimated && r.estimate_coverage_den == st.outstanding
    }
    &&& r.unestimated_task_count == st.unestimated
    &&& r.confidence == if high_ok {
        Confidence::High
    } else if low_ok {
        Confidence::Medium
    } else {
        Confidence::Low
    }
}

proof fn lemma_goal_stats_bounds(ts: Seq<Task>, gid: Seq<char>)
    requires
        forall|i: int| 0 <= i < ts.len() ==> est_bounded(#[trigger] ts[i]),
    ensures
        ({
            let st = goal_stats(ts, gid);
            &&& st.total <= ts.len()
            &&& st.completed <= st.total
            &&& st.est_count <= st.total
            &&& st.open_estimated <= st.outstanding
            &&& st.outstanding <= st.total
            &&& st.unestimated <= st.outstanding
            &&& -1_000_000_000 * ts.len() <= st.total_est <= 1_000_000_000 * ts.len()
            &&& -1_000_000_000 * ts.len() <= st.done_est <= 1_000_000_000 * ts.len()
            &&& -1_000_000_000 * ts.len() <= st.workload <= 1_000_000_000 * ts.len()
        }),
    decreases ts.len(),
{
    if ts.len() > 0 {
        assert forall|i: int| 0 <= i < ts.drop_last().len() implies est_bounded(
        #[trigger] ts.drop_last()[i]) by {
            assert(ts.drop_last()[i] == ts[i]);
        }
        lemma_goal_stats_bounds(ts.drop_last(), gid);
        let t = ts[ts.len() - 1];
        assert(-1_000_000_000 <= est(t) <= 1_000_000_000);
    }
}

proof fn lemma_capacity_between_bounds(cs: Seq<DateCapacity>, lo: Seq<char>, hi: Seq<char>)
    requires
        forall|i: int| 0 <= i < cs.len() ==> -1_000_000_000 <= (#[trigger] cs[i]).minutes <= 1_000_000_000,
    ensures
        -1_000_000_000 * cs.len() <= capacity_between(cs, lo, hi) <= 1_000_000_000 * cs.len(),
    decreases cs.len(),
{
    if cs.len() > 0 {
        assert forall|i: int| 0 <= i < cs.drop_last().len() implies -1_000_000_000 <= (
        #[trigger] cs.drop_last()[i]).minutes <= 1_000_000_000 by {
            assert(cs.drop_last()[i] == cs[i]);
        }
        lemma_capacity_between_bounds(cs.drop_last(), lo, hi);
        assert(-1_000_000_000 <= cs[cs.len() - 1].minutes <= 1_000_000_000);
    }
}

/// The id of `t`'s goal is `gid`.
fn task_of_goal(t: &Task, gid: &str) -> (r: bool)
    ensures
        r == (t.goal_id matches Some(g) && g.0@ == gid@),
{
    match &t.goal_id {
        Some(g) => str_eq(g.0.as_str(), gid),
        None => false,
    }
}

fn goal_stats_exec(tasks: &Vec<Task>, gid: &str) -> (r: (usize, usize, i64, i64, usize, usize, i64, usize, usize))
    requires
        tasks@.len() <= 1_000_000,
        forall|i: int| 0 <= i < tasks@.len() ==> est_bounded(#[trigger] tasks@[i]),
    ensures
        ({
            let st = goal_stats(tasks@, gid@);
            &&& r.0 == st.total
            &&& r.1 == st.completed
            &&& r.2 == st.total_est
            &&& r.3 == st.done_est
            &&& r.4 == st.open_estimated
            &&& r.8 == st.est_count
            &&& r.5 == st.outstanding
            &&& r.6 == st.workload
            &&& r.7 == st.unestimated
        }),
{
    let mut total: usize = 0;
    let mut completed: usize = 0;
    let mut total_est: i64 = 0;
    let mut done_est: i64 = 0;
    let mut open_estimated: usize = 0;
    let mut est_count: usize = 0;
    let mut outstanding: usize = 0;
    let mut workload: i64 = 0;
    let mut unestimated: usize = 0;
    let mut i: usize = 0;
    while i < tasks.len()
        invariant
            i <= tasks@.len() <= 1_000_000,
            forall|i: int| 0 <= i < tasks@.len() ==> est_bounded(#[trigger] tasks@[i]),
            ({
                let st = goal_stats(tasks@.take(i as int), gid@);
                &&& total == st.total
                &&& completed == st.completed
                &&& total_est == st.total_est
                &&& done_est == st.done_est
                &&& open_estimated == st.open_estimated
                &&& est_count == st.est_count
                &&& outstanding == st.outstanding
                &&& workload == st.workload
                &&& unestimated == st.unestimated
            }),
        decreases tasks@.len() - i,
    {
        proof {
            let ts = tasks@.take(i + 1);
            assert(ts.drop_last() =~= tasks@.take(i as int));
            assert forall|k: int| 0 <= k < ts.len() implies est_bounded(#[trigger] ts[k]) by {
                assert(ts[k] == tasks@[k]);
            }
            lemma_goal_stats_bounds(ts, gid@);
        }
        let t = &tasks[i];
        let is_goal = t.deleted_at.is_none() && task_of_goal(t, gid) && t.status != Status::Cancelled;
        if is_goal {
            let done = t.status == Status::Completed;
            let open = !(t.status == Status::Completed || t.status == Status::Cancelled);
            let e: i64 = match t.estimated_minutes {
                Some(m) => m,
                None => 0,
            };
            total = total + 1;
            total_est = total_est + e;
            if done {
                completed = completed + 1;
                done_est = done_est + e;
            }
            if t.estimated_minutes.is_some() {
                est_count = est_count + 1;
            }
            if open {
                outstanding = outstanding + 1;
                workload = workload + e;
                if t.estimated_minutes.is_some() {
                    open_estimated = open_estimated + 1;
                } else {
                    unestimated = unestimated + 1;
                }
            }
        }
        i = i + 1;
    }
    assert(tasks@.take(tasks@.len() as int) =~= tasks@);
    (total, completed, total_est, done_est, open_estimated, outstanding, workload, unestimated, est_count)
}

fn capacity_between_exec(cs: &Vec<DateCapacity>, lo: &str, hi: &str) -> (r: i64)
    requires
        cs@.len() <= 1_000_000,
        forall|i: int| 0 <= i < cs@.len() ==> -1_000_000_000 <= (#[trigger] cs@[i]).minutes <= 1_000_000_000,
    ensures
        r == capacity_between(cs@, lo@, hi@),
{
    let mut acc: i64 = 0;
    let mut i: usize = 0;
    while i < cs.len()
        invariant
            i <= cs@.len() <= 1_000_000,
            forall|i: int| 0 <= i < cs@.len() ==> -1_000_000_000 <= (#[trigger] cs@[i]).minutes <= 1_000_000_000,
            acc == capacity_between(cs@.take(i as int), lo@, hi@),
        decreases cs@.len() - i,
    {
        proof {
            let p = cs@.take(i + 1);
            assert(p.drop_last() =~= cs@.take(i as int));
            assert forall|k: int| 0 <= k < p.len() implies -1_000_000_000 <= (#[trigger] p[k]).minutes <= 1_000_000_000 by {
                assert(p[k] == cs@[k]);
            }
            lemma_capacity_between_bounds(p, lo@, hi@);
        }
        let c = &cs[i];
        if !str_lt(c.date.as_str(), lo) && !str_lt(hi, c.date.as_str()) {
            acc = acc + c.minutes;
        }
        i = i + 1;
    }
    assert(cs@.take(cs@.len() as int) =~= cs@);
    acc
}

fn coverage_ok(estimated: usize, counted: usize, p: usize, q: usize) -> (r: bool)
    requires
        counted <= 1_000_000,
        estimated <= counted,
        p <= 10,
        q <= 10,
    ensures
        r == coverage_at_least(estimated as int, counted as int, p as int, q as int),
{
    assert(estimated * q <= 10_000_000) by (nonlinear_arith)
        requires estimated <= 1_000_000, q <= 10;
    assert(p * counted <= 10_000_000) by (nonlinear_arith)
        requires counted <= 1_000_000, p <= 10;
    counted == 0 || estimated * q >= p * counted
}

/// The analysis of one goal.
pub fn analyze_goal(goal: &Goal, snapshot: &PlanningSnapshot) -> (r: GoalAnalysis)
    requires
        snapshot_bounded(*snapshot),
    ensures
        goal_analysis_ok(r, *goal, *snapshot),
{
    let gid = goal.id.0.as_str();
    let (total, completed, total_est, done_est, open_estimated, outstanding, workload, unestimated, est_count) =
        goal_stats_exec(&snapshot.tasks, gid);
    proof {
        lemma_goal_stats_bounds(snapshot.tasks@, gid@);
        lemma_capacity_between_bounds(snapshot.capacity_by_date@, snapshot.today@, snapshot.today@);
    }
    let today = snapshot.today.as_str();
    let low_ok = coverage_ok(open_estimated, outstanding, 3, 5);
    let high_ok = coverage_ok(open_estimated, outstanding, 9, 10);
    let weighted_ok = coverage_ok(est_count, total, 3, 5);
    let (progress_num, progress_den) = if total_est > 0 && weighted_ok {
        (done_est, total_est)
    } else if total > 0 {
        (completed as i64, total as i64)
    } else {
        (0i64, 1i64)
    };
    let days_remaining = match &goal.target_date {
        Some(target) => Some(days_between(today, target.as_str())),
        None => None,
    };
    let capacity: i64 = match &goal.target_date {
        Some(target) => {
            proof {
                lemma_capacity_between_bounds(snapshot.capacity_by_date@, today@, target@);
            }
            capacity_between_exec(&snapshot.capacity_by_date, today, target.as_str())
        },
        None => 0,
    };
    assert(-1_000_000_000_000_000 <= workload <= 1_000_000_000_000_000);
    assert(-1_000_000_000_000_000 <= capacity <= 1_000_000_000_000_000);
    let shortfall = workload - capacity;
    let confidence = if high_ok {
        Confidence::High
    } else if low_ok {
        Confidence::Medium
    } else {
        Confidence::Low
    };
    proof {
        if goal.target_date is Some {
            crate::dates::lemma_days_between_small(today@, goal.target_date->0@);
        }
    }
    let (health, reason) = classify(
        goal.status == Status::Completed,
        days_remaining,
        workload,
        capacity,
        shortfall,
        outstanding,
    );
    let (cov_num, cov_den) = if outstanding == 0 { (1usize, 1usize) } else { (open_estimated, outstanding) };
    GoalAnalysis {
        goal_id: goal.id.0.clone(),
        title: goal.title.clone(),
        progress_num,
        progress_den,
        tasks_total: total,
        tasks_completed: completed,
        workload_remaining_minutes: workload,
        capacity_available_minutes: capacity,
        shortfall_minutes: shortfall,
        days_remaining,
        health,
        estimate_coverage_num: cov_num,
        estimate_coverage_den: cov_den,
        unestimated_task_count: unestimated,
        confidence,
        reason,
    }
}


#[derive(Debug, Clone)]
pub struct UpcomingItem {
    pub date: String,
    pub label: String,
    pub kind: UpcomingKind,
    pub days_away: i64,
}

#[derive(Debug, Clone)]
pub struct Analysis {
    pub generated_for: String,
    pub goals: Vec<GoalAnalysis>,
    pub today_task_count: usize,
    pub today_planned_minutes: i64,
    pub today_capacity_minutes: i64,
    pub overdue_task_count: usize,
    pub upcoming: Vec<UpcomingItem>,
    pub capacity_next_7_days_minutes: i64,
}

/// A deadline within the next 30 days, as the engine lists it.
pub struct UpcomingEntry {
    pub date: Seq<char>,
    pub label: Seq<char>,
    pub kind: UpcomingKind,
    pub days_away: int,
}

pub open spec fn item_is(r: UpcomingItem, e: UpcomingEntry) -> bool {
    r.date@ == e.date && r.label@ == e.label && r.kind == e.kind && r.days_away == e.days_away
}

pub open spec fn items_are(rs: Seq<UpcomingItem>, es: Seq<UpcomingEntry>) -> bool {
    rs.len() == es.len() && forall|i: int| 0 <= i < rs.len() ==> item_is(#[trigger] rs[i], es[i])
}

pub open spec fn within_month(today: Seq<char>, date: Seq<char>) -> bool {
    0 <= days_between_spec(today, date) <= 30
}

pub open spec fn task_entries(ts: Seq<Task>, today: Seq<char>) -> Seq<UpcomingEntry>
    decreases ts.len(),
{
    if ts.len() == 0 {
        Seq::empty()
    } else {
        let rest = task_entries(ts.drop_last(), today);
        let t = ts.last();
        match t.due_date {
            Some(d) => if t.deleted_at is None && !is_finished(t.status) && within_month(today, d@) {
                rest.push(UpcomingEntry { date: d@, label: t.title@, kind: UpcomingKind::TaskDue, days_away: days_between_spec(today, d@) })
            } else {
                rest
            },
            None => rest,
        }
    }
}

pub open spec fn milestone_entries(ms: Seq<Milestone>, today: Seq<char>) -> Seq<UpcomingEntry>
    decreases ms.len(),
{
    if ms.len() == 0 {
        Seq::empty()
    } else {
        let rest = milestone_entries(ms.drop_last(), today);
        let m = ms.last();
        match m.target_date {
            Some(d) => if m.deleted_at is None && m.status != Status::Completed && within_month(today, d@) {
                rest.push(UpcomingEntry { date: d@, label: m.title@, kind: UpcomingKind::MilestoneTarget, days_away: days_between_spec(today, d@) })
            } else {
                rest
            },
            None => rest,
        }
    }
}

pub open spec fn goal_entries(gs: Seq<Goal>, today: Seq<char>) -> Seq<UpcomingEntry>
    decreases gs.len(),
{
    if gs.len() == 0 {
        Seq::empty()
    } else {
        let rest = goal_entries(gs.drop_last(), today);
        let g = gs.last();
        match g.target_date {
            Some(d) => if g.deleted_at is None && g.status != Status::Completed && within_month(today, d@) {
                rest.push(UpcomingEntry { date: d@, label: g.title@, kind: UpcomingKind::GoalTarget, days_away: days_between_spec(today, d@) })
            } else {
                rest
            },
            None => rest,
        }
    }
}

/// Inserts `x` after every entry dated no later than it (a stable insertion).
pub open spec fn insert_entry(s: Seq<UpcomingEntry>, x: UpcomingEntry) -> Seq<UpcomingEntry>
    decreases s.len(),
{
    if s.len() == 0 || !seq_lt(x.date, s.last().date) {
        s.push(x)
    } else {
        insert_entry(s.drop_last(), x).push(s.last())
    }
}

/// Entries ordered by date, equal dates keeping their order (a stable sort).
pub open spec fn sort_entries(s: Seq<UpcomingEntry>) -> Seq<UpcomingEntry>
    decreases s.len(),
{
    if s.len() == 0 {
        s
    } else {
        insert_entry(sort_entries(s.drop_last()), s.last())
    }
}

pub open spec fn upcoming_spec(snap: PlanningSnapshot) -> Seq<UpcomingEntry> {
    let today = snap.today@;
    let all = task_entries(snap.tasks@, today) + milestone_entries(snap.milestones@, today) + goal_entries(snap.goals@, today);
    let sorted = sort_entries(all);
    if sorted.len() > 8 { sorted.take(8) } else { sorted }
}

/// Goals the engine analyses: not deleted and not cancelled.
pub open spec fn kept_goals(gs: Seq<Goal>) -> Seq<Goal>
    decreases gs.len(),
{
    if gs.len() == 0 {
        Seq::empty()
    } else {
        let rest = kept_goals(gs.drop_last());
        let g = gs.last();
        if g.deleted_at is None && g.status != Status::Cancelled { rest.push(g) } else { rest }
    }
}

/// Open tasks scheduled for `today`: how many, and their estimated minutes.
pub open spec fn today_work(ts: Seq<Task>, today: Seq<char>) -> (nat, int)
    decreases ts.len(),
{
    if ts.len() == 0 {
        (0, 0)
    } else {
        let (n, m) = today_work(ts.drop_last(), today);
        let t = ts.last();
        if t.deleted_at is None && (t.scheduled_date matches Some(d) && d@ == today) && !is_finished(t.status) {
            (n + 1, m + est(t))
        } else {
            (n, m)
        }
    }
}

/// Open tasks whose due date is before `today`.
pub open spec fn overdue_count(ts: Seq<Task>, today: Seq<char>) -> nat
    decreases ts.len(),
{
    if ts.len() == 0 {
        0
    } else {
        let n = overdue_count(ts.drop_last(), today);
        let t = ts.last();
        if t.deleted_at is None && !is_finished(t.status) && (t.due_date matches Some(d) && seq_lt(d@, today)) {
            n + 1
        } else {
            n
        }
    }
}

/// Minutes of the first capacity entry dated `today`, or 0.
pub open spec fn capacity_on(cs: Seq<DateCapacity>, today: Seq<char>) -> int
    decreases cs.len(),
{
    if cs.len() == 0 {
        0
    } else if cs[0].date@ == today {
        cs[0].minutes as int
    } else {
        capacity_on(cs.drop_first(), today)
    }
}

/// Minutes of the first `k` capacity entries dated today or later.
pub open spec fn capacity_ahead(cs: Seq<DateCapacity>, today: Seq<char>, k: nat) -> int
    decreases cs.len(),
{
    if cs.len() == 0 || k == 0 {
        0
    } else if !seq_lt(cs[0].date@, today) {
        cs[0].minutes as int + capacity_ahead(cs.drop_first(), today, (k - 1) as nat)
    } else {
        capacity_ahead(cs.drop_first(), today, k)
    }
}

pub open spec fn analysis_ok(r: Analysis, snap: PlanningSnapshot) -> bool {
    let kept = kept_goals(snap.goals@);
    let (n_today, m_today) = today_work(snap.tasks@, snap.today@);
    &&& r.generated_for@ == snap.today@
    &&& r.goals@.len() == kept.len()
    &&& forall|i: int| 0 <= i < kept.len() ==> goal_analysis_ok(#[trigger] r.goals@[i], kept[i], snap)
    &&& r.today_task_count == n_today
    &&& r.today_planned_minutes == m_today
    &&& r.today_capacity_minutes == capacity_on(snap.capacity_by_date@, snap.today@)
    &&& r.overdue_task_count == overdue_count(snap.tasks@, snap.today@)
    &&& items_are(r.upcoming@, upcoming_spec(snap))
    &&& r.capacity_next_7_days_minutes == capacity_ahead(snap.capacity_by_date@, snap.today@, 7)
}

// ---------- laws of the analysis ----------

proof fn lemma_open_split(ts: Seq<Task>, gid: Seq<char>)
    ensures
        goal_stats(ts, gid).open_estimated + goal_stats(ts, gid).unestimated == goal_stats(ts, gid).outstanding,
    decreases ts.len(),
{
    if ts.len() > 0 {
        lemma_open_split(ts.drop_last(), gid);
    }
}

/// Confidence follows the estimate coverage through fixed thresholds: high
/// when at least 9/10 of the goal's outstanding tasks carry an estimate,
/// medium from 3/5 up to that, low below 3/5. Coverage is a fraction in
/// 0..=1 whose shortfall is exactly the unestimated outstanding tasks.
pub proof fn lemma_confidence_thresholds(r: GoalAnalysis, g: Goal, s: PlanningSnapshot)
    requires
        goal_analysis_ok(r, g, s),
    ensures
        0 <= r.estimate_coverage_num <= r.estimate_coverage_den,
        r.estimate_coverage_den > 0,
        r.estimate_coverage_den - r.estimate_coverage_num == r.unestimated_task_count,
        (r.confidence == Confidence::High) <==> r.estimate_coverage_num * 10 >= 9 * r.estimate_coverage_den,
        (r.confidence == Confidence::Medium) <==> (r.estimate_coverage_num * 10 < 9 * r.estimate_coverage_den
            && r.estimate_coverage_num * 5 >= 3 * r.estimate_coverage_den),
        (r.confidence == Confidence::Low) <==> r.estimate_coverage_num * 5 < 3 * r.estimate_coverage_den,
{
    lemma_open_split(s.tasks@, g.id.0@);
}

/// An open task of the planner's today: live, scheduled for `today`, and
/// neither completed nor cancelled.
pub open spec fn open_today(today: Seq<char>) -> spec_fn(Task) -> bool {
    |t: Task| t.deleted_at is None && (t.scheduled_date matches Some(d) && d@ == today)
        && t.status != Status::Completed && t.status != Status::Cancelled
}

/// The sum of the estimates of `ts`, an unestimated task counting 0.
pub open spec fn estimate_sum(ts: Seq<Task>) -> int {
    ts.fold_left(0int, |acc: int, t: Task| acc + match t.estimated_minutes {
        Some(m) => m as int,
        None => 0int,
    })
}

proof fn lemma_today_work_filter(ts: Seq<Task>, today: Seq<char>)
    ensures
        today_work(ts, today).0 == ts.filter(open_today(today)).len(),
        today_work(ts, today).1 == estimate_sum(ts.filter(open_today(today))),
    decreases ts.len(),
{
    reveal(Seq::filter);
    if ts.len() > 0 {
        lemma_today_work_filter(ts.drop_last(), today);
        let f = ts.filter(open_today(today));
        let g = ts.drop_last().filter(open_today(today));
        if open_today(today)(ts.last()) {
            assert(f.drop_last() =~= g);
        } else {
            assert(f =~= g);
        }
    }
}

/// Today's figures are those of the open tasks scheduled for today: their
/// number, and the sum of their estimates.
pub proof fn lemma_today_count(r: Analysis, s: PlanningSnapshot)
    requires
        analysis_ok(r, s),
    ensures
        r.today_task_count == s.tasks@.filter(open_today(s.today@)).len(),
        r.today_planned_minutes == estimate_sum(s.tasks@.filter(open_today(s.today@))),
{
    lemma_today_work_filter(s.tasks@, s.today@);
}

/// A completed or cancelled task adds nothing to today's work: analysing a
/// snapshot with one more such task gives the same count and minutes.
pub proof fn lemma_finished_task_adds_no_work(r1: Analysis, s1: PlanningSnapshot, r2: Analysis, s2: PlanningSnapshot, t: Task)
    requires
        analysis_ok(r1, s1),
        analysis_ok(r2, s2),
        s2.today@ == s1.today@,
        s2.tasks@ == s1.tasks@.push(t),
        t.status == Status::Completed || t.status == Status::Cancelled,
    ensures
        r2.today_task_count == r1.today_task_count,
        r2.today_planned_minutes == r1.today_planned_minutes,
{
    assert(s2.tasks@.drop_last() =~= s1.tasks@);
}

/// An entry `days_away` days from `today`, within the coming month.
pub open spec fn entry_dated(e: UpcomingEntry, today: Seq<char>) -> bool {
    &&& e.days_away == days_between_spec(today, e.date)
    &&& 0 <= e.days_away <= 30
}

pub open spec fn all_dated(es: Seq<UpcomingEntry>, today: Seq<char>) -> bool {
    forall|i: int| 0 <= i < es.len() ==> entry_dated(#[trigger] es[i], today)
}

proof fn lemma_task_entries_dated(ts: Seq<Task>, today: Seq<char>)
    ensures
        all_dated(task_entries(ts, today), today),
    decreases ts.len(),
{
    if ts.len() > 0 {
        lemma_task_entries_dated(ts.drop_last(), today);
    }
}

proof fn lemma_milestone_entries_dated(ms: Seq<Milestone>, today: Seq<char>)
    ensures
        all_dated(milestone_entries(ms, today), today),
    decreases ms.len(),
{
    if ms.len() > 0 {
        lemma_milestone_entries_dated(ms.drop_last(), today);
    }
}

proof fn lemma_goal_entries_dated(gs: Seq<Goal>, today: Seq<char>)
    ensures
        all_dated(goal_entries(gs, today), today),
    decreases gs.len(),
{
    if gs.len() > 0 {
        lemma_goal_entries_dated(gs.drop_last(), today);
    }
}

proof fn lemma_insert_dated(es: Seq<UpcomingEntry>, x: UpcomingEntry, today: Seq<char>)
    requires
        all_dated(es, today),
        entry_dated(x, today),
    ensures
        all_dated(insert_entry(es, x), today),
    decreases es.len(),
{
    if es.len() > 0 && seq_lt(x.date, es.last().date) {
        assert(all_dated(es.drop_last(), today)) by {
            assert forall|i: int| 0 <= i < es.drop_last().len() implies entry_dated(#[trigger] es.drop_last()[i], today) by {
                assert(es.drop_last()[i] == es[i]);
            }
        }
        lemma_insert_dated(es.drop_last(), x, today);
        assert(entry_dated(es[es.len() - 1], today));
    }
}

proof fn lemma_sort_dated(es: Seq<UpcomingEntry>, today: Seq<char>)
    requires
        all_dated(es, today),
    ensures
        all_dated(sort_entries(es), today),
    decreases es.len(),
{
    if es.len() > 0 {
        assert(all_dated(es.drop_last(), today)) by {
            assert forall|i: int| 0 <= i < es.drop_last().len() implies entry_dated(#[trigger] es.drop_last()[i], today) by {
                assert(es.drop_last()[i] == es[i]);
            }
        }
        lemma_sort_dated(es.drop_last(), today);
        assert(entry_dated(es[es.len() - 1], today));
        lemma_insert_dated(sort_entries(es.drop_last()), es.last(), today);
    }
}

/// Every upcoming deadline lies within the coming month, and its
/// `days_away` is the number of days from today to its date: 0 to 30. At
/// most eight are listed.
pub proof fn lemma_upcoming_days_away(r: Analysis, s: PlanningSnapshot)
    requires
        analysis_ok(r, s),
    ensures
        r.upcoming@.len() <= 8,
        forall|i: int| 0 <= i < r.upcoming@.len() ==> (#[trigger] r.upcoming@[i]).days_away
            == days_between_spec(s.today@, r.upcoming@[i].date@) && 0 <= r.upcoming@[i].days_away <= 30,
{
    let today = s.today@;
    let a = task_entries(s.tasks@, today);
    let b = milestone_entries(s.milestones@, today);
    let c = goal_entries(s.goals@, today);
    lemma_task_entries_dated(s.tasks@, today);
    lemma_milestone_entries_dated(s.milestones@, today);
    lemma_goal_entries_dated(s.goals@, today);
    let all = a + b + c;
    assert forall|i: int| 0 <= i < all.len() implies entry_dated(#[trigger] all[i], today) by {
        if i < a.len() {
            assert(all[i] == a[i]);
        } else if i < a.len() + b.len() {
            assert(all[i] == b[i - a.len()]);
        } else {
            assert(all[i] == c[i - a.len() - b.len()]);
        }
    }
    lemma_sort_dated(all, today);
    let sorted = sort_entries(all);
    let u = upcoming_spec(s);
    assert forall|i: int| 0 <= i < u.len() implies entry_dated(#[trigger] u[i], today) by {
        assert(u[i] == sorted[i]);
    }
    assert forall|i: int| 0 <= i < r.upcoming@.len() implies (#[trigger] r.upcoming@[i]).days_away
        == days_between_spec(today, r.upcoming@[i].date@) && 0 <= r.upcoming@[i].days_away <= 30 by {
        assert(item_is(r.upcoming@[i], u[i]));
        assert(entry_dated(u[i], today));
    }
}

fn copy_item(x: &UpcomingItem) -> (r: UpcomingItem)
    ensures
        r.date@ == x.date@ && r.label@ == x.label@ && r.kind == x.kind && r.days_away == x.days_away,
{
    UpcomingItem { date: x.date.clone(), label: x.label.clone(), kind: x.kind, days_away: x.days_away }
}

proof fn lemma_insert_entry_at(s: Seq<UpcomingEntry>, x: UpcomingEntry, k: int)
    requires
        0 <= k <= s.len(),
        forall|j: int| k <= j < s.len() ==> seq_lt(x.date, (#[trigger] s[j]).date),
        k == 0 || !seq_lt(x.date, s[k - 1].date),
    ensures
        insert_entry(s, x) == s.insert(k, x),
    decreases s.len(),
{
    if s.len() == 0 || !seq_lt(x.date, s.last().date) {
        assert(k == s.len());
        assert(s.push(x) =~= s.insert(k, x));
    } else {
        assert(k < s.len());
        assert forall|j: int| k <= j < s.drop_last().len() implies seq_lt(x.date, (#[trigger] s.drop_last()[j]).date) by {
            assert(s.drop_last()[j] == s[j]);
        }
        if k > 0 {
            assert(s.drop_last()[k - 1] == s[k - 1]);
        }
        lemma_insert_entry_at(s.drop_last(), x, k);
        assert(s.drop_last().insert(k, x).push(s.last()) =~= s.insert(k, x));
    }
}

/// Stable insertion sort of the items by date.
fn sort_items(items: &Vec<UpcomingItem>, Ghost(es): Ghost<Seq<UpcomingEntry>>) -> (out: Vec<UpcomingItem>)
    requires
        items_are(items@, es),
    ensures
        items_are(out@, sort_entries(es)),
{
    let mut out: Vec<UpcomingItem> = Vec::new();
    let mut i: usize = 0;
    assert(es.take(0) =~= Seq::<UpcomingEntry>::empty());
    while i < items.len()
        invariant
            i <= items@.len(),
            items_are(items@, es),
            items_are(out@, sort_entries(es.take(i as int))),
        decreases items@.len() - i,
    {
        let ghost sorted = sort_entries(es.take(i as int));
        let ghost x = es[i as int];
        let item = copy_item(&items[i]);
        assert(item_is(items@[i as int], es[i as int]));
        let mut k: usize = out.len();
        while k > 0 && str_lt(item.date.as_str(), out[k - 1].date.as_str())
            invariant
                k <= out@.len(),
                items_are(out@, sorted),
                item.date@ == x.date,
                forall|j: int| k <= j < sorted.len() ==> seq_lt(x.date, (#[trigger] sorted[j]).date),
            decreases k,
        {
            assert(item_is(out@[k - 1], sorted[k - 1]));
            k = k - 1;
        }
        proof {
            if k > 0 {
                assert(item_is(out@[k - 1], sorted[k - 1]));
            }
            lemma_insert_entry_at(sorted, x, k as int);
            assert(es.take(i + 1).drop_last() =~= es.take(i as int));
            assert(es.take(i + 1).last() == x);
        }
        let ghost before = out@;
        out.insert(k, item);
        proof {
            let target = sorted.insert(k as int, x);
            assert(target == sort_entries(es.take(i + 1)));
            assert forall|j: int| 0 <= j < out@.len() implies item_is(#[trigger] out@[j], target[j]) by {
                if j < k {
                    assert(out@[j] == before[j]);
                    assert(item_is(before[j], sorted[j]));
                } else if j > k {
                    assert(out@[j] == before[j - 1]);
                    assert(item_is(before[j - 1], sorted[j - 1]));
                }
            }
        }
        i = i + 1;
    }
    assert(es.take(items@.len() as int) =~= es);
    out
}


fn push_task_entries(out: &mut Vec<UpcomingItem>, ts: &Vec<Task>, today: &str, Ghost(es): Ghost<Seq<UpcomingEntry>>)
    requires
        items_are(old(out)@, es),
    ensures
        items_are(final(out)@, es + task_entries(ts@, today@)),
{
    let mut i: usize = 0;
    assert(ts@.take(0) =~= Seq::<Task>::empty());
    assert(es + task_entries(ts@.take(0), today@) =~= es);
    while i < ts.len()
        invariant
            i <= ts@.len(),
            items_are(out@, es + task_entries(ts@.take(i as int), today@)),
        decreases ts@.len() - i,
    {
        let t = &ts[i];
        assert(ts@.take(i + 1).drop_last() =~= ts@.take(i as int));
        let ghost prev = es + task_entries(ts@.take(i as int), today@);
        if t.deleted_at.is_none() && !(t.status == Status::Completed || t.status == Status::Cancelled) {
            if let Some(due) = &t.due_date {
                let days = days_between(today, due.as_str());
                if 0 <= days && days <= 30 {
                    let ghost e = UpcomingEntry { date: due@, label: t.title@, kind: UpcomingKind::TaskDue, days_away: days as int };
                    out.push(UpcomingItem { date: due.clone(), label: t.title.clone(), kind: UpcomingKind::TaskDue, days_away: days });
                    assert(prev.push(e) =~= es + task_entries(ts@.take(i + 1), today@));
                    assert(item_is(out@[out@.len() - 1], e));
                    assert forall|j: int| 0 <= j < out@.len() implies item_is(#[trigger] out@[j], prev.push(e)[j]) by {
                        if j < out@.len() - 1 {
                            assert(item_is(out@[j], prev[j]));
                        }
                    }
                }
            }
        }
        assert(items_are(out@, es + task_entries(ts@.take(i + 1), today@)));
        i = i + 1;
    }
    assert(ts@.take(ts@.len() as int) =~= ts@);
}

fn push_milestone_entries(out: &mut Vec<UpcomingItem>, ms: &Vec<Milestone>, today: &str, Ghost(es): Ghost<Seq<UpcomingEntry>>)
    requires
        items_are(old(out)@, es),
    ensures
        items_are(final(out)@, es + milestone_entries(ms@, today@)),
{
    let mut i: usize = 0;
    assert(ms@.take(0) =~= Seq::<Milestone>::empty());
    assert(es + milestone_entries(ms@.take(0), today@) =~= es);
    while i < ms.len()
        invariant
            i <= ms@.len(),
            items_are(out@, es + milestone_entries(ms@.take(i as int), today@)),
        decreases ms@.len() - i,
    {
        let m = &ms[i];
        assert(ms@.take(i + 1).drop_last() =~= ms@.take(i as int));
        let ghost prev = es + milestone_entries(ms@.take(i as int), today@);
        if m.deleted_at.is_none() && m.status != Status::Completed {
            if let Some(target) = &m.target_date {
                let days = days_between(today, target.as_str());
                if 0 <= days && days <= 30 {
                    let ghost e = UpcomingEntry { date: target@, label: m.title@, kind: UpcomingKind::MilestoneTarget, days_away: days as int };
                    out.push(UpcomingItem { date: target.clone(), label: m.title.clone(), kind: UpcomingKind::MilestoneTarget, days_away: days });
                    assert(prev.push(e) =~= es + milestone_entries(ms@.take(i + 1), today@));
                    assert(item_is(out@[out@.len() - 1], e));
                    assert forall|j: int| 0 <= j < out@.len() implies item_is(#[trigger] out@[j], prev.push(e)[j]) by {
                        if j < out@.len() - 1 {
                            assert(item_is(out@[j], prev[j]));
                        }
                    }
                }
            }
        }
        assert(items_are(out@, es + milestone_entries(ms@.take(i + 1), today@)));
        i = i + 1;
    }
    assert(ms@.take(ms@.len() as int) =~= ms@);
}

fn push_goal_entries(out: &mut Vec<UpcomingItem>, gs: &Vec<Goal>, today: &str, Ghost(es): Ghost<Seq<UpcomingEntry>>)
    requires
        items_are(old(out)@, es),
    ensures
        items_are(final(out)@, es + goal_entries(gs@, today@)),
{
    let mut i: usize = 0;
    assert(gs@.take(0) =~= Seq::<Goal>::empty());
    assert(es + goal_entries(gs@.take(0), today@) =~= es);
    while i < gs.len()
        invariant
            i <= gs@.len(),
            items_are(out@, es + goal_entries(gs@.take(i as int), today@)),
        decreases gs@.len() - i,
    {
        let g = &gs[i];
        assert(gs@.take(i + 1).drop_last() =~= gs@.take(i as int));
        let ghost prev = es + goal_entries(gs@.take(i as int), today@);
        if g.deleted_at.is_none() && g.status != Status::Completed {
            if let Some(target) = &g.target_date {
                let days = days_between(today, target.as_str());
                if 0 <= days && days <= 30 {
                    let ghost e = UpcomingEntry { date: target@, label: g.title@, kind: UpcomingKind::GoalTarget, days_away: days as int };
                    out.push(UpcomingItem { date: target.clone(), label: g.title.clone(), kind: UpcomingKind::GoalTarget, days_away: days });
                    assert(prev.push(e) =~= es + goal_entries(gs@.take(i + 1), today@));
                    assert(item_is(out@[out@.len() - 1], e));
                    assert forall|j: int| 0 <= j < out@.len() implies item_is(#[trigger] out@[j], prev.push(e)[j]) by {
                        if j < out@.len() - 1 {
                            assert(item_is(out@[j], prev[j]));
                        }
                    }
                }
            }
        }
        assert(items_are(out@, es + goal_entries(gs@.take(i + 1), today@)));
        i = i + 1;
    }
    assert(gs@.take(gs@.len() as int) =~= gs@);
}

/// The deadlines of the next 30 days, earliest first, at most 8.
fn upcoming_items(snapshot: &PlanningSnapshot) -> (r: Vec<UpcomingItem>)
    ensures
        items_are(r@, upcoming_spec(*snapshot)),
{
    let today = snapshot.today.as_str();
    let mut items: Vec<UpcomingItem> = Vec::new();
    let ghost e0 = Seq::<UpcomingEntry>::empty();
    push_task_entries(&mut items, &snapshot.tasks, today, Ghost(e0));
    let ghost e1 = e0 + task_entries(snapshot.tasks@, today@);
    push_milestone_entries(&mut items, &snapshot.milestones, today, Ghost(e1));
    let ghost e2 = e1 + milestone_entries(snapshot.milestones@, today@);
    push_goal_entries(&mut items, &snapshot.goals, today, Ghost(e2));
    let ghost e3 = e2 + goal_entries(snapshot.goals@, today@);
    assert(e3 =~= task_entries(snapshot.tasks@, today@) + milestone_entries(snapshot.milestones@, today@) + goal_entries(snapshot.goals@, today@));
    let mut sorted = sort_items(&items, Ghost(e3));
    let ghost full = sorted@;
    sorted.truncate(8);
    proof {
        let target = upcoming_spec(*snapshot);
        assert forall|j: int| 0 <= j < sorted@.len() implies item_is(#[trigger] sorted@[j], target[j]) by {
            assert(sorted@[j] == full[j]);
            assert(item_is(full[j], sort_entries(e3)[j]));
        }
    }
    sorted
}

fn today_work_exec(ts: &Vec<Task>, today: &str) -> (r: (usize, i64))
    requires
        ts@.len() <= 1_000_000,
        forall|i: int| 0 <= i < ts@.len() ==> est_bounded(#[trigger] ts@[i]),
    ensures
        r.0 == today_work(ts@, today@).0,
        r.1 == today_work(ts@, today@).1,
{
    let mut n: usize = 0;
    let mut m: i64 = 0;
    let mut i: usize = 0;
    while i < ts.len()
        invariant
            i <= ts@.len() <= 1_000_000,
            forall|i: int| 0 <= i < ts@.len() ==> est_bounded(#[trigger] ts@[i]),
            n == today_work(ts@.take(i as int), today@).0,
            m == today_work(ts@.take(i as int), today@).1,
            n <= i,
            -1_000_000_000 * i <= m <= 1_000_000_000 * i,
        decreases ts@.len() - i,
    {
        let t = &ts[i];
        assert(ts@.take(i + 1).drop_last() =~= ts@.take(i as int));
        assert(est_bounded(ts@[i as int]));
        let sched = match &t.scheduled_date {
            Some(d) => str_eq(d.as_str(), today),
            None => false,
        };
        if t.deleted_at.is_none() && sched && !(t.status == Status::Completed || t.status == Status::Cancelled) {
            n = n + 1;
            match t.estimated_minutes {
                Some(e) => { m = m + e; },
                None => {},
            }
        }
        i = i + 1;
    }
    assert(ts@.take(ts@.len() as int) =~= ts@);
    (n, m)
}

fn overdue_exec(ts: &Vec<Task>, today: &str) -> (r: usize)
    requires
        ts@.len() <= 1_000_000,
    ensures
        r == overdue_count(ts@, today@),
{
    let mut n: usize = 0;
    let mut i: usize = 0;
    while i < ts.len()
        invariant
            i <= ts@.len() <= 1_000_000,
            n == overdue_count(ts@.take(i as int), today@),
            n <= i,
        decreases ts@.len() - i,
    {
        let t = &ts[i];
        assert(ts@.take(i + 1).drop_last() =~= ts@.take(i as int));
        let late = match &t.due_date {
            Some(d) => str_lt(d.as_str(), today),
            None => false,
        };
        if t.deleted_at.is_none() && !(t.status == Status::Completed || t.status == Status::Cancelled) && late {
            n = n + 1;
        }
        i = i + 1;
    }
    assert(ts@.take(ts@.len() as int) =~= ts@);
    n
}

fn capacity_on_exec(cs: &Vec<DateCapacity>, today: &str) -> (r: i64)
    ensures
        r == capacity_on(cs@, today@),
{
    let mut i: usize = 0;
    assert(cs@.skip(0) =~= cs@);
    while i < cs.len()
        invariant
            i <= cs@.len(),
            capacity_on(cs@, today@) == capacity_on(cs@.skip(i as int), today@),
        decreases cs@.len() - i,
    {
        assert(cs@.skip(i as int)[0] == cs@[i as int]);
        if str_eq(cs[i].date.as_str(), today) {
            return cs[i].minutes;
        }
        assert(cs@.skip(i as int).drop_first() =~= cs@.skip(i + 1));
        i = i + 1;
    }
    0
}

proof fn lemma_capacity_ahead_bound(cs: Seq<DateCapacity>, today: Seq<char>, k: nat)
    requires
        forall|i: int| 0 <= i < cs.len() ==> -1_000_000_000 <= (#[trigger] cs[i]).minutes <= 1_000_000_000,
    ensures
        -1_000_000_000 * k <= capacity_ahead(cs, today, k) <= 1_000_000_000 * k,
    decreases cs.len(),
{
    if cs.len() > 0 && k > 0 {
        assert forall|i: int| 0 <= i < cs.drop_first().len() implies -1_000_000_000 <= (#[trigger] cs.drop_first()[i]).minutes <= 1_000_000_000 by {
            assert(cs.drop_first()[i] == cs[i + 1]);
        }
        assert(-1_000_000_000 <= cs[0].minutes <= 1_000_000_000);
        if !seq_lt(cs[0].date@, today) {
            lemma_capacity_ahead_bound(cs.drop_first(), today, (k - 1) as nat);
        } else {
            lemma_capacity_ahead_bound(cs.drop_first(), today, k);
        }
    }
}

fn capacity_ahead_exec(cs: &Vec<DateCapacity>, today: &str, k: usize) -> (r: i64)
    requires
        k <= 1000,
        forall|i: int| 0 <= i < cs@.len() ==> -1_000_000_000 <= (#[trigger] cs@[i]).minutes <= 1_000_000_000,
    ensures
        r == capacity_ahead(cs@, today@, k as nat),
{
    let mut i: usize = 0;
    let mut left: usize = k;
    let mut acc: i64 = 0;
    assert(cs@.skip(0) =~= cs@);
    while i < cs.len() && left > 0
        invariant
            i <= cs@.len(),
            left <= k <= 1000,
            forall|i: int| 0 <= i < cs@.len() ==> -1_000_000_000 <= (#[trigger] cs@[i]).minutes <= 1_000_000_000,
            capacity_ahead(cs@, today@, k as nat) == acc + capacity_ahead(cs@.skip(i as int), today@, left as nat),
            -1_000_000_000 * (k - left) <= acc <= 1_000_000_000 * (k - left),
        decreases cs@.len() - i,
    {
        assert(cs@.skip(i as int)[0] == cs@[i as int]);
        assert(cs@.skip(i as int).drop_first() =~= cs@.skip(i + 1));
        if !str_lt(cs[i].date.as_str(), today) {
            acc = acc + cs[i].minutes;
            left = left - 1;
        }
        i = i + 1;
    }
    acc
}

/// The analysis of a snapshot: every live, not cancelled goal, today's
/// workload and capacity, overdue tasks, and the next deadlines.
pub fn analyze(snapshot: &PlanningSnapshot) -> (r: Analysis)
    requires
        snapshot_bounded(*snapshot),
    ensures
        analysis_ok(r, *snapshot),
{
    let mut goals: Vec<GoalAnalysis> = Vec::new();
    let mut i: usize = 0;
    assert(snapshot.goals@.take(0) =~= Seq::<Goal>::empty());
    while i < snapshot.goals.len()
        invariant
            i <= snapshot.goals@.len(),
            snapshot_bounded(*snapshot),
            goals@.len() == kept_goals(snapshot.goals@.take(i as int)).len(),
            forall|j: int| 0 <= j < goals@.len() ==> goal_analysis_ok(#[trigger] goals@[j], kept_goals(snapshot.goals@.take(i as int))[j], *snapshot),
        decreases snapshot.goals@.len() - i,
    {
        let g = &snapshot.goals[i];
        assert(snapshot.goals@.take(i + 1).drop_last() =~= snapshot.goals@.take(i as int));
        let ghost prev = kept_goals(snapshot.goals@.take(i as int));
        if g.deleted_at.is_none() && g.status != Status::Cancelled {
            let a = analyze_goal(g, snapshot);
            goals.push(a);
            assert forall|j: int| 0 <= j < goals@.len() implies goal_analysis_ok(#[trigger] goals@[j], kept_goals(snapshot.goals@.take(i + 1))[j], *snapshot) by {
                assert(kept_goals(snapshot.goals@.take(i + 1)) == prev.push(*g));
                if j < goals@.len() - 1 {
                    assert(goal_analysis_ok(goals@[j], prev[j], *snapshot));
                }
            }
        }
        i = i + 1;
    }
    assert(snapshot.goals@.take(snapshot.goals@.len() as int) =~= snapshot.goals@);
    let today = snapshot.today.as_str();
    let (today_task_count, today_planned_minutes) = today_work_exec(&snapshot.tasks, today);
    let today_capacity_minutes = capacity_on_exec(&snapshot.capacity_by_date, today);
    let overdue_task_count = overdue_exec(&snapshot.tasks, today);
    let upcoming = upcoming_items(snapshot);
    let capacity_next_7_days_minutes = capacity_ahead_exec(&snapshot.capacity_by_date, today, 7);
    Analysis {
        generated_for: snapshot.today.clone(),
        goals,
        today_task_count,
        today_planned_minutes,
        today_capacity_minutes,
        overdue_task_count,
        upcoming,
        capacity_next_7_days_minutes,
    }
}

/// Whether a snapshot is within the bounds `analyze` needs: at most a
/// million records of each kind, estimates and daily capacities within a
/// billion minutes, so that no sum overflows.
pub fn snapshot_in_bounds(s: &PlanningSnapshot) -> (r: bool)
    ensures
        r == snapshot_bounded(*s),
{
    if s.tasks.len() > 1_000_000 || s.capacity_by_date.len() > 1_000_000 || s.goals.len() > 1_000_000
        || s.milestones.len() > 1_000_000 {
        return false;
    }
    let mut i: usize = 0;
    while i < s.tasks.len()
        invariant
            i <= s.tasks@.len(),
            forall|k: int| 0 <= k < i ==> est_bounded(#[trigger] s.tasks@[k]),
        decreases s.tasks.len() - i,
    {
        match s.tasks[i].estimated_minutes {
            Some(m) => {
                if m < -1_000_000_000 || m > 1_000_000_000 {
                    return false;
                }
            },
            None => {},
        }
        i = i + 1;
    }
    let mut j: usize = 0;
    while j < s.capacity_by_date.len()
        invariant
            j <= s.capacity_by_date@.len(),
            forall|k: int| 0 <= k < j ==> -1_000_000_000 <= (#[trigger] s.capacity_by_date@[k]).minutes
                <= 1_000_000_000,
        decreases s.capacity_by_date.len() - j,
    {
        let m = s.capacity_by_date[j].minutes;
        if m < -1_000_000_000 || m > 1_000_000_000 {
            return false;
        }
        j = j + 1;
    }
    true
}

} // verus!
