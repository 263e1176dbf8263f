//! Reminders for scheduled tasks, and the local-to-UTC time arithmetic
//! they need.
use vstd::prelude::*;
use vstd::string::StringExecFns;
use crate::dates::{
    date_slices_ok, lenient_ymd, days_from_civil, civil_from_days, date_text, lenient_ymd_exec,
    days_from_civil_exec, civil_from_days_exec, format_date, lemma_month_field,
    lemma_days_from_civil_range, date_day,
};
use crate::domain::{GoalId, NewReminder, Reminder, Task, TaskId};
use crate::num::{padded_text, push_padded, push_int, int_text, in_i64};
use crate::text::{push_char, str_eq};

verus! {

/// Minutes before a scheduled task's start that a reminder fires.
pub const LEAD_MINUTES: i64 = 15;

/// Minutes since 1970-01-01T00:00Z of minute `local` of `date` in a zone
/// `offset` minutes ahead of UTC.
pub open spec fn utc_minute(date: Seq<char>, local: int, offset: int) -> int {
    date_day(date) * 1440 + local - offset
}

/// The computation of that instant stays within i64.
pub open spec fn utc_fits(date: Seq<char>, local: int, offset: int) -> bool {
    in_i64(date_day(date) * 1440 + local) && in_i64(utc_minute(date, local, offset))
}

/// `YYYY-MM-DDTHH:MM:00Z` of a minute count since the epoch.
pub open spec fn utc_text(total: int) -> Seq<char> {
    let days = total / 1440;
    let mins = total % 1440;
    let (uy, um, ud) = civil_from_days(days);
    date_text(uy, um, ud) + seq!['T'] + padded_text(mins / 60, 2) + seq![':'] + padded_text(
        mins % 60,
        2,
    ) + ":00Z"@
}

/// Floor division and remainder by 1440 (minutes per day).
fn day_split(total: i64) -> (r: (i64, i64))
    ensures
        r.0 == total / 1440,
        r.1 == total % 1440,
{
    if total >= 0 {
        (total / 1440, total % 1440)
    } else {
        let p = -(total + 1);
        let q = -(p / 1440) - 1;
        let rem = 1439 - p % 1440;
        assert(q * 1440 + rem == total && 0 <= rem < 1440) by (nonlinear_arith)
            requires
                p == -(total + 1),
                p >= 0,
                q == -(p / 1440) - 1,
                rem == 1439 - p % 1440,
                p == (p / 1440) * 1440 + p % 1440,
                0 <= p % 1440 < 1440,
        ;
        proof { vstd::arithmetic::div_mod::lemma_fundamental_div_mod_converse(total as int, 1440, q as int, rem as int); }
        (q, rem)
    }
}

/// A local date and minute of day as an ISO-8601 UTC instant, in a zone
/// `offset_minutes` ahead of UTC.
pub fn local_date_time_to_utc(date: &str, local_minutes: i64, offset_minutes: i64) -> (r: String)
    requires
        date_slices_ok(date@),
        utc_fits(date@, local_minutes as int, offset_minutes as int),
    ensures
        r@ == utc_text(utc_minute(date@, local_minutes as int, offset_minutes as int)),
{
    let (y, m, d) = lenient_ymd_exec(date);
    proof {
        lemma_month_field(date@);
        lemma_days_from_civil_range(y as int, m as int, d as int);
    }
    let z = days_from_civil_exec(y, m, d);
    let total = z * 1440 + local_minutes - offset_minutes;
    let (days, mins) = day_split(total);
    let (uy, um, ud) = civil_from_days_exec(days);
    let mut s = format_date(uy, um, ud);
    push_char(&mut s, 'T');
    push_padded(&mut s, mins / 60, 2);
    push_char(&mut s, ':');
    push_padded(&mut s, mins % 60, 2);
    s.append(":00Z");
    s
}

/// The body of a task's reminder.
pub open spec fn reminder_body(estimate: Option<i64>) -> Seq<char> {
    match estimate {
        Some(m) => "Scheduled for today \u{b7} "@ + int_text(m as int) + " minutes"@,
        None => "Scheduled for today"@,
    }
}

/// The reminder for a task scheduled on `date`: tasks carry no time of day
/// yet, so it fires `LEAD_MINUTES` before 09:00 local.
pub fn reminder_for_task(t: &Task, date: &str, local_offset_minutes: i64) -> (r: NewReminder)
    requires
        date_slices_ok(date@),
        utc_fits(date@, 9 * 60 - LEAD_MINUTES, local_offset_minutes as int),
    ensures
        r.task_id == Some(t.id),
        r.goal_id == t.goal_id,
        r.title == t.title,
        r.fire_at_utc@ == utc_text(utc_minute(date@, 9 * 60 - LEAD_MINUTES, local_offset_minutes as int)),
        r.body matches Some(b) && b@ == reminder_body(t.estimated_minutes),
{
    let fire_local_minutes = 9 * 60 - LEAD_MINUTES;
    let fire_utc = local_date_time_to_utc(date, fire_local_minutes, local_offset_minutes);
    let body = match t.estimated_minutes {
        Some(m) => {
            let mut b = String::from_str("Scheduled for today \u{b7} ");
            push_int(&mut b, m);
            b.append(" minutes");
            b
        },
        None => String::from_str("Scheduled for today"),
    };
    let goal_id = match &t.goal_id {
        Some(g) => Some(GoalId(g.0.clone())),
        None => None,
    };
    NewReminder {
        task_id: Some(TaskId(t.id.0.clone())),
        goal_id,
        fire_at_utc: fire_utc,
        title: t.title.clone(),
        body: Some(body),
    }
}

/// Whether converting minute `local` of `date` in a zone `offset` minutes
/// ahead of UTC stays within i64 (the conversion overflows otherwise).
pub fn utc_in_range(date: &str, local: i64, offset: i64) -> (r: bool)
    requires
        date_slices_ok(date@),
    ensures
        r == utc_fits(date@, local as int, offset as int),
{
    let (y, m, d) = lenient_ymd_exec(date);
    proof {
        lemma_month_field(date@);
        lemma_days_from_civil_range(y as int, m as int, d as int);
    }
    let z = days_from_civil_exec(y, m, d);
    let base = z * 1440;
    match base.checked_add(local) {
        Some(t) => t.checked_sub(offset).is_some(),
        None => false,
    }
}


/// Whether some reminder of `rs` is for the task with id `id` and fires at `at`.
pub open spec fn has_reminder(rs: Seq<Reminder>, id: Seq<char>, at: Seq<char>) -> bool {
    exists|i: int| 0 <= i < rs.len() && reminder_is(#[trigger] rs[i], id, at)
}

/// The reminder is for the task with id `id` and fires at `at`.
pub open spec fn reminder_is(r: Reminder, id: Seq<char>, at: Seq<char>) -> bool {
    &&& r.task_id matches Some(t) && t.0@ == id
    &&& r.fire_at_utc@ == at
}

/// The tasks of `ts` that have no reminder among `rs` firing at `at`, in order.
pub open spec fn without_reminder(ts: Seq<Task>, rs: Seq<Reminder>, at: Seq<char>) -> Seq<Task>
    decreases ts.len(),
{
    if ts.len() == 0 {
        seq![]
    } else {
        let rest = without_reminder(ts.drop_last(), rs, at);
        if has_reminder(rs, ts.last().id.0@, at) {
            rest
        } else {
            rest.push(ts.last())
        }
    }
}

fn has_reminder_exec(rs: &[Reminder], id: &str, at: &str) -> (r: bool)
    ensures
        r == has_reminder(rs@, id@, at@),
{
    let mut i: usize = 0;
    while i < rs.len()
        invariant
            i <= rs.len(),
            forall|k: int| 0 <= k < i ==> !reminder_is(#[trigger] rs@[k], id@, at@),
        decreases rs.len() - i,
    {
        let hit = match &rs[i].task_id {
            Some(t) => str_eq(t.0.as_str(), id) && str_eq(rs[i].fire_at_utc.as_str(), at),
            None => false,
        };
        if hit {
            return true;
        }
        i = i + 1;
    }
    false
}

/// The tasks scheduled on a date that do not yet have a reminder: those
/// with no reminder among `existing` firing at `fire_at`, the time that date
/// gives them. Syncing twice therefore creates nothing the second time.
pub fn tasks_needing_reminder(tasks: Vec<Task>, existing: &[Reminder], fire_at: &str) -> (r: Vec<Task>)
    ensures
        r@ == without_reminder(tasks@, existing@, fire_at@),
{
    let mut out: Vec<Task> = Vec::new();
    let mut rest = tasks;
    let ghost all = rest@;
    let n = rest.len();
    let mut i: usize = 0;
    while i < n
        invariant
            n == all.len(),
            i <= n,
            rest@ == all.skip(i as int),
            out@ == without_reminder(all.take(i as int), existing@, fire_at@),
        decreases n - i,
    {
        let t = rest.remove(0);
        assert(t == all[i as int]);
        assert(rest@ =~= all.skip(i + 1));
        assert(all.take(i + 1).drop_last() =~= all.take(i as int));
        if !has_reminder_exec(existing, t.id.0.as_str(), fire_at) {
            out.push(t);
        }
        i = i + 1;
    }
    assert(all.take(n as int) =~= all);
    out
}


proof fn lemma_without_reminder_keeps(ts: Seq<Task>, rs: Seq<Reminder>, at: Seq<char>, k: int)
    requires
        0 <= k < ts.len(),
        !has_reminder(rs, ts[k].id.0@, at),
    ensures
        exists|j: int| 0 <= j < without_reminder(ts, rs, at).len() && #[trigger] without_reminder(ts, rs, at)[j] == ts[k],
    decreases ts.len(),
{
    let w = without_reminder(ts, rs, at);
    if k == ts.len() - 1 {
        assert(w[w.len() - 1] == ts[k]);
    } else {
        lemma_without_reminder_keeps(ts.drop_last(), rs, at, k);
        assert(ts.drop_last()[k] == ts[k]);
        let rest = without_reminder(ts.drop_last(), rs, at);
        let j = choose|j: int| 0 <= j < rest.len() && #[trigger] rest[j] == ts[k];
        assert(w[j] == rest[j]);
    }
}

proof fn lemma_all_reminded(ts: Seq<Task>, rs: Seq<Reminder>, at: Seq<char>)
    requires
        forall|k: int| 0 <= k < ts.len() ==> has_reminder(rs, (#[trigger] ts[k]).id.0@, at),
    ensures
        without_reminder(ts, rs, at).len() == 0,
    decreases ts.len(),
{
    if ts.len() > 0 {
        assert forall|k: int| 0 <= k < ts.drop_last().len() implies has_reminder(
            rs,
            (#[trigger] ts.drop_last()[k]).id.0@,
            at,
        ) by {
            assert(ts.drop_last()[k] == ts[k]);
        }
        lemma_all_reminded(ts.drop_last(), rs, at);
        assert(has_reminder(rs, ts[ts.len() - 1].id.0@, at));
    }
}

/// Syncing reminders is idempotent: once a reminder firing at `at` has been
/// added for each task that `tasks_needing_reminder` selected (as
/// `reminder_for_task` makes them: for that task, at that day's fire time),
/// every task has one, and a second sync selects no task.
pub proof fn lemma_sync_is_idempotent(ts: Seq<Task>, rs: Seq<Reminder>, at: Seq<char>, added: Seq<Reminder>)
    requires
        added.len() == without_reminder(ts, rs, at).len(),
        forall|j: int| 0 <= j < added.len() ==> (#[trigger] added[j]).task_id == Some(
            without_reminder(ts, rs, at)[j].id,
        ) && added[j].fire_at_utc@ == at,
    ensures
        forall|k: int| 0 <= k < ts.len() ==> has_reminder(rs + added, (#[trigger] ts[k]).id.0@, at),
        without_reminder(ts, rs + added, at).len() == 0,
{
    let w = without_reminder(ts, rs, at);
    let all = rs + added;
    assert forall|k: int| 0 <= k < ts.len() implies has_reminder(all, (#[trigger] ts[k]).id.0@, at) by {
        if has_reminder(rs, ts[k].id.0@, at) {
            let i = choose|i: int| 0 <= i < rs.len() && reminder_is(#[trigger] rs[i], ts[k].id.0@, at);
            assert(all[i] == rs[i]);
        } else {
            lemma_without_reminder_keeps(ts, rs, at, k);
            let j = choose|j: int| 0 <= j < w.len() && #[trigger] w[j] == ts[k];
            assert(all[rs.len() + j] == added[j]);
            assert(reminder_is(all[rs.len() + j], ts[k].id.0@, at));
        }
    }
    lemma_all_reminded(ts, all, at);
}

} // verus!
