//! The checks a command makes before it writes: on the input alone, and on
//! what a lookup of the records it refers to found.
use vstd::prelude::*;
use vstd::string::StringExecFns;
use crate::domain::{
    GoalId, NewTask, NewGoal, NewMilestone, NewLogEntry, NewAvailabilityWindow,
    NewAvailabilityException, Task,
};
use crate::parser::or_else;
use crate::text::{str_eq, str_lt, seq_lt, trim, trimmed_chars, string_from};
use crate::validate::{
    CommandError, CommandErrorModel, title, optional_description, optional_date, date_order,
    check_minutes, not_found, found_or, title_error, description_error, description_value,
    date_error, date_value, order_error, minutes_error, opt_view, invalid, missing_text,
};

verus! {

fn validation(m: &str) -> (r: CommandError)
    ensures
        r@ == invalid(m@),
{
    CommandError::Validation(String::from_str(m))
}

// ---------- tasks ----------

/// Why an estimate is refused: not positive, or over a day.
pub open spec fn estimate_error(m: Option<i64>) -> Option<Seq<char>> {
    match m {
        Some(x) => if x <= 0 {
            Some("estimated minutes must be positive"@)
        } else if x > 24 * 60 {
            Some("a single task cannot exceed 24 hours; split it into smaller tasks"@)
        } else {
            None
        },
        None => None,
    }
}

/// Why a new task is refused on its input alone: the first failing check
/// of title, description, due date, scheduled date and estimate.
pub open spec fn task_input_error(t: NewTask) -> Option<Seq<char>> {
    or_else(
        title_error(t.title@),
        or_else(
            description_error(opt_view(t.description)),
            or_else(
                date_error(opt_view(t.due_date), "due_date"@),
                or_else(
                    date_error(opt_view(t.scheduled_date), "scheduled_date"@),
                    estimate_error(t.estimated_minutes),
                ),
            ),
        ),
    )
}

/// The new task with its texts normalised: trimmed title, blank
/// description and dates dropped.
pub open spec fn task_normalised(t: NewTask, input: NewTask) -> bool {
    &&& t.title@ == trim(input.title@)
    &&& opt_view(t.description) == description_value(opt_view(input.description))
    &&& opt_view(t.due_date) == date_value(opt_view(input.due_date))
    &&& opt_view(t.scheduled_date) == date_value(opt_view(input.scheduled_date))
    &&& t.goal_id == input.goal_id
    &&& t.milestone_id == input.milestone_id
    &&& t.estimated_minutes == input.estimated_minutes
    &&& t.priority == input.priority
}

/// Checks a new task's input and normalises its texts.
pub fn validate_new_task(input: NewTask) -> (r: Result<NewTask, CommandError>)
    ensures
        match task_input_error(input) {
            Some(m) => r matches Err(e) && e@ == invalid(m),
            None => r matches Ok(t) && task_normalised(t, input),
        },
{
    let t = match title(input.title.as_str()) {
        Ok(t) => t,
        Err(e) => return Err(e),
    };
    let description = match optional_description(input.description) {
        Ok(d) => d,
        Err(e) => return Err(e),
    };
    let due_date = match optional_date(input.due_date, "due_date") {
        Ok(d) => d,
        Err(e) => return Err(e),
    };
    let scheduled_date = match optional_date(input.scheduled_date, "scheduled_date") {
        Ok(d) => d,
        Err(e) => return Err(e),
    };
    if let Some(mins) = input.estimated_minutes {
        if mins <= 0 {
            return Err(validation("estimated minutes must be positive"));
        }
        if mins > 24 * 60 {
            return Err(
                validation("a single task cannot exceed 24 hours; split it into smaller tasks"),
            );
        }
    }
    Ok(
        NewTask {
            goal_id: input.goal_id,
            milestone_id: input.milestone_id,
            title: t,
            description,
            due_date,
            scheduled_date,
            estimated_minutes: input.estimated_minutes,
            priority: input.priority,
        },
    )
}

/// Ok when the goal a record refers to exists, else that it is missing.
pub fn check_goal_exists(goal_id: &GoalId, found: bool) -> (r: Result<(), CommandError>)
    ensures
        found ==> r is Ok,
        !found ==> (r matches Err(e) && e@ == CommandErrorModel::NotFound(
            missing_text("goal"@, goal_id.0@),
        )),
{
    found_or(found, "goal", goal_id.0.as_str())
}

/// The text of an optional milestone id.
pub open spec fn milestone_text(m: Option<crate::domain::MilestoneId>) -> Seq<char> {
    match m {
        Some(x) => x.0@,
        None => seq![],
    }
}

/// A task's milestone, checked against what looking it up found
/// (`milestone_goal`, the goal of the milestone if it exists). A milestone
/// implies its goal: a task without a goal takes the milestone's, and a
/// task with another goal is refused.
pub fn reconcile_milestone(input: NewTask, milestone_goal: Option<GoalId>) -> (r: Result<NewTask, CommandError>)
    requires
        input.milestone_id is Some,
    ensures
        match milestone_goal {
            None => r matches Err(e) && e@ == CommandErrorModel::NotFound(
                missing_text("milestone"@, milestone_text(input.milestone_id)),
            ),
            Some(g) => match input.goal_id {
                Some(x) => if x.0@ != g.0@ {
                    r matches Err(e) && e@ == invalid(
                        "milestone does not belong to the specified goal"@,
                    )
                } else {
                    r == Ok::<NewTask, CommandError>(input)
                },
                None => r matches Ok(t) && t == (NewTask { goal_id: Some(g), ..input }),
            },
        },
{
    match milestone_goal {
        None => {
            let mid = match &input.milestone_id {
                Some(m) => m,
                None => {
                    proof { assert(false); }
                    return Err(validation("milestone does not belong to the specified goal"));
                },
            };
            Err(not_found("milestone", mid.0.as_str()))
        },
        Some(g) => match &input.goal_id {
            Some(x) => {
                if !str_eq(x.0.as_str(), g.0.as_str()) {
                    Err(validation("milestone does not belong to the specified goal"))
                } else {
                    Ok(input)
                }
            },
            None => Ok(NewTask { goal_id: Some(g), ..input }),
        },
    }
}

// ---------- goals ----------

/// Why an effort estimate is refused: it is negative.
pub open spec fn effort_error(m: Option<i64>) -> Option<Seq<char>> {
    match m {
        Some(x) => if x < 0 {
            Some("estimated effort cannot be negative"@)
        } else {
            None
        },
        None => None,
    }
}

/// Why a new goal is refused: the first failing check of title,
/// description, start date, target date, their order, and effort.
pub open spec fn goal_input_error(g: NewGoal) -> Option<Seq<char>> {
    or_else(
        title_error(g.title@),
        or_else(
            description_error(opt_view(g.description)),
            or_else(
                date_error(opt_view(g.start_date), "start_date"@),
                or_else(
                    date_error(opt_view(g.target_date), "target_date"@),
                    or_else(
                        order_error(
                            date_value(opt_view(g.start_date)),
                            date_value(opt_view(g.target_date)),
                        ),
                        effort_error(g.estimated_effort_minutes),
                    ),
                ),
            ),
        ),
    )
}

/// Success criteria as stored: trimmed, blank ones dropped, in order.
pub open spec fn kept_criteria(cs: Seq<Seq<char>>) -> Seq<Seq<char>>
    decreases cs.len(),
{
    if cs.len() == 0 {
        seq![]
    } else {
        let rest = kept_criteria(cs.drop_last());
        if trim(cs.last()).len() == 0 {
            rest
        } else {
            rest.push(trim(cs.last()))
        }
    }
}

pub open spec fn texts_of(v: Seq<String>) -> Seq<Seq<char>> {
    v.map_values(|s: String| s@)
}

fn keep_criteria(cs: Vec<String>) -> (r: Vec<String>)
    ensures
        texts_of(r@) == kept_criteria(texts_of(cs@)),
{
    let mut out: Vec<String> = Vec::new();
    let mut i: usize = 0;
    while i < cs.len()
        invariant
            i <= cs.len(),
            texts_of(out@) == kept_criteria(texts_of(cs@).take(i as int)),
        decreases cs.len() - i,
    {
        let t = trimmed_chars(cs[i].as_str());
        let ghost before = out@;
        assert(texts_of(cs@).take(i + 1).drop_last() =~= texts_of(cs@).take(i as int));
        assert(texts_of(cs@).take(i + 1).last() == cs@[i as int]@);
        if t.len() > 0 {
            out.push(string_from(&t));
            assert(texts_of(out@) =~= texts_of(before).push(t@));
        }
        i = i + 1;
    }
    assert(texts_of(cs@).take(cs.len() as int) =~= texts_of(cs@));
    out
}

/// Checks a new goal and normalises its texts.
pub fn validate_new_goal(input: NewGoal) -> (r: Result<NewGoal, CommandError>)
    ensures
        match goal_input_error(input) {
            Some(m) => r matches Err(e) && e@ == invalid(m),
            None => r matches Ok(g) && g.title@ == trim(input.title@) && opt_view(g.description)
                == description_value(opt_view(input.description)) && opt_view(g.start_date)
                == date_value(opt_view(input.start_date)) && opt_view(g.target_date) == date_value(
                opt_view(input.target_date),
            ) && g.priority == input.priority && g.estimated_effort_minutes
                == input.estimated_effort_minutes && texts_of(g.success_criteria@)
                == kept_criteria(texts_of(input.success_criteria@)),
        },
{
    let t = match title(input.title.as_str()) {
        Ok(t) => t,
        Err(e) => return Err(e),
    };
    let description = match optional_description(input.description) {
        Ok(d) => d,
        Err(e) => return Err(e),
    };
    let start_date = match optional_date(input.start_date, "start_date") {
        Ok(d) => d,
        Err(e) => return Err(e),
    };
    let target_date = match optional_date(input.target_date, "target_date") {
        Ok(d) => d,
        Err(e) => return Err(e),
    };
    match date_order(&start_date, &target_date) {
        Ok(()) => {},
        Err(e) => return Err(e),
    }
    if let Some(mins) = input.estimated_effort_minutes {
        if mins < 0 {
            return Err(validation("estimated effort cannot be negative"));
        }
    }
    let success_criteria = keep_criteria(input.success_criteria);
    Ok(
        NewGoal {
            title: t,
            description,
            start_date,
            target_date,
            priority: input.priority,
            estimated_effort_minutes: input.estimated_effort_minutes,
            success_criteria,
        },
    )
}

// ---------- milestones ----------

/// Why a new milestone is refused on its input alone.
pub open spec fn milestone_input_error(m: NewMilestone) -> Option<Seq<char>> {
    or_else(
        title_error(m.title@),
        or_else(
            description_error(opt_view(m.description)),
            date_error(opt_view(m.target_date), "target_date"@),
        ),
    )
}

/// Checks a new milestone's input and normalises its texts (its goal must
/// then exist: `check_goal_exists`).
pub fn validate_new_milestone(input: NewMilestone) -> (r: Result<NewMilestone, CommandError>)
    ensures
        match milestone_input_error(input) {
            Some(m) => r matches Err(e) && e@ == invalid(m),
            None => r matches Ok(v) && v.goal_id == input.goal_id && v.title@ == trim(input.title@)
                && opt_view(v.description) == description_value(opt_view(input.description))
                && opt_view(v.target_date) == date_value(opt_view(input.target_date)),
        },
{
    let t = match title(input.title.as_str()) {
        Ok(t) => t,
        Err(e) => return Err(e),
    };
    let description = match optional_description(input.description) {
        Ok(d) => d,
        Err(e) => return Err(e),
    };
    let target_date = match optional_date(input.target_date, "target_date") {
        Ok(d) => d,
        Err(e) => return Err(e),
    };
    Ok(NewMilestone { goal_id: input.goal_id, title: t, description, target_date })
}

// ---------- log entries ----------

/// Why a required date is refused: not `YYYY-MM-DD`, or blank.
pub open spec fn required_date_error(v: Seq<char>, field: Seq<char>) -> Option<Seq<char>> {
    or_else(
        date_error(Some(v), field),
        if date_value(Some(v)) is None {
            Some(field + " is required"@)
        } else {
            None
        },
    )
}

/// Why a duration is refused: not positive, or over a day.
pub open spec fn duration_error(m: Option<i64>) -> Option<Seq<char>> {
    match m {
        Some(x) => if x <= 0 {
            Some("duration must be positive"@)
        } else if x > 24 * 60 {
            Some("a single log entry cannot exceed 24 hours"@)
        } else {
            None
        },
        None => None,
    }
}

/// Why a new log entry is refused: the first failing check of date,
/// activity, notes and duration.
pub open spec fn log_input_error(e: NewLogEntry) -> Option<Seq<char>> {
    or_else(
        required_date_error(e.log_date@, "log_date"@),
        or_else(
            title_error(e.activity@),
            or_else(description_error(opt_view(e.notes)), duration_error(e.duration_minutes)),
        ),
    )
}

/// A required date: trimmed, or why it is refused.
fn required_date(v: &String, field: &str) -> (r: Result<String, CommandError>)
    ensures
        match required_date_error(v@, field@) {
            Some(m) => r matches Err(e) && e@ == invalid(m),
            None => r matches Ok(d) && Some(d@) == date_value(Some(v@)),
        },
{
    match optional_date(Some(v.clone()), field) {
        Ok(Some(d)) => Ok(d),
        Ok(None) => {
            let mut m = String::from_str(field);
            m.append(" is required");
            Err(CommandError::Validation(m))
        },
        Err(e) => Err(e),
    }
}

/// Checks a new log entry and normalises its texts.
pub fn validate_new_log_entry(input: NewLogEntry) -> (r: Result<NewLogEntry, CommandError>)
    ensures
        match log_input_error(input) {
            Some(m) => r matches Err(e) && e@ == invalid(m),
            None => r matches Ok(v) && Some(v.log_date@) == date_value(Some(input.log_date@))
                && v.activity@ == trim(input.activity@) && opt_view(v.notes) == description_value(
                opt_view(input.notes),
            ) && v.task_id == input.task_id && v.milestone_id == input.milestone_id && v.goal_id
                == input.goal_id && v.duration_minutes == input.duration_minutes && v.category
                == input.category,
        },
{
    let log_date = match required_date(&input.log_date, "log_date") {
        Ok(d) => d,
        Err(e) => return Err(e),
    };
    let activity = match title(input.activity.as_str()) {
        Ok(t) => t,
        Err(e) => return Err(e),
    };
    let notes = match optional_description(input.notes) {
        Ok(d) => d,
        Err(e) => return Err(e),
    };
    if let Some(mins) = input.duration_minutes {
        if mins <= 0 {
            return Err(validation("duration must be positive"));
        }
        if mins > 24 * 60 {
            return Err(validation("a single log entry cannot exceed 24 hours"));
        }
    }
    Ok(
        NewLogEntry {
            log_date,
            task_id: input.task_id,
            milestone_id: input.milestone_id,
            goal_id: input.goal_id,
            activity,
            duration_minutes: input.duration_minutes,
            category: input.category,
            notes,
        },
    )
}

// ---------- availability ----------

/// Why a weekly window is refused: a weekday outside 0..=6, or its times.
pub open spec fn window_error(w: NewAvailabilityWindow) -> Option<Seq<char>> {
    if !(0 <= w.weekday <= 6) {
        Some("weekday must be 0 (Sunday) through 6 (Saturday)"@)
    } else {
        minutes_error(w.start_minute as int, w.end_minute as int)
    }
}

pub fn validate_new_window(input: &NewAvailabilityWindow) -> (r: Result<(), CommandError>)
    ensures
        match window_error(*input) {
            Some(m) => r matches Err(e) && e@ == invalid(m),
            None => r is Ok,
        },
{
    if !(0 <= input.weekday && input.weekday <= 6) {
        return Err(validation("weekday must be 0 (Sunday) through 6 (Saturday)"));
    }
    check_minutes(input.start_minute, input.end_minute)
}

/// Why a date exception is refused: its date, then its times.
pub open spec fn exception_error(x: NewAvailabilityException) -> Option<Seq<char>> {
    or_else(
        required_date_error(x.date@, "date"@),
        minutes_error(x.start_minute as int, x.end_minute as int),
    )
}

/// Checks a date exception and trims its date.
pub fn validate_new_exception(input: NewAvailabilityException) -> (r: Result<NewAvailabilityException, CommandError>)
    ensures
        match exception_error(input) {
            Some(m) => r matches Err(e) && e@ == invalid(m),
            None => r matches Ok(v) && Some(v.date@) == date_value(Some(input.date@))
                && v.start_minute == input.start_minute && v.end_minute == input.end_minute
                && v.is_available == input.is_available && v.note == input.note,
        },
{
    let date = match required_date(&input.date, "date") {
        Ok(d) => d,
        Err(e) => return Err(e),
    };
    match check_minutes(input.start_minute, input.end_minute) {
        Ok(()) => {},
        Err(e) => return Err(e),
    }
    Ok(
        NewAvailabilityException {
            date,
            start_minute: input.start_minute,
            end_minute: input.end_minute,
            is_available: input.is_available,
            note: input.note,
        },
    )
}

// ---------- listing ----------

/// A task is overdue on `today` when it has a due date before it (dates
/// compared as text).
pub open spec fn is_overdue(t: Task, today: Seq<char>) -> bool {
    match t.due_date {
        Some(d) => seq_lt(d@, today),
        None => false,
    }
}

/// The tasks that are overdue on `today`, in order.
pub open spec fn overdue_of(ts: Seq<Task>, today: Seq<char>) -> Seq<Task>
    decreases ts.len(),
{
    if ts.len() == 0 {
        seq![]
    } else {
        let rest = overdue_of(ts.drop_last(), today);
        if is_overdue(ts.last(), today) {
            rest.push(ts.last())
        } else {
            rest
        }
    }
}

/// The outstanding tasks whose due date has already passed, in order.
pub fn overdue_tasks(tasks: Vec<Task>, today: &str) -> (r: Vec<Task>)
    ensures
        r@ == overdue_of(tasks@, today@),
{
    let mut out: Vec<Task> = Vec::new();
    let mut rest = tasks;
    let ghost all = rest@;
    let n = rest.len();
    let mut i: usize = 0;
    while i < n
        invariant
            n == all.len(),
            i <= n,
            rest@ == all.skip(i as int),
            out@ == overdue_of(all.take(i as int), today@),
        decreases n - i,
    {
        let t = rest.remove(0);
        assert(t == all[i as int]);
        assert(rest@ =~= all.skip(i + 1));
        assert(all.take(i + 1).drop_last() =~= all.take(i as int));
        let keep = match &t.due_date {
            Some(d) => str_lt(d.as_str(), today),
            None => false,
        };
        if keep {
            out.push(t);
        }
        i = i + 1;
    }
    assert(all.take(n as int) =~= all);
    out
}


/// Whether some task of `ts` has id `id`.
pub open spec fn listed(ts: Seq<Task>, id: Seq<char>) -> bool {
    exists|i: int| 0 <= i < ts.len() && (#[trigger] ts[i]).id.0@ == id
}

/// The tasks of `ts` whose ids are not among those of `seen`, in order.
pub open spec fn not_listed(ts: Seq<Task>, seen: Seq<Task>) -> Seq<Task>
    decreases ts.len(),
{
    if ts.len() == 0 {
        seq![]
    } else {
        let rest = not_listed(ts.drop_last(), seen);
        if listed(seen, ts.last().id.0@) {
            rest
        } else {
            rest.push(ts.last())
        }
    }
}

/// The day's list: the tasks scheduled for today, then the overdue
/// outstanding tasks that are not already among them.
pub open spec fn today_list(scheduled: Seq<Task>, outstanding: Seq<Task>, today: Seq<char>) -> Seq<Task> {
    scheduled + not_listed(overdue_of(outstanding, today), scheduled)
}

fn has_task(ts: &Vec<Task>, id: &str) -> (r: bool)
    ensures
        r == listed(ts@, id@),
{
    let mut i: usize = 0;
    while i < ts.len()
        invariant
            i <= ts.len(),
            forall|k: int| 0 <= k < i ==> (#[trigger] ts@[k]).id.0@ != id@,
        decreases ts.len() - i,
    {
        if str_eq(ts[i].id.0.as_str(), id) {
            assert(ts@[i as int].id.0@ == id@);
            return true;
        }
        i = i + 1;
    }
    false
}

/// Tasks scheduled for `today` (`scheduled`), plus anything overdue among
/// the outstanding tasks (`outstanding`), each task once.
pub fn today_tasks(scheduled: Vec<Task>, outstanding: Vec<Task>, today: &str) -> (r: Vec<Task>)
    ensures
        r@ == today_list(scheduled@, outstanding@, today@),
{
    let mut rest = overdue_tasks(outstanding, today);
    let ghost all = rest@;
    let ghost sched = scheduled@;
    let mut out = scheduled;
    let n = rest.len();
    let mut i: usize = 0;
    let mut extra: Vec<Task> = Vec::new();
    while i < n
        invariant
            n == all.len(),
            i <= n,
            rest@ == all.skip(i as int),
            out@ == sched,
            extra@ == not_listed(all.take(i as int), sched),
        decreases n - i,
    {
        let t = rest.remove(0);
        assert(t == all[i as int]);
        assert(rest@ =~= all.skip(i + 1));
        assert(all.take(i + 1).drop_last() =~= all.take(i as int));
        if !has_task(&out, t.id.0.as_str()) {
            extra.push(t);
        }
        i = i + 1;
    }
    assert(all.take(n as int) =~= all);
    let ghost ex = extra@;
    let m = extra.len();
    let mut j: usize = 0;
    while j < m
        invariant
            m == ex.len(),
            j <= m,
            extra@ == ex.skip(j as int),
            out@ == sched + ex.take(j as int),
        decreases m - j,
    {
        let t = extra.remove(0);
        assert(t == ex[j as int]);
        assert(extra@ =~= ex.skip(j + 1));
        out.push(t);
        assert(sched + ex.take(j + 1) =~= (sched + ex.take(j as int)).push(ex[j as int]));
        j = j + 1;
    }
    assert(ex.take(m as int) =~= ex);
    out
}

} // verus!
