//! Applying an AI action: every path either changes state deliberately or
//! explains why it did not. Nothing is guessed: a reference that matches
//! several records, or none, is answered with a question.
//!
//! `plan_apply` decides, from the action and the goal and open-task names,
//! what is written and what is said; the caller performs the write.
use vstd::prelude::*;
use vstd::string::StringExecFns;
use crate::action::AiAction;
use crate::domain::{
    GoalId, NewAvailabilityException, NewGoal, NewLogEntry, NewTask, Priority, TaskId,
};
use crate::num::{decimal, int_text, push_decimal, push_int};
use crate::planning::{Analysis, GoalAnalysis, health_name};
use crate::resolver::{
    Candidate, Resolution, ResolutionModel, clarification_question, clarification_text, resolve,
    resolve_spec, cands_view,
};
use crate::text::{push_char, str_eq};

verus! {

/// What happened when an AI action was applied.
#[derive(Debug, Clone)]
pub enum ApplyOutcome {
    /// The action was executed; `summary` is shown to the user.
    Executed { summary: String },
    /// A reference was ambiguous or missing: ask before acting.
    NeedsClarification { question: String, candidates: Vec<String> },
    /// Captured to the inbox because there was not enough to act on.
    Captured { summary: String },
    /// A read-only query; nothing was changed.
    Answered { summary: String },
}

/// What applying an action does next.
#[derive(Debug, Clone)]
pub enum ApplyStep {
    /// Answer at once; nothing is written.
    Reply(ApplyOutcome),
    /// Create the task, then report it (`created_summary`).
    CreateTask(NewTask),
    /// Mark the task complete, then report `summary`.
    CompleteTask { id: TaskId, summary: String },
    /// Move the task to `date`, then report `summary`.
    RescheduleTask { id: TaskId, date: String, summary: String },
    /// Create the goal, then report it (`created_summary`).
    CreateGoal(NewGoal),
    /// Write the log entry, then report `summary`.
    LogWork { entry: NewLogEntry, summary: String },
    /// Record the availability exception, then report `summary`.
    SetAvailability { exception: NewAvailabilityException, summary: String },
    /// Answer from the plan's analysis (`progress_answer`).
    QueryProgress { goal_ref: Option<String> },
    /// Capture the text as an unscheduled task, then report `summary`.
    Capture { task: NewTask, summary: String },
}

/// The names of the candidates, in order.
pub open spec fn names_of(cs: Seq<Candidate>) -> Seq<Seq<char>> {
    cs.map_values(|c: Candidate| c.name@)
}

pub open spec fn strings_of(v: Seq<String>) -> Seq<Seq<char>> {
    v.map_values(|s: String| s@)
}

fn candidate_names(cs: &[Candidate]) -> (r: Vec<String>)
    ensures
        strings_of(r@) == names_of(cs@),
{
    let mut out: Vec<String> = Vec::new();
    let mut i: usize = 0;
    while i < cs.len()
        invariant
            i <= cs.len(),
            out.len() == i,
            strings_of(out@) == names_of(cs@).take(i as int),
        decreases cs.len() - i,
    {
        let ghost before = out@;
        out.push(cs[i].name.clone());
        assert forall|j: int| 0 <= j < i + 1 implies #[trigger] strings_of(out@)[j] == names_of(
            cs@,
        ).take(i + 1)[j] by {
            assert(strings_of(out@)[j] == out@[j]@);
            assert(names_of(cs@).take(i + 1)[j] == cs@[j].name@);
            if j < i {
                assert(out@[j] == before[j]);
                assert(strings_of(before)[j] == before[j]@);
                assert(strings_of(before)[j] == names_of(cs@).take(i as int)[j]);
            }
        }
        assert(strings_of(out@) =~= names_of(cs@).take(i + 1));
        i = i + 1;
    }
    assert(names_of(cs@).take(cs.len() as int) =~= names_of(cs@));
    out
}

/// "I couldn't find `what` called "REF"."
pub open spec fn missing_question(what: Seq<char>, reference: Seq<char>) -> Seq<char> {
    "I couldn't find "@ + what + " called \""@ + reference + "\"."@
}

fn missing_question_exec(what: &str, reference: &str) -> (r: String)
    ensures
        r@ == missing_question(what@, reference@),
{
    let mut s = String::from_str("I couldn't find ");
    s.append(what);
    s.append(" called \"");
    s.append(reference);
    s.append("\".");
    s
}

/// How a reference to a record was settled: found, or the question to ask
/// instead, with the names offered.
pub enum Settled {
    Found(Seq<char>),
    Ask(Seq<char>, Seq<Seq<char>>),
}

/// A reference settled against `cands`: its id when it resolves; the
/// clarification question and the matching names when it is ambiguous; a
/// "couldn't find" question and every name when nothing matches.
pub open spec fn settle(reference: Seq<char>, cands: Seq<Candidate>, what: Seq<char>) -> Settled {
    match resolve_spec(reference, cands) {
        ResolutionModel::Resolved(id) => Settled::Found(id),
        ResolutionModel::Ambiguous(hits) => Settled::Ask(
            clarification_text(reference, hits.len()),
            hits.map_values(|h: (Seq<char>, Seq<char>)| h.1),
        ),
        ResolutionModel::NotFound => Settled::Ask(missing_question(what, reference), names_of(cands)),
    }
}

/// Settles a reference: Ok(id) or Err((question, names)).
fn settle_exec(reference: &str, cands: &[Candidate], what: &str) -> (r: Result<String, (String, Vec<String>)>)
    ensures
        match settle(reference@, cands@, what@) {
            Settled::Found(id) => r matches Ok(x) && x@ == id,
            Settled::Ask(q, names) => r matches Err((x, v)) && x@ == q && strings_of(v@) == names,
        },
{
    match resolve(reference, cands) {
        Resolution::Resolved(id) => Ok(id),
        Resolution::Ambiguous(c) => {
            let q = clarification_question(reference, c.as_slice());
            let names = candidate_names(c.as_slice());
            assert(strings_of(names@) =~= cands_view(c@).map_values(|h: (Seq<char>, Seq<char>)| h.1));
            Err((q, names))
        },
        Resolution::NotFound => Err((missing_question_exec(what, reference), candidate_names(cands))),
    }
}

/// "Created KIND "TITLE".", reported once a task or goal is written.
pub open spec fn created_text(kind: Seq<char>, title: Seq<char>) -> Seq<char> {
    "Created "@ + kind + " \""@ + title + "\"."@
}

pub fn created_summary(kind: &str, title: &str) -> (r: String)
    ensures
        r@ == created_text(kind@, title@),
{
    let mut s = String::from_str("Created ");
    s.append(kind);
    s.append(" \"");
    s.append(title);
    s.append("\".");
    s
}

pub open spec fn opt_seq(o: Option<String>) -> Option<Seq<char>> {
    match o {
        Some(s) => Some(s@),
        None => None,
    }
}

/// " (N min)" for a known duration, nothing otherwise.
pub open spec fn duration_note(d: Option<i64>) -> Seq<char> {
    match d {
        Some(m) => " ("@ + int_text(m as int) + " min)"@,
        None => seq![],
    }
}

/// "(un)available".
pub open spec fn availability_word(available: bool) -> Seq<char> {
    if available {
        "available"@
    } else {
        "unavailable"@
    }
}

/// "Logged "ACTIVITY" (N min)."
pub open spec fn log_summary(activity: Seq<char>, d: Option<i64>) -> Seq<char> {
    "Logged \""@ + activity + "\""@ + duration_note(d) + "."@
}

/// The id a goal reference resolves to, if it resolves.
pub open spec fn resolved_goal(goal_ref: Option<String>, goals: Seq<Candidate>) -> Option<Seq<char>> {
    match goal_ref {
        Some(r) => match resolve_spec(r@, goals) {
            ResolutionModel::Resolved(id) => Some(id),
            _ => None,
        },
        None => None,
    }
}

pub open spec fn opt_goal_text(g: Option<GoalId>) -> Option<Seq<char>> {
    match g {
        Some(x) => Some(x.0@),
        None => None,
    }
}

/// The question step for a reference that did not settle.
pub open spec fn is_question(s: ApplyStep, q: Seq<char>, names: Seq<Seq<char>>) -> bool {
    s matches ApplyStep::Reply(ApplyOutcome::NeedsClarification { question, candidates }) && question@
        == q && strings_of(candidates@) == names
}

/// What `plan_apply` does with an action, given the goal and open-task
/// candidates: see each arm.
pub open spec fn plan_ok(a: AiAction, today: Seq<char>, goals: Seq<Candidate>, tasks: Seq<Candidate>, s: ApplyStep) -> bool {
    match a {
        // The goal reference must settle (when given); the task is then
        // created with no milestone, no description, and Medium priority
        // unless one is given.
        AiAction::CreateTask { title, goal_ref, due_date, scheduled_date, estimated_minutes, priority } => {
            let goal = match goal_ref {
                Some(r) => Some(settle(r@, goals, "a goal"@)),
                None => None,
            };
            match goal {
                Some(Settled::Ask(q, names)) => is_question(s, q, names),
                _ => s matches ApplyStep::CreateTask(t) && t.title == title && t.milestone_id is None
                    && t.description is None && t.due_date == due_date && t.scheduled_date
                    == scheduled_date && t.estimated_minutes == estimated_minutes && t.priority == (
                match priority {
                    Some(p) => p,
                    None => Priority::Medium,
                }) && match goal {
                    Some(Settled::Found(id)) => t.goal_id matches Some(g) && g.0@ == id,
                    _ => t.goal_id is None,
                },
            }
        },
        AiAction::CompleteTask { task_ref } => match settle(task_ref@, tasks, "an open task"@) {
            Settled::Found(id) => s matches ApplyStep::CompleteTask { id: t, summary } && t.0@ == id
                && summary@ == "Marked \""@ + task_ref@ + "\" complete."@,
            Settled::Ask(q, names) => is_question(s, q, names),
        },
        AiAction::RescheduleTask { task_ref, scheduled_date } => match settle(task_ref@, tasks, "an open task"@) {
            Settled::Found(id) => s matches ApplyStep::RescheduleTask { id: t, date, summary } && t.0@
                == id && date == scheduled_date && summary@ == "Moved \""@ + task_ref@ + "\" to "@
                + scheduled_date@ + "."@,
            Settled::Ask(q, names) => is_question(s, q, names),
        },
        // A goal is created with nothing but its title, target date and
        // priority (Medium unless given).
        AiAction::CreateGoal { title, target_date, priority } => s matches ApplyStep::CreateGoal(g)
            && g.title == title && g.description is None && g.start_date is None && g.target_date
            == target_date && g.priority == (match priority {
            Some(p) => p,
            None => Priority::Medium,
        }) && g.estimated_effort_minutes is None && g.success_criteria@.len() == 0,
        // Only an ambiguous goal reference stops a log entry; an unknown
        // one is dropped.
        AiAction::LogWork { activity, duration_minutes, goal_ref, log_date } => match goal_ref {
            Some(r) if resolve_spec(r@, goals) is Ambiguous => match settle(r@, goals, "a goal"@) {
                Settled::Ask(q, names) => is_question(s, q, names),
                Settled::Found(_) => false,
            },
            _ => s matches ApplyStep::LogWork { entry, summary } && entry.log_date@ == (match log_date {
                Some(d) => d@,
                None => today,
            }) && entry.task_id is None && entry.milestone_id is None && entry.activity == activity
                && entry.duration_minutes == duration_minutes && entry.category is None
                && entry.notes is None && summary@ == log_summary(activity@, duration_minutes)
                && opt_goal_text(entry.goal_id) == resolved_goal(goal_ref, goals),
        },
        AiAction::SetAvailability { date, start_minute, end_minute, is_available } =>
            s matches ApplyStep::SetAvailability { exception: x, summary } && x.date == date
            && x.start_minute == start_minute && x.end_minute == end_minute && x.is_available
            == is_available && x.note is None && summary@ == "Marked you "@ + availability_word(
            is_available,
        ) + " on "@ + date@ + "."@,
        AiAction::QueryProgress { goal_ref } => s matches ApplyStep::QueryProgress { goal_ref: g }
            && g == goal_ref,
        // Too vague to act on: kept as a low-priority task, with nothing
        // invented.
        AiAction::CreateInboxItem { raw_text } => s matches ApplyStep::Capture { task, summary }
            && task.title == raw_text && task.goal_id is None && task.milestone_id is None
            && opt_seq(task.description) == Some("Captured from AI \u{2014} needs detail"@)
            && task.due_date is None && task.scheduled_date is None && task.estimated_minutes is None
            && task.priority == Priority::Low && summary@ == "Captured \""@ + raw_text@
            + "\" \u{2014} add detail when you can."@,
        AiAction::NeedsClarification { question, candidates } => s matches ApplyStep::Reply(
            ApplyOutcome::NeedsClarification { question: q, candidates: c },
        ) && q == question && c == candidates,
    }
}

fn ask(question: String, candidates: Vec<String>) -> (r: ApplyStep)
    ensures
        is_question(r, question@, strings_of(candidates@)),
{
    ApplyStep::Reply(ApplyOutcome::NeedsClarification { question, candidates })
}

/// Decides what applying `action` does, given the goals and the open tasks
/// as candidates (read only when `apply_reads` says so).
pub fn plan_apply(action: AiAction, today: &str, goals: &[Candidate], tasks: &[Candidate]) -> (r: ApplyStep)
    ensures
        plan_ok(action, today@, goals@, tasks@, r),
{
    match action {
        AiAction::CreateTask { title, goal_ref, due_date, scheduled_date, estimated_minutes, priority } => {
            let goal_id = match &goal_ref {
                Some(reference) => match settle_exec(reference.as_str(), goals, "a goal") {
                    Ok(id) => Some(GoalId(id)),
                    Err((q, names)) => return ask(q, names),
                },
                None => None,
            };
            let p = match priority {
                Some(p) => p,
                None => Priority::Medium,
            };
            ApplyStep::CreateTask(
                NewTask {
                    goal_id,
                    milestone_id: None,
                    title,
                    description: None,
                    due_date,
                    scheduled_date,
                    estimated_minutes,
                    priority: p,
                },
            )
        },
        AiAction::CompleteTask { task_ref } => match settle_exec(task_ref.as_str(), tasks, "an open task") {
            Ok(id) => {
                let mut summary = String::from_str("Marked \"");
                summary.append(task_ref.as_str());
                summary.append("\" complete.");
                ApplyStep::CompleteTask { id: TaskId(id), summary }
            },
            Err((q, names)) => ask(q, names),
        },
        AiAction::RescheduleTask { task_ref, scheduled_date } => match settle_exec(task_ref.as_str(), tasks, "an open task") {
            Ok(id) => {
                let mut summary = String::from_str("Moved \"");
                summary.append(task_ref.as_str());
                summary.append("\" to ");
                summary.append(scheduled_date.as_str());
                summary.append(".");
                ApplyStep::RescheduleTask { id: TaskId(id), date: scheduled_date, summary }
            },
            Err((q, names)) => ask(q, names),
        },
        AiAction::CreateGoal { title, target_date, priority } => {
            let p = match priority {
                Some(p) => p,
                None => Priority::Medium,
            };
            ApplyStep::CreateGoal(
                NewGoal {
                    title,
                    description: None,
                    start_date: None,
                    target_date,
                    priority: p,
                    estimated_effort_minutes: None,
                    success_criteria: Vec::new(),
                },
            )
        },
        AiAction::LogWork { activity, duration_minutes, goal_ref, log_date } => {
            let goal_id = match &goal_ref {
                Some(reference) => match resolve(reference.as_str(), goals) {
                    Resolution::Resolved(id) => Some(GoalId(id)),
                    Resolution::NotFound => None,
                    Resolution::Ambiguous(c) => {
                        let q = clarification_question(reference.as_str(), c.as_slice());
                        let names = candidate_names(c.as_slice());
                        assert(strings_of(names@) =~= cands_view(c@).map_values(|h: (Seq<char>, Seq<char>)| h.1));
                        return ask(q, names);
                    },
                },
                None => None,
            };
            let date = match log_date {
                Some(d) => d,
                None => today.to_owned(),
            };
            let mut summary = String::from_str("Logged \"");
            summary.append(activity.as_str());
            summary.append("\"");
            match duration_minutes {
                Some(m) => {
                    summary.append(" (");
                    push_int(&mut summary, m);
                    summary.append(" min)");
                },
                None => {},
            }
            summary.append(".");
            assert(summary@ =~= log_summary(activity@, duration_minutes));
            ApplyStep::LogWork {
                entry: NewLogEntry {
                    log_date: date,
                    task_id: None,
                    milestone_id: None,
                    goal_id,
                    activity,
                    duration_minutes,
                    category: None,
                    notes: None,
                },
                summary,
            }
        },
        AiAction::SetAvailability { date, start_minute, end_minute, is_available } => {
            let mut summary = String::from_str("Marked you ");
            summary.append(if is_available { "available" } else { "unavailable" });
            summary.append(" on ");
            summary.append(date.as_str());
            summary.append(".");
            ApplyStep::SetAvailability {
                exception: NewAvailabilityException {
                    date,
                    start_minute,
                    end_minute,
                    is_available,
                    note: None,
                },
                summary,
            }
        },
        AiAction::QueryProgress { goal_ref } => ApplyStep::QueryProgress { goal_ref },
        AiAction::CreateInboxItem { raw_text } => {
            let mut summary = String::from_str("Captured \"");
            summary.append(raw_text.as_str());
            summary.append("\" \u{2014} add detail when you can.");
            ApplyStep::Capture {
                task: NewTask {
                    goal_id: None,
                    milestone_id: None,
                    title: raw_text,
                    description: Some(String::from_str("Captured from AI \u{2014} needs detail")),
                    due_date: None,
                    scheduled_date: None,
                    estimated_minutes: None,
                    priority: Priority::Low,
                },
                summary,
            }
        },
        AiAction::NeedsClarification { question, candidates } => ApplyStep::Reply(
            ApplyOutcome::NeedsClarification { question, candidates },
        ),
    }
}

/// Which candidate lists applying an action reads: (goals, open tasks).
/// A progress query reads the goals only after the plan's analysis.
pub fn apply_reads(action: &AiAction) -> (r: (bool, bool))
    ensures
        r.0 == match action {
            AiAction::CreateTask { goal_ref, .. } => goal_ref is Some,
            AiAction::LogWork { goal_ref, .. } => goal_ref is Some,
            AiAction::QueryProgress { goal_ref } => goal_ref is Some,
            _ => false,
        },
        r.1 == (action is CompleteTask || action is RescheduleTask),
{
    match action {
        AiAction::CreateTask { goal_ref, .. } => (goal_ref.is_some(), false),
        AiAction::LogWork { goal_ref, .. } => (goal_ref.is_some(), false),
        AiAction::QueryProgress { goal_ref } => (goal_ref.is_some(), false),
        AiAction::CompleteTask { .. } => (false, true),
        AiAction::RescheduleTask { .. } => (false, true),
        _ => (false, false),
    }
}

// ---------- answering a progress query ----------

/// The first goal of the analysis at or after `i` with id `id`.
pub open spec fn goal_index_from(gs: Seq<GoalAnalysis>, id: Seq<char>, i: int) -> Option<int>
    decreases gs.len() - i,
{
    if i < 0 || i >= gs.len() {
        None
    } else if gs[i].goal_id@ == id {
        Some(i)
    } else {
        goal_index_from(gs, id, i + 1)
    }
}

/// "TITLE: P% complete, HEALTH. REASON"
pub open spec fn goal_line(g: GoalAnalysis, percent: i64) -> Seq<char> {
    g.title@ + ": "@ + int_text(percent as int) + "% complete, "@ + health_name(g.health) + ". "@
        + g.reason@
}

/// "N task(s) today, M overdue. K goal(s) tracked."
pub open spec fn overall_line(a: Analysis) -> Seq<char> {
    decimal(a.today_task_count as nat) + " task(s) today, "@ + decimal(a.overdue_task_count as nat)
        + " overdue. "@ + decimal(a.goals@.len()) + " goal(s) tracked."@
}

/// The answer to a progress query: for a goal reference that resolves, that
/// goal's line; for one that does not, that it was not found; without a
/// reference, the day's overall figures.
pub open spec fn progress_text(a: Analysis, goal_ref: Option<Seq<char>>, goals: Seq<Candidate>, percents: Seq<i64>) -> Seq<char> {
    match goal_ref {
        Some(r) => match resolve_spec(r, goals) {
            ResolutionModel::Resolved(id) => match goal_index_from(a.goals@, id, 0) {
                Some(i) => goal_line(a.goals@[i], percents[i]),
                None => "No analysis available."@,
            },
            _ => "I couldn't find a goal matching \""@ + r + "\"."@,
        },
        None => overall_line(a),
    }
}

proof fn lemma_goal_index_from(gs: Seq<GoalAnalysis>, id: Seq<char>, i: int)
    ensures
        goal_index_from(gs, id, i) matches Some(k) ==> 0 <= i <= k < gs.len(),
    decreases gs.len() - i,
{
    if 0 <= i < gs.len() && gs[i].goal_id@ != id {
        lemma_goal_index_from(gs, id, i + 1);
    }
}

/// Answers a progress query from the plan's analysis. `percents` holds the
/// percentage shown for each goal of the analysis, in order (its progress
/// times 100, rounded).
pub fn progress_answer(analysis: &Analysis, goal_ref: Option<String>, goals: &[Candidate], percents: &[i64]) -> (r: String)
    requires
        percents.len() == analysis.goals.len(),
    ensures
        r@ == progress_text(*analysis, opt_seq(goal_ref), goals@, percents@),
{
    let ghost gr = opt_seq(goal_ref);
    match goal_ref {
        Some(reference) => match resolve(reference.as_str(), goals) {
            Resolution::Resolved(id) => {
                let mut i: usize = 0;
                assert(resolve_spec(reference@, goals@) == ResolutionModel::Resolved(id@));
                proof { lemma_goal_index_from(analysis.goals@, id@, 0); }
                while i < analysis.goals.len()
                    invariant
                        i <= analysis.goals.len(),
                        percents.len() == analysis.goals.len(),
                        gr == Some(reference@),
                        gr == opt_seq(goal_ref),
                        resolve_spec(reference@, goals@) == ResolutionModel::Resolved(id@),
                        goal_index_from(analysis.goals@, id@, 0) == goal_index_from(
                            analysis.goals@,
                            id@,
                            i as int,
                        ),
                    decreases analysis.goals.len() - i,
                {
                    let g = &analysis.goals[i];
                    if str_eq(g.goal_id.as_str(), id.as_str()) {
                        let mut s = g.title.clone();
                        s.append(": ");
                        push_int(&mut s, percents[i]);
                        s.append("% complete, ");
                        s.append(g.health.name());
                        s.append(". ");
                        s.append(g.reason.as_str());
                        assert(goal_index_from(analysis.goals@, id@, i as int) == Some(i as int));
                        assert(s@ =~= goal_line(analysis.goals@[i as int], percents@[i as int]));
                        return s;
                    }
                    i = i + 1;
                }
                String::from_str("No analysis available.")
            },
            _ => {
                let mut s = String::from_str("I couldn't find a goal matching \"");
                s.append(reference.as_str());
                s.append("\".");
                s
            },
        },
        None => {
            let mut s = String::new();
            push_decimal(&mut s, analysis.today_task_count as u64);
            s.append(" task(s) today, ");
            push_decimal(&mut s, analysis.overdue_task_count as u64);
            s.append(" overdue. ");
            push_decimal(&mut s, analysis.goals.len() as u64);
            s.append(" goal(s) tracked.");
            s
        },
    }
}

} // verus!
