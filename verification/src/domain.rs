//! The planner's records: goals, milestones, tasks, daily log entries,
//! availability and reminders.
use vstd::prelude::*;
use vstd::std_specs::convert::FromSpecImpl;
use crate::text::str_eq;

verus! {

/// Id of a goal.
#[derive(Debug, Clone, PartialEq, Eq, Hash)]
pub struct GoalId(pub String);

/// Id of a milestone.
#[derive(Debug, Clone, PartialEq, Eq, Hash)]
pub struct MilestoneId(pub String);

/// Id of a task.
#[derive(Debug, Clone, PartialEq, Eq, Hash)]
pub struct TaskId(pub String);

/// Id of a success criterion.
#[derive(Debug, Clone, PartialEq, Eq, Hash)]
pub struct CriterionId(pub String);

/// Id of a daily log entry.
#[derive(Debug, Clone, PartialEq, Eq, Hash)]
pub struct LogEntryId(pub String);

/// Id of a weekly availability window.
#[derive(Debug, Clone, PartialEq, Eq, Hash)]
pub struct AvailabilityId(pub String);

/// Id of a date-specific availability exception.
#[derive(Debug, Clone, PartialEq, Eq, Hash)]
pub struct ExceptionId(pub String);

/// Id of a reminder.
#[derive(Debug, Clone, PartialEq, Eq, Hash)]
pub struct ReminderId(pub String);

impl From<String> for GoalId {
    fn from(s: String) -> (r: GoalId) {
        GoalId(s)
    }
}

impl FromSpecImpl<String> for GoalId {
    open spec fn obeys_from_spec() -> bool {
        true
    }

    open spec fn from_spec(v: String) -> GoalId {
        GoalId(v)
    }
}

impl From<String> for MilestoneId {
    fn from(s: String) -> (r: MilestoneId) {
        MilestoneId(s)
    }
}

impl FromSpecImpl<String> for MilestoneId {
    open spec fn obeys_from_spec() -> bool {
        true
    }

    open spec fn from_spec(v: String) -> MilestoneId {
        MilestoneId(v)
    }
}

impl From<String> for TaskId {
    fn from(s: String) -> (r: TaskId) {
        TaskId(s)
    }
}

impl FromSpecImpl<String> for TaskId {
    open spec fn obeys_from_spec() -> bool {
        true
    }

    open spec fn from_spec(v: String) -> TaskId {
        TaskId(v)
    }
}

impl From<String> for CriterionId {
    fn from(s: String) -> (r: CriterionId) {
        CriterionId(s)
    }
}

impl FromSpecImpl<String> for CriterionId {
    open spec fn obeys_from_spec() -> bool {
        true
    }

    open spec fn from_spec(v: String) -> CriterionId {
        CriterionId(v)
    }
}

impl From<String> for LogEntryId {
    fn from(s: String) -> (r: LogEntryId) {
        LogEntryId(s)
    }
}

impl FromSpecImpl<String> for LogEntryId {
    open spec fn obeys_from_spec() -> bool {
        true
    }

    open spec fn from_spec(v: String) -> LogEntryId {
        LogEntryId(v)
    }
}

impl From<String> for AvailabilityId {
    fn from(s: String) -> (r: AvailabilityId) {
        AvailabilityId(s)
    }
}

impl FromSpecImpl<String> for AvailabilityId {
    open spec fn obeys_from_spec() -> bool {
        true
    }

    open spec fn from_spec(v: String) -> AvailabilityId {
        AvailabilityId(v)
    }
}

impl From<String> for ExceptionId {
    fn from(s: String) -> (r: ExceptionId) {
        ExceptionId(s)
    }
}

impl FromSpecImpl<String> for ExceptionId {
    open spec fn obeys_from_spec() -> bool {
        true
    }

    open spec fn from_spec(v: String) -> ExceptionId {
        ExceptionId(v)
    }
}

impl From<String> for ReminderId {
    fn from(s: String) -> (r: ReminderId) {
        ReminderId(s)
    }
}

impl FromSpecImpl<String> for ReminderId {
    open spec fn obeys_from_spec() -> bool {
        true
    }

    open spec fn from_spec(v: String) -> ReminderId {
        ReminderId(v)
    }
}

impl GoalId {
    pub fn as_str(&self) -> (r: &str)
        ensures
            r@ == self.0@,
    {
        self.0.as_str()
    }
}

impl TaskId {
    pub fn as_str(&self) -> (r: &str)
        ensures
            r@ == self.0@,
    {
        self.0.as_str()
    }
}

impl MilestoneId {
    pub fn as_str(&self) -> (r: &str)
        ensures
            r@ == self.0@,
    {
        self.0.as_str()
    }
}

#[derive(Debug, Clone, Copy, PartialEq, Eq, Structural)]
pub enum Priority {
    Low,
    Medium,
    High,
    Critical,
}

#[derive(Debug, Clone, Copy, PartialEq, Eq, Structural)]
pub enum Status {
    NotStarted,
    InProgress,
    Completed,
    Cancelled,
}

#[derive(Debug, Clone, Copy, PartialEq, Eq, Structural)]
pub enum ReminderStatus {
    Pending,
    Fired,
    /// Its time passed while the app was closed.
    Missed,
    Dismissed,
}

/// Database text of a priority.
pub open spec fn priority_text(p: Priority) -> Seq<char> {
    match p {
        Priority::Low => "LOW"@,
        Priority::Medium => "MEDIUM"@,
        Priority::High => "HIGH"@,
        Priority::Critical => "CRITICAL"@,
    }
}

pub open spec fn priority_from_text(s: Seq<char>) -> Option<Priority> {
    if s == "LOW"@ {
        Some(Priority::Low)
    } else if s == "MEDIUM"@ {
        Some(Priority::Medium)
    } else if s == "HIGH"@ {
        Some(Priority::High)
    } else if s == "CRITICAL"@ {
        Some(Priority::Critical)
    } else {
        None
    }
}

/// Database text of a status.
pub open spec fn status_text(s: Status) -> Seq<char> {
    match s {
        Status::NotStarted => "NOT_STARTED"@,
        Status::InProgress => "IN_PROGRESS"@,
        Status::Completed => "COMPLETED"@,
        Status::Cancelled => "CANCELLED"@,
    }
}

pub open spec fn status_from_text(s: Seq<char>) -> Option<Status> {
    if s == "NOT_STARTED"@ {
        Some(Status::NotStarted)
    } else if s == "IN_PROGRESS"@ {
        Some(Status::InProgress)
    } else if s == "COMPLETED"@ {
        Some(Status::Completed)
    } else if s == "CANCELLED"@ {
        Some(Status::Cancelled)
    } else {
        None
    }
}

/// Database text of a reminder status.
pub open spec fn reminder_status_text(s: ReminderStatus) -> Seq<char> {
    match s {
        ReminderStatus::Pending => "PENDING"@,
        ReminderStatus::Fired => "FIRED"@,
        ReminderStatus::Missed => "MISSED"@,
        ReminderStatus::Dismissed => "DISMISSED"@,
    }
}

pub open spec fn reminder_status_from_text(s: Seq<char>) -> Option<ReminderStatus> {
    if s == "PENDING"@ {
        Some(ReminderStatus::Pending)
    } else if s == "FIRED"@ {
        Some(ReminderStatus::Fired)
    } else if s == "MISSED"@ {
        Some(ReminderStatus::Missed)
    } else if s == "DISMISSED"@ {
        Some(ReminderStatus::Dismissed)
    } else {
        None
    }
}

impl Priority {
    pub fn as_db(&self) -> (r: &'static str)
        ensures
            r@ == priority_text(*self),
    {
        match self {
            Priority::Low => "LOW",
            Priority::Medium => "MEDIUM",
            Priority::High => "HIGH",
            Priority::Critical => "CRITICAL",
        }
    }

    pub fn from_db(s: &str) -> (r: Option<Priority>)
        ensures
            r == priority_from_text(s@),
    {
        if str_eq(s, "LOW") {
            Some(Priority::Low)
        } else if str_eq(s, "MEDIUM") {
            Some(Priority::Medium)
        } else if str_eq(s, "HIGH") {
            Some(Priority::High)
        } else if str_eq(s, "CRITICAL") {
            Some(Priority::Critical)
        } else {
            None
        }
    }
}

impl Status {
    pub fn as_db(&self) -> (r: &'static str)
        ensures
            r@ == status_text(*self),
    {
        match self {
            Status::NotStarted => "NOT_STARTED",
            Status::InProgress => "IN_PROGRESS",
            Status::Completed => "COMPLETED",
            Status::Cancelled => "CANCELLED",
        }
    }

    pub fn from_db(s: &str) -> (r: Option<Status>)
        ensures
            r == status_from_text(s@),
    {
        if str_eq(s, "NOT_STARTED") {
            Some(Status::NotStarted)
        } else if str_eq(s, "IN_PROGRESS") {
            Some(Status::InProgress)
        } else if str_eq(s, "COMPLETED") {
            Some(Status::Completed)
        } else if str_eq(s, "CANCELLED") {
            Some(Status::Cancelled)
        } else {
            None
        }
    }
}

impl ReminderStatus {
    pub fn as_db(&self) -> (r: &'static str)
        ensures
            r@ == reminder_status_text(*self),
    {
        match self {
            ReminderStatus::Pending => "PENDING",
            ReminderStatus::Fired => "FIRED",
            ReminderStatus::Missed => "MISSED",
            ReminderStatus::Dismissed => "DISMISSED",
        }
    }

    pub fn from_db(s: &str) -> (r: Option<ReminderStatus>)
        ensures
            r == reminder_status_from_text(s@),
    {
        if str_eq(s, "PENDING") {
            Some(ReminderStatus::Pending)
        } else if str_eq(s, "FIRED") {
            Some(ReminderStatus::Fired)
        } else if str_eq(s, "MISSED") {
            Some(ReminderStatus::Missed)
        } else if str_eq(s, "DISMISSED") {
            Some(ReminderStatus::Dismissed)
        } else {
            None
        }
    }
}

/// Reading back the database text of a priority gives the priority.
pub proof fn lemma_priority_roundtrip(p: Priority)
    ensures
        priority_from_text(priority_text(p)) == Some(p),
{
    reveal_strlit("LOW");
    assert("LOW"@.len() == 3);
    reveal_strlit("MEDIUM");
    assert("MEDIUM"@.len() == 6);
    reveal_strlit("HIGH");
    assert("HIGH"@.len() == 4);
    reveal_strlit("CRITICAL");
    assert("CRITICAL"@.len() == 8);
}

/// Reading back the database text of a status gives the status.
pub proof fn lemma_status_roundtrip(s: Status)
    ensures
        status_from_text(status_text(s)) == Some(s),
{
    reveal_strlit("NOT_STARTED");
    assert("NOT_STARTED"@.len() == 11);
    reveal_strlit("IN_PROGRESS");
    assert("IN_PROGRESS"@.len() == 11);
    reveal_strlit("COMPLETED");
    assert("COMPLETED"@.len() == 9);
    reveal_strlit("CANCELLED");
    assert("CANCELLED"@.len() == 9);
    assert("NOT_STARTED"@[0] != "IN_PROGRESS"@[0]);
    assert("COMPLETED"@[1] != "CANCELLED"@[1]);
    assert("NOT_STARTED"@ != "IN_PROGRESS"@);
    assert("COMPLETED"@ != "CANCELLED"@);
}

/// Reading back the database text of a reminder status gives the status.
pub proof fn lemma_reminder_status_roundtrip(s: ReminderStatus)
    ensures
        reminder_status_from_text(reminder_status_text(s)) == Some(s),
{
    reveal_strlit("PENDING");
    assert("PENDING"@.len() == 7);
    reveal_strlit("FIRED");
    assert("FIRED"@.len() == 5);
    reveal_strlit("MISSED");
    assert("MISSED"@.len() == 6);
    reveal_strlit("DISMISSED");
    assert("DISMISSED"@.len() == 9);
}

#[derive(Debug, Clone)]
pub struct Goal {
    pub id: GoalId,
    pub title: String,
    pub description: Option<String>,
    /// Local calendar date, YYYY-MM-DD.
    pub start_date: Option<String>,
    /// Local calendar date, YYYY-MM-DD.
    pub target_date: Option<String>,
    pub priority: Priority,
    pub status: Status,
    pub estimated_effort_minutes: Option<i64>,
    /// ISO-8601 UTC.
    pub created_at: String,
    pub updated_at: String,
    pub deleted_at: Option<String>,
}

#[derive(Debug, Clone)]
pub struct SuccessCriterion {
    pub id: CriterionId,
    pub goal_id: GoalId,
    pub text: String,
    pub is_met: bool,
    pub met_at: Option<String>,
    pub order_index: i64,
}

/// Input for creating a goal: the caller supplies no ids or timestamps.
#[derive(Debug, Clone)]
pub struct NewGoal {
    pub title: String,
    pub description: Option<String>,
    pub start_date: Option<String>,
    pub target_date: Option<String>,
    pub priority: Priority,
    pub estimated_effort_minutes: Option<i64>,
    pub success_criteria: Vec<String>,
}

#[derive(Debug, Clone)]
pub struct Milestone {
    pub id: MilestoneId,
    pub goal_id: GoalId,
    pub title: String,
    pub description: Option<String>,
    pub target_date: Option<String>,
    pub status: Status,
    pub order_index: i64,
    pub created_at: String,
    pub updated_at: String,
    pub deleted_at: Option<String>,
}

#[derive(Debug, Clone)]
pub struct NewMilestone {
    pub goal_id: GoalId,
    pub title: String,
    pub description: Option<String>,
    pub target_date: Option<String>,
}

#[derive(Debug, Clone)]
pub struct Task {
    pub id: TaskId,
    pub goal_id: Option<GoalId>,
    pub milestone_id: Option<MilestoneId>,
    pub title: String,
    pub description: Option<String>,
    /// When it must be done by. Local date, YYYY-MM-DD.
    pub due_date: Option<String>,
    /// When it is intended to be done. Local date, YYYY-MM-DD.
    pub scheduled_date: Option<String>,
    pub estimated_minutes: Option<i64>,
    pub priority: Priority,
    pub status: Status,
    pub created_at: String,
    pub updated_at: String,
    pub completed_at: Option<String>,
    pub deleted_at: Option<String>,
}

#[derive(Debug, Clone)]
pub struct NewTask {
    pub goal_id: Option<GoalId>,
    pub milestone_id: Option<MilestoneId>,
    pub title: String,
    pub description: Option<String>,
    pub due_date: Option<String>,
    pub scheduled_date: Option<String>,
    pub estimated_minutes: Option<i64>,
    pub priority: Priority,
}

/// Filter for listing tasks. None means "no constraint".
#[derive(Debug, Clone)]
pub struct TaskFilter {
    pub goal_id: Option<GoalId>,
    pub milestone_id: Option<MilestoneId>,
    pub scheduled_date: Option<String>,
    pub include_completed: bool,
}

impl Default for TaskFilter {
    fn default() -> (r: TaskFilter)
        ensures
            r.goal_id is None,
            r.milestone_id is None,
            r.scheduled_date is None,
            !r.include_completed,
    {
        TaskFilter { goal_id: None, milestone_id: None, scheduled_date: None, include_completed: false }
    }
}

#[derive(Debug, Clone)]
pub struct LogEntry {
    pub id: LogEntryId,
    /// Local date, YYYY-MM-DD.
    pub log_date: String,
    pub task_id: Option<TaskId>,
    pub milestone_id: Option<MilestoneId>,
    pub goal_id: Option<GoalId>,
    pub activity: String,
    pub duration_minutes: Option<i64>,
    pub category: Option<String>,
    pub notes: Option<String>,
    pub created_at: String,
    pub updated_at: String,
}

#[derive(Debug, Clone)]
pub struct NewLogEntry {
    pub log_date: String,
    pub task_id: Option<TaskId>,
    pub milestone_id: Option<MilestoneId>,
    pub goal_id: Option<GoalId>,
    pub activity: String,
    pub duration_minutes: Option<i64>,
    pub category: Option<String>,
    pub notes: Option<String>,
}

/// A recurring weekly availability window, in minutes from local midnight.
#[derive(Debug, Clone)]
pub struct AvailabilityWindow {
    pub id: AvailabilityId,
    /// 0 = Sunday .. 6 = Saturday
    pub weekday: i64,
    pub start_minute: i64,
    pub end_minute: i64,
    pub label: Option<String>,
    pub created_at: String,
}

#[derive(Debug, Clone)]
pub struct NewAvailabilityWindow {
    pub weekday: i64,
    pub start_minute: i64,
    pub end_minute: i64,
    pub label: Option<String>,
}

/// A date-specific override: unavailable time is cut from the weekly
/// template; available time is added on that date only.
#[derive(Debug, Clone)]
pub struct AvailabilityException {
    pub id: ExceptionId,
    pub date: String,
    pub start_minute: i64,
    pub end_minute: i64,
    pub is_available: bool,
    pub note: Option<String>,
    pub created_at: String,
}

#[derive(Debug, Clone)]
pub struct NewAvailabilityException {
    pub date: String,
    pub start_minute: i64,
    pub end_minute: i64,
    pub is_available: bool,
    pub note: Option<String>,
}

#[derive(Debug, Clone)]
pub struct Reminder {
    pub id: ReminderId,
    pub task_id: Option<TaskId>,
    pub goal_id: Option<GoalId>,
    /// ISO-8601 UTC instant.
    pub fire_at_utc: String,
    pub title: String,
    pub body: Option<String>,
    pub status: ReminderStatus,
    pub fired_at: Option<String>,
    pub created_at: String,
}

#[derive(Debug, Clone)]
pub struct NewReminder {
    pub task_id: Option<TaskId>,
    pub goal_id: Option<GoalId>,
    pub fire_at_utc: String,
    pub title: String,
    pub body: Option<String>,
}

} // verus!
