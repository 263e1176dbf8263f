//! The closed set of actions a command can turn into.
//!
//! Every reference to an existing entity is a name, never an id: names are
//! resolved by lookup, so a model that invented ids could not point at the
//! wrong record.
use vstd::prelude::*;
use crate::domain::Priority;

verus! {

#[derive(Debug, Clone, PartialEq)]
pub enum AiAction {
    CreateTask {
        title: String,
        goal_ref: Option<String>,
        due_date: Option<String>,
        scheduled_date: Option<String>,
        estimated_minutes: Option<i64>,
        priority: Option<Priority>,
    },
    CompleteTask { task_ref: String },
    RescheduleTask { task_ref: String, scheduled_date: String },
    CreateGoal { title: String, target_date: Option<String>, priority: Option<Priority> },
    LogWork {
        activity: String,
        duration_minutes: Option<i64>,
        goal_ref: Option<String>,
        log_date: Option<String>,
    },
    SetAvailability { date: String, start_minute: i64, end_minute: i64, is_available: bool },
    QueryProgress { goal_ref: Option<String> },
    /// Not enough information to act: unknown stays unknown.
    CreateInboxItem { raw_text: String },
    /// Understood but ambiguous: ask, never guess.
    NeedsClarification { question: String, candidates: Vec<String> },
}

/// An action with its texts taken as char sequences.
pub enum ActionModel {
    CreateTask {
        title: Seq<char>,
        goal_ref: Option<Seq<char>>,
        due_date: Option<Seq<char>>,
        scheduled_date: Option<Seq<char>>,
        estimated_minutes: Option<i64>,
        priority: Option<Priority>,
    },
    CompleteTask { task_ref: Seq<char> },
    RescheduleTask { task_ref: Seq<char>, scheduled_date: Seq<char> },
    CreateGoal { title: Seq<char>, target_date: Option<Seq<char>>, priority: Option<Priority> },
    LogWork {
        activity: Seq<char>,
        duration_minutes: Option<i64>,
        goal_ref: Option<Seq<char>>,
        log_date: Option<Seq<char>>,
    },
    SetAvailability { date: Seq<char>, start_minute: i64, end_minute: i64, is_available: bool },
    QueryProgress { goal_ref: Option<Seq<char>> },
    CreateInboxItem { raw_text: Seq<char> },
    NeedsClarification { question: Seq<char>, candidates: Seq<Seq<char>> },
}

pub open spec fn opt_text(o: Option<String>) -> Option<Seq<char>> {
    match o {
        Some(s) => Some(s@),
        None => None,
    }
}

impl View for AiAction {
    type V = ActionModel;

    open spec fn view(&self) -> ActionModel {
        match self {
            AiAction::CreateTask {
                title,
                goal_ref,
                due_date,
                scheduled_date,
                estimated_minutes,
                priority,
            } => ActionModel::CreateTask {
                title: title@,
                goal_ref: opt_text(*goal_ref),
                due_date: opt_text(*due_date),
                scheduled_date: opt_text(*scheduled_date),
                estimated_minutes: *estimated_minutes,
                priority: *priority,
            },
            AiAction::CompleteTask { task_ref } => ActionModel::CompleteTask { task_ref: task_ref@ },
            AiAction::RescheduleTask { task_ref, scheduled_date } => ActionModel::RescheduleTask {
                task_ref: task_ref@,
                scheduled_date: scheduled_date@,
            },
            AiAction::CreateGoal { title, target_date, priority } => ActionModel::CreateGoal {
                title: title@,
                target_date: opt_text(*target_date),
                priority: *priority,
            },
            AiAction::LogWork { activity, duration_minutes, goal_ref, log_date } =>
                ActionModel::LogWork {
                activity: activity@,
                duration_minutes: *duration_minutes,
                goal_ref: opt_text(*goal_ref),
                log_date: opt_text(*log_date),
            },
            AiAction::SetAvailability { date, start_minute, end_minute, is_available } =>
                ActionModel::SetAvailability {
                date: date@,
                start_minute: *start_minute,
                end_minute: *end_minute,
                is_available: *is_available,
            },
            AiAction::QueryProgress { goal_ref } => ActionModel::QueryProgress {
                goal_ref: opt_text(*goal_ref),
            },
            AiAction::CreateInboxItem { raw_text } => ActionModel::CreateInboxItem {
                raw_text: raw_text@,
            },
            AiAction::NeedsClarification { question, candidates } =>
                ActionModel::NeedsClarification {
                question: question@,
                candidates: candidates.deep_view(),
            },
        }
    }
}

/// The model of an optional action.
pub open spec fn action_opt(o: Option<AiAction>) -> Option<ActionModel> {
    match o {
        Some(a) => Some(a@),
        None => None,
    }
}

/// The wire name of an action kind.
pub open spec fn action_name(a: ActionModel) -> Seq<char> {
    match a {
        ActionModel::CreateTask { .. } => "CREATE_TASK"@,
        ActionModel::CompleteTask { .. } => "COMPLETE_TASK"@,
        ActionModel::RescheduleTask { .. } => "RESCHEDULE_TASK"@,
        ActionModel::CreateGoal { .. } => "CREATE_GOAL"@,
        ActionModel::LogWork { .. } => "LOG_WORK"@,
        ActionModel::SetAvailability { .. } => "SET_AVAILABILITY"@,
        ActionModel::QueryProgress { .. } => "QUERY_PROGRESS"@,
        ActionModel::CreateInboxItem { .. } => "CREATE_INBOX_ITEM"@,
        ActionModel::NeedsClarification { .. } => "NEEDS_CLARIFICATION"@,
    }
}

impl AiAction {
    /// Whether this action needs explicit user confirmation before it runs:
    /// changing availability or creating a goal does.
    pub fn is_high_impact(&self) -> (r: bool)
        ensures
            r == (self is SetAvailability || self is CreateGoal),
    {
        match self {
            AiAction::SetAvailability { .. } => true,
            AiAction::CreateGoal { .. } => true,
            _ => false,
        }
    }

    pub fn name(&self) -> (r: &'static str)
        ensures
            r@ == action_name(self@),
    {
        match self {
            AiAction::CreateTask { .. } => "CREATE_TASK",
            AiAction::CompleteTask { .. } => "COMPLETE_TASK",
            AiAction::RescheduleTask { .. } => "RESCHEDULE_TASK",
            AiAction::CreateGoal { .. } => "CREATE_GOAL",
            AiAction::LogWork { .. } => "LOG_WORK",
            AiAction::SetAvailability { .. } => "SET_AVAILABILITY",
            AiAction::QueryProgress { .. } => "QUERY_PROGRESS",
            AiAction::CreateInboxItem { .. } => "CREATE_INBOX_ITEM",
            AiAction::NeedsClarification { .. } => "NEEDS_CLARIFICATION",
        }
    }
}

} // verus!
