use stark::commands::{
    overdue_tasks, reconcile_milestone, validate_new_exception, validate_new_goal,
    validate_new_log_entry, validate_new_milestone, validate_new_task, validate_new_window,
    check_goal_exists,
};
use stark::domain::{
    GoalId, MilestoneId, NewAvailabilityException, NewAvailabilityWindow, NewGoal, NewLogEntry,
    NewMilestone, NewTask, Priority, Status, Task, TaskId,
};
use stark::validate::{
    check_minutes, date_order, error_payload, not_found, optional_date, optional_description,
    range_order, title, CommandError, ErrorPayload,
};

fn validation(e: CommandError) -> String {
    match e {
        CommandError::Validation(m) => m,
        other => panic!("expected a validation error, got {other:?}"),
    }
}

#[test]
fn title_is_trimmed() {
    assert_eq!(title("  Read chapter 3 ").unwrap(), "Read chapter 3");
}

#[test]
fn blank_title_is_refused() {
    assert_eq!(validation(title("   ").unwrap_err()), "title cannot be empty");
}

#[test]
fn title_length_is_counted_in_chars() {
    let ok: String = std::iter::repeat('é').take(200).collect();
    assert_eq!(title(&ok).unwrap(), ok);
    let long: String = std::iter::repeat('x').take(201).collect();
    assert_eq!(validation(title(&long).unwrap_err()), "title cannot exceed 200 characters");
}

#[test]
fn descriptions_are_trimmed_and_blank_ones_dropped() {
    assert_eq!(optional_description(None).unwrap(), None);
    assert_eq!(optional_description(Some("   ".into())).unwrap(), None);
    assert_eq!(optional_description(Some(" notes ".into())).unwrap(), Some("notes".into()));
    let long: String = std::iter::repeat('y').take(5001).collect();
    assert_eq!(
        validation(optional_description(Some(long)).unwrap_err()),
        "description cannot exceed 5000 characters"
    );
}

#[test]
fn dates_must_be_iso() {
    assert_eq!(
        optional_date(Some(" 2026-08-01 ".into()), "due_date").unwrap(),
        Some("2026-08-01".into())
    );
    assert_eq!(optional_date(Some("".into()), "due_date").unwrap(), None);
    assert_eq!(
        validation(optional_date(Some("2026/08/01".into()), "due_date").unwrap_err()),
        "due_date must be in YYYY-MM-DD format"
    );
}

#[test]
fn start_cannot_follow_target() {
    let s = Some("2026-09-01".to_string());
    let t = Some("2026-08-01".to_string());
    assert_eq!(validation(date_order(&s, &t).unwrap_err()), "start date cannot be after target date");
    assert!(date_order(&t, &s).is_ok());
    assert!(date_order(&s, &None).is_ok());
}

#[test]
fn minute_ranges_are_checked() {
    assert_eq!(validation(check_minutes(-1, 10).unwrap_err()), "times must be between 00:00 and 24:00");
    assert_eq!(validation(check_minutes(600, 600).unwrap_err()), "end time must be after start time");
    assert!(check_minutes(0, 1440).is_ok());
    assert_eq!(
        validation(range_order("2026-09-01", "2026-08-01").unwrap_err()),
        "range start cannot be after range end"
    );
}

#[test]
fn errors_carry_kind_and_message() {
    let e = not_found("task", "t1");
    assert_eq!(e, CommandError::NotFound("task t1".into()));
    assert_eq!(e.message(), "not found: task t1");
    let p = error_payload(CommandError::Storage("disk full".into()));
    assert_eq!(p.kind, "STORAGE");
    assert_eq!(p.message, "storage error: disk full");
    let p: ErrorPayload = CommandError::Validation("bad".into()).into();
    assert_eq!(p.kind, "VALIDATION");
    assert_eq!(p.message, "validation failed: bad");
}

fn new_task(title: &str) -> NewTask {
    NewTask {
        goal_id: None,
        milestone_id: None,
        title: title.into(),
        description: None,
        due_date: None,
        scheduled_date: None,
        estimated_minutes: None,
        priority: Priority::Medium,
    }
}

#[test]
fn task_estimates_must_be_positive_and_under_a_day() {
    let mut t = new_task("x");
    t.estimated_minutes = Some(0);
    assert_eq!(validation(validate_new_task(t).unwrap_err()), "estimated minutes must be positive");
    let mut t = new_task("x");
    t.estimated_minutes = Some(24 * 60 + 1);
    assert_eq!(
        validation(validate_new_task(t).unwrap_err()),
        "a single task cannot exceed 24 hours; split it into smaller tasks"
    );
    let mut t = new_task("  x ");
    t.estimated_minutes = Some(24 * 60);
    t.due_date = Some(" ".into());
    let v = validate_new_task(t).unwrap();
    assert_eq!(v.title, "x");
    assert_eq!(v.due_date, None);
}

#[test]
fn task_title_is_checked_first() {
    let mut t = new_task(" ");
    t.estimated_minutes = Some(0);
    assert_eq!(validation(validate_new_task(t).unwrap_err()), "title cannot be empty");
}

#[test]
fn missing_goal_is_not_found() {
    let g = GoalId("g9".into());
    assert_eq!(check_goal_exists(&g, false).unwrap_err(), CommandError::NotFound("goal g9".into()));
    assert!(check_goal_exists(&g, true).is_ok());
}

#[test]
fn milestone_implies_its_goal() {
    let mut t = new_task("x");
    t.milestone_id = Some(MilestoneId("m1".into()));
    assert_eq!(
        reconcile_milestone(t.clone(), None).unwrap_err(),
        CommandError::NotFound("milestone m1".into())
    );
    let inherited = reconcile_milestone(t.clone(), Some(GoalId("g1".into()))).unwrap();
    assert_eq!(inherited.goal_id, Some(GoalId("g1".into())));
    let mut other = t.clone();
    other.goal_id = Some(GoalId("g2".into()));
    assert_eq!(
        validation(reconcile_milestone(other, Some(GoalId("g1".into()))).unwrap_err()),
        "milestone does not belong to the specified goal"
    );
    let mut same = t;
    same.goal_id = Some(GoalId("g1".into()));
    assert!(reconcile_milestone(same, Some(GoalId("g1".into()))).is_ok());
}

fn new_goal() -> NewGoal {
    NewGoal {
        title: " Learn DSA ".into(),
        description: None,
        start_date: None,
        target_date: None,
        priority: Priority::High,
        estimated_effort_minutes: None,
        success_criteria: vec![" solve 100 problems ".into(), "  ".into(), "pass mock".into()],
    }
}

#[test]
fn goals_keep_trimmed_criteria() {
    let g = validate_new_goal(new_goal()).unwrap();
    assert_eq!(g.title, "Learn DSA");
    assert_eq!(g.success_criteria, vec!["solve 100 problems".to_string(), "pass mock".to_string()]);
}

#[test]
fn goal_dates_and_effort_are_checked() {
    let mut g = new_goal();
    g.start_date = Some("2026-09-01".into());
    g.target_date = Some("2026-08-01".into());
    assert_eq!(validation(validate_new_goal(g).unwrap_err()), "start date cannot be after target date");
    let mut g = new_goal();
    g.estimated_effort_minutes = Some(-5);
    assert_eq!(validation(validate_new_goal(g).unwrap_err()), "estimated effort cannot be negative");
}

#[test]
fn milestones_need_a_title() {
    let m = NewMilestone {
        goal_id: GoalId("g1".into()),
        title: "".into(),
        description: None,
        target_date: Some("2026-08-01".into()),
    };
    assert_eq!(validation(validate_new_milestone(m).unwrap_err()), "title cannot be empty");
}

fn log_entry(date: &str, minutes: Option<i64>) -> NewLogEntry {
    NewLogEntry {
        log_date: date.into(),
        task_id: None,
        milestone_id: None,
        goal_id: None,
        activity: " reading ".into(),
        duration_minutes: minutes,
        category: None,
        notes: Some(" ".into()),
    }
}

#[test]
fn log_entries_need_a_date_and_a_sane_duration() {
    assert_eq!(validation(validate_new_log_entry(log_entry(" ", None)).unwrap_err()), "log_date is required");
    assert_eq!(
        validation(validate_new_log_entry(log_entry("2026-8-1", None)).unwrap_err()),
        "log_date must be in YYYY-MM-DD format"
    );
    assert_eq!(
        validation(validate_new_log_entry(log_entry("2026-08-01", Some(0))).unwrap_err()),
        "duration must be positive"
    );
    assert_eq!(
        validation(validate_new_log_entry(log_entry("2026-08-01", Some(1441))).unwrap_err()),
        "a single log entry cannot exceed 24 hours"
    );
    let e = validate_new_log_entry(log_entry(" 2026-08-01", Some(30))).unwrap();
    assert_eq!(e.log_date, "2026-08-01");
    assert_eq!(e.activity, "reading");
    assert_eq!(e.notes, None);
}

#[test]
fn availability_inputs_are_checked() {
    let w = NewAvailabilityWindow { weekday: 7, start_minute: 540, end_minute: 600, label: None };
    assert_eq!(
        validation(validate_new_window(&w).unwrap_err()),
        "weekday must be 0 (Sunday) through 6 (Saturday)"
    );
    let w = NewAvailabilityWindow { weekday: 1, start_minute: 540, end_minute: 1500, label: None };
    assert_eq!(validation(validate_new_window(&w).unwrap_err()), "times must be between 00:00 and 24:00");
    let x = NewAvailabilityException {
        date: "".into(),
        start_minute: 0,
        end_minute: 60,
        is_available: false,
        note: None,
    };
    assert_eq!(validation(validate_new_exception(x).unwrap_err()), "date is required");
}

fn task_due(id: &str, due: Option<&str>) -> Task {
    Task {
        id: TaskId(id.into()),
        goal_id: None,
        milestone_id: None,
        title: id.into(),
        description: None,
        due_date: due.map(|d| d.to_string()),
        scheduled_date: None,
        estimated_minutes: None,
        priority: Priority::Medium,
        status: Status::NotStarted,
        created_at: "2026-01-01T00:00:00Z".into(),
        updated_at: "2026-01-01T00:00:00Z".into(),
        completed_at: None,
        deleted_at: None,
    }
}

#[test]
fn overdue_means_due_before_today() {
    let tasks = vec![
        task_due("a", Some("2026-07-31")),
        task_due("b", Some("2026-08-01")),
        task_due("c", None),
        task_due("d", Some("2026-01-01")),
    ];
    let out = overdue_tasks(tasks, "2026-08-01");
    let ids: Vec<String> = out.iter().map(|t| t.id.0.clone()).collect();
    assert_eq!(ids, vec!["a".to_string(), "d".to_string()]);
}
