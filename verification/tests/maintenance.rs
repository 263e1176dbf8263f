use stark::availability::capacity_for_date;
use stark::capacity::Interval;
use stark::domain::{AvailabilityException, AvailabilityId, AvailabilityWindow, ExceptionId};
use stark::maintenance::{
    backup_file_name, daily_prefix, has_daily_backup, horizon_dates, needs_backup,
    pending_migrations, prune_candidates, target_version, BackupReason, SchemaTooNew,
    HORIZON_DAYS,
};
use stark::reminders::{local_date_time_to_utc, reminder_for_task, tasks_needing_reminder};
use stark::commands::today_tasks;
use stark::domain::{Reminder, ReminderId, ReminderStatus};
use stark::schedule::{missed_digest, parse_utc, seconds_until, sleep_secs};
use stark::domain::{GoalId, Priority, Status, Task, TaskId};

#[test]
fn migrations_run_up_to_the_target() {
    assert_eq!(target_version(), 2);
    let all = pending_migrations(0).unwrap();
    assert_eq!(all, vec![(1, "initial".to_string()), (2, "milestone_task_links".to_string())]);
    assert_eq!(pending_migrations(1).unwrap(), vec![(2, "milestone_task_links".to_string())]);
    assert!(pending_migrations(2).unwrap().is_empty());
    assert_eq!(pending_migrations(3).unwrap_err(), SchemaTooNew { found: 3, supported: 2 });
    assert!(needs_backup(1));
    assert!(!needs_backup(2));
}

#[test]
fn backup_names_are_timestamped() {
    assert_eq!(
        backup_file_name(2026, 8, 16, 9, 5, 7, BackupReason::Daily),
        "stark-20260816-090507-daily.db"
    );
    assert_eq!(BackupReason::PreMigration.tag(), "premigration");
    assert_eq!(daily_prefix(2026, 1, 2), "stark-20260102");
}

#[test]
fn only_a_daily_backup_of_today_counts() {
    let names = vec![
        "stark-20260816-090507-manual.db".to_string(),
        "stark-20260815-090507-daily.db".to_string(),
    ];
    assert!(!has_daily_backup(&names, "stark-20260816"));
    let mut with_today = names.clone();
    with_today.push("stark-20260816-100000-daily.db".into());
    assert!(has_daily_backup(&with_today, "stark-20260816"));
}

#[test]
fn pruning_keeps_the_newest_dailies() {
    let names = vec![
        "stark-20260103-000000-daily.db".to_string(),
        "stark-20260101-000000-daily.db".to_string(),
        "stark-20260101-000000-premigration.db".to_string(),
        "stark-20260105-000000-daily.db".to_string(),
        "stark-20260102-000000-daily.db".to_string(),
        "stark-20260104-000000-daily.db".to_string(),
    ];
    let gone = prune_candidates(&names, 2);
    assert_eq!(
        gone,
        vec![
            "stark-20260103-000000-daily.db".to_string(),
            "stark-20260101-000000-daily.db".to_string(),
            "stark-20260102-000000-daily.db".to_string(),
        ]
    );
    assert!(prune_candidates(&names, 14).is_empty());
}

#[test]
fn horizon_covers_half_a_year() {
    let d = horizon_dates("2026-08-30");
    assert_eq!(d.len() as i64, HORIZON_DAYS);
    assert_eq!(d[0], "2026-08-30");
    assert_eq!(d[2], "2026-09-01");
    assert_eq!(d[179], "2027-02-25");
}

fn window(weekday: i64, start: i64, end: i64) -> AvailabilityWindow {
    AvailabilityWindow {
        id: AvailabilityId("w".into()),
        weekday,
        start_minute: start,
        end_minute: end,
        label: None,
        created_at: "2026-01-01T00:00:00Z".into(),
    }
}

fn exception(start: i64, end: i64, available: bool) -> AvailabilityException {
    AvailabilityException {
        id: ExceptionId("e".into()),
        date: "2026-08-17".into(),
        start_minute: start,
        end_minute: end,
        is_available: available,
        note: None,
        created_at: "2026-01-01T00:00:00Z".into(),
    }
}

#[test]
fn day_capacity_combines_windows_and_exceptions() {
    let windows = vec![window(1, 540, 720), window(1, 780, 1020), window(2, 0, 1440)];
    let exceptions = vec![exception(600, 660, false), exception(1100, 1200, true)];
    let cap = capacity_for_date("2026-08-17", 1, &windows, &exceptions);
    assert_eq!(cap.date, "2026-08-17");
    assert_eq!(
        cap.windows,
        vec![
            Interval { start: 540, end: 600 },
            Interval { start: 660, end: 720 },
            Interval { start: 780, end: 1020 },
            Interval { start: 1100, end: 1200 },
        ]
    );
    assert_eq!(cap.total_minutes, 460);
}

#[test]
fn local_times_convert_to_utc() {
    assert_eq!(local_date_time_to_utc("2026-08-16", 525, 330), "2026-08-16T03:15:00Z");
    assert_eq!(local_date_time_to_utc("2026-08-16", 525, 600), "2026-08-15T22:45:00Z");
    assert_eq!(local_date_time_to_utc("2026-08-16", 525, -300), "2026-08-16T13:45:00Z");
    assert_eq!(local_date_time_to_utc("2026-01-01", 0, 1), "2025-12-31T23:59:00Z");
}

#[test]
fn reminders_fire_before_nine() {
    let t = Task {
        id: TaskId("t1".into()),
        goal_id: Some(GoalId("g1".into())),
        milestone_id: None,
        title: "Essay".into(),
        description: None,
        due_date: None,
        scheduled_date: Some("2026-08-16".into()),
        estimated_minutes: Some(30),
        priority: Priority::Medium,
        status: Status::NotStarted,
        created_at: "2026-01-01T00:00:00Z".into(),
        updated_at: "2026-01-01T00:00:00Z".into(),
        completed_at: None,
        deleted_at: None,
    };
    let r = reminder_for_task(&t, "2026-08-16", 0);
    assert_eq!(r.fire_at_utc, "2026-08-16T08:45:00Z");
    assert_eq!(r.title, "Essay");
    assert_eq!(r.body.as_deref(), Some("Scheduled for today \u{b7} 30 minutes"));
    assert_eq!(r.task_id, Some(TaskId("t1".into())));
    assert_eq!(r.goal_id, Some(GoalId("g1".into())));
}

#[test]
fn timestamps_parse_to_epoch_seconds() {
    assert_eq!(parse_utc("1970-01-01T00:00:00Z"), Some(0));
    assert_eq!(parse_utc("1970-01-02T00:00:01Z"), Some(86401));
    assert_eq!(parse_utc("2026-08-16T08:45:00Z"), Some(1_786_869_900));
    assert_eq!(parse_utc("short"), None);
    assert_eq!(parse_utc("abcd-01-01T00:00:00Z"), None);
}

#[test]
fn the_loop_sleeps_between_one_second_and_a_minute() {
    let now = "2026-08-16T08:45:00Z";
    assert_eq!(seconds_until(now, "2026-08-16T08:45:10Z"), 10);
    assert_eq!(seconds_until(now, "2026-08-16T08:44:00Z"), 0);
    assert_eq!(sleep_secs(now, None), 60);
    assert_eq!(sleep_secs(now, Some("2026-08-16T08:45:10Z")), 10);
    assert_eq!(sleep_secs(now, Some("2026-08-16T08:40:00Z")), 1);
    assert_eq!(sleep_secs(now, Some("2026-08-16T09:45:00Z")), 60);
}

#[test]
fn missed_reminders_are_summarised_once() {
    assert_eq!(missed_digest(0), None);
    assert_eq!(
        missed_digest(3).as_deref(),
        Some("3 reminder(s) were missed while Stark was closed.")
    );
}

fn plain_task(id: &str, due: Option<&str>, scheduled: Option<&str>) -> Task {
    Task {
        id: TaskId(id.into()),
        goal_id: None,
        milestone_id: None,
        title: format!("Task {id}"),
        description: None,
        due_date: due.map(|d| d.to_string()),
        scheduled_date: scheduled.map(|d| d.to_string()),
        estimated_minutes: None,
        priority: Priority::Medium,
        status: Status::NotStarted,
        created_at: "2026-01-01T00:00:00Z".into(),
        updated_at: "2026-01-01T00:00:00Z".into(),
        completed_at: None,
        deleted_at: None,
    }
}

#[test]
fn today_lists_scheduled_then_overdue_once() {
    let scheduled = vec![plain_task("a", Some("2026-07-01"), Some("2026-08-01"))];
    let outstanding = vec![
        plain_task("a", Some("2026-07-01"), Some("2026-08-01")),
        plain_task("b", Some("2026-07-20"), None),
        plain_task("c", Some("2026-08-05"), None),
        plain_task("d", None, None),
    ];
    let ids: Vec<String> = today_tasks(scheduled, outstanding, "2026-08-01").into_iter().map(|t| t.id.0).collect();
    assert_eq!(ids, vec!["a".to_string(), "b".to_string()]);
}

fn reminder(task: &str, at: &str) -> Reminder {
    Reminder {
        id: ReminderId(format!("r-{task}")),
        task_id: Some(TaskId(task.into())),
        goal_id: None,
        fire_at_utc: at.into(),
        title: "x".into(),
        body: None,
        status: ReminderStatus::Fired,
        fired_at: None,
        created_at: "2026-01-01T00:00:00Z".into(),
    }
}

#[test]
fn only_tasks_without_a_reminder_get_one() {
    let tasks = vec![plain_task("a", None, Some("2026-08-16")), plain_task("b", None, Some("2026-08-16"))];
    let existing = vec![reminder("a", "2026-08-16T08:45:00Z"), reminder("b", "2026-08-15T08:45:00Z")];
    let ids: Vec<String> = tasks_needing_reminder(tasks, &existing, "2026-08-16T08:45:00Z")
        .into_iter()
        .map(|t| t.id.0)
        .collect();
    assert_eq!(ids, vec!["b".to_string()]);
}

#[test]
fn a_second_sync_selects_nothing() {
    let tasks = vec![plain_task("a", None, Some("2026-08-16")), plain_task("b", None, Some("2026-08-16"))];
    let at = local_date_time_to_utc("2026-08-16", 9 * 60 - 15, 0);
    let mut existing = vec![reminder("a", &at)];
    let first = tasks_needing_reminder(tasks.clone(), &existing, &at);
    assert_eq!(first.len(), 1);
    for t in &first {
        let r = reminder_for_task(t, "2026-08-16", 0);
        existing.push(reminder(&r.task_id.unwrap().0, &r.fire_at_utc));
    }
    assert!(tasks_needing_reminder(tasks, &existing, &at).is_empty());
}
