use stark::action::AiAction;
use stark::bridge::{
    apply_reads, created_summary, plan_apply, progress_answer, ApplyOutcome, ApplyStep,
};
use stark::domain::Priority;
use stark::planning::{Analysis, Confidence, GoalAnalysis, GoalHealth};
use stark::resolver::Candidate;

fn c(id: &str, name: &str) -> Candidate {
    Candidate { id: id.into(), name: name.into() }
}

fn goals() -> Vec<Candidate> {
    vec![c("g1", "DSA Java"), c("g2", "DSA Python"), c("g3", "Research Project")]
}

fn tasks() -> Vec<Candidate> {
    vec![c("t1", "Stack Problems"), c("t2", "Queue Problems")]
}

fn question(step: ApplyStep) -> (String, Vec<String>) {
    match step {
        ApplyStep::Reply(ApplyOutcome::NeedsClarification { question, candidates }) => {
            (question, candidates)
        }
        other => panic!("expected a question, got {other:?}"),
    }
}

#[test]
fn completing_a_known_task() {
    let step = plan_apply(
        AiAction::CompleteTask { task_ref: "stack problems".into() },
        "2026-08-17",
        &goals(),
        &tasks(),
    );
    match step {
        ApplyStep::CompleteTask { id, summary } => {
            assert_eq!(id.0, "t1");
            assert_eq!(summary, "Marked \"stack problems\" complete.");
        }
        other => panic!("wrong step: {other:?}"),
    }
}

#[test]
fn an_ambiguous_task_is_asked_about() {
    let (q, names) = question(plan_apply(
        AiAction::CompleteTask { task_ref: "problems".into() },
        "2026-08-17",
        &goals(),
        &tasks(),
    ));
    assert_eq!(q, "\"problems\" could mean 2 things. Which did you mean?");
    assert_eq!(names, vec!["Stack Problems".to_string(), "Queue Problems".to_string()]);
}

#[test]
fn an_unknown_task_lists_the_open_tasks() {
    let (q, names) = question(plan_apply(
        AiAction::RescheduleTask { task_ref: "essay".into(), scheduled_date: "2026-08-20".into() },
        "2026-08-17",
        &goals(),
        &tasks(),
    ));
    assert_eq!(q, "I couldn't find an open task called \"essay\".");
    assert_eq!(names.len(), 2);
}

#[test]
fn rescheduling_reports_the_date() {
    match plan_apply(
        AiAction::RescheduleTask { task_ref: "Queue".into(), scheduled_date: "2026-08-20".into() },
        "2026-08-17",
        &goals(),
        &tasks(),
    ) {
        ApplyStep::RescheduleTask { id, date, summary } => {
            assert_eq!(id.0, "t2");
            assert_eq!(date, "2026-08-20");
            assert_eq!(summary, "Moved \"Queue\" to 2026-08-20.");
        }
        other => panic!("wrong step: {other:?}"),
    }
}

#[test]
fn creating_a_task_resolves_its_goal() {
    let step = plan_apply(
        AiAction::CreateTask {
            title: "trees".into(),
            goal_ref: Some("dsa java".into()),
            due_date: None,
            scheduled_date: None,
            estimated_minutes: Some(30),
            priority: None,
        },
        "2026-08-17",
        &goals(),
        &tasks(),
    );
    match step {
        ApplyStep::CreateTask(t) => {
            assert_eq!(t.goal_id.unwrap().0, "g1");
            assert_eq!(t.title, "trees");
            assert_eq!(t.priority, Priority::Medium);
            assert_eq!(t.estimated_minutes, Some(30));
        }
        other => panic!("wrong step: {other:?}"),
    }
}

#[test]
fn creating_a_task_for_an_unknown_goal_asks() {
    let (q, names) = question(plan_apply(
        AiAction::CreateTask {
            title: "trees".into(),
            goal_ref: Some("Physics".into()),
            due_date: None,
            scheduled_date: None,
            estimated_minutes: None,
            priority: Some(Priority::High),
        },
        "2026-08-17",
        &goals(),
        &tasks(),
    ));
    assert_eq!(q, "I couldn't find a goal called \"Physics\".");
    assert_eq!(names.len(), 3);
}

#[test]
fn logging_drops_an_unknown_goal() {
    match plan_apply(
        AiAction::LogWork {
            activity: "reading".into(),
            duration_minutes: Some(45),
            goal_ref: Some("Physics".into()),
            log_date: None,
        },
        "2026-08-17",
        &goals(),
        &tasks(),
    ) {
        ApplyStep::LogWork { entry, summary } => {
            assert!(entry.goal_id.is_none());
            assert_eq!(entry.log_date, "2026-08-17");
            assert_eq!(summary, "Logged \"reading\" (45 min).");
        }
        other => panic!("wrong step: {other:?}"),
    }
}

#[test]
fn logging_asks_about_an_ambiguous_goal() {
    let (q, _) = question(plan_apply(
        AiAction::LogWork {
            activity: "reading".into(),
            duration_minutes: None,
            goal_ref: Some("DSA".into()),
            log_date: Some("2026-08-16".into()),
        },
        "2026-08-17",
        &goals(),
        &tasks(),
    ));
    assert_eq!(q, "\"DSA\" could mean 2 things. Which did you mean?");
}

#[test]
fn availability_and_goals_and_inbox() {
    match plan_apply(
        AiAction::SetAvailability {
            date: "2026-08-20".into(),
            start_minute: 840,
            end_minute: 1080,
            is_available: false,
        },
        "2026-08-17",
        &goals(),
        &tasks(),
    ) {
        ApplyStep::SetAvailability { exception, summary } => {
            assert_eq!(exception.start_minute, 840);
            assert_eq!(summary, "Marked you unavailable on 2026-08-20.");
        }
        other => panic!("wrong step: {other:?}"),
    }
    match plan_apply(
        AiAction::CreateGoal { title: "Run".into(), target_date: None, priority: None },
        "2026-08-17",
        &goals(),
        &tasks(),
    ) {
        ApplyStep::CreateGoal(g) => {
            assert_eq!(g.title, "Run");
            assert_eq!(g.priority, Priority::Medium);
            assert!(g.success_criteria.is_empty());
        }
        other => panic!("wrong step: {other:?}"),
    }
    match plan_apply(
        AiAction::CreateInboxItem { raw_text: "call mom".into() },
        "2026-08-17",
        &goals(),
        &tasks(),
    ) {
        ApplyStep::Capture { task, summary } => {
            assert_eq!(task.title, "call mom");
            assert_eq!(task.priority, Priority::Low);
            assert_eq!(task.description.as_deref(), Some("Captured from AI \u{2014} needs detail"));
            assert_eq!(summary, "Captured \"call mom\" \u{2014} add detail when you can.");
        }
        other => panic!("wrong step: {other:?}"),
    }
    assert_eq!(created_summary("task", "X"), "Created task \"X\".");
}

#[test]
fn reads_only_what_is_needed() {
    assert_eq!(apply_reads(&AiAction::CompleteTask { task_ref: "x".into() }), (false, true));
    assert_eq!(
        apply_reads(&AiAction::CreateGoal { title: "x".into(), target_date: None, priority: None }),
        (false, false)
    );
    assert_eq!(apply_reads(&AiAction::QueryProgress { goal_ref: Some("x".into()) }), (true, false));
}

fn analysis() -> Analysis {
    Analysis {
        generated_for: "2026-08-17".into(),
        goals: vec![GoalAnalysis {
            goal_id: "g1".into(),
            title: "DSA Java".into(),
            progress_num: 1,
            progress_den: 4,
            tasks_total: 4,
            tasks_completed: 1,
            workload_remaining_minutes: 180,
            capacity_available_minutes: 600,
            shortfall_minutes: -420,
            days_remaining: Some(10),
            health: GoalHealth::OnTrack,
            estimate_coverage_num: 4,
            estimate_coverage_den: 4,
            unestimated_task_count: 0,
            confidence: Confidence::High,
            reason: "Enough time.".into(),
        }],
        today_task_count: 2,
        today_planned_minutes: 90,
        today_capacity_minutes: 120,
        overdue_task_count: 1,
        upcoming: vec![],
        capacity_next_7_days_minutes: 840,
    }
}

#[test]
fn progress_answers() {
    let a = analysis();
    assert_eq!(
        progress_answer(&a, None, &goals(), &[25]),
        "2 task(s) today, 1 overdue. 1 goal(s) tracked."
    );
    assert_eq!(
        progress_answer(&a, Some("dsa java".into()), &goals(), &[25]),
        "DSA Java: 25% complete, OnTrack. Enough time."
    );
    assert_eq!(
        progress_answer(&a, Some("research".into()), &goals(), &[25]),
        "No analysis available."
    );
    assert_eq!(
        progress_answer(&a, Some("DSA".into()), &goals(), &[25]),
        "I couldn't find a goal matching \"DSA\"."
    );
}
