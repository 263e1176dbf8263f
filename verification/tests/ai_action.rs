use stark::action::AiAction;

fn create_task(title: &str) -> AiAction {
    AiAction::CreateTask {
        title: title.into(),
        goal_ref: None,
        due_date: None,
        scheduled_date: None,
        estimated_minutes: None,
        priority: None,
    }
}

#[test]
fn create_task_is_low_impact() {
    let a = create_task("X");
    assert!(!a.is_high_impact());
}

#[test]
fn set_availability_is_high_impact() {
    let a = AiAction::SetAvailability {
        date: "2026-08-20".into(),
        start_minute: 840,
        end_minute: 1080,
        is_available: false,
    };
    assert!(a.is_high_impact());
}

#[test]
fn create_goal_is_high_impact() {
    let a = AiAction::CreateGoal { title: "G".into(), target_date: None, priority: None };
    assert!(a.is_high_impact());
    assert!(!AiAction::CompleteTask { task_ref: "t".into() }.is_high_impact());
}

#[test]
fn action_names_are_wire_names() {
    assert_eq!(create_task("X").name(), "CREATE_TASK");
    assert_eq!(AiAction::QueryProgress { goal_ref: None }.name(), "QUERY_PROGRESS");
    assert_eq!(
        AiAction::NeedsClarification { question: "q".into(), candidates: vec![] }.name(),
        "NEEDS_CLARIFICATION"
    );
}
