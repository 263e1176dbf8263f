use stark::action::AiAction;
use stark::provider::{AiError, CommandContext, ProviderResponse};
use stark::router::{route_local, route_remote, Tier};

fn ctx(instruction: &str) -> CommandContext {
    CommandContext {
        instruction: instruction.into(),
        today: "2026-08-17".into(),
        goal_names: vec!["DSA Java".into()],
        task_names: vec!["Stack Problems".into()],
    }
}

#[test]
fn common_commands_never_reach_the_provider() {
    // No provider supplied. These must still succeed.
    for input in [
        "done stack problems",
        "log 2h graph problems",
        "move DSA to friday",
        "add task read chapter 3",
        "how am I doing",
    ] {
        let r = route_local(&ctx(input), false).expect("decided locally");
        assert!(r.is_ok(), "should have parsed locally: {input}");
        assert_eq!(r.unwrap().tier, Tier::Deterministic);
    }
}

#[test]
fn deterministic_path_has_zero_latency() {
    let r = route_local(&ctx("done stack problems"), false).unwrap().unwrap();
    assert_eq!(r.latency_ms, 0);
    assert!(r.raw.is_none());
}

#[test]
fn unmatched_input_without_provider_is_unavailable() {
    let r = route_local(&ctx("reorganise my next two weeks"), false).unwrap();
    assert!(r.is_err(), "should not have parsed locally");
    match r {
        Err(AiError::Unavailable(m)) => {
            assert_eq!(m, "no AI provider configured; add an API key in Settings")
        }
        _ => panic!("expected Unavailable"),
    }
}

#[test]
fn parsed_action_is_correct() {
    let r = route_local(&ctx("done stack problems"), false).unwrap().unwrap();
    match r.action {
        AiAction::CompleteTask { task_ref } => assert_eq!(task_ref, "stack problems"),
        other => panic!("wrong action: {other:?}"),
    }
}

#[test]
fn unmatched_input_with_provider_escalates() {
    assert!(route_local(&ctx("reorganise my next two weeks"), true).is_none());
}

#[test]
fn remote_answers_keep_their_details() {
    let r = route_remote(ProviderResponse {
        action: AiAction::CreateInboxItem { raw_text: "x".into() },
        raw: "{}".into(),
        model: "m".into(),
        latency_ms: 42,
    });
    assert_eq!(r.tier, Tier::Remote);
    assert_eq!(r.raw.as_deref(), Some("{}"));
    assert_eq!(r.model.as_deref(), Some("m"));
    assert_eq!(r.latency_ms, 42);
}
