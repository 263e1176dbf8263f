use stark::provider::{
    action_parse_error, extract_json, first_choice, http_error, malformed_response, system_prompt,
    transport_error, AiError, CommandContext,
};

#[test]
fn extracts_bare_json() {
    let raw = r#"{"action":"CREATE_TASK","title":"X"}"#;
    assert_eq!(extract_json(raw).unwrap(), raw);
}

#[test]
fn extracts_from_markdown_fence() {
    let raw = "```json\n{\"action\":\"CREATE_TASK\",\"title\":\"X\"}\n```";
    assert_eq!(
        extract_json(raw).unwrap(),
        r#"{"action":"CREATE_TASK","title":"X"}"#
    );
}

#[test]
fn extracts_when_model_adds_prose() {
    let raw = "Sure! Here you go:\n{\"action\":\"COMPLETE_TASK\",\"task_ref\":\"DSA\"}\nHope that helps.";
    assert_eq!(
        extract_json(raw).unwrap(),
        r#"{"action":"COMPLETE_TASK","task_ref":"DSA"}"#
    );
}

#[test]
fn handles_nested_objects() {
    let raw = r#"{"action":"X","meta":{"a":{"b":1}}}"#;
    assert_eq!(extract_json(raw).unwrap(), raw);
}

#[test]
fn handles_braces_inside_strings() {
    let raw = r#"{"action":"CREATE_TASK","title":"fix the {bug}"}"#;
    assert_eq!(extract_json(raw).unwrap(), raw);
}

#[test]
fn rejects_no_json() {
    assert!(extract_json("I'm sorry, I can't do that.").is_err());
}

#[test]
fn rejects_unbalanced() {
    assert!(extract_json(r#"{"action":"X""#).is_err());
}
#[test]
fn escaped_quotes_inside_strings_do_not_end_them() {
    let raw = r#"x {"a":"say \"}\" now"} y"#;
    assert_eq!(extract_json(raw).unwrap(), r#"{"a":"say \"}\" now"}"#);
}

#[test]
fn error_messages_name_the_reason() {
    let e = extract_json("nothing here").unwrap_err();
    assert_eq!(e.message(), "could not parse model output: no JSON object in response");
    let e = extract_json("{").unwrap_err();
    assert_eq!(e.message(), "could not parse model output: unbalanced JSON in response");
}

#[test]
fn system_prompt_lists_names() {
    let ctx = CommandContext {
        instruction: "x".into(),
        today: "2026-08-17".into(),
        goal_names: vec!["DSA Java".into(), "Research".into()],
        task_names: vec![],
    };
    let p = system_prompt(&ctx);
    assert!(p.contains("Today is 2026-08-17."));
    assert!(p.contains("The user's goals: DSA Java, Research\n"));
    assert!(p.contains("The user's open tasks: (none)\n"));
    assert!(p.contains("{\"action\":\"QUERY_PROGRESS\",\"goal_ref\":null}"));
    assert!(p.ends_with("Do not add extra fields."));
}

#[test]
fn provider_failures_are_classified() {
    assert_eq!(transport_error(true, "timed out".into()), AiError::Unavailable("timed out".into()));
    assert_eq!(transport_error(false, "tls".into()), AiError::Provider("tls".into()));
    assert_eq!(
        http_error("401 Unauthorized", "bad key"),
        AiError::Provider("HTTP 401 Unauthorized: bad key".into())
    );
    assert_eq!(malformed_response("eof"), AiError::Provider("malformed response: eof".into()));
    assert_eq!(first_choice(&[]), Err(AiError::Provider("no choices in response".into())));
    assert_eq!(first_choice(&["a".to_string(), "b".to_string()]), Ok("a".to_string()));
    assert_eq!(
        action_parse_error("unknown variant", "{}"),
        AiError::Parse("unknown variant; raw was: {}".into())
    );
}
