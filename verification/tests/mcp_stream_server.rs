use ixgateway::mcp_stream_server::{
    classify_sse_message, endpoint_error_message, extract_bearer_apikey, extract_text_from_completion,
    format_skill_fail_reason, format_trace_message, is_event_stream, resolve_skill_trace_outcome, skill_url,
    tenant_from_apikey, update_terminal_failure, McpCancelRegistry, SseAction,
};
use ixgateway::skill_chain::ContentValue;
use ixgateway::skill_trace_sse::{SkillTraceEventPayload, SseMessage, SseParser};

fn make_call_finish(depth: u32, result_code: &str, fail_reason: Option<&str>) -> SkillTraceEventPayload {
    SkillTraceEventPayload {
        event_type: "call_finish".to_string(),
        skill: "acme/default/pricing".to_string(),
        depth,
        result_code: Some(result_code.to_string()),
        fail_reason: fail_reason.map(str::to_string),
        ..Default::default()
    }
}

#[test]
fn parse_text_response_extracts_message_content() {
    let content = ContentValue::Text("final answer".to_string());
    assert_eq!(extract_text_from_completion(Some(&content), "\"final answer\"").as_deref(), Some("final answer"));
}

#[test]
fn resolve_outcome_returns_failure_message_when_skill_failed() {
    let result = resolve_skill_trace_outcome::<String>(None, Some("skill timed out".to_string()), true);
    assert_eq!(result.unwrap_err(), "skill timed out");
}

#[test]
fn resolve_outcome_returns_skill_result_even_with_terminal_failure_set() {
    let skill_result = "{\"choices\":[{\"message\":{\"content\":\"done\"}}]}".to_string();
    let result = resolve_skill_trace_outcome(Some(skill_result.clone()), Some("skill timed out".to_string()), true);
    assert_eq!(result.unwrap(), skill_result);
}

#[test]
fn resolve_outcome_reports_missing_done_and_missing_result() {
    assert_eq!(resolve_skill_trace_outcome::<String>(None, None, false).unwrap_err(), "trace stream ended before [DONE]");
    assert_eq!(resolve_skill_trace_outcome::<String>(None, None, true).unwrap_err(), "trace stream missing skill_result");
}

#[test]
fn update_terminal_failure_sets_message_for_root_call_finish_fail() {
    let event = make_call_finish(1, "fail", Some("timeout"));
    let mut terminal_failure: Option<String> = None;
    update_terminal_failure(&event, &mut terminal_failure);
    assert_eq!(terminal_failure.as_deref(), Some("acme/default/pricing: skill timed out"));
}

#[test]
fn update_terminal_failure_ignores_non_root_depth() {
    let event = make_call_finish(2, "fail", Some("timeout"));
    let mut terminal_failure: Option<String> = None;
    update_terminal_failure(&event, &mut terminal_failure);
    assert!(terminal_failure.is_none());
}

#[test]
fn update_terminal_failure_ignores_pass_result() {
    let event = make_call_finish(1, "pass", None);
    let mut terminal_failure: Option<String> = None;
    update_terminal_failure(&event, &mut terminal_failure);
    assert!(terminal_failure.is_none());
}

#[test]
fn update_terminal_failure_parses_fail_reason_from_serde() {
    let event = make_call_finish(1, "fail", Some("invalid_response"));
    let mut terminal_failure: Option<String> = None;
    update_terminal_failure(&event, &mut terminal_failure);
    assert_eq!(terminal_failure.as_deref(), Some("acme/default/pricing: skill returned invalid response"));
}

#[test]
fn format_skill_fail_reason_maps_known_reasons() {
    assert_eq!(format_skill_fail_reason(Some("timeout")), "skill timed out");
    assert_eq!(format_skill_fail_reason(Some("transport_error")), "skill transport error");
    assert_eq!(format_skill_fail_reason(Some("invalid_response")), "skill returned invalid response");
    assert_eq!(format_skill_fail_reason(Some("max_depth")), "skill exceeded max chain depth");
    assert_eq!(format_skill_fail_reason(None), "skill failed");
    assert_eq!(format_skill_fail_reason(Some("unknown_code")), "skill failed");
}

#[test]
fn bearer_key_is_required() {
    assert_eq!(
        extract_bearer_apikey(Some("Bearer  ix_key ")),
        Ok(("Bearer  ix_key ".to_string(), "ix_key".to_string()))
    );
    assert_eq!(extract_bearer_apikey(None).unwrap_err(), "missing Authorization header");
    assert_eq!(extract_bearer_apikey(Some("Basic x")).unwrap_err(), "Authorization header must be Bearer <apikey>");
    assert_eq!(extract_bearer_apikey(Some("Bearer   ")).unwrap_err(), "Authorization header must be Bearer <apikey>");
    assert_eq!(tenant_from_apikey(Some("acme".to_string())), Ok("acme".to_string()));
    assert!(tenant_from_apikey(None).is_err());
}

#[test]
fn skill_url_points_at_the_skill_route() {
    assert_eq!(skill_url("http://gw", "acme", "default", "pricing"), "http://gw/skills/acme/default/pricing/v1/chat/completions");
}

#[test]
fn event_stream_content_type_is_detected() {
    assert!(is_event_stream(Some("Text/Event-Stream; charset=utf-8")));
    assert!(!is_event_stream(Some("application/json")));
    assert!(!is_event_stream(None));
    assert_eq!(endpoint_error_message("502 Bad Gateway", "  "), "endpoint returned error: 502 Bad Gateway");
    assert_eq!(endpoint_error_message("500", " boom "), "endpoint returned error: 500: boom");
}

#[test]
fn sse_lines_become_trace_actions() {
    let mut p = SseParser::new();
    assert!(p.push_line("event: skill_trace").is_none());
    assert!(p.push_line("data: {\"a\":1}").is_none());
    let m = p.push_line("").unwrap();
    match classify_sse_message(&m) {
        SseAction::Trace(d) => assert_eq!(d, "{\"a\":1}"),
        other => panic!("unexpected {:?}", other),
    }
    assert!(p.push_line("data: [DONE]").is_none());
    let done = p.push_line("").unwrap();
    assert!(matches!(classify_sse_message(&done), SseAction::Done));
    let c = p.push_line(": keep-alive ").unwrap();
    assert!(matches!(c, SseMessage::Comment(ref t) if t == "keep-alive"));
    assert!(p.push_line("").is_none());
}

#[test]
fn sse_data_lines_are_joined() {
    let mut p = SseParser::new();
    p.push_line("event: skill_result");
    p.push_line("data: a");
    p.push_line("data: b");
    match p.push_line("").unwrap() {
        SseMessage::Event { event, data } => {
            assert_eq!(event.as_deref(), Some("skill_result"));
            assert_eq!(data, "a\nb");
        }
        other => panic!("unexpected {:?}", other),
    }
}

#[test]
fn trace_messages_describe_events() {
    let start = SkillTraceEventPayload { event_type: "call_start".to_string(), skill: "s".to_string(), ..Default::default() };
    assert_eq!(format_trace_message(&start, ""), "s: started");
    let hb = SkillTraceEventPayload {
        event_type: "heartbeat".to_string(),
        skill: "s".to_string(),
        phase: Some("calling_model".to_string()),
        ..Default::default()
    };
    assert_eq!(format_trace_message(&hb, " 1.2s"), "s: calling model 1.2s");
    let fin = make_call_finish(1, "fail", None);
    assert_eq!(format_trace_message(&fin, ""), "acme/default/pricing: fail");
}

#[test]
fn cancel_registry_finds_registered_tokens_until_removed() {
    let mut reg: McpCancelRegistry<u32> = McpCancelRegistry::new();
    let a = reg.register(5);
    let b = reg.register(7);
    assert_ne!(a, b);
    assert_eq!(a.len(), 36);
    assert_eq!(reg.lookup(&a), Some(&5));
    assert_eq!(reg.lookup(&b), Some(&7));
    assert_eq!(reg.lookup("not-an-id"), None);
    reg.remove(&a);
    assert_eq!(reg.lookup(&a), None);
    assert_eq!(reg.lookup(&b), Some(&7));
    reg.remove(&a);
    assert_eq!(reg.lookup(&b), Some(&7));
}
