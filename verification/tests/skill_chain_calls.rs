use ixgateway::skill_chain::{
    accumulate_usage, child_call_result, latest_user_query, plan_child_call, plan_child_call_from_args, root_finish, skill_prompt_prefix,
    subcall_result_code, summarize_trace_text, take_line, turn_decision, unsupported_tool_result, ChainEnd,
    ChildCallOutcome, ChildCallPlan, ChildSkillResult, ChildTraceReader, ContentValue, HistoryEntry,
    ParsedSkillResponse, ParsedSkillToolCall, SkillTraceFailReason, SkillTraceLevel, SkillTraceTokenUsage,
    TurnDecision, append_tool_turn, tool_args_from_fields,
};
use ixgateway::json::JsonValue;
use ixgateway::skill_trace_sse::{SkillTraceEventPayload, SseMessage, SseParser};

const ARGS: &str = "{\"skillep_id\":\"acme/default/pricing\",\"query\":\"q\"}";

fn refused(plan: ChildCallPlan) -> String {
    match plan {
        ChildCallPlan::Refused { tool_result } => tool_result,
        other => panic!("unexpected {:?}", other),
    }
}

#[test]
fn execute_parallel_child_call_returns_error_for_invalid_args_without_trace_failure() {
    let plan = plan_child_call("{bad json}", None, &vec![], 1, Some(false), 4000);
    assert_eq!(refused(plan), "Error: invalid tool arguments");
}

#[test]
fn execute_parallel_child_call_returns_error_for_invalid_skillep_id() {
    let plan = plan_child_call("{\"skillep_id\":\"acme/default\",\"query\":\"what now\"}", None, &vec![], 1, None, 4000);
    assert!(refused(plan).starts_with("Error: invalid skillep_id 'acme/default'"));
}

#[test]
fn execute_parallel_child_call_supports_debug_mock_results() {
    let mocks = vec![("acme/default/pricing".to_string(), "mock child result".to_string())];
    match plan_child_call(ARGS, None, &mocks, 1, Some(false), 4000) {
        ChildCallPlan::Mocked { skillep_id, query, result } => {
            assert_eq!(skillep_id, "acme/default/pricing");
            assert_eq!(query, "q");
            assert_eq!(result, "mock child result");
        }
        other => panic!("unexpected {:?}", other),
    }
}

#[test]
fn execute_parallel_child_call_blocks_empty_allowlist() {
    let plan = plan_child_call(ARGS, Some(&vec![]), &vec![], 1, None, 4000);
    assert_eq!(refused(plan), "Error: skill endpoint not in allowed list");
}

#[test]
fn execute_parallel_child_call_permits_listed_skillep_id() {
    let allowed = vec!["acme/default/pricing".to_string()];
    match plan_child_call(ARGS, Some(&allowed), &vec![], 1, Some(true), 4000) {
        ChildCallPlan::Call { owner_tenant, namespace, skillname, next_depth, child_trace, url, .. } => {
            assert_eq!((owner_tenant.as_str(), namespace.as_str(), skillname.as_str()), ("acme", "default", "pricing"));
            assert_eq!(next_depth, 2);
            assert_eq!(child_trace, SkillTraceLevel::Verbose);
            assert_eq!(url, "http://127.0.0.1:4000/skills/acme/default/pricing/v1/chat/completions");
        }
        other => panic!("unexpected {:?}", other),
    }
}

#[test]
fn execute_parallel_child_call_blocks_unlisted_skillep_id() {
    let allowed = vec!["acme/default/search".to_string()];
    let plan = plan_child_call(ARGS, Some(&allowed), &vec![], 1, None, 4000);
    assert_eq!(refused(plan), "Error: skill endpoint not in allowed list");
}

#[test]
fn execute_parallel_child_call_none_allowlist_passthrough() {
    match plan_child_call(ARGS, None, &vec![], 1, None, 4000) {
        ChildCallPlan::Call { child_trace, .. } => assert_eq!(child_trace, SkillTraceLevel::Off),
        other => panic!("unexpected {:?}", other),
    }
}

#[test]
fn child_calls_stop_at_the_maximum_depth() {
    assert!(matches!(plan_child_call(ARGS, None, &vec![], 5, None, 4000), ChildCallPlan::MaxDepth));
    assert!(matches!(plan_child_call(ARGS, None, &vec![], 4, None, 4000), ChildCallPlan::Call { next_depth: 5, .. }));
}

#[test]
fn child_outcomes_become_tool_results() {
    let t = child_call_result(&ChildCallOutcome::Transport {
        message: "connection refused".to_string(),
        fail_reason: SkillTraceFailReason::TransportError,
    });
    assert_eq!(t.0, "Error: connection refused");
    assert_eq!(t.1, Some(SkillTraceFailReason::TransportError));
    let h = child_call_result(&ChildCallOutcome::HttpError {
        status_text: "502 Bad Gateway".to_string(),
        body: b"  ".to_vec(),
        terminal_usage: None,
    });
    assert_eq!(h.0, "Error: child call failed with 502 Bad Gateway");
    let ok = child_call_result(&ChildCallOutcome::Completed {
        open_descendants: 0,
        terminal_result_code: Some("pass".to_string()),
        terminal_fail_reason: None,
        terminal_usage: None,
        skill_result: ChildSkillResult::Parsed { final_text: Some("42".to_string()), usage: None },
    });
    assert_eq!((ok.0.as_str(), ok.1), ("42", None));
    let open = child_call_result(&ChildCallOutcome::Completed {
        open_descendants: 1,
        terminal_result_code: Some("pass".to_string()),
        terminal_fail_reason: None,
        terminal_usage: None,
        skill_result: ChildSkillResult::Missing,
    });
    assert_eq!(open.0, "Error: child trace stream left open descendant calls");
    let failed = child_call_result(&ChildCallOutcome::Completed {
        open_descendants: 0,
        terminal_result_code: Some("fail".to_string()),
        terminal_fail_reason: Some(SkillTraceFailReason::Timeout),
        terminal_usage: None,
        skill_result: ChildSkillResult::Invalid,
    });
    assert_eq!((failed.0.as_str(), failed.1), ("Error: child timed out", Some(SkillTraceFailReason::Timeout)));
}

fn call(name: &str) -> ParsedSkillToolCall {
    ParsedSkillToolCall { id: "c".to_string(), name: name.to_string(), arguments: "{}".to_string() }
}

#[test]
fn turns_are_decided_by_their_tool_calls() {
    assert_eq!(turn_decision(None), TurnDecision::PassThrough);
    let none = ParsedSkillResponse { tool_calls: vec![], final_text: Some("x".to_string()), usage: None };
    assert_eq!(turn_decision(Some(&none)), TurnDecision::Final);
    let mixed = ParsedSkillResponse { tool_calls: vec![call("call_skillep"), call("web")], final_text: None, usage: None };
    assert_eq!(turn_decision(Some(&mixed)), TurnDecision::UnsupportedTools);
    let chain = ParsedSkillResponse { tool_calls: vec![call("call_skillep")], final_text: None, usage: None };
    assert_eq!(turn_decision(Some(&chain)), TurnDecision::CallChildren);
    assert_eq!(unsupported_tool_result("web"), "Error: unsupported tool 'web'");
    assert_eq!(unsupported_tool_result("call_skillep"), "Error: turn aborted (other tool in same response was unsupported)");
}

#[test]
fn root_finish_and_result_codes() {
    assert_eq!(root_finish(ChainEnd::Completion), ("pass", None));
    assert_eq!(root_finish(ChainEnd::NotCompletion), ("fail", Some(SkillTraceFailReason::InvalidResponse)));
    assert_eq!(root_finish(ChainEnd::Failed), ("fail", Some(SkillTraceFailReason::TransportError)));
    assert_eq!(subcall_result_code(None), "pass");
    assert_eq!(subcall_result_code(Some(SkillTraceFailReason::Timeout)), "fail");
    assert_eq!(summarize_trace_text(None), "-");
    assert_eq!(summarize_trace_text(Some("x")), "x");
}

#[test]
fn prompt_prefix_adds_the_allow_list_constraint() {
    assert_eq!(skill_prompt_prefix(false, " p "), " p ");
    let c = skill_prompt_prefix(true, "   ");
    assert!(c.starts_with("IMPORTANT:"));
    assert_eq!(skill_prompt_prefix(true, " p "), format!("{}\n\np", c));
}

#[test]
fn latest_user_query_skips_other_messages() {
    let history = vec![
        HistoryEntry { is_object: true, role: Some("user".to_string()), content: Some(ContentValue::Text("first".to_string())) },
        HistoryEntry { is_object: true, role: Some("user".to_string()), content: Some(ContentValue::Text("second".to_string())) },
        HistoryEntry { is_object: true, role: Some("assistant".to_string()), content: Some(ContentValue::Text("a".to_string())) },
    ];
    assert_eq!(latest_user_query(&history).as_deref(), Some("second"));
    assert_eq!(latest_user_query(&vec![]), None);
}

#[test]
fn usage_accumulates_across_turns() {
    let u = SkillTraceTokenUsage { prompt_tokens: 1, completion_tokens: 2, total_tokens: 3 };
    assert_eq!(accumulate_usage(None, None), None);
    assert_eq!(accumulate_usage(None, Some(u)), Some(u));
    assert_eq!(
        accumulate_usage(Some(u), Some(u)),
        Some(SkillTraceTokenUsage { prompt_tokens: 2, completion_tokens: 4, total_tokens: 6 })
    );
    assert_eq!(accumulate_usage(Some(u), None), Some(u));
}

fn event(t: &str, call_id: &str, parent: Option<&str>, depth: u32, result_code: Option<&str>) -> SkillTraceEventPayload {
    SkillTraceEventPayload {
        event_type: t.to_string(),
        call_id: call_id.to_string(),
        parent_call_id: parent.map(str::to_string),
        depth,
        skill: "acme/default/child".to_string(),
        result_code: result_code.map(str::to_string),
        ..Default::default()
    }
}

#[test]
fn read_child_trace_sse_completes_at_done_without_transport_eof() {
    let mut reader = ChildTraceReader::new();
    assert!(reader.on_trace_payload("root_id", "child_call_id", 2, &event("call_start", "c1", None, 1, None)).is_none());
    let fwd = reader.on_trace_payload("root_id", "child_call_id", 2, &event("subcall_start", "g1", Some("c1"), 2, None)).unwrap();
    assert_eq!(fwd.call_id, "g1");
    assert_eq!(fwd.parent_call_id.as_deref(), Some("child_call_id"));
    assert_eq!(fwd.depth, 3);
    assert_eq!(reader.open.len(), 1);
    reader.on_trace_payload("root_id", "child_call_id", 2, &event("subcall_finish", "g1", Some("c1"), 2, Some("pass")));
    assert_eq!(reader.open.len(), 0);
    assert!(reader.on_trace_payload("root_id", "child_call_id", 2, &event("call_finish", "c1", None, 1, Some("pass"))).is_none());
    reader.on_skill_result("{\"choices\":[]}".to_string());
    let result = reader.finish(true).unwrap();
    assert!(result.skill_result.is_some(), "skill_result must be captured");
    assert_eq!(result.terminal_result_code.as_deref(), Some("pass"), "call_finish result_code must be forwarded");
    assert!(result.open_descendants.is_empty());
}

#[test]
fn child_trace_without_done_is_an_error() {
    let reader = ChildTraceReader::new();
    let err = reader.finish(false).unwrap_err();
    assert_eq!(err.message, "child trace stream ended before [DONE]");
    assert_eq!(err.fail_reason, SkillTraceFailReason::InvalidResponse);
}

#[test]
fn lines_are_taken_out_of_the_buffer() {
    let mut buf: Vec<char> = "event: a\r\ndata: b\npartial".chars().collect();
    assert_eq!(take_line(&mut buf).as_deref(), Some("event: a"));
    assert_eq!(take_line(&mut buf).as_deref(), Some("data: b"));
    assert_eq!(take_line(&mut buf), None);
    assert_eq!(buf.iter().collect::<String>(), "partial");
    let mut p = SseParser::new();
    assert!(p.push_line("data: x").is_none());
    assert!(matches!(p.push_line(""), Some(SseMessage::Event { .. })));
}

#[test]
fn tool_args_are_read_from_the_parsed_fields() {
    assert_eq!(tool_args_from_fields(None, None), Err("Error: invalid tool arguments".to_string()));
    assert_eq!(
        tool_args_from_fields(Some(Some("  ".to_string())), Some(Some("q".to_string()))),
        Err("Error: missing or empty skillep_id. Expected format: owner_tenant/namespace/skillname.".to_string())
    );
    assert_eq!(
        tool_args_from_fields(Some(Some(" a/b/c ".to_string())), Some(None)),
        Err("Error: invalid tool arguments".to_string())
    );
    assert_eq!(
        tool_args_from_fields(Some(Some(" a/b/c ".to_string())), Some(Some("q".to_string()))),
        Ok(("a/b/c".to_string(), "q".to_string()))
    );
}

#[test]
fn child_call_is_planned_from_parsed_arguments() {
    let refused_args = plan_child_call_from_args(Err("Error: x".to_string()), None, &vec![], 1, None, 4000);
    assert_eq!(refused(refused_args), "Error: x");
    let args = Ok(("acme/default/pricing".to_string(), "q".to_string()));
    assert!(matches!(plan_child_call_from_args(args, None, &vec![], 1, None, 4000), ChildCallPlan::Call { next_depth: 2, .. }));
}

fn field<'a>(v: &'a JsonValue, key: &str) -> &'a JsonValue {
    match v {
        JsonValue::Object(fs) => &fs.iter().find(|(k, _)| k == key).unwrap().1,
        _ => panic!("not an object"),
    }
}

fn text(v: &JsonValue) -> &str {
    match v {
        JsonValue::String(s) => s,
        _ => panic!("not a string"),
    }
}

#[test]
fn tool_turn_is_recorded_as_assistant_then_tool_messages() {
    let mut history = vec![JsonValue::String("earlier".to_string())];
    let raw = vec![JsonValue::Null];
    let results = vec![("c1".to_string(), "r1".to_string()), ("c2".to_string(), "r2".to_string())];
    append_tool_turn(&mut history, raw, &results);
    assert_eq!(history.len(), 4);
    assert_eq!(text(field(&history[1], "role")), "assistant");
    assert!(matches!(field(&history[1], "content"), JsonValue::Null));
    assert!(matches!(field(&history[1], "tool_calls"), JsonValue::Array(a) if a.len() == 1));
    assert_eq!(text(field(&history[2], "role")), "tool");
    assert_eq!(text(field(&history[2], "tool_call_id")), "c1");
    assert_eq!(text(field(&history[3], "content")), "r2");
}
