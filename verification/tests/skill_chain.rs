use ixgateway::json::{JsonNumber, JsonValue};
use ixgateway::skill_chain::{
    build_skill_chat_request, InternalSkillRequestProfile,
    commit_in_original_order, extract_is_child_request, format_child_fail_reason, normalize_skill_call,
    parse_fail_reason, parse_skill_response, parse_skillep_tool_args, skill_chain_tool_plan, split_skillep_id,
    ChatChoice, ChatCompletionResponse, ChatMessagePayload, ClientTools, ContentValue, NormalizationError,
    NormalizedSkillCall, ParallelChildResult, RawToolCall, SkillCallTrust, SkillCallWire, SkillChainTools,
    SkillResponseMode, SkillTraceFailReason, SkillTraceField, SkillTraceLevel, SkillTraceTokenUsage,
};

fn wire_with(trace: SkillTraceField, tools: ClientTools, mocks: Vec<(String, Option<String>)>) -> SkillCallWire {
    SkillCallWire {
        messages: vec![],
        max_tokens: None,
        temperature: None,
        skill_trace: trace,
        tools,
        mocks,
        extra: vec![],
    }
}

fn make_wire(trace: SkillTraceField) -> SkillCallWire {
    wire_with(trace, ClientTools::Absent, vec![])
}

fn make_test_ctx(is_child_request: bool, child_chain_depth: Option<u32>, is_debug_authorized: bool) -> SkillCallTrust {
    SkillCallTrust { is_child_request, child_chain_depth, is_debug_authorized, allowed_child_skilleps: None }
}

fn normalized(wire: SkillCallWire, ctx: SkillCallTrust) -> NormalizedSkillCall {
    normalize_skill_call(wire, &ctx).unwrap()
}

fn http_status(err: NormalizationError) -> Option<u16> {
    match err {
        NormalizationError::Http(s, _) => Some(s),
        NormalizationError::CompletionError => None,
    }
}

#[test]
fn child_request_exact_one_is_detected() {
    assert!(extract_is_child_request(Some("1")));
}

#[test]
fn child_request_missing_header_is_not_child() {
    assert!(!extract_is_child_request(None));
}

#[test]
fn child_request_non_one_values_are_not_child() {
    for val in ["0", "2", "true", "yes", ""] {
        assert!(!extract_is_child_request(Some(val)), "expected not-child for value={:?}", val);
    }
}

#[test]
fn parse_skillep_tool_args_requires_stringified_json() {
    let parsed = parse_skillep_tool_args(r#"{"skillep_id":"acme/default/pricing","query":"what now"}"#).unwrap();
    assert_eq!(parsed.0, "acme/default/pricing");
    assert_eq!(parsed.1, "what now");
    assert_eq!(parse_skillep_tool_args("{bad json}").unwrap_err(), "Error: invalid tool arguments");
}

#[test]
fn split_skillep_id_requires_three_segments() {
    assert_eq!(
        split_skillep_id("acme/default/pricing").unwrap(),
        ("acme".to_string(), "default".to_string(), "pricing".to_string())
    );
    assert_eq!(
        split_skillep_id("acme/default").unwrap_err(),
        "Error: invalid skillep_id 'acme/default'. Expected format: owner_tenant/namespace/skillname. Do not retry with the same value."
    );
}

#[test]
fn split_skillep_id_rejects_empty_segments() {
    assert!(split_skillep_id("acme//pricing").is_err());
    assert!(split_skillep_id("a/b/c/d").is_err());
    let (t, n, k) = split_skillep_id("own er/ns/skill.v2").unwrap();
    assert_eq!(format!("{}/{}/{}", t, n, k), "own er/ns/skill.v2");
}

fn tool_call_response() -> ChatCompletionResponse {
    ChatCompletionResponse {
        choices: vec![ChatChoice {
            finish_reason: Some("tool_calls".to_string()),
            message: Some(ChatMessagePayload {
                content: Some(ContentValue::Null),
                tool_calls: Some(vec![RawToolCall {
                    id: Some("call_1".to_string()),
                    name: Some("call_skillep".to_string()),
                    arguments: Some("{\"skillep_id\":\"acme/default/pricing\",\"query\":\"q\"}".to_string()),
                }]),
            }),
            delta: None,
        }],
        usage: None,
    }
}

#[test]
fn parse_skill_response_detects_tool_call_and_final_text() {
    let tool_resp = tool_call_response();
    let parsed_tool = parse_skill_response(Some(&tool_resp)).unwrap();
    assert_eq!(parsed_tool.tool_calls.len(), 1);
    assert_eq!(parsed_tool.tool_calls[0].name, "call_skillep");

    let final_resp = ChatCompletionResponse {
        choices: vec![ChatChoice {
            finish_reason: Some("stop".to_string()),
            message: Some(ChatMessagePayload { content: Some(ContentValue::Text("done".to_string())), tool_calls: None }),
            delta: None,
        }],
        usage: None,
    };
    let parsed_final = parse_skill_response(Some(&final_resp)).unwrap();
    assert!(parsed_final.tool_calls.is_empty());
    assert_eq!(parsed_final.final_text.as_deref(), Some("done"));
}

#[test]
fn parse_skill_response_needs_a_choice() {
    assert!(parse_skill_response(None).is_none());
    let empty = ChatCompletionResponse { choices: vec![], usage: None };
    assert!(parse_skill_response(Some(&empty)).is_none());
}

fn child(index: usize, id: &str, result: &str, fail: Option<SkillTraceFailReason>) -> ParallelChildResult {
    ParallelChildResult {
        original_index: index,
        tool_call_id: id.to_string(),
        tool_result: result.to_string(),
        fail_reason: fail,
        usage: None,
    }
}

#[test]
fn drive_parallel_child_tasks_commits_results_in_original_order() {
    let finished = vec![
        child(1, "call_2", "second", Some(SkillTraceFailReason::TransportError)),
        child(0, "call_1", "first", None),
        child(2, "call_3", "third", None),
    ];
    let results = commit_in_original_order(&finished);
    assert_eq!(results.len(), 3);
    assert_eq!(results[0].tool_call_id, "call_1");
    assert_eq!(results[1].tool_call_id, "call_2");
    assert_eq!(results[2].tool_call_id, "call_3");
    assert_eq!(results[1].fail_reason, Some(SkillTraceFailReason::TransportError));
}

#[test]
fn drive_parallel_child_tasks_preserves_mixed_success_and_failure() {
    let finished = vec![
        child(1, "call_ok", "child ok", None),
        child(0, "call_fail", "Error: child transport error", Some(SkillTraceFailReason::TransportError)),
    ];
    let results = commit_in_original_order(&finished);
    assert_eq!(results.len(), 2);
    assert_eq!(results[0].tool_result, "Error: child transport error");
    assert_eq!(results[0].fail_reason, Some(SkillTraceFailReason::TransportError));
    assert_eq!(results[1].tool_result, "child ok");
}

#[test]
fn skill_chain_tool_definition_none_gives_unconstrained_tool() {
    assert!(matches!(skill_chain_tool_plan(None), SkillChainTools::Unconstrained));
}

#[test]
fn skill_chain_tool_definition_empty_gives_no_tools() {
    assert!(matches!(skill_chain_tool_plan(Some(&vec![])), SkillChainTools::NoTools));
}

#[test]
fn skill_chain_tool_definition_non_empty_gives_enum() {
    let allowed = vec!["acme/default/pricing".to_string()];
    match skill_chain_tool_plan(Some(&allowed)) {
        SkillChainTools::Enum(ids) => assert_eq!(ids, vec!["acme/default/pricing".to_string()]),
        other => panic!("unexpected {:?}", other),
    }
}

#[test]
fn tool_enum_is_sorted() {
    let allowed = vec!["b/x/y".to_string(), "a/x/y".to_string(), "a/x/a".to_string()];
    match skill_chain_tool_plan(Some(&allowed)) {
        SkillChainTools::Enum(ids) => assert_eq!(ids, vec!["a/x/a".to_string(), "a/x/y".to_string(), "b/x/y".to_string()]),
        other => panic!("unexpected {:?}", other),
    }
}

#[test]
fn wire_request_absent_skill_trace_is_absent() {
    let wire = make_wire(SkillTraceField::Absent);
    assert!(matches!(wire.skill_trace, SkillTraceField::Absent));
}

#[test]
fn normalize_absent_trace_gives_none_level_and_normal_mode() {
    let n = normalized(make_wire(SkillTraceField::Absent), make_test_ctx(false, None, false));
    assert_eq!(n.effective_trace, SkillTraceLevel::Off);
    assert_eq!(n.response_mode, SkillResponseMode::Normal);
    assert_eq!(n.current_depth, 1);
}

#[test]
fn normalize_trace_0_gives_none_level() {
    let n = normalized(make_wire(SkillTraceField::Present(Some(0))), make_test_ctx(false, None, false));
    assert_eq!(n.effective_trace, SkillTraceLevel::Off);
    assert_eq!(n.response_mode, SkillResponseMode::Normal);
}

#[test]
fn normalize_trace_1_gives_basic_and_sse_mode() {
    let n = normalized(make_wire(SkillTraceField::Present(Some(1))), make_test_ctx(false, None, false));
    assert_eq!(n.effective_trace, SkillTraceLevel::Basic);
    assert_eq!(n.response_mode, SkillResponseMode::SseTrace);
}

#[test]
fn normalize_trace_2_gives_verbose_when_debug_authorized() {
    let n = normalized(make_wire(SkillTraceField::Present(Some(2))), make_test_ctx(false, None, true));
    assert_eq!(n.effective_trace, SkillTraceLevel::Verbose);
    assert_eq!(n.response_mode, SkillResponseMode::SseTrace);
}

#[test]
fn normalize_trace_null_returns_400() {
    let err = normalize_skill_call(make_wire(SkillTraceField::Present(None)), &make_test_ctx(false, None, false)).unwrap_err();
    assert_eq!(http_status(err), Some(400));
}

#[test]
fn normalize_trace_out_of_range_returns_400() {
    for bad in [SkillTraceField::Present(Some(3)), SkillTraceField::Present(None)] {
        let err = normalize_skill_call(make_wire(bad), &make_test_ctx(false, None, false)).unwrap_err();
        assert_eq!(http_status(err), Some(400), "expected 400 for skill_trace={:?}", bad);
    }
}

#[test]
fn normalize_verbose_without_auth_returns_403() {
    let err = normalize_skill_call(make_wire(SkillTraceField::Present(Some(2))), &make_test_ctx(false, None, false)).unwrap_err();
    assert_eq!(http_status(err), Some(403));
}

#[test]
fn normalize_verbose_on_child_does_not_need_auth() {
    let n = normalized(make_wire(SkillTraceField::Present(Some(2))), make_test_ctx(true, Some(2), false));
    assert_eq!(n.effective_trace, SkillTraceLevel::Verbose);
}

#[test]
fn normalize_child_depth_zero_returns_completion_error() {
    assert!(matches!(
        normalize_skill_call(make_wire(SkillTraceField::Absent), &make_test_ctx(true, Some(0), false)).unwrap_err(),
        NormalizationError::CompletionError
    ));
}

#[test]
fn normalize_child_missing_depth_returns_completion_error() {
    assert!(matches!(
        normalize_skill_call(make_wire(SkillTraceField::Absent), &make_test_ctx(true, None, false)).unwrap_err(),
        NormalizationError::CompletionError
    ));
}

#[test]
fn normalize_child_valid_depth_propagates() {
    let n = normalized(make_wire(SkillTraceField::Absent), make_test_ctx(true, Some(3), false));
    assert_eq!(n.current_depth, 3);
}

#[test]
fn normalize_root_nonempty_tools_returns_400() {
    let wire = wire_with(SkillTraceField::Absent, ClientTools::Array(1), vec![]);
    let err = normalize_skill_call(wire, &make_test_ctx(false, None, false)).unwrap_err();
    assert_eq!(http_status(err), Some(400));
}

#[test]
fn normalize_root_non_array_tools_is_an_invalid_body() {
    let wire = wire_with(SkillTraceField::Absent, ClientTools::NotArray, vec![]);
    match normalize_skill_call(wire, &make_test_ctx(false, None, false)).unwrap_err() {
        NormalizationError::Http(s, m) => {
            assert_eq!(s, 400);
            assert_eq!(m, "service failure: invalid request body");
        }
        other => panic!("unexpected {:?}", other),
    }
    let empty = wire_with(SkillTraceField::Absent, ClientTools::Array(0), vec![]);
    assert!(normalize_skill_call(empty, &make_test_ctx(false, None, false)).is_ok());
}

#[test]
fn normalize_mocks_extracted_into_debug_mocks() {
    let wire = wire_with(
        SkillTraceField::Absent,
        ClientTools::Absent,
        vec![("acme/default/p".to_string(), Some("result".to_string())), ("x".to_string(), None)],
    );
    let n = normalized(wire, make_test_ctx(false, None, false));
    let found = n.debug_mocks.iter().find(|(k, _)| k == "acme/default/p").map(|(_, v)| v.as_str());
    assert_eq!(found, Some("result"));
    assert_eq!(n.debug_mocks.len(), 1);
}

#[test]
fn normalize_explicit_skill_trace_is_forwarded_to_template() {
    let n = normalized(make_wire(SkillTraceField::Present(Some(1))), make_test_ctx(false, None, false));
    assert_eq!(n.prepared_body.template.skill_trace, Some(1), "explicit skill_trace must be forwarded to the template body");
}

#[test]
fn normalize_absent_skill_trace_is_not_inserted_into_template() {
    let n = normalized(make_wire(SkillTraceField::Absent), make_test_ctx(false, None, false));
    assert_eq!(n.prepared_body.template.skill_trace, None, "absent skill_trace must not appear in the template body");
}

#[test]
fn normalize_explicit_zero_skill_trace_is_forwarded_to_template() {
    let n = normalized(make_wire(SkillTraceField::Present(Some(0))), make_test_ctx(false, None, false));
    assert_eq!(n.prepared_body.template.skill_trace, Some(0), "explicit skill_trace=0 must be forwarded, not silently dropped");
}

#[test]
fn fail_reasons_round_trip_through_their_wire_names() {
    for r in [
        SkillTraceFailReason::Timeout,
        SkillTraceFailReason::MaxDepth,
        SkillTraceFailReason::TransportError,
        SkillTraceFailReason::InvalidResponse,
    ] {
        assert_eq!(parse_fail_reason(Some(r.as_str())), Some(r));
    }
    assert_eq!(parse_fail_reason(Some("unknown_code")), None);
    assert_eq!(parse_fail_reason(None), None);
}

#[test]
fn child_fail_reason_messages() {
    assert_eq!(format_child_fail_reason(Some(SkillTraceFailReason::Timeout)), "Error: child timed out");
}

#[test]
fn usage_adds_saturating() {
    let mut a = SkillTraceTokenUsage { prompt_tokens: u64::MAX - 1, completion_tokens: 2, total_tokens: 3 };
    a.add_assign(&SkillTraceTokenUsage { prompt_tokens: 5, completion_tokens: 3, total_tokens: 4 });
    assert_eq!(a.prompt_tokens, u64::MAX);
    assert_eq!(a.completion_tokens, 5);
    assert_eq!(a.total_tokens, 7);
}

#[test]
fn log_previews_decode_leniently_and_truncate() {
    let bytes = [b'a', b'\n', 0xff, b'b'];
    assert_eq!(ixgateway::skill_chain::summarize_bytes_for_log(&bytes), "a\\n\u{FFFD}b");
    let long = vec![b'x'; 4100];
    let s = ixgateway::skill_chain::summarize_bytes_for_log(&long);
    assert!(s.ends_with("...[truncated 4 bytes]"));
    assert_eq!(s.len(), 4096 + "...[truncated 4 bytes]".len());
    assert_eq!(ixgateway::mcp_stream_server::summarize_str_for_log("a\nb"), "a\\nb");
}

#[test]
fn build_mcp_request_includes_max_tokens_and_temperature() {
    let w = build_skill_chat_request("hello", SkillTraceLevel::Basic, InternalSkillRequestProfile::McpToolLoopback);
    assert_eq!(w.max_tokens, Some(5000));
    assert!(w.zero_temperature);
    assert_eq!(w.query, "hello");
    assert_eq!(w.skill_trace, 1);
}

#[test]
fn build_child_request_omits_max_tokens_and_temperature() {
    let w = build_skill_chat_request("hello", SkillTraceLevel::Off, InternalSkillRequestProfile::ChildSkillLoopback);
    assert_eq!(w.max_tokens, None);
    assert!(!w.zero_temperature);
    assert_eq!(w.skill_trace, 0);
}

#[test]
fn build_child_request_verbose_trace_encodes_2() {
    let w = build_skill_chat_request("q", SkillTraceLevel::Verbose, InternalSkillRequestProfile::ChildSkillLoopback);
    assert_eq!(w.skill_trace, 2, "unexpected skill_trace: {:?}", w.skill_trace);
}

#[test]
fn normalize_prepares_the_model_template() {
    let wire = SkillCallWire {
        messages: vec![JsonValue::String("hi".to_string())],
        max_tokens: Some(64),
        temperature: Some(JsonNumber { as_u64: None, text: "0.5".to_string() }),
        skill_trace: SkillTraceField::Present(Some(1)),
        tools: ClientTools::Array(0),
        mocks: vec![],
        extra: vec![("model".to_string(), JsonValue::String("m".to_string()))],
    };
    let mut ctx = make_test_ctx(false, None, false);
    ctx.allowed_child_skilleps = Some(vec!["b/n/s".to_string(), "a/n/s".to_string()]);
    let n = normalized(wire, ctx);
    let t = &n.prepared_body.template;
    assert!(!t.stream);
    assert!(t.tool_choice.is_none());
    assert_eq!(t.max_tokens, Some(64));
    assert_eq!(t.temperature.as_ref().map(|x| x.text.as_str()), Some("0.5"));
    assert_eq!(t.skill_trace, Some(1));
    assert_eq!(t.extra.len(), 1);
    assert_eq!(t.extra[0].0, "model");
    match &t.tools {
        SkillChainTools::Enum(ids) => assert_eq!(ids, &vec!["a/n/s".to_string(), "b/n/s".to_string()]),
        other => panic!("unexpected {:?}", other),
    }
    assert_eq!(n.prepared_body.history.len(), 1);
    assert!(matches!(&n.prepared_body.history[0], JsonValue::String(s) if s == "hi"));

    let mut none_allowed = make_test_ctx(false, None, false);
    none_allowed.allowed_child_skilleps = Some(vec![]);
    assert!(matches!(normalized(make_wire(SkillTraceField::Absent), none_allowed).prepared_body.template.tools, SkillChainTools::NoTools));
    assert!(matches!(
        normalized(make_wire(SkillTraceField::Absent), make_test_ctx(false, None, false)).prepared_body.template.tools,
        SkillChainTools::Unconstrained
    ));
}
