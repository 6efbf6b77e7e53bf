use ixgateway::session_store::SessionStore;
use ixgateway::session_turn::{
    finalize_interrupted_prompt, synthesis_step, SynthesisAction, SynthesisEvent, SynthesisState,
};
use ixgateway::json::{JsonNumber, JsonValue};
use ixgateway::secret::TenantToolRoute;
use ixgateway::session::{FunctionCall, ToolCall};
use ixgateway::session_store::Message;
use ixgateway::session_turn::{
    compaction_request_text, find_route, prompt_error_content, skill_tool_query, skill_tool_reply,
    unknown_tool_message,
    build_first_call_messages, build_synthesis_messages, build_synthesis_suffix, classify_content_json,
    compaction_summary, first_call_end, first_call_max_tokens, is_context_overflow, overflow_compaction_message,
    reply_content, retry_max_tokens, stream_line_data, synthesis_estimate, CompactionResult, ContentStreamState,
    FirstCallEnd, ParsedContentStreamLine, StreamLine, StreamTurn,
};

fn to_json(v: serde_json::Value) -> JsonValue {
    match v {
        serde_json::Value::Null => JsonValue::Null,
        serde_json::Value::Bool(b) => JsonValue::Bool(b),
        serde_json::Value::Number(n) => JsonValue::Number(JsonNumber { as_u64: n.as_u64(), text: n.to_string() }),
        serde_json::Value::String(s) => JsonValue::String(s),
        serde_json::Value::Array(a) => JsonValue::Array(a.into_iter().map(to_json).collect()),
        serde_json::Value::Object(m) => JsonValue::Object(m.into_iter().map(|(k, v)| (k, to_json(v))).collect()),
    }
}

fn parse(text: &str) -> JsonValue {
    to_json(serde_json::from_str(text).unwrap())
}

fn msg(role: &str, content: &str) -> Message {
    Message { id: "test".to_string(), role: role.to_string(), content: content.to_string(), created_at_ms: 0, parts: vec![] }
}

#[test]
fn stream_lines_are_classified() {
    assert!(matches!(stream_line_data(": ping"), StreamLine::NotData));
    assert!(matches!(stream_line_data("data: [DONE]"), StreamLine::Done));
    assert!(matches!(stream_line_data("data: {\"a\":1}"), StreamLine::Data(ref d) if d == "{\"a\":1}"));
}

#[test]
fn stream_turn_accumulates_content_tool_calls_and_usage() {
    let mut turn = StreamTurn::new();
    let fwd = turn.on_chunk(&parse(r#"{"choices":[{"delta":{"content":"Hel"}}]}"#));
    assert_eq!(fwd.as_deref(), Some("Hel"));
    turn.on_chunk(&parse(r#"{"choices":[{"delta":{"content":"lo"}}]}"#));
    turn.on_chunk(&parse(
        r#"{"choices":[{"delta":{"tool_calls":[{"index":0,"id":"tc1","function":{"name":"search","arguments":"{\"q\""}}]}}]}"#,
    ));
    turn.on_chunk(&parse(r#"{"choices":[{"delta":{"tool_calls":[{"index":0,"function":{"arguments":":1}"}}]},"finish_reason":"tool_calls"}]}"#));
    turn.on_chunk(&parse(r#"{"usage":{"prompt_tokens":42}}"#));
    assert_eq!(turn.full_content, "Hello");
    assert_eq!(turn.tool_calls.len(), 1);
    assert_eq!(turn.tool_calls[0].id, "tc1");
    assert_eq!(turn.tool_calls[0].function.name, "search");
    assert_eq!(turn.tool_calls[0].function.arguments, "{\"q\":1}");
    assert_eq!(turn.prompt_tokens, 42);
    assert_eq!(turn.finish_reason.as_deref(), Some("tool_calls"));
    assert_eq!(first_call_end(false, false, &turn), FirstCallEnd::RunTools);
    assert_eq!(first_call_end(true, false, &turn), FirstCallEnd::Interrupted);
}

#[test]
fn first_call_end_branches() {
    let empty = StreamTurn::new();
    assert_eq!(first_call_end(false, true, &empty), FirstCallEnd::StreamError { rollback_user_message: true });
    assert_eq!(first_call_end(false, false, &empty), FirstCallEnd::EmptyReply);
    let mut text = StreamTurn::new();
    text.on_chunk(&parse(r#"{"choices":[{"delta":{"content":"x"},"finish_reason":"stop"}]}"#));
    assert_eq!(first_call_end(false, false, &text), FirstCallEnd::StoreReply);
    assert_eq!(first_call_end(false, true, &text), FirstCallEnd::StreamError { rollback_user_message: false });
}

#[test]
fn content_stream_tracks_text_and_usage() {
    let mut st = ContentStreamState::new();
    let a = classify_content_json(Some(&parse(r#"{"choices":[{"delta":{"content":"ab"}}]}"#)));
    assert!(matches!(a, ParsedContentStreamLine::ContentDelta(ref d) if d == "ab"));
    assert_eq!(st.apply(&a).as_deref(), Some("ab"));
    let u = classify_content_json(Some(&parse(r#"{"usage":{"prompt_tokens":9}}"#)));
    assert!(matches!(u, ParsedContentStreamLine::Usage { prompt_tokens: 9 }));
    assert_eq!(st.apply(&u), None);
    assert!(matches!(classify_content_json(None), ParsedContentStreamLine::Ignore));
}

#[test]
fn output_caps_follow_the_context_window() {
    assert_eq!(first_call_max_tokens(0), 20000);
    assert_eq!(first_call_max_tokens(100), 512);
    assert_eq!(first_call_max_tokens(8192), 4096);
    assert_eq!(retry_max_tokens(0), 4096);
    assert_eq!(retry_max_tokens(8192), 2048);
    assert_eq!(retry_max_tokens(1000), 512);
}

#[test]
fn synthesis_estimate_prefers_the_anchor() {
    assert_eq!(synthesis_estimate(800, 150, 5000), 950);
    assert_eq!(synthesis_estimate(0, 150, 5000), 5000);
}

#[test]
fn overflow_and_compaction_outcomes() {
    assert!(is_context_overflow("x", Some(&parse(r#"{"error":{"message":"This model's maximum context length is 4096"}}"#))));
    assert!(!is_context_overflow("maximum context length", Some(&parse(r#"{"error":{"message":"other"}}"#))));
    assert!(is_context_overflow("context_length_exceeded", None));
    assert_eq!(overflow_compaction_message(CompactionResult::Compacted), None);
    assert_eq!(
        overflow_compaction_message(CompactionResult::Failed),
        Some("Synthesis failed and history compaction also failed")
    );
    let (r, s) = compaction_summary(Some("  sum  "));
    assert_eq!(r, CompactionResult::Compacted);
    assert_eq!(s.as_deref(), Some("sum"));
    assert_eq!(compaction_summary(Some("   ")).0, CompactionResult::NoChange);
    assert_eq!(reply_content(Some(" hi ")).as_deref(), Some("hi"));
    assert_eq!(reply_content(None), None);
}

#[test]
fn message_vectors_have_their_system_prompt_and_suffix() {
    let history = vec![msg("user", "q")];
    let first = build_first_call_messages(&history);
    assert_eq!(first.len(), 2);
    assert_eq!(first[0].role, "system");
    assert_eq!(first[1].role, "user");
    let tool_calls = vec![ToolCall {
        id: "tc1".to_string(),
        call_type: "function".to_string(),
        function: FunctionCall { name: "search".to_string(), arguments: "{\"query\":\"x\"}".to_string() },
    }];
    let suffix = build_synthesis_suffix(&tool_calls, &[("tc1".to_string(), "result".to_string())]);
    assert_eq!(suffix.len(), 2);
    assert_eq!(suffix[0].role, "assistant");
    assert_eq!(suffix[1].role, "tool");
    let rebuilt = build_synthesis_messages(&history, &suffix);
    assert_eq!(rebuilt.len(), 4);
    assert_eq!(rebuilt[0].role, "system");
    assert_eq!(rebuilt[3].role, "tool");
}

#[test]
fn interrupted_prompts_are_finalized_in_the_store() {
    let mut store = SessionStore::New();
    let s = store.CreateSession("t".to_string(), "k".to_string(), "m".to_string());
    store.AddMessage(&s.id, Message { id: "u1".to_string(), ..msg("user", "q") });
    finalize_interrupted_prompt(&mut store, &s.id, "u1", "<think>x</think>", &[]);
    assert!(store.GetSession(&s.id).unwrap().messages.is_empty());

    store.AddMessage(&s.id, Message { id: "u2".to_string(), ..msg("user", "q") });
    finalize_interrupted_prompt(&mut store, &s.id, "u2", "<think>x</think>partial", &[]);
    let got = store.GetSession(&s.id).unwrap();
    assert_eq!(got.messages.len(), 2);
    assert_eq!(got.messages[1].role, "assistant");
    assert_eq!(got.messages[1].content, "partial");

    let calls = vec![ToolCall {
        id: "tc1".to_string(),
        call_type: "function".to_string(),
        function: FunctionCall { name: "search".to_string(), arguments: "{}".to_string() },
    }];
    finalize_interrupted_prompt(&mut store, &s.id, "u3", "", &calls);
    let got = store.GetSession(&s.id).unwrap();
    assert_eq!(got.messages.last().unwrap().content, "Request interrupted after tool execution before a final answer was produced.");
    assert_eq!(got.model_messages.len(), 3);
}

#[test]
fn compaction_requests_update_a_previous_summary() {
    let fresh = vec![msg("system", "You are"), msg("user", "q"), msg("assistant", "a")];
    assert_eq!(compaction_request_text(&fresh), "Summarize this conversation history:\n\nuser: q\n\nassistant: a");
    let update = vec![msg("system", "## Summary\nold"), msg("user", "q")];
    assert_eq!(
        compaction_request_text(&update),
        "Update the summary below with the new conversation history.\n<previous-summary>\n## Summary\nold\n</previous-summary>\n\nNew history:\nuser: q"
    );
}

fn route(name: &str) -> TenantToolRoute {
    TenantToolRoute {
        tool_name: name.to_string(),
        description: None,
        owner_tenant: "a".to_string(),
        owner_namespace: "n".to_string(),
        skillname: name.to_string(),
    }
}

#[test]
fn tool_calls_are_routed_by_name() {
    let routes = vec![route("pricing"), route("search"), route("pricing")];
    assert_eq!(find_route(&routes, "pricing"), Some(0));
    assert_eq!(find_route(&routes, "search"), Some(1));
    assert_eq!(find_route(&routes, "web"), None);
    assert_eq!(unknown_tool_message("web"), "Unknown tool: web");
    assert_eq!(skill_tool_query("{\"query\":\"x\"}", Some(&parse("{\"query\":\"x\"}"))), "x");
    assert_eq!(skill_tool_query("raw", None), "raw");
    assert_eq!(
        skill_tool_reply(&parse(r#"{"choices":[{"message":{"content":"<think>t</think>answer"}}]}"#)),
        "answer"
    );
    assert_eq!(skill_tool_reply(&parse(r#"{"choices":[]}"#)), "No content in skill response");
    assert_eq!(prompt_error_content("boom"), "Model error: boom");
    assert!(prompt_error_content("Endpoint not found").starts_with("The selected model is no longer available"));
}

fn fail_of(a: SynthesisAction) -> (String, String) {
    match a {
        SynthesisAction::Fail { error, message } => (error, message),
        other => panic!("unexpected {:?}", other),
    }
}

#[test]
fn synthesis_phase_runs_preflight_send_and_outcomes_in_order() {
    let (s, a) = synthesis_step(SynthesisState::AfterTools, SynthesisEvent::Estimate { estimate: 10, ctx: 100, ratio_pct: 80 });
    assert_eq!(s, SynthesisState::AwaitingSynthesis);
    assert!(matches!(a, SynthesisAction::SendSynthesis));
    let (s, a) = synthesis_step(SynthesisState::AfterTools, SynthesisEvent::Estimate { estimate: 80, ctx: 100, ratio_pct: 80 });
    assert_eq!(s, SynthesisState::CompactedForPreflight);
    assert!(matches!(a, SynthesisAction::CompactHistory));
    let (s, a) = synthesis_step(s, SynthesisEvent::Estimate { estimate: 90, ctx: 100, ratio_pct: 80 });
    assert_eq!(s, SynthesisState::Done);
    assert_eq!(fail_of(a).0, "tool_results_too_large");
    let (s, a) = synthesis_step(SynthesisState::AwaitingSynthesis, SynthesisEvent::Completed { content_empty: false });
    assert_eq!(s, SynthesisState::Done);
    assert!(matches!(a, SynthesisAction::StoreReply));
    let (_, a) = synthesis_step(SynthesisState::AwaitingSynthesis, SynthesisEvent::Completed { content_empty: true });
    assert_eq!(fail_of(a), ("empty_response".to_string(), "Model returned no content".to_string()));
    let (_, a) = synthesis_step(SynthesisState::AwaitingSynthesis, SynthesisEvent::SendFailed("timeout".to_string()));
    assert_eq!(fail_of(a), ("upstream_error".to_string(), "Skill synthesis call failed: timeout".to_string()));
    let (s, a) = synthesis_step(SynthesisState::AwaitingSynthesis, SynthesisEvent::Rejected { status: 400, overflow: true });
    assert_eq!(s, SynthesisState::CompactingForOverflow);
    assert!(matches!(a, SynthesisAction::CompactHistory));
    let (_, a) = synthesis_step(s, SynthesisEvent::Compaction(CompactionResult::Compacted));
    assert!(matches!(a, SynthesisAction::RetryAfterCompaction));
    let (_, a) = synthesis_step(SynthesisState::CompactingForOverflow, SynthesisEvent::Compaction(CompactionResult::NoOp));
    assert_eq!(
        fail_of(a).1,
        "Request exceeds context window; history is too short to compact further"
    );
    let (_, a) = synthesis_step(SynthesisState::AwaitingSynthesis, SynthesisEvent::Rejected { status: 500, overflow: true });
    assert_eq!(fail_of(a).1, "Skill synthesis call failed");
    let (_, a) = synthesis_step(SynthesisState::AwaitingSynthesis, SynthesisEvent::StreamInterrupted);
    assert!(matches!(a, SynthesisAction::FinalizeInterrupted));
    let (s, a) = synthesis_step(SynthesisState::Done, SynthesisEvent::Cancelled);
    assert_eq!(s, SynthesisState::Done);
    assert!(matches!(a, SynthesisAction::Ignore));
}

#[test]
fn synthesis_retry_after_overflow_compaction_has_its_own_outcomes() {
    let (s, a) = synthesis_step(SynthesisState::CompactingForOverflow, SynthesisEvent::Compaction(CompactionResult::Compacted));
    assert_eq!(s, SynthesisState::Retrying);
    assert!(matches!(a, SynthesisAction::RetryAfterCompaction));
    let (d, a) = synthesis_step(s, SynthesisEvent::Rejected { status: 400, overflow: true });
    assert_eq!(d, SynthesisState::Done);
    assert_eq!(
        fail_of(a),
        (
            "upstream_error".to_string(),
            "Synthesis failed after compaction; tool results may exceed context window".to_string()
        )
    );
    let (_, a) = synthesis_step(SynthesisState::Retrying, SynthesisEvent::Rejected { status: 502, overflow: false });
    assert_eq!(fail_of(a).1, "Skill synthesis call failed");
    let (_, a) = synthesis_step(SynthesisState::Retrying, SynthesisEvent::Completed { content_empty: false });
    assert!(matches!(a, SynthesisAction::StoreReply));
    let (_, a) = synthesis_step(SynthesisState::Retrying, SynthesisEvent::Completed { content_empty: true });
    assert_eq!(fail_of(a).0, "empty_response");
    let (_, a) = synthesis_step(SynthesisState::Retrying, SynthesisEvent::StreamFailed("reset".to_string()));
    assert_eq!(fail_of(a), ("stream_error".to_string(), "Skill synthesis call failed: reset".to_string()));
    let (_, a) = synthesis_step(SynthesisState::Retrying, SynthesisEvent::Cancelled);
    assert!(matches!(a, SynthesisAction::FinalizeInterrupted));
}
