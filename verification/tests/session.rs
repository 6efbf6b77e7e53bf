use ixgateway::secret::TenantToolRoute;
use ixgateway::session::{agent_model_endpoint, build_tools_from_routes, compaction_tail_start, postturn_should_compact};
use ixgateway::session::{
    agent_base_url, agent_endpoint_url, caller_tenant, classify_endpoint_dispatch_error, clamp_postturn_ratio,
    create_session_check, estimate_synthesis_tokens, estimate_tokens_from_bytes, interrupted_turn_storage_decision,
    normalize_agent_slug, postturn_compaction_threshold, preflight_decision, ratio_override, resolve_context_length,
    saturating_mul, session_access, strip_think_tags, unavailable_model_message, CreateSessionRefusal, DefaultLimit,
    FunctionCall, InterruptedTurnStorageDecision, SessionAccess, ToolCall,
};

fn search_call() -> ToolCall {
    ToolCall {
        id: "tc1".to_string(),
        call_type: "function".to_string(),
        function: FunctionCall { name: "search".to_string(), arguments: "{\"query\":\"x\"}".to_string() },
    }
}

#[test]
fn preflight_decision_disabled_when_ctx_zero() {
    assert!(!preflight_decision(u64::MAX, 0, 90));
}

#[test]
fn preflight_decision_threshold_crossing() {
    assert!(!preflight_decision(899, 1000, 90));
    assert!(preflight_decision(900, 1000, 90));
    assert!(preflight_decision(901, 1000, 90));
}

#[test]
fn preflight_decision_saturates_instead_of_overflowing() {
    assert!(preflight_decision(u64::MAX / 100, u64::MAX, 100));
    assert!(!preflight_decision(u64::MAX / 100 - 1, u64::MAX, 100));
    assert_eq!(saturating_mul(u64::MAX, 2), u64::MAX);
    assert_eq!(saturating_mul(7, 6), 42);
}

#[test]
fn token_estimate_is_bytes_over_four_rounded_up() {
    assert_eq!(estimate_tokens_from_bytes(3), (3 + 3) / 4);
    assert_eq!(estimate_tokens_from_bytes(0), 0);
    assert_eq!(estimate_tokens_from_bytes(8), 2);
    assert_eq!(estimate_tokens_from_bytes(9), 3);
}

#[test]
fn synthesis_estimate_adds_delta_to_anchor() {
    assert_eq!(estimate_synthesis_tokens(1000, 7), 1007);
    assert!(estimate_synthesis_tokens(1000, 0) >= 1000);
}

#[test]
fn interrupted_turn_drops_pure_thinking_when_no_tools_started() {
    match interrupted_turn_storage_decision("<think>planning</think>", &[]) {
        InterruptedTurnStorageDecision::DropUserPrompt => {}
        _ => panic!("expected pure-thinking interrupted turn to be dropped"),
    }
}

#[test]
fn interrupted_turn_keeps_visible_assistant_text_only() {
    match interrupted_turn_storage_decision("<think>planning</think>Partial visible answer", &[]) {
        InterruptedTurnStorageDecision::StoreAssistantText(text) => {
            assert_eq!(text, "Partial visible answer");
        }
        _ => panic!("expected interrupted visible output to be kept"),
    }
}

#[test]
fn interrupted_turn_after_tools_without_visible_text_stores_marker() {
    let tool_calls = vec![search_call()];
    match interrupted_turn_storage_decision("<think>planning</think>", &tool_calls) {
        InterruptedTurnStorageDecision::StoreInterruptedMarker => {}
        _ => panic!("expected interrupted tool-started turn to store a marker"),
    }
}

#[test]
fn think_tags_are_stripped() {
    assert_eq!(strip_think_tags("<think>a</think>b"), "b");
    assert_eq!(strip_think_tags("plain"), "plain");
}

#[test]
fn postturn_ratio_and_threshold() {
    assert_eq!(postturn_compaction_threshold(0, 80), None);
    assert_eq!(postturn_compaction_threshold(1000, 80), Some(800));
    assert!(clamp_postturn_ratio(500) <= 100);
}

#[test]
fn ratio_override_prefers_a_valid_env_value() {
    assert_eq!(ratio_override(None, 85), 85);
    assert_eq!(ratio_override(Some("70"), 85), 70);
    assert_eq!(ratio_override(Some("abc"), 85), 85);
}

#[test]
fn context_length_falls_back() {
    assert_eq!(resolve_context_length(false, Some(4096)), 4096);
    assert!(resolve_context_length(true, Some(4096)) > 0);
}

#[test]
fn caller_tenant_prefers_restricted_then_default() {
    assert_eq!(caller_tenant(&Some("r".to_string()), &Some("d".to_string())), "r");
    assert_eq!(caller_tenant(&None, &Some("d".to_string())), "d");
    assert_eq!(caller_tenant(&None, &None), "");
    assert_eq!(DefaultLimit(), 50);
}

#[test]
fn agent_slug_is_normalized() {
    assert_eq!(normalize_agent_slug(Some("  /endpoints/qwen ")), Some("qwen".to_string()));
    assert_eq!(normalize_agent_slug(Some("//qwen")), Some("qwen".to_string()));
    assert_eq!(normalize_agent_slug(Some("ns/model")), Some("ns/model".to_string()));
    assert_eq!(normalize_agent_slug(Some("   ")), None);
    assert_eq!(normalize_agent_slug(None), None);
}

#[test]
fn session_creation_needs_tenant_and_model() {
    assert_eq!(create_session_check("", Some("m")), Err(CreateSessionRefusal::NoTenant));
    assert_eq!(create_session_check("t", None), Err(CreateSessionRefusal::NoAgentModel));
    assert_eq!(create_session_check("t", Some("/endpoints/m")), Ok("m".to_string()));
    assert_eq!(unavailable_model_message("m", "unpublished"), "Selected model 'm' is not available: unpublished");
}

#[test]
fn session_access_hides_foreign_sessions_on_delete() {
    assert_eq!(session_access(Some("t"), "t", false), SessionAccess::Owner);
    assert_eq!(session_access(Some("u"), "t", false), SessionAccess::Forbidden);
    assert_eq!(session_access(Some("u"), "t", true), SessionAccess::NotFound);
    assert_eq!(session_access(None, "t", false), SessionAccess::NotFound);
}

#[test]
fn agent_urls_are_built_from_parts() {
    assert_eq!(
        agent_endpoint_url("http://gw", "acme", "/endpoints/qwen/"),
        "http://gw/funccall/acme/endpoints/qwen/v1/chat/completions"
    );
    assert_eq!(agent_endpoint_url("http://gw", "acme", "ns/model"), "http://gw/funccall/acme/ns/model/v1/chat/completions");
    assert_eq!(agent_endpoint_url("http://gw", "acme", " https://x/y "), "https://x/y");
    assert_eq!(agent_endpoint_url("http://gw", "acme", "raw"), "http://gw/raw");
    assert_eq!(agent_base_url(None, 4000), "http://127.0.0.1:4000");
    assert_eq!(agent_base_url(Some(" https://api.example.com// "), 4000), "https://api.example.com");
}

#[test]
fn unavailable_endpoint_errors_are_recognized() {
    assert!(classify_endpoint_dispatch_error("everything is fine").is_none());
    assert_eq!(
        classify_endpoint_dispatch_error("Endpoint Not Found: acme/x").as_deref(),
        Some("The selected model is no longer available (it may have been unpublished). Pick a model and start a new session.")
    );
    assert!(classify_endpoint_dispatch_error("model IS UNPUBLISHED").is_some());
}

#[test]
fn tools_mirror_routes() {
    let routes = vec![
        TenantToolRoute {
            tool_name: "pricing".to_string(),
            description: Some("prices".to_string()),
            owner_tenant: "a".to_string(),
            owner_namespace: "n".to_string(),
            skillname: "pricing".to_string(),
        },
        TenantToolRoute {
            tool_name: "search".to_string(),
            description: None,
            owner_tenant: "a".to_string(),
            owner_namespace: "n".to_string(),
            skillname: "search".to_string(),
        },
    ];
    let tools = build_tools_from_routes(&routes);
    assert_eq!(tools.len(), 2);
    assert_eq!((tools[0].name.as_str(), tools[0].description.as_str()), ("pricing", "prices"));
    assert_eq!((tools[1].name.as_str(), tools[1].description.as_str()), ("search", ""));
}

#[test]
fn compaction_keeps_a_budgeted_recent_tail() {
    assert_eq!(compaction_tail_start(&vec![10, 10, 10, 10], 100), 0);
    assert_eq!(compaction_tail_start(&vec![10, 10, 10, 10], 25), 2);
    assert_eq!(compaction_tail_start(&vec![100, 100, 100], 10), 1);
    assert_eq!(compaction_tail_start(&vec![], 10), 0);
}

#[test]
fn agent_model_endpoint_uses_the_endpoints_route() {
    assert_eq!(agent_model_endpoint("http://gw", "acme", "qwen"), "http://gw/funccall/acme/endpoints/qwen/v1/chat/completions");
    assert_eq!(agent_model_endpoint("http://gw", "acme", " /endpoints/qwen"), "http://gw/funccall/acme/endpoints/qwen/v1/chat/completions");
    assert_eq!(agent_model_endpoint("http://gw", "acme", "ns/model/"), "http://gw/funccall/acme/endpoints/ns/model/v1/chat/completions");
    assert_eq!(agent_model_endpoint("http://gw", "acme", "https://x/y"), "http://gw/funccall/acme/endpoints/https://x/y/v1/chat/completions");
    assert_eq!(agent_model_endpoint("http://gw", "acme", "  "), "http://gw/funccall/acme/endpoints//v1/chat/completions");
}

#[test]
fn post_turn_compaction_needs_reported_tokens_over_the_threshold() {
    assert!(!postturn_should_compact(0, 1000, 80));
    assert!(!postturn_should_compact(799, 1000, 80));
    assert!(postturn_should_compact(800, 1000, 80));
    assert!(!postturn_should_compact(5000, 0, 80));
}
