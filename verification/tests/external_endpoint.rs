use ixgateway::external_endpoint::{
    endpoint_published_gate, external_model_entries, external_published_gate, external_sub_path,
    forwards_response_header, is_valid_slug, transport_failure_status, upstream_url, ExternalEndpointMgr,
    ExternalTimeouts, GatewayTimeoutConfig,
};
use ixgateway::secret::ExternalEndpoint;

fn ep(slug: &str, published: bool) -> ExternalEndpoint {
    ExternalEndpoint {
        slug: slug.to_string(),
        base_url: "https://api.provider.com/v1".to_string(),
        upstream_model: "u".to_string(),
        provider_api_key: "sk-secret".to_string(),
        published,
        max_concurrency: -1,
        last_published_by: None,
        metrics_url: None,
    }
}

#[test]
fn published_gate_serves_only_when_published() {
    assert!(external_published_gate(&ep("m", true)).is_ok());
    let err = external_published_gate(&ep("m", false)).unwrap_err();
    assert!(err.contains("unpublished"), "got: {err}");
}

#[test]
fn published_gate_branches_on_kind() {
    assert!(endpoint_published_gate(Some(&ep("m", true))).unwrap().is_ok());
    assert!(endpoint_published_gate(Some(&ep("m", false))).unwrap().is_err());
    assert!(endpoint_published_gate(None).is_none());
}

#[test]
fn model_entries_include_only_published() {
    let eps = vec![ep("pub-a", true), ep("unpub", false), ep("pub-b", true)];
    let entries = external_model_entries(&eps, 42);
    let ids: Vec<&str> = entries.iter().map(|e| e.id.as_str()).collect();
    assert_eq!(ids, vec!["pub-a", "pub-b"]);
    assert!(entries.iter().all(|e| e.created == 42));
    assert!(entries.iter().all(|e| e.object == "model"));
    assert!(entries.iter().all(|e| e.owned_by == "inferx"));
}

#[test]
fn slug_charset() {
    assert!(is_valid_slug("gpt-4o_mini.v1"));
    assert!(is_valid_slug("Model123"));
    assert!(!is_valid_slug(""));
    assert!(!is_valid_slug("a/b"));
    assert!(!is_valid_slug("../etc"));
    assert!(!is_valid_slug("a b"));
    assert!(!is_valid_slug("a?b=1"));
    assert!(!is_valid_slug("a#b"));
    assert!(!is_valid_slug("a\nb"));
}

#[test]
fn sub_path_strips_endpoints_and_v1_for_both_routes() {
    assert_eq!(external_sub_path("/endpoints/v1/chat/completions"), "/chat/completions");
    assert_eq!(external_sub_path("/endpoints/v1/completions"), "/completions");
    assert_eq!(external_sub_path("/v1/chat/completions"), "/chat/completions");
    assert_eq!(external_sub_path("/v1/completions"), "/completions");
}

#[test]
fn sub_path_never_double_prefixes_v1() {
    for p in ["/endpoints/v1/completions", "/v1/completions", "/endpoints/v1/chat/completions"] {
        assert!(!external_sub_path(p).starts_with("/v1"), "{p} would produce a doubled /v1/v1 upstream");
    }
}

#[test]
fn sub_path_keeps_paths_without_known_prefixes() {
    assert_eq!(external_sub_path("/other/path"), "/other/path");
    assert_eq!(external_sub_path(""), "");
}

#[test]
fn timeouts_come_from_the_gateway_config() {
    let cfg = GatewayTimeoutConfig {
        external_connect_timeout_secs: 3,
        external_response_header_timeout_secs: 30,
        external_idle_timeout_secs: 120,
    };
    let t = ExternalTimeouts::from_gateway_config(&cfg);
    assert_eq!((t.connect_secs, t.response_header_secs, t.idle_secs), (3, 30, 120));
}

#[test]
fn upstream_url_joins_base_without_trailing_slash() {
    assert_eq!(upstream_url("https://api.provider.com/v1/", "/chat/completions"), "https://api.provider.com/v1/chat/completions");
    assert_eq!(upstream_url("http://127.0.0.1:9/v1//", "/completions"), "http://127.0.0.1:9/v1/completions");
    assert_eq!(upstream_url("https://api.provider.com/v1", "/completions"), "https://api.provider.com/v1/completions");
}

#[test]
fn content_length_is_not_forwarded_in_any_case() {
    assert!(!forwards_response_header("content-length"));
    assert!(!forwards_response_header("Content-Length"));
    assert!(forwards_response_header("content-type"));
    assert!(forwards_response_header("x-request-id"));
}

#[test]
fn transport_failures_map_to_gateway_statuses() {
    assert_eq!(transport_failure_status(true), 504);
    assert_eq!(transport_failure_status(false), 502);
}

#[test]
fn mirror_reads_back_what_was_written() {
    let mut m = ExternalEndpointMgr::empty();
    m.upsert_mirror(ep("b", false));
    m.upsert_mirror(ep("a", true));
    assert!(m.Contains("a"));
    assert!(m.Get("b").map(|e| !e.published).unwrap());
    let mut b2 = ep("b", true);
    b2.last_published_by = Some("admin".to_string());
    m.upsert_mirror(b2);
    let got = m.Get("b").unwrap();
    assert!(got.published);
    assert_eq!(got.last_published_by.as_deref(), Some("admin"));
    let slugs: Vec<String> = m.List().into_iter().map(|e| e.slug).collect();
    assert_eq!(slugs, vec!["a".to_string(), "b".to_string()]);
    m.remove_mirror("a");
    assert!(!m.Contains("a"));
    assert!(m.Get("a").is_none());
    assert_eq!(m.List().len(), 1);
}

#[test]
fn mirror_loads_rows_with_later_rows_winning() {
    let rows = vec![ep("zeta", false), ep("alpha", false), ep("zeta", true)];
    let m = ExternalEndpointMgr::New(rows);
    let list = m.List();
    let slugs: Vec<&str> = list.iter().map(|e| e.slug.as_str()).collect();
    assert_eq!(slugs, vec!["alpha", "zeta"]);
    assert!(m.Get("zeta").unwrap().published);
}
