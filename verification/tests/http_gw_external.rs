use ixgateway::http_gw_external::{
    base_url_verdict, check_create_request, check_update_request, create_admission, delete_existence,
    delete_listing, metrics_url_verdict, trimmed_nonblank, validate_base_url, validate_metrics_url, AdminRefusal,
    ExternalEndpointCreateRequest, ExternalEndpointUpdateRequest, ExternalEndpointView,
};
use ixgateway::external_endpoint::ExternalEndpointMgr;
use ixgateway::secret::ExternalEndpoint;

fn create_req(slug: &str, base_url: &str, model: &str, key: &str, cap: i32, metrics: Option<&str>) -> ExternalEndpointCreateRequest {
    ExternalEndpointCreateRequest {
        slug: slug.to_string(),
        base_url: base_url.to_string(),
        upstream_model: model.to_string(),
        provider_api_key: key.to_string(),
        max_concurrency: cap,
        metrics_url: metrics.map(|m| m.to_string()),
    }
}

#[test]
fn view_never_exposes_key() {
    let ep = ExternalEndpoint {
        slug: "m".to_string(),
        base_url: "https://api.provider.com/v1".to_string(),
        upstream_model: "u".to_string(),
        provider_api_key: "sk-super-secret".to_string(),
        published: true,
        max_concurrency: -1,
        last_published_by: None,
        metrics_url: None,
    };
    let view = ExternalEndpointView::from(&ep);
    assert!(view.has_api_key);
    let shown = format!("{:?}", view);
    assert!(!shown.contains("sk-super-secret"));
    assert!(!shown.contains("provider_api_key"));
}

#[test]
fn view_reports_blank_key_as_absent() {
    let ep = ExternalEndpoint {
        slug: "m".to_string(),
        base_url: "b".to_string(),
        upstream_model: "u".to_string(),
        provider_api_key: "  \t".to_string(),
        published: false,
        max_concurrency: 4,
        last_published_by: Some("root".to_string()),
        metrics_url: Some("http://x/metrics".to_string()),
    };
    let view = ExternalEndpointView::from(&ep);
    assert!(!view.has_api_key);
    assert_eq!(view.max_concurrency, 4);
    assert_eq!(view.last_published_by.as_deref(), Some("root"));
    assert_eq!(view.metrics_url.as_deref(), Some("http://x/metrics"));
}

#[test]
fn base_url_allows_http_for_in_cluster_providers() {
    assert!(validate_base_url("https://api.provider.com/v1").is_ok());
    assert!(validate_base_url("http://svc:8000/v1").is_ok());
    assert!(validate_base_url("http://vllm.default.svc.cluster.local:8000/v1").is_ok());
    assert!(validate_base_url("http://127.0.0.1:8000/v1").is_ok());
    assert!(validate_base_url("not-a-url").is_err());
}

#[test]
fn base_url_error_names_the_value() {
    assert_eq!(validate_base_url("not-a-url"), Err("invalid base_url: not-a-url".to_string()));
    assert_eq!(base_url_verdict("x", None), Err("invalid base_url: x".to_string()));
    assert_eq!(base_url_verdict("x", Some("ftp".to_string())), Ok(()));
}

#[test]
fn metrics_url_rules() {
    assert_eq!(validate_metrics_url(None, -1), Ok(()));
    assert_eq!(validate_metrics_url(Some("http://x:9/metrics"), 8), Ok(()));
    assert_eq!(validate_metrics_url(Some("https://x/metrics"), 1), Ok(()));
    assert_eq!(validate_metrics_url(Some("nope"), 8), Err("invalid metrics_url: nope".to_string()));
    assert_eq!(
        validate_metrics_url(Some("ftp://x/metrics"), 8),
        Err("metrics_url must be http or https: ftp://x/metrics".to_string())
    );
    assert_eq!(
        validate_metrics_url(Some("http://x/metrics"), 0),
        Err("metrics_url may only be set when max_concurrency > 0".to_string())
    );
    assert_eq!(
        metrics_url_verdict("u", Some("https".to_string()), -1),
        Err("metrics_url may only be set when max_concurrency > 0".to_string())
    );
}

#[test]
fn create_request_is_trimmed_and_checked_in_order() {
    let ok = check_create_request(&create_req(" m-1 ", " https://p/v1 ", " model ", " sk ", -1, Some("   "))).unwrap();
    assert_eq!(ok.slug, "m-1");
    assert_eq!(ok.base_url, "https://p/v1");
    assert_eq!(ok.upstream_model, "model");
    assert_eq!(ok.provider_api_key, "sk");
    assert_eq!(ok.max_concurrency, -1);
    assert_eq!(ok.metrics_url, None);

    assert_eq!(
        check_create_request(&create_req("a/b", "https://p/v1", "m", "k", -1, None)).unwrap_err(),
        "invalid slug (allowed: alphanumeric and -_.)"
    );
    assert_eq!(check_create_request(&create_req("a", "https://p/v1", " ", "k", -1, None)).unwrap_err(), "upstream_model is required");
    assert_eq!(check_create_request(&create_req("a", "https://p/v1", "m", "", -1, None)).unwrap_err(), "provider_api_key is required");
    assert_eq!(
        check_create_request(&create_req("a", "https://p/v1", "m", "k", -2, None)).unwrap_err(),
        "max_concurrency must be >= -1 (-1 = unlimited, 0 = reject all)"
    );
    assert_eq!(check_create_request(&create_req("a", "bad", "m", "k", -1, None)).unwrap_err(), "invalid base_url: bad");
    assert_eq!(
        check_create_request(&create_req("a", "https://p/v1", "m", "k", -1, Some(" http://x/metrics "))).unwrap_err(),
        "metrics_url may only be set when max_concurrency > 0"
    );
    let dynamic = check_create_request(&create_req("a", "https://p/v1", "m", "k", 8, Some(" http://x/metrics "))).unwrap();
    assert_eq!(dynamic.metrics_url.as_deref(), Some("http://x/metrics"));
}

#[test]
fn update_request_keeps_key_when_blank() {
    let req = ExternalEndpointUpdateRequest {
        base_url: "https://p/v1".to_string(),
        upstream_model: "m".to_string(),
        provider_api_key: Some("  ".to_string()),
        max_concurrency: 0,
        metrics_url: None,
    };
    let c = check_update_request(&req).unwrap();
    assert_eq!(c.provider_api_key, None);
    assert_eq!(c.max_concurrency, 0);
    let rotate = ExternalEndpointUpdateRequest { provider_api_key: Some(" sk-new ".to_string()), ..req.clone() };
    assert_eq!(check_update_request(&rotate).unwrap().provider_api_key.as_deref(), Some("sk-new"));
    let bad = ExternalEndpointUpdateRequest { upstream_model: "".to_string(), ..req.clone() };
    assert_eq!(check_update_request(&bad).unwrap_err(), "upstream_model is required");
    let bad_cap = ExternalEndpointUpdateRequest { max_concurrency: -7, ..req };
    assert_eq!(check_update_request(&bad_cap).unwrap_err(), "max_concurrency must be >= -1 (-1 = unlimited, 0 = reject all)");
}

#[test]
fn nonblank_trims_and_drops_blank() {
    assert_eq!(trimmed_nonblank(&Some(" a ".to_string())), Some("a".to_string()));
    assert_eq!(trimmed_nonblank(&Some("\n".to_string())), None);
    assert_eq!(trimmed_nonblank(&None), None);
}

fn mgr_with(slug: &str) -> ExternalEndpointMgr {
    ExternalEndpointMgr::New(vec![ExternalEndpoint {
        slug: slug.to_string(),
        base_url: "https://p/v1".to_string(),
        upstream_model: "u".to_string(),
        provider_api_key: "k".to_string(),
        published: false,
        max_concurrency: -1,
        last_published_by: None,
        metrics_url: None,
    }])
}

#[test]
fn create_is_refused_for_taken_slugs() {
    let mgr = mgr_with("taken");
    assert_eq!(
        create_admission(&mgr, "qwen", true),
        Err(AdminRefusal::Common("slug qwen is already a self-hosted endpoint".to_string()))
    );
    assert_eq!(
        create_admission(&mgr, "taken", false),
        Err(AdminRefusal::Common("external endpoint taken already exists".to_string()))
    );
    assert_eq!(create_admission(&mgr, "fresh", false), Ok(()));
}

#[test]
fn delete_needs_an_unlisted_existing_endpoint() {
    let mgr = mgr_with("ep");
    assert_eq!(
        delete_existence(&mgr, "gone"),
        Err(AdminRefusal::NotExist("external endpoint gone not found".to_string()))
    );
    assert_eq!(delete_existence(&mgr, "ep"), Ok(()));
    assert_eq!(
        delete_listing("ep", true),
        Err(AdminRefusal::Common(
            "endpoint ep is listed on OpenRouter; take it offline and unlist before deleting".to_string()
        ))
    );
    assert_eq!(delete_listing("ep", false), Ok(()));
}
