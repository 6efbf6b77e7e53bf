//! Administration of external endpoints: the create and update requests, the
//! rules they are checked against, and the view of an endpoint that is shown
//! to an administrator (which never carries the provider key).
use vstd::prelude::*;
use crate::external_endpoint::{is_valid_slug, valid_slug, ExternalEndpointMgr};
use crate::secret::ExternalEndpoint;
use crate::text::{chars_of, clone_opt, opt_view, push_str, str_eq, to_string, trim, trim_str};

verus! {

/// A request to create an external endpoint.
#[derive(Debug, Clone)]
pub struct ExternalEndpointCreateRequest {
    pub slug: String,
    pub base_url: String,
    pub upstream_model: String,
    pub provider_api_key: String,
    /// In-flight cap; a request that does not state one asks for `-1`
    /// (unlimited).
    pub max_concurrency: i32,
    /// Opt-in to the dynamic ceiling controller; absent means static.
    pub metrics_url: Option<String>,
}

/// A request to update an external endpoint.
#[derive(Debug, Clone)]
pub struct ExternalEndpointUpdateRequest {
    pub base_url: String,
    pub upstream_model: String,
    /// Absent or blank keeps the stored key; a non-blank value rotates it.
    pub provider_api_key: Option<String>,
    /// In-flight cap (`-1` unlimited, `0` reject all); always authoritative.
    pub max_concurrency: i32,
    /// `None` (or blank) sets the endpoint back to a static ceiling.
    pub metrics_url: Option<String>,
}

/// What an administrator sees of an external endpoint. It never carries the
/// provider key, only whether one is set.
#[derive(Debug, Clone)]
pub struct ExternalEndpointView {
    pub slug: String,
    pub base_url: String,
    pub upstream_model: String,
    pub published: bool,
    pub has_api_key: bool,
    pub max_concurrency: i32,
    pub last_published_by: Option<String>,
    pub metrics_url: Option<String>,
}

impl ExternalEndpointView {
    /// The view of endpoint `e`: its fields but the key, and whether the key
    /// is non-blank.
    pub fn from(e: &ExternalEndpoint) -> (v: Self)
        ensures
            v.slug@ == e.slug@,
            v.base_url@ == e.base_url@,
            v.upstream_model@ == e.upstream_model@,
            v.published == e.published,
            v.has_api_key == (trim(e.provider_api_key@).len() > 0),
            v.max_concurrency == e.max_concurrency,
            opt_view(v.last_published_by) == opt_view(e.last_published_by),
            opt_view(v.metrics_url) == opt_view(e.metrics_url),
    {
        let key = trim_str(e.provider_api_key.as_str());
        let key_chars = chars_of(key.as_str());
        ExternalEndpointView {
            slug: e.slug.clone(),
            base_url: e.base_url.clone(),
            upstream_model: e.upstream_model.clone(),
            published: e.published,
            has_api_key: key_chars.len() > 0,
            max_concurrency: e.max_concurrency,
            last_published_by: clone_opt(&e.last_published_by),
            metrics_url: clone_opt(&e.metrics_url),
        }
    }
}

// ---------------------------------------------------------------------------
// URL checks
// ---------------------------------------------------------------------------

/// The scheme of the URL that `url::Url::parse` reads from `input`, or `None`
/// where `input` does not parse as a URL.
pub uninterp spec fn parsed_url_scheme(input: Seq<char>) -> Option<Seq<char>>;

/// Parses `input` with `url::Url::parse` and returns the parsed URL's scheme
/// (`Url::scheme`), or `None` on a parse error. The contract only names the
/// result: which strings parse, and to which scheme, is left to the crate.
#[verifier::external_body]
fn url_scheme(input: &str) -> (r: Option<String>)
    ensures
        opt_view(r) == parsed_url_scheme(input@),
{
    match url::Url::parse(input) {
        Ok(u) => Some(u.scheme().to_string()),
        Err(_) => None,
    }
}

/// An error message: `prefix` followed by `subject`.
fn message_with(prefix: &str, subject: &str) -> (m: String)
    ensures
        m@ == prefix@ + subject@,
{
    let mut m = to_string(prefix);
    push_str(&mut m, subject);
    m
}

/// A `Result` with a string error, by view.
pub open spec fn verdict_view(r: Result<(), String>) -> Result<(), Seq<char>> {
    match r {
        Ok(()) => Ok(()),
        Err(m) => Err(m@),
    }
}

/// The base-URL rule, given what the URL parser made of it: any URL that
/// parses is accepted (plain `http` included, for in-cluster providers).
pub open spec fn base_url_rule(base_url: Seq<char>, scheme: Option<Seq<char>>) -> Result<(), Seq<char>> {
    match scheme {
        Some(_) => Ok(()),
        None => Err("invalid base_url: "@ + base_url),
    }
}

/// Applies the base-URL rule to `base_url` and the scheme that the URL parser
/// gave for it.
pub fn base_url_verdict(base_url: &str, scheme: Option<String>) -> (r: Result<(), String>)
    ensures
        verdict_view(r) == base_url_rule(base_url@, opt_view(scheme)),
{
    match scheme {
        Some(_) => Ok(()),
        None => Err(message_with("invalid base_url: ", base_url)),
    }
}

/// Checks that `base_url` parses as a URL.
pub fn validate_base_url(base_url: &str) -> (r: Result<(), String>)
    ensures
        verdict_view(r) == base_url_rule(base_url@, parsed_url_scheme(base_url@)),
{
    let scheme = url_scheme(base_url);
    base_url_verdict(base_url, scheme)
}

/// The metrics-URL rule, given what the URL parser made of it: it must parse,
/// have scheme `http` or `https`, and the endpoint must have a finite positive
/// cap for the controller to work within.
pub open spec fn metrics_url_rule(
    metrics_url: Seq<char>,
    scheme: Option<Seq<char>>,
    max_concurrency: i32,
) -> Result<(), Seq<char>> {
    match scheme {
        None => Err("invalid metrics_url: "@ + metrics_url),
        Some(sc) => if sc != "http"@ && sc != "https"@ {
            Err("metrics_url must be http or https: "@ + metrics_url)
        } else if max_concurrency <= 0 {
            Err("metrics_url may only be set when max_concurrency > 0"@)
        } else {
            Ok(())
        },
    }
}

/// Applies the metrics-URL rule to `metrics_url`, the scheme that the URL
/// parser gave for it, and the endpoint's cap.
pub fn metrics_url_verdict(metrics_url: &str, scheme: Option<String>, max_concurrency: i32) -> (r:
    Result<(), String>)
    ensures
        verdict_view(r) == metrics_url_rule(metrics_url@, opt_view(scheme), max_concurrency),
{
    match scheme {
        None => Err(message_with("invalid metrics_url: ", metrics_url)),
        Some(sc) => {
            if !str_eq(sc.as_str(), "http") && !str_eq(sc.as_str(), "https") {
                Err(message_with("metrics_url must be http or https: ", metrics_url))
            } else if max_concurrency <= 0 {
                Err(to_string("metrics_url may only be set when max_concurrency > 0"))
            } else {
                Ok(())
            }
        },
    }
}

/// The metrics-URL check of an optional URL: absent is always accepted.
pub open spec fn optional_metrics_url_rule(metrics_url: Option<Seq<char>>, max_concurrency: i32) -> Result<
    (),
    Seq<char>,
> {
    match metrics_url {
        None => Ok(()),
        Some(u) => metrics_url_rule(u, parsed_url_scheme(u), max_concurrency),
    }
}

/// Checks an optional metrics URL against the endpoint's cap.
pub fn validate_metrics_url(metrics_url: Option<&str>, max_concurrency: i32) -> (r: Result<(), String>)
    ensures
        verdict_view(r) == optional_metrics_url_rule(
            match metrics_url {
                Some(u) => Some(u@),
                None => None,
            },
            max_concurrency,
        ),
{
    match metrics_url {
        None => Ok(()),
        Some(u) => {
            let scheme = url_scheme(u);
            metrics_url_verdict(u, scheme, max_concurrency)
        },
    }
}

// ---------------------------------------------------------------------------
// Request checks
// ---------------------------------------------------------------------------

/// An optional string trimmed, with a blank value read as absent.
pub open spec fn nonblank(o: Option<Seq<char>>) -> Option<Seq<char>> {
    match o {
        Some(s) => if trim(s).len() > 0 {
            Some(trim(s))
        } else {
            None
        },
        None => None,
    }
}

/// Trims an optional string and drops it when blank.
pub fn trimmed_nonblank(o: &Option<String>) -> (r: Option<String>)
    ensures
        opt_view(r) == nonblank(opt_view(*o)),
{
    match o {
        Some(s) => {
            let t = trim_str(s.as_str());
            let tc = chars_of(t.as_str());
            if tc.len() > 0 {
                Some(t)
            } else {
                None
            }
        },
        None => None,
    }
}

/// The stored settings of an endpoint, as a valid create request gives them.
#[derive(Debug, Clone)]
pub struct EndpointSettings {
    pub slug: String,
    pub base_url: String,
    pub upstream_model: String,
    pub provider_api_key: String,
    pub max_concurrency: i32,
    pub metrics_url: Option<String>,
}

/// The settings by view.
pub open spec fn settings_view(s: EndpointSettings) -> (
    Seq<char>,
    Seq<char>,
    Seq<char>,
    Seq<char>,
    i32,
    Option<Seq<char>>,
) {
    (s.slug@, s.base_url@, s.upstream_model@, s.provider_api_key@, s.max_concurrency, opt_view(s.metrics_url))
}

/// The message for a cap below `-1`.
pub open spec fn cap_message() -> Seq<char> {
    "max_concurrency must be >= -1 (-1 = unlimited, 0 = reject all)"@
}

/// What a create request gives: the first rule it breaks, in the order slug,
/// model, key, cap, base URL, metrics URL; else its fields trimmed (a blank
/// metrics URL read as absent).
pub open spec fn create_rule(req: ExternalEndpointCreateRequest) -> Result<
    (Seq<char>, Seq<char>, Seq<char>, Seq<char>, i32, Option<Seq<char>>),
    Seq<char>,
> {
    let slug = trim(req.slug@);
    let model = trim(req.upstream_model@);
    let base = trim(req.base_url@);
    let key = trim(req.provider_api_key@);
    let metrics = nonblank(opt_view(req.metrics_url));
    if !valid_slug(slug) {
        Err("invalid slug (allowed: alphanumeric and -_.)"@)
    } else if model.len() == 0 {
        Err("upstream_model is required"@)
    } else if key.len() == 0 {
        Err("provider_api_key is required"@)
    } else if req.max_concurrency < -1 {
        Err(cap_message())
    } else if base_url_rule(base, parsed_url_scheme(base)) is Err {
        Err(base_url_rule(base, parsed_url_scheme(base))->Err_0)
    } else if optional_metrics_url_rule(metrics, req.max_concurrency) is Err {
        Err(optional_metrics_url_rule(metrics, req.max_concurrency)->Err_0)
    } else {
        Ok((slug, base, model, key, req.max_concurrency, metrics))
    }
}

/// Checks a create request and gives the settings to store.
pub fn check_create_request(req: &ExternalEndpointCreateRequest) -> (r: Result<EndpointSettings, String>)
    ensures
        match r {
            Ok(s) => create_rule(*req) == Ok::<_, Seq<char>>(settings_view(s)),
            Err(m) => create_rule(*req) == Err::<
                (Seq<char>, Seq<char>, Seq<char>, Seq<char>, i32, Option<Seq<char>>),
                _,
            >(m@),
        },
{
    let slug = trim_str(req.slug.as_str());
    let upstream_model = trim_str(req.upstream_model.as_str());
    let base_url = trim_str(req.base_url.as_str());
    let key = trim_str(req.provider_api_key.as_str());
    if !is_valid_slug(slug.as_str()) {
        return Err(to_string("invalid slug (allowed: alphanumeric and -_.)"));
    }
    if chars_of(upstream_model.as_str()).len() == 0 {
        return Err(to_string("upstream_model is required"));
    }
    if chars_of(key.as_str()).len() == 0 {
        return Err(to_string("provider_api_key is required"));
    }
    if req.max_concurrency < -1 {
        return Err(to_string("max_concurrency must be >= -1 (-1 = unlimited, 0 = reject all)"));
    }
    match validate_base_url(base_url.as_str()) {
        Err(m) => {
            return Err(m);
        },
        Ok(()) => {},
    }
    let metrics_url = trimmed_nonblank(&req.metrics_url);
    let checked = match &metrics_url {
        Some(u) => validate_metrics_url(Some(u.as_str()), req.max_concurrency),
        None => validate_metrics_url(None, req.max_concurrency),
    };
    match checked {
        Err(m) => {
            return Err(m);
        },
        Ok(()) => {},
    }
    Ok(
        EndpointSettings {
            slug,
            base_url,
            upstream_model,
            provider_api_key: key,
            max_concurrency: req.max_concurrency,
            metrics_url,
        },
    )
}

/// The changes that a valid update request makes to an endpoint.
#[derive(Debug, Clone)]
pub struct EndpointChanges {
    pub base_url: String,
    pub upstream_model: String,
    /// `None` keeps the stored key.
    pub provider_api_key: Option<String>,
    pub max_concurrency: i32,
    pub metrics_url: Option<String>,
}

/// The changes by view.
pub open spec fn changes_view(c: EndpointChanges) -> (
    Seq<char>,
    Seq<char>,
    Option<Seq<char>>,
    i32,
    Option<Seq<char>>,
) {
    (c.base_url@, c.upstream_model@, opt_view(c.provider_api_key), c.max_concurrency, opt_view(c.metrics_url))
}

/// What an update request gives: the first rule it breaks, in the order
/// model, cap, base URL, metrics URL; else its fields trimmed, with a blank
/// key or metrics URL read as absent.
pub open spec fn update_rule(req: ExternalEndpointUpdateRequest) -> Result<
    (Seq<char>, Seq<char>, Option<Seq<char>>, i32, Option<Seq<char>>),
    Seq<char>,
> {
    let model = trim(req.upstream_model@);
    let base = trim(req.base_url@);
    let metrics = nonblank(opt_view(req.metrics_url));
    if model.len() == 0 {
        Err("upstream_model is required"@)
    } else if req.max_concurrency < -1 {
        Err(cap_message())
    } else if base_url_rule(base, parsed_url_scheme(base)) is Err {
        Err(base_url_rule(base, parsed_url_scheme(base))->Err_0)
    } else if optional_metrics_url_rule(metrics, req.max_concurrency) is Err {
        Err(optional_metrics_url_rule(metrics, req.max_concurrency)->Err_0)
    } else {
        Ok((base, model, nonblank(opt_view(req.provider_api_key)), req.max_concurrency, metrics))
    }
}

/// Checks an update request and gives the changes to apply.
pub fn check_update_request(req: &ExternalEndpointUpdateRequest) -> (r: Result<EndpointChanges, String>)
    ensures
        match r {
            Ok(c) => update_rule(*req) == Ok::<_, Seq<char>>(changes_view(c)),
            Err(m) => update_rule(*req) == Err::<
                (Seq<char>, Seq<char>, Option<Seq<char>>, i32, Option<Seq<char>>),
                _,
            >(m@),
        },
{
    let upstream_model = trim_str(req.upstream_model.as_str());
    let base_url = trim_str(req.base_url.as_str());
    if chars_of(upstream_model.as_str()).len() == 0 {
        return Err(to_string("upstream_model is required"));
    }
    if req.max_concurrency < -1 {
        return Err(to_string("max_concurrency must be >= -1 (-1 = unlimited, 0 = reject all)"));
    }
    match validate_base_url(base_url.as_str()) {
        Err(m) => {
            return Err(m);
        },
        Ok(()) => {},
    }
    let metrics_url = trimmed_nonblank(&req.metrics_url);
    let checked = match &metrics_url {
        Some(u) => validate_metrics_url(Some(u.as_str()), req.max_concurrency),
        None => validate_metrics_url(None, req.max_concurrency),
    };
    match checked {
        Err(m) => {
            return Err(m);
        },
        Ok(()) => {},
    }
    Ok(
        EndpointChanges {
            base_url,
            upstream_model,
            provider_api_key: trimmed_nonblank(&req.provider_api_key),
            max_concurrency: req.max_concurrency,
            metrics_url,
        },
    )
}

// ---------------------------------------------------------------------------
// Admission of create and delete
// ---------------------------------------------------------------------------

/// A refused admin request: `NotExist` is answered 404, `Common` 400.
#[derive(Debug, PartialEq, Eq)]
pub enum AdminRefusal {
    NotExist(String),
    Common(String),
}

/// A refusal by view: whether it is a missing endpoint, and its message.
pub open spec fn refusal_view(r: Result<(), AdminRefusal>) -> Result<(), (bool, Seq<char>)> {
    match r {
        Ok(()) => Ok(()),
        Err(AdminRefusal::NotExist(m)) => Err((true, m@)),
        Err(AdminRefusal::Common(m)) => Err((false, m@)),
    }
}

/// Whether an external endpoint may be created under `slug`: not when a
/// self-hosted function already holds the slug (a slug is external or
/// self-hosted, never both), nor when an external endpoint has it.
pub open spec fn create_admission_spec(slug: Seq<char>, is_self_hosted: bool, exists: bool) -> Result<
    (),
    (bool, Seq<char>),
> {
    if is_self_hosted {
        Err((false, "slug "@ + slug + " is already a self-hosted endpoint"@))
    } else if exists {
        Err((false, "external endpoint "@ + slug + " already exists"@))
    } else {
        Ok(())
    }
}

/// See [`create_admission_spec`]; `is_self_hosted` is whether the platform
/// shared namespace holds a function named `slug`.
pub fn create_admission(mgr: &ExternalEndpointMgr, slug: &str, is_self_hosted: bool) -> (r: Result<
    (),
    AdminRefusal,
>)
    requires
        mgr.wf(),
    ensures
        refusal_view(r) == create_admission_spec(slug@, is_self_hosted, mgr@.contains_key(slug@)),
{
    if is_self_hosted {
        let mut m = to_string("slug ");
        push_str(&mut m, slug);
        push_str(&mut m, " is already a self-hosted endpoint");
        return Err(AdminRefusal::Common(m));
    }
    if mgr.Contains(slug) {
        let mut m = to_string("external endpoint ");
        push_str(&mut m, slug);
        push_str(&mut m, " already exists");
        return Err(AdminRefusal::Common(m));
    }
    Ok(())
}

/// Whether the external endpoint `slug` may be deleted: it must exist, and
/// it may not be listed on OpenRouter (`listed`: its catalog row says so;
/// read only for an existing endpoint).
pub open spec fn delete_admission_spec(slug: Seq<char>, exists: bool, listed: bool) -> Result<
    (),
    (bool, Seq<char>),
> {
    if !exists {
        Err((true, "external endpoint "@ + slug + " not found"@))
    } else if listed {
        Err(
            (
                false,
                "endpoint "@ + slug
                    + " is listed on OpenRouter; take it offline and unlist before deleting"@,
            ),
        )
    } else {
        Ok(())
    }
}

/// The first step of a delete: the endpoint must exist.
pub fn delete_existence(mgr: &ExternalEndpointMgr, slug: &str) -> (r: Result<(), AdminRefusal>)
    requires
        mgr.wf(),
    ensures
        mgr@.contains_key(slug@) ==> r is Ok,
        !mgr@.contains_key(slug@) ==> refusal_view(r) == delete_admission_spec(slug@, false, false),
{
    if mgr.Contains(slug) {
        Ok(())
    } else {
        let mut m = to_string("external endpoint ");
        push_str(&mut m, slug);
        push_str(&mut m, " not found");
        Err(AdminRefusal::NotExist(m))
    }
}

/// The second step of a delete, for an existing endpoint: refused while it
/// is listed on OpenRouter.
pub fn delete_listing(slug: &str, listed: bool) -> (r: Result<(), AdminRefusal>)
    ensures
        refusal_view(r) == delete_admission_spec(slug@, true, listed),
{
    if listed {
        let mut m = to_string("endpoint ");
        push_str(&mut m, slug);
        push_str(&mut m, " is listed on OpenRouter; take it offline and unlist before deleting");
        Err(AdminRefusal::Common(m))
    } else {
        Ok(())
    }
}

} // verus!
