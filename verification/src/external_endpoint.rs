//! External OpenAI-compatible endpoints: slug rules, the provider-facing
//! sub-path, the published gate and the `/models` listing entries.
use vstd::prelude::*;
use crate::secret::ExternalEndpoint;
use crate::text::{
    ascii_lower, char_suffix_count, chars_of, clone_opt, opt_view, has_prefix, lex_lt, lemma_lex_irreflexive, lemma_lex_total, lemma_lex_transitive, push_range,
    push_str, starts_with, str_eq, str_lt, strip_prefix, to_ascii_lowercase, to_string, trim_end_char,
};

verus! {

/// The upstream liveness settings of the gateway configuration.
#[derive(Debug, Clone, Copy)]
pub struct GatewayTimeoutConfig {
    pub external_connect_timeout_secs: u64,
    pub external_response_header_timeout_secs: u64,
    pub external_idle_timeout_secs: u64,
}

/// Upstream liveness deadlines (seconds) for the outbound proxy. There is
/// no total-request cap, so long streaming generations are never severed.
#[derive(Debug, Clone, Copy)]
pub struct ExternalTimeouts {
    pub connect_secs: u64,
    pub response_header_secs: u64,
    pub idle_secs: u64,
}

impl ExternalTimeouts {
    /// The deadlines configured for the gateway.
    pub fn from_gateway_config(config: &GatewayTimeoutConfig) -> (r: Self)
        ensures
            r.connect_secs == config.external_connect_timeout_secs,
            r.response_header_secs == config.external_response_header_timeout_secs,
            r.idle_secs == config.external_idle_timeout_secs,
    {
        ExternalTimeouts {
            connect_secs: config.external_connect_timeout_secs,
            response_header_secs: config.external_response_header_timeout_secs,
            idle_secs: config.external_idle_timeout_secs,
        }
    }
}

/// A character allowed in a slug: ASCII letter or digit, `-`, `_` or `.`.
pub open spec fn is_slug_char(c: char) -> bool {
    ||| ('a' <= c && c <= 'z')
    ||| ('A' <= c && c <= 'Z')
    ||| ('0' <= c && c <= '9')
    ||| c == '-'
    ||| c == '_'
    ||| c == '.'
}

/// A valid slug is non-empty and made of slug characters only.
pub open spec fn valid_slug(s: Seq<char>) -> bool {
    s.len() > 0 && forall|i: int| 0 <= i < s.len() ==> is_slug_char(#[trigger] s[i])
}

/// Whether `slug` is non-empty and uses only ASCII letters, digits, `-`,
/// `_` and `.` (no `/`, whitespace or URI-special characters).
pub fn is_valid_slug(slug: &str) -> (b: bool)
    ensures
        b == valid_slug(slug@),
{
    let v = chars_of(slug);
    if v.len() == 0 {
        return false;
    }
    let mut i: usize = 0;
    while i < v.len()
        invariant
            i <= v@.len(),
            v@ == slug@,
            forall|k: int| 0 <= k < i ==> is_slug_char(#[trigger] v@[k]),
        decreases v@.len() - i,
    {
        let c = v[i];
        let ok = ('a' <= c && c <= 'z') || ('A' <= c && c <= 'Z') || ('0' <= c && c <= '9') || c
            == '-' || c == '_' || c == '.';
        if !ok {
            assert(!is_slug_char(slug@[i as int]));
            return false;
        }
        i += 1;
    }
    true
}

/// `/endpoints` is dropped when present, then `/v1` when present.
pub open spec fn external_sub_path_spec(p: Seq<char>) -> Seq<char> {
    let remain = match strip_prefix(p, "/endpoints"@) {
        Some(r) => r,
        None => p,
    };
    match strip_prefix(remain, "/v1"@) {
        Some(r) => r,
        None => remain,
    }
}

/// The provider-facing sub-path of an incoming shared-surface path: both
/// `/endpoints/v1/...` and `/v1/...` become `/...`, since the stored base
/// URL already ends in the provider's `/v1` root.
pub fn external_sub_path(incoming_path: &str) -> (r: String)
    ensures
        r@ == external_sub_path_spec(incoming_path@),
{
    let p = chars_of(incoming_path);
    let endpoints = chars_of("/endpoints");
    let v1 = chars_of("/v1");
    let start: usize = if starts_with(&p, &endpoints) {
        endpoints.len()
    } else {
        0
    };
    let ghost remain = p@.skip(start as int);
    assert(start == 0 ==> remain == p@);
    let rest = crate::text::sub_chars(&p, start, p.len());
    let mut out = String::new();
    if starts_with(&rest, &v1) {
        push_range(&mut out, &rest, v1.len(), rest.len());
        assert(rest@.subrange(v1@.len() as int, rest@.len() as int) == rest@.skip(
            v1@.len() as int,
        ));
    } else {
        push_range(&mut out, &rest, 0, rest.len());
        assert(rest@.subrange(0, rest@.len() as int) == rest@);
    }
    assert(Seq::<char>::empty() + rest@.skip(v1@.len() as int) == rest@.skip(v1@.len() as int));
    assert(Seq::<char>::empty() + rest@ == rest@);
    out
}

/// The refusal of an unpublished endpoint.
pub open spec fn unpublished_message(slug: Seq<char>) -> Seq<char> {
    "endpoint "@ + slug + " is unpublished"@
}

/// Whether an endpoint serves: yes when published, else the refusal message.
pub open spec fn gate_spec(published: bool, slug: Seq<char>) -> Result<(), Seq<char>> {
    if published {
        Ok(())
    } else {
        Err(unpublished_message(slug))
    }
}

/// A gate result with its message taken by view.
pub open spec fn gate_view(r: Result<(), String>) -> Result<(), Seq<char>> {
    match r {
        Ok(_) => Ok(()),
        Err(e) => Err(e@),
    }
}

/// Serves an external endpoint only when its `published` bit is set; else
/// `endpoint {slug} is unpublished`.
pub fn external_published_gate(ext: &ExternalEndpoint) -> (r: Result<(), String>)
    ensures
        gate_view(r) == gate_spec(ext.published, ext.slug@),
{
    if ext.published {
        Ok(())
    } else {
        let mut e = to_string("endpoint ");
        push_str(&mut e, ext.slug.as_str());
        push_str(&mut e, " is unpublished");
        Err(e)
    }
}

/// Whether a slug serves, by endpoint kind: `Some` of the published check for an
/// external endpoint, `None` when the slug is not external (the caller then
/// resolves it as a self-hosted function).
pub fn endpoint_published_gate(ext: Option<&ExternalEndpoint>) -> (r: Option<Result<(), String>>)
    ensures
        match ext {
            None => r is None,
            Some(x) => r is Some && gate_view(r->0) == gate_spec(x.published, x.slug@),
        },
{
    match ext {
        None => None,
        Some(x) => Some(external_published_gate(x)),
    }
}

/// One `/endpoints/v1/models` entry: `{"id", "object": "model", "created",
/// "owned_by": "inferx"}`.
#[derive(Debug, Clone)]
pub struct ModelEntry {
    pub id: String,
    pub object: String,
    pub created: i64,
    pub owned_by: String,
}

/// The slugs of the published endpoints, in order.
pub open spec fn published_slugs(eps: Seq<ExternalEndpoint>) -> Seq<Seq<char>>
    decreases eps.len(),
{
    if eps.len() == 0 {
        Seq::empty()
    } else if eps.last().published {
        published_slugs(eps.drop_last()).push(eps.last().slug@)
    } else {
        published_slugs(eps.drop_last())
    }
}

/// The model-list entries of the published endpoints, in their order;
/// unpublished endpoints are omitted.
pub fn external_model_entries(endpoints: &[ExternalEndpoint], created: i64) -> (r: Vec<ModelEntry>)
    ensures
        r@.map_values(|e: ModelEntry| e.id@) == published_slugs(endpoints@),
        forall|i: int|
            0 <= i < r@.len() ==> (#[trigger] r@[i]).object@ == "model"@ && r@[i].created
                == created && r@[i].owned_by@ == "inferx"@,
{
    let mut out: Vec<ModelEntry> = Vec::new();
    let mut i: usize = 0;
    while i < endpoints.len()
        invariant
            i <= endpoints@.len(),
            out@.map_values(|e: ModelEntry| e.id@) == published_slugs(endpoints@.take(i as int)),
            forall|k: int|
                0 <= k < out@.len() ==> (#[trigger] out@[k]).object@ == "model"@ && out@[k].created
                    == created && out@[k].owned_by@ == "inferx"@,
        decreases endpoints@.len() - i,
    {
        let ep = &endpoints[i];
        assert(endpoints@.take(i + 1).drop_last() == endpoints@.take(i as int));
        assert(endpoints@.take(i + 1).last() == endpoints@[i as int]);
        if ep.published {
            let e = ModelEntry {
                id: ep.slug.clone(),
                object: to_string("model"),
                created,
                owned_by: to_string("inferx"),
            };
            out.push(e);
            assert(out@.map_values(|e: ModelEntry| e.id@) =~= published_slugs(
                endpoints@.take(i as int),
            ).push(ep.slug@));
        }
        i += 1;
    }
    assert(endpoints@.take(endpoints@.len() as int) == endpoints@);
    out
}

} // verus!

verus! {

// ---------------------------------------------------------------------------
// The in-memory mirror of the endpoint table
// ---------------------------------------------------------------------------

/// An endpoint record as plain values: slug, base URL, upstream model,
/// provider key, published, cap, last publisher, metrics URL.
pub type EndpointView = (
    Seq<char>,
    Seq<char>,
    Seq<char>,
    Seq<char>,
    bool,
    i32,
    Option<Seq<char>>,
    Option<Seq<char>>,
);

/// The record `e` as plain values.
pub open spec fn endpoint_view(e: ExternalEndpoint) -> EndpointView {
    (
        e.slug@,
        e.base_url@,
        e.upstream_model@,
        e.provider_api_key@,
        e.published,
        e.max_concurrency,
        opt_view(e.last_published_by),
        opt_view(e.metrics_url),
    )
}

/// A copy of an endpoint record.
pub fn copy_endpoint(e: &ExternalEndpoint) -> (r: ExternalEndpoint)
    ensures
        endpoint_view(r) == endpoint_view(*e),
{
    ExternalEndpoint {
        slug: e.slug.clone(),
        base_url: e.base_url.clone(),
        upstream_model: e.upstream_model.clone(),
        provider_api_key: e.provider_api_key.clone(),
        published: e.published,
        max_concurrency: e.max_concurrency,
        last_published_by: clone_opt(&e.last_published_by),
        metrics_url: clone_opt(&e.metrics_url),
    }
}

/// The table that a list of rows gives when they are loaded in order, a
/// later row with the same slug replacing an earlier one.
pub open spec fn rows_table(rows: Seq<ExternalEndpoint>) -> Map<Seq<char>, EndpointView>
    decreases rows.len(),
{
    if rows.len() == 0 {
        Map::empty()
    } else {
        rows_table(rows.drop_last()).insert(rows.last().slug@, endpoint_view(rows.last()))
    }
}

/// The gateway's copy of the external-endpoint table, keyed by slug, which
/// serving reads instead of the database. Every admin write goes to the
/// database first and then here.
pub struct ExternalEndpointMgr {
    entries: Vec<ExternalEndpoint>,
}

impl View for ExternalEndpointMgr {
    type V = Map<Seq<char>, EndpointView>;

    closed spec fn view(&self) -> Map<Seq<char>, EndpointView> {
        Map::new(
            |k: Seq<char>| exists|i: int| self.slug_at(i, k),
            |k: Seq<char>| endpoint_view(self.entries@[choose|i: int| self.slug_at(i, k)]),
        )
    }
}

impl ExternalEndpointMgr {
    /// Entry `i` has slug `k`.
    closed spec fn slug_at(&self, i: int, k: Seq<char>) -> bool {
        0 <= i < self.entries@.len() && self.entries@[i].slug@ == k
    }

    /// The entries are in strictly increasing slug order.
    pub closed spec fn wf(&self) -> bool {
        forall|i: int, j: int|
            0 <= i < j < self.entries@.len() ==> lex_lt(
                #[trigger] self.entries@[i].slug@,
                #[trigger] self.entries@[j].slug@,
            )
    }

    /// Entry `i` is what the table holds under its slug.
    proof fn lemma_entry(&self, i: int)
        requires
            self.wf(),
            0 <= i < self.entries@.len(),
        ensures
            self@.contains_key(self.entries@[i].slug@),
            self@[self.entries@[i].slug@] == endpoint_view(self.entries@[i]),
    {
        let k = self.entries@[i].slug@;
        assert(self.slug_at(i, k));
        let j = choose|j: int| self.slug_at(j, k);
        if j != i {
            lemma_lex_irreflexive(k);
            if j < i {
                assert(lex_lt(self.entries@[j].slug@, self.entries@[i].slug@));
            } else {
                assert(lex_lt(self.entries@[i].slug@, self.entries@[j].slug@));
            }
        }
    }

    /// A key of the table is the slug of some entry.
    proof fn lemma_key(&self, k: Seq<char>) -> (i: int)
        requires
            self@.contains_key(k),
        ensures
            self.slug_at(i, k),
    {
        choose|i: int| self.slug_at(i, k)
    }

    /// An empty table.
    pub fn empty() -> (m: Self)
        ensures
            m.wf(),
            m@ == Map::<Seq<char>, EndpointView>::empty(),
    {
        let m = ExternalEndpointMgr { entries: Vec::new() };
        assert(m@ =~= Map::<Seq<char>, EndpointView>::empty());
        m
    }

    /// The table holding the rows loaded from the database at start-up.
    pub fn New(rows: Vec<ExternalEndpoint>) -> (m: Self)
        ensures
            m.wf(),
            m@ == rows_table(rows@),
    {
        let mut m = Self::empty();
        let mut i: usize = 0;
        while i < rows.len()
            invariant
                i <= rows@.len(),
                m.wf(),
                m@ == rows_table(rows@.take(i as int)),
            decreases rows@.len() - i,
        {
            assert(rows@.take(i + 1).drop_last() == rows@.take(i as int));
            assert(rows@.take(i + 1).last() == rows@[i as int]);
            m.upsert_mirror(copy_endpoint(&rows[i]));
            i += 1;
        }
        assert(rows@.take(rows@.len() as int) == rows@);
        m
    }

    /// Where `slug` stands or would stand: the first entry that does not sort
    /// before it, and whether that entry has the slug itself.
    fn position(&self, slug: &str) -> (r: (usize, bool))
        requires
            self.wf(),
        ensures
            r.0 <= self.entries@.len(),
            forall|i: int| 0 <= i < r.0 ==> lex_lt(#[trigger] self.entries@[i].slug@, slug@),
            r.1 ==> r.0 < self.entries@.len() && self.entries@[r.0 as int].slug@ == slug@,
            !r.1 ==> forall|i: int|
                r.0 <= i < self.entries@.len() ==> lex_lt(slug@, #[trigger] self.entries@[i].slug@),
    {
        let mut p: usize = 0;
        while p < self.entries.len()
            invariant_except_break
                p <= self.entries@.len(),
                forall|i: int| 0 <= i < p ==> lex_lt(#[trigger] self.entries@[i].slug@, slug@),
            ensures
                p <= self.entries@.len(),
                forall|i: int| 0 <= i < p ==> lex_lt(#[trigger] self.entries@[i].slug@, slug@),
                p < self.entries@.len() ==> !lex_lt(self.entries@[p as int].slug@, slug@),
            decreases self.entries@.len() - p,
        {
            if !str_lt(self.entries[p].slug.as_str(), slug) {
                break;
            }
            p += 1;
        }
        if p < self.entries.len() && str_eq(self.entries[p].slug.as_str(), slug) {
            (p, true)
        } else {
            proof {
                if p < self.entries@.len() {
                    let e = self.entries@[p as int].slug@;
                    lemma_lex_total(e, slug@);
                    assert forall|i: int| p <= i < self.entries@.len() implies lex_lt(
                        slug@,
                        #[trigger] self.entries@[i].slug@,
                    ) by {
                        if i > p {
                            lemma_lex_transitive(slug@, e, self.entries@[i].slug@);
                        }
                    }
                }
            }
            (p, false)
        }
    }

    /// The record of `slug`, if any.
    pub fn Get(&self, slug: &str) -> (r: Option<ExternalEndpoint>)
        requires
            self.wf(),
        ensures
            match r {
                Some(e) => self@.contains_key(slug@) && endpoint_view(e) == self@[slug@],
                None => !self@.contains_key(slug@),
            },
    {
        let (p, found) = self.position(slug);
        if found {
            proof {
                self.lemma_entry(p as int);
            }
            Some(copy_endpoint(&self.entries[p]))
        } else {
            proof {
                if self@.contains_key(slug@) {
                    let i = self.lemma_key(slug@);
                    lemma_lex_irreflexive(slug@);
                    if i < p {
                        assert(lex_lt(self.entries@[i].slug@, slug@));
                    } else {
                        assert(lex_lt(slug@, self.entries@[i].slug@));
                    }
                }
            }
            None
        }
    }

    /// Whether the table has `slug`.
    pub fn Contains(&self, slug: &str) -> (b: bool)
        requires
            self.wf(),
        ensures
            b == self@.contains_key(slug@),
    {
        match self.Get(slug) {
            Some(_) => true,
            None => false,
        }
    }

    /// Every record, in increasing slug order.
    pub fn List(&self) -> (r: Vec<ExternalEndpoint>)
        requires
            self.wf(),
        ensures
            forall|i: int, j: int| 0 <= i < j < r@.len() ==> lex_lt(#[trigger] r@[i].slug@, #[trigger] r@[j].slug@),
            forall|i: int|
                0 <= i < r@.len() ==> self@.contains_key((#[trigger] r@[i]).slug@) && self@[r@[i].slug@]
                    == endpoint_view(r@[i]),
            forall|k: Seq<char>| self@.contains_key(k) ==> exists|i: int| 0 <= i < r@.len() && (#[trigger] r@[i]).slug@ == k,
    {
        let mut r: Vec<ExternalEndpoint> = Vec::new();
        let mut i: usize = 0;
        while i < self.entries.len()
            invariant
                i <= self.entries@.len(),
                r@.len() == i,
                forall|k: int| 0 <= k < i ==> endpoint_view(#[trigger] r@[k]) == endpoint_view(self.entries@[k]),
            decreases self.entries@.len() - i,
        {
            r.push(copy_endpoint(&self.entries[i]));
            i += 1;
        }
        proof {
            assert forall|a: int, b: int| 0 <= a < b < r@.len() implies lex_lt(
                #[trigger] r@[a].slug@,
                #[trigger] r@[b].slug@,
            ) by {
                assert(endpoint_view(r@[a]) == endpoint_view(self.entries@[a]));
                assert(endpoint_view(r@[b]) == endpoint_view(self.entries@[b]));
                assert(lex_lt(self.entries@[a].slug@, self.entries@[b].slug@));
            }
            assert forall|a: int| 0 <= a < r@.len() implies self@.contains_key((#[trigger] r@[a]).slug@)
                && self@[r@[a].slug@] == endpoint_view(r@[a]) by {
                assert(endpoint_view(r@[a]) == endpoint_view(self.entries@[a]));
                self.lemma_entry(a);
            }
            assert forall|k: Seq<char>| self@.contains_key(k) implies exists|a: int|
                0 <= a < r@.len() && (#[trigger] r@[a]).slug@ == k by {
                let a = self.lemma_key(k);
                assert(endpoint_view(r@[a]) == endpoint_view(self.entries@[a]));
                assert(r@[a].slug@ == k);
            }
        }
        r
    }

    /// Records `ep` under its slug, replacing any earlier record of it.
    pub fn upsert_mirror(&mut self, ep: ExternalEndpoint)
        requires
            old(self).wf(),
        ensures
            final(self).wf(),
            final(self)@ == old(self)@.insert(ep.slug@, endpoint_view(ep)),
    {
        let ghost k0 = ep.slug@;
        let ghost v0 = endpoint_view(ep);
        let (p, found) = self.position(ep.slug.as_str());
        let ghost before = *self;
        if found {
            self.entries.set(p, ep);
            proof {
                assert forall|i: int, j: int| 0 <= i < j < self.entries@.len() implies lex_lt(
                    #[trigger] self.entries@[i].slug@,
                    #[trigger] self.entries@[j].slug@,
                ) by {
                    assert(self.entries@[i].slug@ == before.entries@[i].slug@);
                    assert(self.entries@[j].slug@ == before.entries@[j].slug@);
                }
                self.lemma_entry(p as int);
                assert forall|k: Seq<char>| #[trigger] self@.contains_key(k) == before@.insert(k0, v0).contains_key(k)
                    by {
                    if self@.contains_key(k) {
                        let i = self.lemma_key(k);
                        if i != p {
                            assert(before.slug_at(i, k));
                        }
                    }
                    if before@.contains_key(k) {
                        let i = before.lemma_key(k);
                        if i != p {
                            assert(self.slug_at(i, k));
                        }
                    }
                }
                assert forall|k: Seq<char>| #[trigger] self@.contains_key(k) implies self@[k] == before@.insert(k0, v0)[k]
                    by {
                    if k != k0 {
                        let i = self.lemma_key(k);
                        assert(i != p);
                        self.lemma_entry(i);
                        before.lemma_entry(i);
                    }
                }
                assert(self@ =~= before@.insert(k0, v0));
            }
        } else {
            self.entries.insert(p, ep);
            proof {
                assert forall|i: int, j: int| 0 <= i < j < self.entries@.len() implies lex_lt(
                    #[trigger] self.entries@[i].slug@,
                    #[trigger] self.entries@[j].slug@,
                ) by {
                    if j < p {
                        assert(lex_lt(before.entries@[i].slug@, before.entries@[j].slug@));
                    } else if j == p {
                        assert(lex_lt(before.entries@[i].slug@, k0));
                    } else if i < p {
                        assert(lex_lt(before.entries@[i].slug@, k0));
                        assert(lex_lt(k0, before.entries@[j - 1].slug@));
                        lemma_lex_transitive(before.entries@[i].slug@, k0, before.entries@[j - 1].slug@);
                    } else if i == p {
                        assert(lex_lt(k0, before.entries@[j - 1].slug@));
                    } else {
                        assert(lex_lt(before.entries@[i - 1].slug@, before.entries@[j - 1].slug@));
                    }
                }
                self.lemma_entry(p as int);
                assert forall|k: Seq<char>| #[trigger] self@.contains_key(k) == before@.insert(k0, v0).contains_key(k)
                    by {
                    if self@.contains_key(k) && k != k0 {
                        let i = self.lemma_key(k);
                        if i < p {
                            assert(before.slug_at(i, k));
                        } else {
                            assert(i != p);
                            assert(before.slug_at(i - 1, k));
                        }
                    }
                    if before@.contains_key(k) {
                        let i = before.lemma_key(k);
                        if i < p {
                            assert(self.slug_at(i, k));
                        } else {
                            assert(self.slug_at(i + 1, k));
                        }
                    }
                }
                assert forall|k: Seq<char>| #[trigger] self@.contains_key(k) implies self@[k] == before@.insert(k0, v0)[k]
                    by {
                    if k != k0 {
                        let i = self.lemma_key(k);
                        self.lemma_entry(i);
                        if i < p {
                            before.lemma_entry(i);
                        } else {
                            assert(i != p);
                            before.lemma_entry(i - 1);
                        }
                    }
                }
                assert(self@ =~= before@.insert(k0, v0));
            }
        }
    }

    /// Drops the record of `slug`, if any.
    pub fn remove_mirror(&mut self, slug: &str)
        requires
            old(self).wf(),
        ensures
            final(self).wf(),
            final(self)@ == old(self)@.remove(slug@),
    {
        let (p, found) = self.position(slug);
        let ghost before = *self;
        if found {
            self.entries.remove(p);
            proof {
                assert forall|i: int, j: int| 0 <= i < j < self.entries@.len() implies lex_lt(
                    #[trigger] self.entries@[i].slug@,
                    #[trigger] self.entries@[j].slug@,
                ) by {
                    if j < p {
                        assert(lex_lt(before.entries@[i].slug@, before.entries@[j].slug@));
                    } else if i < p {
                        assert(lex_lt(before.entries@[i].slug@, before.entries@[j + 1].slug@));
                    } else {
                        assert(lex_lt(before.entries@[i + 1].slug@, before.entries@[j + 1].slug@));
                    }
                }
                assert forall|k: Seq<char>| #[trigger] self@.contains_key(k) == before@.remove(slug@).contains_key(k)
                    by {
                    if self@.contains_key(k) {
                        let i = self.lemma_key(k);
                        let bi = if i < p { i } else { i + 1 };
                        assert(before.slug_at(bi, k));
                        before.lemma_entry(bi);
                        before.lemma_entry(p as int);
                        lemma_lex_irreflexive(slug@);
                        if k == slug@ {
                            if bi < p {
                                assert(lex_lt(before.entries@[bi].slug@, before.entries@[p as int].slug@));
                            } else {
                                assert(lex_lt(before.entries@[p as int].slug@, before.entries@[bi].slug@));
                            }
                        }
                    }
                    if before@.contains_key(k) && k != slug@ {
                        let i = before.lemma_key(k);
                        assert(i != p);
                        if i < p {
                            assert(self.slug_at(i, k));
                        } else {
                            assert(self.slug_at(i - 1, k));
                        }
                    }
                }
                assert forall|k: Seq<char>| #[trigger] self@.contains_key(k) implies self@[k] == before@.remove(slug@)[k]
                    by {
                    let i = self.lemma_key(k);
                    self.lemma_entry(i);
                    if i < p {
                        before.lemma_entry(i);
                    } else {
                        before.lemma_entry(i + 1);
                    }
                }
                assert(self@ =~= before@.remove(slug@));
            }
        } else {
            proof {
                if self@.contains_key(slug@) {
                    let i = self.lemma_key(slug@);
                    lemma_lex_irreflexive(slug@);
                    if i < p {
                        assert(lex_lt(self.entries@[i].slug@, slug@));
                    } else {
                        assert(lex_lt(slug@, self.entries@[i].slug@));
                    }
                }
                assert(self@ =~= before@.remove(slug@));
            }
        }
    }
}

/// A record written to the table is what a later read of its slug gives,
/// and writing it leaves every other slug as it was.
pub proof fn lemma_read_after_write(
    table: Map<Seq<char>, EndpointView>,
    ep: ExternalEndpoint,
    other: Seq<char>,
)
    requires
        other != ep.slug@,
    ensures
        table.insert(ep.slug@, endpoint_view(ep)).contains_key(ep.slug@),
        table.insert(ep.slug@, endpoint_view(ep))[ep.slug@] == endpoint_view(ep),
        table.insert(ep.slug@, endpoint_view(ep)).contains_key(other) == table.contains_key(other),
        table.insert(ep.slug@, endpoint_view(ep))[other] == table[other],
        !table.remove(ep.slug@).contains_key(ep.slug@),
{
}

} // verus!

verus! {

// ---------------------------------------------------------------------------
// The outbound proxy's decisions
// ---------------------------------------------------------------------------

/// The provider URL of a call: the base URL without trailing `/`, followed
/// by the sub-path.
pub open spec fn upstream_url_spec(base_url: Seq<char>, sub_path: Seq<char>) -> Seq<char> {
    trim_end_char(base_url, '/') + sub_path
}

/// The provider URL of a call to endpoint `base_url` on `sub_path`.
pub fn upstream_url(base_url: &str, sub_path: &str) -> (r: String)
    ensures
        r@ == upstream_url_spec(base_url@, sub_path@),
{
    let v = chars_of(base_url);
    let k = char_suffix_count(&v, '/');
    let n = v.len();
    let mut r = String::new();
    push_range(&mut r, &v, 0, n - k);
    push_str(&mut r, sub_path);
    proof {
        assert(v@.subrange(0, n - k) =~= trim_end_char(base_url@, '/'));
        assert(Seq::<char>::empty() + v@.subrange(0, n - k) =~= v@.subrange(0, n - k));
    }
    r
}

/// Whether a provider response header is passed on to the caller: all but
/// `content-length` (in any letter case), which the re-framed stream sets
/// itself.
pub open spec fn forwards_header(name: Seq<char>) -> bool {
    ascii_lower(name) != "content-length"@
}

/// Whether the provider response header `name` is passed on.
pub fn forwards_response_header(name: &str) -> (b: bool)
    ensures
        b == forwards_header(name@),
{
    let lowered = to_ascii_lowercase(name);
    !str_eq(lowered.as_str(), "content-length")
}

/// The status answered for a provider call that got no HTTP response: 504
/// where the connection timed out, 502 otherwise (refused, DNS, ...).
pub fn transport_failure_status(is_timeout: bool) -> (code: u16)
    ensures
        code == (if is_timeout { 504u16 } else { 502u16 }),
{
    if is_timeout {
        504
    } else {
        502
    }
}

} // verus!
