//! Tenant records shared with the persistence layer, and the naming of a
//! tenant's own skills as agent tools.
use vstd::prelude::*;
use vstd::utf8::encode_utf8;
use crate::text::{chars_of, push_char, push_str, str_eq, to_string};

verus! {

// ---------------------------------------------------------------------------
// Records
// ---------------------------------------------------------------------------

/// A role held by a user.
#[derive(Debug, Clone)]
pub struct Role {
    pub rolename: String,
}

/// A user name row.
#[derive(Debug, Clone)]
pub struct User {
    pub username: String,
}

/// An external OpenAI-compatible endpoint served through the gateway.
#[derive(Debug, Clone)]
pub struct ExternalEndpoint {
    pub slug: String,
    pub base_url: String,
    pub upstream_model: String,
    pub provider_api_key: String,
    pub published: bool,
    /// In-flight concurrency cap: `-1` is unlimited, `0` rejects every
    /// request, `N > 0` caps concurrent upstream requests.
    pub max_concurrency: i32,
    pub last_published_by: Option<String>,
    /// The replica's `/metrics` URL; set only for endpoints whose ceiling is
    /// driven by the dynamic ceiling controller.
    pub metrics_url: Option<String>,
}

/// The concurrency cap of an endpoint record that does not state one:
/// unlimited.
pub fn unlimited_concurrency() -> (r: i32)
    ensures
        r == -1,
{
    -1
}

/// A skill owned by the caller's tenant, routed as an agent tool.
#[derive(Debug, Clone)]
pub struct OwnSkillToolRoute {
    pub owner_tenant: String,
    pub owner_namespace: String,
    pub skillname: String,
    pub description: Option<String>,
}

/// A skill the caller's tenant subscribed to, under its tool name.
#[derive(Debug, Clone)]
pub struct SubscribedSkillRoute {
    pub tool_name: String,
    pub description: Option<String>,
    pub owner_tenant: String,
    pub owner_namespace: String,
    pub skillname: String,
}

/// A skill as seen by the agent tool router.
#[derive(Debug, Clone)]
pub struct TenantToolRoute {
    pub tool_name: String,
    pub description: Option<String>,
    pub owner_tenant: String,
    pub owner_namespace: String,
    pub skillname: String,
}

/// The identity of a skill: owner tenant, owner namespace and skill name.
pub trait OwnSkillToolIdentity {
    spec fn spec_owner_tenant(&self) -> Seq<char>;

    spec fn spec_owner_namespace(&self) -> Seq<char>;

    spec fn spec_skillname(&self) -> Seq<char>;

    fn owner_tenant(&self) -> (r: &str)
        ensures
            r@ == self.spec_owner_tenant(),
    ;

    fn owner_namespace(&self) -> (r: &str)
        ensures
            r@ == self.spec_owner_namespace(),
    ;

    fn skillname(&self) -> (r: &str)
        ensures
            r@ == self.spec_skillname(),
    ;
}

impl OwnSkillToolIdentity for OwnSkillToolRoute {
    open spec fn spec_owner_tenant(&self) -> Seq<char> {
        self.owner_tenant@
    }

    open spec fn spec_owner_namespace(&self) -> Seq<char> {
        self.owner_namespace@
    }

    open spec fn spec_skillname(&self) -> Seq<char> {
        self.skillname@
    }

    fn owner_tenant(&self) -> (r: &str) {
        self.owner_tenant.as_str()
    }

    fn owner_namespace(&self) -> (r: &str) {
        self.owner_namespace.as_str()
    }

    fn skillname(&self) -> (r: &str) {
        self.skillname.as_str()
    }
}

// ---------------------------------------------------------------------------
// Percent encoding of tool-name components
// ---------------------------------------------------------------------------

/// Bytes kept verbatim: ASCII letters and digits, `-`, `_` and `~`.
pub open spec fn is_kept_byte(b: u8) -> bool {
    ||| (0x30 <= b && b <= 0x39)
    ||| (0x41 <= b && b <= 0x5a)
    ||| (0x61 <= b && b <= 0x7a)
    ||| b == 0x2d
    ||| b == 0x5f
    ||| b == 0x7e
}

/// Upper-case hexadecimal digit of `d` (`0 <= d < 16`).
pub open spec fn hex_upper(d: int) -> char {
    if d < 10 {
        (0x30 + d) as char
    } else {
        (0x41 + d - 10) as char
    }
}

/// The encoding of one byte: itself when kept, else `%XX` in upper case.
pub open spec fn encode_byte(b: u8) -> Seq<char> {
    if is_kept_byte(b) {
        seq![b as char]
    } else {
        seq!['%', hex_upper((b / 16) as int), hex_upper((b % 16) as int)]
    }
}

/// Percent encoding of a byte string.
pub open spec fn percent_encode_bytes(bs: Seq<u8>) -> Seq<char>
    decreases bs.len(),
{
    if bs.len() == 0 {
        Seq::empty()
    } else {
        percent_encode_bytes(bs.drop_last()) + encode_byte(bs.last())
    }
}

/// Percent encoding of the UTF-8 bytes of `s`.
pub open spec fn percent_encode(s: Seq<char>) -> Seq<char> {
    percent_encode_bytes(encode_utf8(s))
}

fn hex_digit(d: u8) -> (c: char)
    requires
        d < 16,
    ensures
        c == hex_upper(d as int),
{
    if d < 10 {
        let b: u8 = 0x30 + d;
        b as char
    } else {
        let b: u8 = 0x41 + d - 10;
        b as char
    }
}

/// Percent-encodes `component` byte by byte (UTF-8): ASCII letters, digits,
/// `-`, `_` and `~` are kept, every other byte becomes `%XX`.
pub fn percent_encode_tool_name_component(component: &str) -> (r: String)
    ensures
        r@ == percent_encode(component@),
{
    let bytes = component.as_bytes();
    let mut out = String::new();
    let mut i: usize = 0;
    while i < bytes.len()
        invariant
            i <= bytes@.len(),
            bytes@ == encode_utf8(component@),
            out@ == percent_encode_bytes(bytes@.take(i as int)),
        decreases bytes@.len() - i,
    {
        let b: u8 = bytes[i];
        assert(bytes@.take(i + 1).drop_last() == bytes@.take(i as int));
        let keep = (0x30 <= b && b <= 0x39) || (0x41 <= b && b <= 0x5a) || (0x61 <= b && b <= 0x7a)
            || b == 0x2d || b == 0x5f || b == 0x7e;
        if keep {
            push_char(&mut out, b as char);
        } else {
            push_char(&mut out, '%');
            push_char(&mut out, hex_digit(b / 16));
            push_char(&mut out, hex_digit(b % 16));
        }
        assert(out@ == percent_encode_bytes(bytes@.take(i + 1)));
        i += 1;
    }
    assert(bytes@.take(bytes@.len() as int) == bytes@);
    out
}

// ---------------------------------------------------------------------------
// Tool names of a tenant's own skills
// ---------------------------------------------------------------------------

/// `(owner_tenant, owner_namespace, skillname)` of a skill.
pub open spec fn skill_key<T: OwnSkillToolIdentity>(s: T) -> (Seq<char>, Seq<char>, Seq<char>) {
    (s.spec_owner_tenant(), s.spec_owner_namespace(), s.spec_skillname())
}

/// The keys of `skills`, in order.
pub open spec fn skill_keys<T: OwnSkillToolIdentity>(skills: Seq<T>) -> Seq<
    (Seq<char>, Seq<char>, Seq<char>),
> {
    skills.map_values(|s: T| skill_key(s))
}

/// How many of `keys` carry the skill name `name`.
pub open spec fn name_count(keys: Seq<(Seq<char>, Seq<char>, Seq<char>)>, name: Seq<char>) -> nat
    decreases keys.len(),
{
    if keys.len() == 0 {
        0
    } else {
        name_count(keys.drop_last(), name) + if keys.last().2 == name {
            1nat
        } else {
            0nat
        }
    }
}

/// The tool name of the skill `key` among `keys`: its bare skill name when
/// that name is unique and holds no `.`, else
/// `enc(skillname).enc(namespace).enc(tenant)`.
pub open spec fn own_tool_name(
    keys: Seq<(Seq<char>, Seq<char>, Seq<char>)>,
    key: (Seq<char>, Seq<char>, Seq<char>),
) -> Seq<char> {
    if key.2.contains('.') || name_count(keys, key.2) > 1 {
        percent_encode(key.2) + seq!['.'] + percent_encode(key.1) + seq!['.'] + percent_encode(
            key.0,
        )
    } else {
        key.2
    }
}

/// The view of a `(tenant, namespace, skillname) -> tool name` entry.
pub open spec fn entry_view(e: ((String, String, String), String)) -> (
    (Seq<char>, Seq<char>, Seq<char>),
    Seq<char>,
) {
    ((e.0.0@, e.0.1@, e.0.2@), e.1@)
}

fn contains_dot(s: &str) -> (b: bool)
    ensures
        b == s@.contains('.'),
{
    let v = chars_of(s);
    let mut i: usize = 0;
    while i < v.len()
        invariant
            i <= v@.len(),
            v@ == s@,
            forall|k: int| 0 <= k < i ==> v@[k] != '.',
        decreases v@.len() - i,
    {
        if v[i] == '.' {
            return true;
        }
        i += 1;
    }
    false
}

/// Some entry of `r` is keyed `key`.
pub open spec fn names_key(
    r: Seq<((String, String, String), String)>,
    key: (Seq<char>, Seq<char>, Seq<char>),
) -> bool {
    exists|j: int| 0 <= j < r.len() && #[trigger] entry_view(r[j]).0 == key
}

fn has_entry(out: &Vec<((String, String, String), String)>, t: &str, ns: &str, name: &str) -> (b:
    bool)
    ensures
        b <==> names_key(out@, (t@, ns@, name@)),
{
    let ghost key = (t@, ns@, name@);
    let mut j: usize = 0;
    while j < out.len()
        invariant
            j <= out@.len(),
            key == (t@, ns@, name@),
            forall|q: int| 0 <= q < j ==> #[trigger] entry_view(out@[q]).0 != key,
        decreases out@.len() - j,
    {
        let e = &out[j];
        let m = str_eq(e.0.0.as_str(), t) && str_eq(e.0.1.as_str(), ns) && str_eq(
            e.0.2.as_str(),
            name,
        );
        assert(entry_view(out@[j as int]).0 == (e.0.0@, e.0.1@, e.0.2@));
        if m {
            return true;
        }
        j += 1;
    }
    false
}

fn count_name<T: OwnSkillToolIdentity>(skills: &[T], name: &str) -> (n: usize)
    ensures
        n == name_count(skill_keys(skills@), name@),
{
    let ghost keys = skill_keys(skills@);
    let mut count: usize = 0;
    let mut k: usize = 0;
    while k < skills.len()
        invariant
            k <= skills@.len(),
            keys == skill_keys(skills@),
            count <= k,
            count == name_count(keys.take(k as int), name@),
        decreases skills@.len() - k,
    {
        assert(keys.take(k + 1).drop_last() == keys.take(k as int));
        assert(keys.take(k + 1).last() == skill_key(skills@[k as int]));
        if str_eq(skills[k].skillname(), name) {
            count += 1;
        }
        k += 1;
    }
    assert(keys.take(keys.len() as int) == keys);
    count
}

fn tool_name_of<T: OwnSkillToolIdentity>(skills: &[T], t: &str, ns: &str, name: &str) -> (r: String)
    ensures
        r@ == own_tool_name(skill_keys(skills@), (t@, ns@, name@)),
{
    let count = count_name(skills, name);
    if contains_dot(name) || count > 1 {
        let mut n = percent_encode_tool_name_component(name);
        push_char(&mut n, '.');
        let e_ns = percent_encode_tool_name_component(ns);
        push_str(&mut n, e_ns.as_str());
        push_char(&mut n, '.');
        let e_t = percent_encode_tool_name_component(t);
        push_str(&mut n, e_t.as_str());
        n
    } else {
        to_string(name)
    }
}

// ---------------------------------------------------------------------------
// Distinct skills get distinct tool names
// ---------------------------------------------------------------------------

/// No byte encodes to a `.`.
proof fn lemma_encode_byte_no_dot(b: u8)
    ensures
        !encode_byte(b).contains('.'),
{
    if is_kept_byte(b) {
        assert(encode_byte(b)[0] == b as char);
        assert(encode_byte(b).len() == 1);
    } else {
        let e = encode_byte(b);
        assert(e.len() == 3);
        assert(e[0] == '%');
        assert(e[1] != '.') by {
            assert(b / 16 < 16);
        }
        assert(e[2] != '.') by {
            assert(b % 16 < 16);
        }
        assert forall|i: int| 0 <= i < e.len() implies e[i] != '.' by {}
    }
}

/// A concatenation holds a character only where one of its parts does.
proof fn lemma_concat_no_char(a: Seq<char>, b: Seq<char>, c: char)
    requires
        !a.contains(c),
        !b.contains(c),
    ensures
        !(a + b).contains(c),
{
    assert forall|i: int| 0 <= i < (a + b).len() implies (a + b)[i] != c by {
        if i < a.len() {
            assert((a + b)[i] == a[i]);
        } else {
            assert((a + b)[i] == b[i - a.len()]);
        }
    }
}

/// Percent encoding never produces a `.`.
proof fn lemma_encode_bytes_no_dot(bs: Seq<u8>)
    ensures
        !percent_encode_bytes(bs).contains('.'),
    decreases bs.len(),
{
    if bs.len() > 0 {
        lemma_encode_bytes_no_dot(bs.drop_last());
        lemma_encode_byte_no_dot(bs.last());
        lemma_concat_no_char(percent_encode_bytes(bs.drop_last()), encode_byte(bs.last()), '.');
    }
}

/// The encoding read from the front: the first byte's encoding, then the rest.
proof fn lemma_encode_bytes_front(bs: Seq<u8>)
    requires
        bs.len() > 0,
    ensures
        percent_encode_bytes(bs) == encode_byte(bs[0]) + percent_encode_bytes(bs.drop_first()),
    decreases bs.len(),
{
    if bs.len() > 1 {
        lemma_encode_bytes_front(bs.drop_last());
        assert(bs.drop_last().drop_first() =~= bs.drop_first().drop_last());
        assert(bs.drop_first().last() == bs.last());
        assert(percent_encode_bytes(bs) =~= encode_byte(bs[0]) + percent_encode_bytes(bs.drop_first()));
    } else {
        assert(bs.drop_last() =~= Seq::<u8>::empty());
        assert(bs.drop_first() =~= Seq::<u8>::empty());
        assert(percent_encode_bytes(bs) =~= encode_byte(bs[0]) + percent_encode_bytes(bs.drop_first()));
    }
}

/// Hexadecimal digits tell their values apart.
proof fn lemma_hex_upper_injective(a: int, b: int)
    requires
        0 <= a < 16,
        0 <= b < 16,
        hex_upper(a) == hex_upper(b),
    ensures
        a == b,
{
}

/// A byte's encoding determines the byte.
proof fn lemma_encode_byte_injective(a: u8, b: u8)
    requires
        encode_byte(a) == encode_byte(b),
    ensures
        a == b,
{
    if is_kept_byte(a) {
        assert(encode_byte(a)[0] == a as char);
        if !is_kept_byte(b) {
            assert(encode_byte(b)[0] == '%');
        }
        assert(encode_byte(b)[0] == b as char);
    } else {
        assert(encode_byte(a)[0] == '%');
        if is_kept_byte(b) {
            assert(encode_byte(b)[0] == b as char);
        } else {
            assert(encode_byte(a)[1] == encode_byte(b)[1]);
            assert(encode_byte(a)[2] == encode_byte(b)[2]);
            lemma_hex_upper_injective((a / 16) as int, (b / 16) as int);
            lemma_hex_upper_injective((a % 16) as int, (b % 16) as int);
            assert(a == 16 * (a / 16) + a % 16);
            assert(b == 16 * (b / 16) + b % 16);
        }
    }
}

/// Percent encoding of bytes is injective.
proof fn lemma_encode_bytes_injective(x: Seq<u8>, y: Seq<u8>)
    requires
        percent_encode_bytes(x) == percent_encode_bytes(y),
    ensures
        x == y,
    decreases x.len(),
{
    if x.len() == 0 {
        if y.len() > 0 {
            lemma_encode_bytes_front(y);
            assert(percent_encode_bytes(y).len() >= encode_byte(y[0]).len());
        }
        assert(x =~= y);
    } else {
        if y.len() == 0 {
            lemma_encode_bytes_front(x);
            assert(percent_encode_bytes(x).len() >= encode_byte(x[0]).len());
        }
        lemma_encode_bytes_front(x);
        lemma_encode_bytes_front(y);
        let ex = encode_byte(x[0]);
        let ey = encode_byte(y[0]);
        let e = percent_encode_bytes(x);
        assert(e[0] == ex[0]);
        assert(e[0] == ey[0]);
        assert(ex.len() == ey.len()) by {
            if ex.len() == 1 && !is_kept_byte(x[0]) {
            }
            if is_kept_byte(x[0]) && !is_kept_byte(y[0]) {
                assert(ey[0] == '%');
            }
            if !is_kept_byte(x[0]) && is_kept_byte(y[0]) {
                assert(ex[0] == '%');
            }
        }
        assert(ex =~= e.take(ex.len() as int));
        assert(ey =~= e.take(ey.len() as int));
        lemma_encode_byte_injective(x[0], y[0]);
        assert(percent_encode_bytes(x.drop_first()) =~= e.skip(ex.len() as int));
        assert(percent_encode_bytes(y.drop_first()) =~= e.skip(ey.len() as int));
        lemma_encode_bytes_injective(x.drop_first(), y.drop_first());
        assert(x =~= seq![x[0]] + x.drop_first());
        assert(y =~= seq![y[0]] + y.drop_first());
    }
}

/// Percent encoding of strings is injective.
pub proof fn lemma_percent_encode_injective(s: Seq<char>, t: Seq<char>)
    requires
        percent_encode(s) == percent_encode(t),
    ensures
        s == t,
{
    lemma_encode_bytes_injective(encode_utf8(s), encode_utf8(t));
    vstd::utf8::encode_utf8_decode_utf8(s);
    vstd::utf8::encode_utf8_decode_utf8(t);
}

/// `a.b` splits back into `a` and `b` when `a` has no `.`.
proof fn lemma_dot_join_injective(a1: Seq<char>, b1: Seq<char>, a2: Seq<char>, b2: Seq<char>)
    requires
        !a1.contains('.'),
        !a2.contains('.'),
        a1 + seq!['.'] + b1 == a2 + seq!['.'] + b2,
    ensures
        a1 == a2,
        b1 == b2,
{
    let j = a1 + seq!['.'] + b1;
    assert(j[a1.len() as int] == '.');
    assert(j == a2 + seq!['.'] + b2);
    if a1.len() < a2.len() {
        assert(j[a1.len() as int] == a2[a1.len() as int]);
    }
    if a2.len() < a1.len() {
        assert(j[a2.len() as int] == '.');
        assert(j[a2.len() as int] == a1[a2.len() as int]);
    }
    assert(a1 =~= j.take(a1.len() as int));
    assert(a2 =~= j.take(a2.len() as int));
    assert(b1 =~= j.skip(a1.len() as int + 1));
    assert(b2 =~= j.skip(a2.len() as int + 1));
}

/// A key of `keys` is counted under its skill name.
proof fn lemma_name_count_pos(keys: Seq<(Seq<char>, Seq<char>, Seq<char>)>, k: (Seq<char>, Seq<char>, Seq<char>))
    requires
        keys.contains(k),
    ensures
        name_count(keys, k.2) >= 1,
    decreases keys.len(),
{
    if keys.last() != k {
        let i = choose|i: int| 0 <= i < keys.len() && keys[i] == k;
        assert(keys.drop_last()[i] == k);
        lemma_name_count_pos(keys.drop_last(), k);
    }
}

/// Two different keys with the same skill name count that name twice.
proof fn lemma_name_count_two(
    keys: Seq<(Seq<char>, Seq<char>, Seq<char>)>,
    k1: (Seq<char>, Seq<char>, Seq<char>),
    k2: (Seq<char>, Seq<char>, Seq<char>),
)
    requires
        keys.contains(k1),
        keys.contains(k2),
        k1 != k2,
        k1.2 == k2.2,
    ensures
        name_count(keys, k1.2) >= 2,
    decreases keys.len(),
{
    let i1 = choose|i: int| 0 <= i < keys.len() && keys[i] == k1;
    let i2 = choose|i: int| 0 <= i < keys.len() && keys[i] == k2;
    let n = keys.len() - 1;
    if i1 == n {
        assert(keys.drop_last()[i2] == k2);
        lemma_name_count_pos(keys.drop_last(), k2);
    } else if i2 == n {
        assert(keys.drop_last()[i1] == k1);
        lemma_name_count_pos(keys.drop_last(), k1);
    } else {
        assert(keys.drop_last()[i1] == k1);
        assert(keys.drop_last()[i2] == k2);
        lemma_name_count_two(keys.drop_last(), k1, k2);
    }
}

/// Different skills of a list get different tool names: a bare name is
/// unique among the skill names and holds no `.`, while a qualified name
/// holds `.` and determines all three parts of its key.
pub proof fn lemma_tool_names_distinct(
    keys: Seq<(Seq<char>, Seq<char>, Seq<char>)>,
    k1: (Seq<char>, Seq<char>, Seq<char>),
    k2: (Seq<char>, Seq<char>, Seq<char>),
)
    requires
        keys.contains(k1),
        keys.contains(k2),
        k1 != k2,
    ensures
        own_tool_name(keys, k1) != own_tool_name(keys, k2),
{
    let q1 = k1.2.contains('.') || name_count(keys, k1.2) > 1;
    let q2 = k2.2.contains('.') || name_count(keys, k2.2) > 1;
    let dot = seq!['.'];
    lemma_encode_bytes_no_dot(encode_utf8(k1.2));
    lemma_encode_bytes_no_dot(encode_utf8(k1.1));
    lemma_encode_bytes_no_dot(encode_utf8(k2.2));
    lemma_encode_bytes_no_dot(encode_utf8(k2.1));
    let e1 = percent_encode(k1.2) + dot + percent_encode(k1.1) + dot + percent_encode(k1.0);
    let e2 = percent_encode(k2.2) + dot + percent_encode(k2.1) + dot + percent_encode(k2.0);
    if !q1 && !q2 {
        if k1.2 == k2.2 {
            lemma_name_count_two(keys, k1, k2);
        }
    } else if q1 && !q2 {
        assert(e1[percent_encode(k1.2).len() as int] == '.');
        assert(own_tool_name(keys, k1) == e1);
        if e1 == k2.2 {
            assert(k2.2.contains('.'));
        }
    } else if !q1 && q2 {
        assert(e2[percent_encode(k2.2).len() as int] == '.');
        assert(own_tool_name(keys, k2) == e2);
        if e2 == k1.2 {
            assert(k1.2.contains('.'));
        }
    } else {
        if e1 == e2 {
            let r1 = percent_encode(k1.1) + dot + percent_encode(k1.0);
            let r2 = percent_encode(k2.1) + dot + percent_encode(k2.0);
            assert(e1 =~= percent_encode(k1.2) + dot + r1);
            assert(e2 =~= percent_encode(k2.2) + dot + r2);
            lemma_dot_join_injective(percent_encode(k1.2), r1, percent_encode(k2.2), r2);
            lemma_dot_join_injective(percent_encode(k1.1), percent_encode(k1.0), percent_encode(k2.1), percent_encode(k2.0));
            lemma_percent_encode_injective(k1.2, k2.2);
            lemma_percent_encode_injective(k1.1, k2.1);
            lemma_percent_encode_injective(k1.0, k2.0);
        }
    }
}

/// Maps each owned skill's `(owner_tenant, owner_namespace, skillname)` to
/// its tool name: the bare skill name when it is unique among `skills` and
/// has no `.`, else the dotted, percent-encoded
/// `skillname.namespace.tenant`. Each key occurs once in the result, and
/// no two entries share a tool name.
pub fn compute_own_skill_tool_names<T: OwnSkillToolIdentity>(skills: &[T]) -> (r: Vec<
    ((String, String, String), String),
>)
    ensures
        forall|j: int|
            #![trigger r@[j]]
            0 <= j < r@.len() ==> skill_keys(skills@).contains(entry_view(r@[j]).0) && entry_view(
                r@[j],
            ).1 == own_tool_name(skill_keys(skills@), entry_view(r@[j]).0),
        forall|i: int|
            0 <= i < skills@.len() ==> #[trigger] names_key(r@, skill_keys(skills@)[i]),
        forall|a: int, b: int|
            0 <= a < b < r@.len() ==> entry_view(#[trigger] r@[a]).0 != entry_view(
                #[trigger] r@[b],
            ).0,
        forall|a: int, b: int|
            0 <= a < b < r@.len() ==> entry_view(#[trigger] r@[a]).1 != entry_view(
                #[trigger] r@[b],
            ).1,
{
    let ghost keys = skill_keys(skills@);
    let mut out: Vec<((String, String, String), String)> = Vec::new();
    let mut i: usize = 0;
    while i < skills.len()
        invariant
            i <= skills@.len(),
            keys == skill_keys(skills@),
            forall|j: int|
                #![trigger out@[j]]
                0 <= j < out@.len() ==> keys.contains(entry_view(out@[j]).0) && entry_view(
                    out@[j],
                ).1 == own_tool_name(keys, entry_view(out@[j]).0),
            forall|k: int| 0 <= k < i ==> #[trigger] names_key(out@, keys[k]),
            forall|a: int, b: int|
                0 <= a < b < out@.len() ==> entry_view(#[trigger] out@[a]).0 != entry_view(
                    #[trigger] out@[b],
                ).0,
        decreases skills@.len() - i,
    {
        let s = &skills[i];
        let t = s.owner_tenant();
        let ns = s.owner_namespace();
        let name = s.skillname();
        let ghost key = skill_key(skills@[i as int]);
        assert(keys[i as int] == key);
        let present = has_entry(&out, t, ns, name);
        let ghost before = out@;
        if !present {
            let tool = tool_name_of(skills, t, ns, name);
            let entry = ((to_string(t), to_string(ns), to_string(name)), tool);
            proof {
                assert(keys.contains(key));
                assert(entry_view(entry).0 == key);
            }
            out.push(entry);
            proof {
                assert(out@[out@.len() - 1] == entry);
                assert forall|q: int| 0 <= q < before.len() implies out@[q] == before[q] by {}
            }
        }
        proof {
            assert forall|k: int| 0 <= k < i + 1 implies #[trigger] names_key(out@, keys[k]) by {
                let kk = keys[k];
                if k < i || present {
                    assert(names_key(before, kk));
                    let j0 = choose|j: int| 0 <= j < before.len() && #[trigger] entry_view(before[j]).0 == kk;
                    assert(out@[j0] == before[j0]);
                    assert(entry_view(out@[j0]).0 == kk);
                } else {
                    assert(entry_view(out@[out@.len() - 1]).0 == kk);
                }
            }
        }
        i += 1;
    }
    proof {
        assert forall|a: int, b: int| 0 <= a < b < out@.len() implies entry_view(#[trigger] out@[a]).1
            != entry_view(#[trigger] out@[b]).1 by {
            lemma_tool_names_distinct(keys, entry_view(out@[a]).0, entry_view(out@[b]).0);
        }
    }
    out
}

} // verus!
