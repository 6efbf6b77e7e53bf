//! A JSON value as the gateway logic reads it, with the accessors that
//! logic uses (`get`, `as_str`, `as_u64`, `as_array`, `first`).
use vstd::prelude::*;
use crate::text::str_eq;

verus! {

/// A JSON number: its value as a `u64` when it is a non-negative integer
/// that fits, and its JSON text (which keeps other numbers exactly).
#[derive(Debug, Clone)]
pub struct JsonNumber {
    pub as_u64: Option<u64>,
    pub text: String,
}

/// A JSON value. Object members keep their order; a lookup by key finds
/// the first member with that key.
#[derive(Debug)]
pub enum JsonValue {
    Null,
    Bool(bool),
    Number(JsonNumber),
    String(String),
    Array(Vec<JsonValue>),
    Object(Vec<(String, JsonValue)>),
}

/// The member `key` of object members `fs` (the first with that key).
pub open spec fn member(fs: Seq<(String, JsonValue)>, key: Seq<char>) -> Option<JsonValue>
    decreases fs.len(),
{
    if fs.len() == 0 {
        None
    } else if fs[0].0@ == key {
        Some(fs[0].1)
    } else {
        member(fs.drop_first(), key)
    }
}

/// `Value::get(key)`: the member of an object, nothing for other values.
pub open spec fn get_spec(v: JsonValue, key: Seq<char>) -> Option<JsonValue> {
    match v {
        JsonValue::Object(fs) => member(fs@, key),
        _ => None,
    }
}

/// `Value::as_str`.
pub open spec fn as_str_spec(v: JsonValue) -> Option<Seq<char>> {
    match v {
        JsonValue::String(s) => Some(s@),
        _ => None,
    }
}

/// `Value::as_u64`.
pub open spec fn as_u64_spec(v: JsonValue) -> Option<u64> {
    match v {
        JsonValue::Number(n) => n.as_u64,
        _ => None,
    }
}

/// `Value::as_array().first()`.
pub open spec fn first_spec(v: JsonValue) -> Option<JsonValue> {
    match v {
        JsonValue::Array(items) => if items@.len() > 0 {
            Some(items@[0])
        } else {
            None
        },
        _ => None,
    }
}

/// `get` lifted over an optional value.
pub open spec fn oget(v: Option<JsonValue>, key: Seq<char>) -> Option<JsonValue> {
    match v {
        Some(x) => get_spec(x, key),
        None => None,
    }
}

/// `as_str` lifted over an optional value.
pub open spec fn ostr(v: Option<JsonValue>) -> Option<Seq<char>> {
    match v {
        Some(x) => as_str_spec(x),
        None => None,
    }
}

/// `as_u64` lifted over an optional value.
pub open spec fn ou64(v: Option<JsonValue>) -> Option<u64> {
    match v {
        Some(x) => as_u64_spec(x),
        None => None,
    }
}

/// `first` lifted over an optional value.
pub open spec fn ofirst(v: Option<JsonValue>) -> Option<JsonValue> {
    match v {
        Some(x) => first_spec(x),
        None => None,
    }
}

impl JsonValue {
    /// The member `key` of an object.
    pub fn get(&self, key: &str) -> (r: Option<&JsonValue>)
        ensures
            match r {
                Some(x) => get_spec(*self, key@) == Some(*x),
                None => get_spec(*self, key@) is None,
            },
    {
        match self {
            JsonValue::Object(fs) => {
                let mut i: usize = 0;
                assert(fs@.skip(0) == fs@);
                while i < fs.len()
                    invariant
                        i <= fs@.len(),
                        get_spec(*self, key@) == member(fs@, key@),
                        member(fs@, key@) == member(fs@.skip(i as int), key@),
                    decreases fs@.len() - i,
                {
                    assert(fs@.skip(i as int).drop_first() == fs@.skip(i + 1));
                    assert(fs@.skip(i as int)[0] == fs@[i as int]);
                    if str_eq(fs[i].0.as_str(), key) {
                        return Some(&fs[i].1);
                    }
                    i += 1;
                }
                None
            },
            _ => None,
        }
    }

    /// The string of a JSON string.
    pub fn as_str(&self) -> (r: Option<&str>)
        ensures
            match r {
                Some(s) => as_str_spec(*self) == Some(s@),
                None => as_str_spec(*self) is None,
            },
    {
        match self {
            JsonValue::String(s) => Some(s.as_str()),
            _ => None,
        }
    }

    /// The value of a non-negative integer number.
    pub fn as_u64(&self) -> (r: Option<u64>)
        ensures
            r == as_u64_spec(*self),
    {
        match self {
            JsonValue::Number(n) => n.as_u64,
            _ => None,
        }
    }

    /// The first element of an array.
    pub fn first(&self) -> (r: Option<&JsonValue>)
        ensures
            match r {
                Some(x) => first_spec(*self) == Some(*x),
                None => first_spec(*self) is None,
            },
    {
        match self {
            JsonValue::Array(items) => {
                if items.len() > 0 {
                    Some(&items[0])
                } else {
                    None
                }
            },
            _ => None,
        }
    }

    /// Whether the value is an object.
    pub fn is_object(&self) -> (b: bool)
        ensures
            b == (*self is Object),
    {
        match self {
            JsonValue::Object(_) => true,
            _ => false,
        }
    }
}

/// `v.get(key)` on an optional value.
pub fn opt_get<'a>(v: Option<&'a JsonValue>, key: &str) -> (r: Option<&'a JsonValue>)
    ensures
        match r {
            Some(x) => oget(
                match v {
                    Some(y) => Some(*y),
                    None => None,
                },
                key@,
            ) == Some(*x),
            None => oget(
                match v {
                    Some(y) => Some(*y),
                    None => None,
                },
                key@,
            ) is None,
        },
{
    match v {
        Some(x) => x.get(key),
        None => None,
    }
}

// ---------------------------------------------------------------------------
// Mathematical value and removal of `usage` members
// ---------------------------------------------------------------------------

/// The mathematical value of a JSON value.
pub enum JsonSpec {
    Null,
    Bool(bool),
    Number(Option<u64>, Seq<char>),
    Str(Seq<char>),
    Arr(Seq<JsonSpec>),
    Obj(Seq<(Seq<char>, JsonSpec)>),
}

/// The value of `v`.
pub open spec fn jview(v: JsonValue) -> JsonSpec
    decreases v,
{
    match v {
        JsonValue::Null => JsonSpec::Null,
        JsonValue::Bool(b) => JsonSpec::Bool(b),
        JsonValue::Number(n) => JsonSpec::Number(n.as_u64, n.text@),
        JsonValue::String(s) => JsonSpec::Str(s@),
        JsonValue::Array(items) => JsonSpec::Arr(jview_items(items@)),
        JsonValue::Object(fs) => JsonSpec::Obj(jview_members(fs@)),
    }
}

/// The values of `s`.
pub open spec fn jview_items(s: Seq<JsonValue>) -> Seq<JsonSpec>
    decreases s,
{
    if s.len() == 0 {
        Seq::empty()
    } else {
        seq![jview(s[0])] + jview_items(s.drop_first())
    }
}

/// The values of object members `fs`.
pub open spec fn jview_members(fs: Seq<(String, JsonValue)>) -> Seq<(Seq<char>, JsonSpec)>
    decreases fs,
{
    if fs.len() == 0 {
        Seq::empty()
    } else {
        seq![(fs[0].0@, jview(fs[0].1))] + jview_members(fs.drop_first())
    }
}

/// `v` with every `usage` member removed, at any depth.
pub open spec fn strip_usage(v: JsonSpec) -> JsonSpec
    decreases v,
{
    match v {
        JsonSpec::Arr(items) => JsonSpec::Arr(strip_usage_items(items)),
        JsonSpec::Obj(fs) => JsonSpec::Obj(strip_usage_members(fs)),
        _ => v,
    }
}

/// [`strip_usage`] on each value.
pub open spec fn strip_usage_items(s: Seq<JsonSpec>) -> Seq<JsonSpec>
    decreases s,
{
    if s.len() == 0 {
        Seq::empty()
    } else {
        seq![strip_usage(s[0])] + strip_usage_items(s.drop_first())
    }
}

/// The members other than `usage`, with [`strip_usage`] on their values.
pub open spec fn strip_usage_members(fs: Seq<(Seq<char>, JsonSpec)>) -> Seq<(Seq<char>, JsonSpec)>
    decreases fs,
{
    if fs.len() == 0 {
        Seq::empty()
    } else if fs[0].0 == "usage"@ {
        strip_usage_members(fs.drop_first())
    } else {
        seq![(fs[0].0, strip_usage(fs[0].1))] + strip_usage_members(fs.drop_first())
    }
}

/// Appending a value appends its view.
pub proof fn lemma_items_push(s: Seq<JsonValue>, x: JsonValue)
    ensures
        jview_items(s.push(x)) == jview_items(s).push(jview(x)),
    decreases s.len(),
{
    if s.len() == 0 {
        assert(s.push(x).drop_first() =~= Seq::<JsonValue>::empty());
        assert(jview_items(Seq::<JsonValue>::empty()) =~= Seq::<JsonSpec>::empty());
        assert(jview_items(s.push(x)) =~= seq![jview(x)]);
        assert(jview_items(s) =~= Seq::<JsonSpec>::empty());
    } else {
        lemma_items_push(s.drop_first(), x);
        assert(s.push(x).drop_first() =~= s.drop_first().push(x));
        assert(jview_items(s.push(x)) =~= jview_items(s).push(jview(x)));
    }
}

/// Appending a member appends its view.
pub proof fn lemma_members_push(s: Seq<(String, JsonValue)>, m: (String, JsonValue))
    ensures
        jview_members(s.push(m)) == jview_members(s).push((m.0@, jview(m.1))),
    decreases s.len(),
{
    if s.len() == 0 {
        assert(s.push(m).drop_first() =~= Seq::<(String, JsonValue)>::empty());
        assert(jview_members(Seq::<(String, JsonValue)>::empty()) =~= Seq::<(Seq<char>, JsonSpec)>::empty());
        assert(jview_members(s.push(m)) =~= seq![(m.0@, jview(m.1))]);
        assert(jview_members(s) =~= Seq::<(Seq<char>, JsonSpec)>::empty());
    } else {
        lemma_members_push(s.drop_first(), m);
        assert(s.push(m).drop_first() =~= s.drop_first().push(m));
        assert(jview_members(s.push(m)) =~= jview_members(s).push((m.0@, jview(m.1))));
    }
}

/// Stripping distributes over concatenation of values.
pub proof fn lemma_strip_items_concat(a: Seq<JsonSpec>, b: Seq<JsonSpec>)
    ensures
        strip_usage_items(a + b) == strip_usage_items(a) + strip_usage_items(b),
    decreases a.len(),
{
    if a.len() == 0 {
        assert(a + b =~= b);
        assert(strip_usage_items(a) =~= Seq::<JsonSpec>::empty());
        assert(Seq::<JsonSpec>::empty() + strip_usage_items(b) =~= strip_usage_items(b));
    } else {
        lemma_strip_items_concat(a.drop_first(), b);
        assert((a + b).drop_first() =~= a.drop_first() + b);
        assert((a + b)[0] == a[0]);
        assert(strip_usage_items(a + b) =~= strip_usage_items(a) + strip_usage_items(b));
    }
}

/// Stripping a pushed value pushes its stripped form.
pub proof fn lemma_strip_items_push(a: Seq<JsonSpec>, x: JsonSpec)
    ensures
        strip_usage_items(a.push(x)) == strip_usage_items(a).push(strip_usage(x)),
{
    lemma_strip_items_concat(a, seq![x]);
    assert(a.push(x) =~= a + seq![x]);
    assert(seq![x].drop_first() =~= Seq::<JsonSpec>::empty());
    assert(strip_usage_items(Seq::<JsonSpec>::empty()) =~= Seq::<JsonSpec>::empty());
    assert(strip_usage_items(seq![x]) =~= seq![strip_usage(x)]);
}

/// Stripping a pushed member drops it when it is `usage`, and otherwise pushes
/// it with its value stripped.
pub proof fn lemma_strip_members_push(a: Seq<(Seq<char>, JsonSpec)>, m: (Seq<char>, JsonSpec))
    ensures
        strip_usage_members(a.push(m)) == (if m.0 == "usage"@ {
            strip_usage_members(a)
        } else {
            strip_usage_members(a).push((m.0, strip_usage(m.1)))
        }),
    decreases a.len(),
{
    if a.len() == 0 {
        assert(a.push(m).drop_first() =~= Seq::<(Seq<char>, JsonSpec)>::empty());
        assert(strip_usage_members(Seq::<(Seq<char>, JsonSpec)>::empty()) =~= Seq::<(Seq<char>, JsonSpec)>::empty());
        assert(a.push(m)[0] == m);
        if m.0 != "usage"@ {
            assert(strip_usage_members(a.push(m)) =~= seq![(m.0, strip_usage(m.1))]);
        }
        assert(strip_usage_members(a) =~= Seq::<(Seq<char>, JsonSpec)>::empty());
    } else {
        lemma_strip_members_push(a.drop_first(), m);
        assert(a.push(m).drop_first() =~= a.drop_first().push(m));
        assert(a.push(m)[0] == a[0]);
        if a[0].0 == "usage"@ {
        } else {
            if m.0 != "usage"@ {
                assert(strip_usage_members(a.push(m)) =~= strip_usage_members(a).push((m.0, strip_usage(m.1))));
            } else {
                assert(strip_usage_members(a.push(m)) =~= strip_usage_members(a));
            }
        }
    }
}

/// Stripping twice is stripping once.
pub proof fn lemma_strip_idempotent(v: JsonSpec)
    ensures
        strip_usage(strip_usage(v)) == strip_usage(v),
    decreases v,
{
    match v {
        JsonSpec::Arr(items) => {
            lemma_strip_items_idempotent(items);
        },
        JsonSpec::Obj(fs) => {
            lemma_strip_members_idempotent(fs);
        },
        _ => {},
    }
}

/// See [`lemma_strip_idempotent`].
pub proof fn lemma_strip_items_idempotent(s: Seq<JsonSpec>)
    ensures
        strip_usage_items(strip_usage_items(s)) == strip_usage_items(s),
    decreases s,
{
    if s.len() > 0 {
        lemma_strip_idempotent(s[0]);
        lemma_strip_items_idempotent(s.drop_first());
        let t = strip_usage_items(s);
        assert(t[0] == strip_usage(s[0]));
        assert(t.drop_first() =~= strip_usage_items(s.drop_first()));
    }
}

/// See [`lemma_strip_idempotent`].
pub proof fn lemma_strip_members_idempotent(fs: Seq<(Seq<char>, JsonSpec)>)
    ensures
        strip_usage_members(strip_usage_members(fs)) == strip_usage_members(fs),
    decreases fs,
{
    if fs.len() > 0 {
        lemma_strip_members_idempotent(fs.drop_first());
        if fs[0].0 != "usage"@ {
            lemma_strip_idempotent(fs[0].1);
            let t = strip_usage_members(fs);
            assert(t[0] == (fs[0].0, strip_usage(fs[0].1)));
            assert(t.drop_first() =~= strip_usage_members(fs.drop_first()));
        }
    }
}


/// `v` has no member named `usage`, at any depth.
pub open spec fn usage_free(v: JsonSpec) -> bool
    decreases v,
{
    match v {
        JsonSpec::Arr(items) => usage_free_items(items),
        JsonSpec::Obj(fs) => usage_free_members(fs),
        _ => true,
    }
}

/// Every value of `s` is [`usage_free`].
pub open spec fn usage_free_items(s: Seq<JsonSpec>) -> bool
    decreases s,
{
    if s.len() == 0 {
        true
    } else {
        usage_free(s[0]) && usage_free_items(s.drop_first())
    }
}

/// No member of `fs` is named `usage`, and every value is [`usage_free`].
pub open spec fn usage_free_members(fs: Seq<(Seq<char>, JsonSpec)>) -> bool
    decreases fs,
{
    if fs.len() == 0 {
        true
    } else {
        fs[0].0 != "usage"@ && usage_free(fs[0].1) && usage_free_members(fs.drop_first())
    }
}

/// Stripping leaves no `usage` member anywhere.
pub proof fn lemma_strip_usage_free(v: JsonSpec)
    ensures
        usage_free(strip_usage(v)),
    decreases v,
{
    match v {
        JsonSpec::Arr(items) => {
            lemma_strip_items_usage_free(items);
        },
        JsonSpec::Obj(fs) => {
            lemma_strip_members_usage_free(fs);
        },
        _ => {},
    }
}

/// See [`lemma_strip_usage_free`].
pub proof fn lemma_strip_items_usage_free(s: Seq<JsonSpec>)
    ensures
        usage_free_items(strip_usage_items(s)),
    decreases s,
{
    if s.len() > 0 {
        lemma_strip_usage_free(s[0]);
        lemma_strip_items_usage_free(s.drop_first());
        let t = strip_usage_items(s);
        assert(t[0] == strip_usage(s[0]));
        assert(t.drop_first() =~= strip_usage_items(s.drop_first()));
    }
}

/// See [`lemma_strip_usage_free`].
pub proof fn lemma_strip_members_usage_free(fs: Seq<(Seq<char>, JsonSpec)>)
    ensures
        usage_free_members(strip_usage_members(fs)),
    decreases fs,
{
    if fs.len() > 0 {
        lemma_strip_members_usage_free(fs.drop_first());
        if fs[0].0 != "usage"@ {
            lemma_strip_usage_free(fs[0].1);
            let t = strip_usage_members(fs);
            assert(t[0] == (fs[0].0, strip_usage(fs[0].1)));
            assert(t.drop_first() =~= strip_usage_members(fs.drop_first()));
        }
    }
}

} // verus!
