//! Character-level string toolkit shared by the gateway modules.
//!
//! Strings are handled as sequences of Unicode scalar values (`s@`). The
//! helpers here mirror the `str` methods that the gateway logic relies on
//! (`trim`, `starts_with`, `find`, `contains`, ...) with exact specifications.
use vstd::prelude::*;

verus! {

// ---------------------------------------------------------------------------
// Specifications
// ---------------------------------------------------------------------------

/// Unicode `White_Space` property, which is what `char::is_whitespace` tests.
pub open spec fn is_ws(c: char) -> bool {
    let u: u32 = c as u32;
    ||| (0x9 <= u && u <= 0xd)
    ||| u == 0x20
    ||| u == 0x85
    ||| u == 0xa0
    ||| u == 0x1680
    ||| (0x2000 <= u && u <= 0x200a)
    ||| u == 0x2028
    ||| u == 0x2029
    ||| u == 0x202f
    ||| u == 0x205f
    ||| u == 0x3000
}

/// Number of leading whitespace characters of `s`.
pub open spec fn ws_prefix_len(s: Seq<char>) -> nat
    decreases s.len(),
{
    if s.len() > 0 && is_ws(s[0]) {
        1 + ws_prefix_len(s.drop_first())
    } else {
        0
    }
}

/// Number of trailing whitespace characters of `s`.
pub open spec fn ws_suffix_len(s: Seq<char>) -> nat
    decreases s.len(),
{
    if s.len() > 0 && is_ws(s.last()) {
        1 + ws_suffix_len(s.drop_last())
    } else {
        0
    }
}

/// `str::trim_start`.
pub open spec fn trim_start(s: Seq<char>) -> Seq<char> {
    s.skip(ws_prefix_len(s) as int)
}

/// `str::trim_end`.
pub open spec fn trim_end(s: Seq<char>) -> Seq<char> {
    s.take(s.len() - ws_suffix_len(s))
}

/// `str::trim`.
pub open spec fn trim(s: Seq<char>) -> Seq<char> {
    trim_end(trim_start(s))
}

/// `s` begins with `p`.
pub open spec fn has_prefix(s: Seq<char>, p: Seq<char>) -> bool {
    p.len() <= s.len() && s.take(p.len() as int) == p
}

/// `s` ends with `p`.
pub open spec fn has_suffix(s: Seq<char>, p: Seq<char>) -> bool {
    p.len() <= s.len() && s.skip(s.len() - p.len()) == p
}

/// `str::strip_prefix`.
pub open spec fn strip_prefix(s: Seq<char>, p: Seq<char>) -> Option<Seq<char>> {
    if has_prefix(s, p) {
        Some(s.skip(p.len() as int))
    } else {
        None
    }
}

/// `p` occurs in `s` starting at position `i`.
pub open spec fn occurs_at(s: Seq<char>, p: Seq<char>, i: int) -> bool {
    0 <= i && i + p.len() <= s.len() && s.subrange(i, i + p.len()) == p
}

/// `str::contains` for a string pattern.
pub open spec fn contains(s: Seq<char>, p: Seq<char>) -> bool {
    exists|i: int| occurs_at(s, p, i)
}

/// `i` is where `str::find` locates `p` in `s`: the first occurrence.
pub open spec fn is_first_occurrence(s: Seq<char>, p: Seq<char>, i: int) -> bool {
    occurs_at(s, p, i) && forall|j: int| 0 <= j < i ==> !occurs_at(s, p, j)
}

/// Where `str::find` locates `p` in `s` when the search starts at `k`.
pub open spec fn find_from_spec(s: Seq<char>, p: Seq<char>, k: int) -> Option<int>
    decreases s.len() - k + 1,
{
    if k < 0 || k + p.len() > s.len() {
        None
    } else if occurs_at(s, p, k) {
        Some(k)
    } else {
        find_from_spec(s, p, k + 1)
    }
}

/// `str::find` for a string pattern.
pub open spec fn find_spec(s: Seq<char>, p: Seq<char>) -> Option<int> {
    find_from_spec(s, p, 0)
}

/// Number of leading copies of `c` in `s` (what `trim_start_matches(c)` drops).
pub open spec fn char_prefix_len(s: Seq<char>, c: char) -> nat
    decreases s.len(),
{
    if s.len() > 0 && s[0] == c {
        1 + char_prefix_len(s.drop_first(), c)
    } else {
        0
    }
}

/// Number of trailing copies of `c` in `s` (what `trim_end_matches(c)` drops).
pub open spec fn char_suffix_len(s: Seq<char>, c: char) -> nat
    decreases s.len(),
{
    if s.len() > 0 && s.last() == c {
        1 + char_suffix_len(s.drop_last(), c)
    } else {
        0
    }
}

/// `str::trim_start_matches(c)`.
pub open spec fn trim_start_char(s: Seq<char>, c: char) -> Seq<char> {
    s.skip(char_prefix_len(s, c) as int)
}

/// `str::trim_end_matches(c)`.
pub open spec fn trim_end_char(s: Seq<char>, c: char) -> Seq<char> {
    s.take(s.len() - char_suffix_len(s, c))
}

/// `str::trim_matches(c)`.
pub open spec fn trim_char(s: Seq<char>, c: char) -> Seq<char> {
    trim_end_char(trim_start_char(s, c), c)
}

/// `char::is_ascii_digit`.
pub open spec fn is_digit(c: char) -> bool {
    '0' <= c && c <= '9'
}

/// Value of the decimal digits `s` (all assumed digits).
pub open spec fn digits_value(s: Seq<char>) -> nat
    decreases s.len(),
{
    if s.len() == 0 {
        0
    } else {
        digits_value(s.drop_last()) * 10 + ((s.last() as u32) - 48) as nat
    }
}

/// `str::parse::<u64>`: an optional `+` followed by at least one decimal
/// digit, whose value fits in a `u64`.
pub open spec fn parse_u64_spec(s: Seq<char>) -> Option<u64> {
    let d = unsigned_body(s);
    if d.len() > 0 && all_digits(d) && digits_value(d) <= u64::MAX {
        Some(digits_value(d) as u64)
    } else {
        None
    }
}

/// `s` without its optional leading `+`.
pub open spec fn unsigned_body(s: Seq<char>) -> Seq<char> {
    if s.len() > 0 && s[0] == '+' {
        s.drop_first()
    } else {
        s
    }
}

/// Every character of `d` is a decimal digit.
pub open spec fn all_digits(d: Seq<char>) -> bool {
    forall|i: int| 0 <= i < d.len() ==> is_digit(d[i])
}

/// `char::is_ascii_alphanumeric`.
pub open spec fn is_ascii_alnum(c: char) -> bool {
    ('0' <= c && c <= '9') || ('a' <= c && c <= 'z') || ('A' <= c && c <= 'Z')
}

/// `char::to_ascii_lowercase`.
pub open spec fn ascii_lower_char(c: char) -> char {
    if 'A' <= c && c <= 'Z' {
        ((c as u32) + 32) as char
    } else {
        c
    }
}

/// `str::to_ascii_lowercase`.
pub open spec fn ascii_lower(s: Seq<char>) -> Seq<char> {
    s.map_values(|c: char| ascii_lower_char(c))
}

/// The decimal digit character for `d < 10`.
pub open spec fn digit_char(d: nat) -> char {
    ((d + 48) as u32) as char
}

/// Decimal rendering of a natural number, as `Display` prints it.
pub open spec fn decimal(n: nat) -> Seq<char>
    decreases n,
{
    if n < 10 {
        seq![digit_char(n)]
    } else {
        decimal(n / 10).push(digit_char(n % 10))
    }
}

// ---------------------------------------------------------------------------
// Lemmas
// ---------------------------------------------------------------------------

/// Characterizes `ws_prefix_len` by its first non-whitespace position.
pub proof fn lemma_ws_prefix_len(s: Seq<char>, k: int)
    requires
        0 <= k <= s.len(),
        forall|j: int| 0 <= j < k ==> is_ws(s[j]),
        k == s.len() || !is_ws(s[k]),
    ensures
        ws_prefix_len(s) == k,
    decreases k,
{
    if k > 0 {
        let t = s.drop_first();
        assert forall|j: int| 0 <= j < k - 1 implies is_ws(t[j]) by {
            assert(t[j] == s[j + 1]);
        }
        if k - 1 < t.len() {
            assert(t[k - 1] == s[k]);
        }
        lemma_ws_prefix_len(t, k - 1);
    }
}

/// Characterizes `ws_suffix_len` by the last non-whitespace position.
pub proof fn lemma_ws_suffix_len(s: Seq<char>, k: int)
    requires
        0 <= k <= s.len(),
        forall|j: int| s.len() - k <= j < s.len() ==> is_ws(s[j]),
        k == s.len() || !is_ws(s[s.len() - k - 1]),
    ensures
        ws_suffix_len(s) == k,
    decreases k,
{
    if k > 0 {
        let t = s.drop_last();
        assert forall|j: int| t.len() - (k - 1) <= j < t.len() implies is_ws(t[j]) by {
            assert(t[j] == s[j]);
        }
        if k - 1 < t.len() {
            assert(t[t.len() - (k - 1) - 1] == s[s.len() - k - 1]);
        }
        lemma_ws_suffix_len(t, k - 1);
    }
}

/// The trailing whitespace count is within the length, and the character
/// before the trailing whitespace is not whitespace.
pub proof fn lemma_ws_suffix_bound(s: Seq<char>)
    ensures
        ws_suffix_len(s) <= s.len(),
        ws_suffix_len(s) < s.len() ==> !is_ws(s[s.len() - ws_suffix_len(s) - 1]),
    decreases s.len(),
{
    if s.len() > 0 && is_ws(s.last()) {
        let t = s.drop_last();
        lemma_ws_suffix_bound(t);
        if ws_suffix_len(s) < s.len() {
            assert(t[t.len() - ws_suffix_len(t) - 1] == s[s.len() - ws_suffix_len(s) - 1]);
        }
    }
}

/// The leading run of `c` is within the length.
pub proof fn lemma_char_prefix_bound(s: Seq<char>, c: char)
    ensures
        char_prefix_len(s, c) <= s.len(),
    decreases s.len(),
{
    if s.len() > 0 && s[0] == c {
        lemma_char_prefix_bound(s.drop_first(), c);
    }
}

/// A trimmed string that is not empty ends with a non-whitespace character.
pub proof fn lemma_trim_ends_nonspace(s: Seq<char>)
    ensures
        trim(s).len() > 0 ==> !is_ws(trim(s).last()),
{
    let a = trim_start(s);
    lemma_ws_suffix_bound(a);
    if trim(s).len() > 0 {
        assert(trim(s).last() == a[a.len() - ws_suffix_len(a) - 1]);
    }
}

/// A successful search lands on an occurrence at or after its start.
pub proof fn lemma_find_from_spec(s: Seq<char>, p: Seq<char>, k: int)
    requires
        0 <= k,
    ensures
        match find_from_spec(s, p, k) {
            Some(i) => k <= i && occurs_at(s, p, i) && forall|j: int|
                k <= j < i ==> !occurs_at(s, p, j),
            None => forall|j: int| k <= j ==> !occurs_at(s, p, j),
        },
    decreases s.len() - k + 1,
{
    if k + p.len() > s.len() {
    } else if occurs_at(s, p, k) {
    } else {
        lemma_find_from_spec(s, p, k + 1);
    }
}

/// Characterizes `char_prefix_len` by the first position holding another character.
pub proof fn lemma_char_prefix_len(s: Seq<char>, c: char, k: int)
    requires
        0 <= k <= s.len(),
        forall|j: int| 0 <= j < k ==> s[j] == c,
        k == s.len() || s[k] != c,
    ensures
        char_prefix_len(s, c) == k,
    decreases k,
{
    if k > 0 {
        let t = s.drop_first();
        assert forall|j: int| 0 <= j < k - 1 implies t[j] == c by {
            assert(t[j] == s[j + 1]);
        }
        if k - 1 < t.len() {
            assert(t[k - 1] == s[k]);
        }
        lemma_char_prefix_len(t, c, k - 1);
    }
}

/// Characterizes `char_suffix_len` by the last position holding another character.
pub proof fn lemma_char_suffix_len(s: Seq<char>, c: char, k: int)
    requires
        0 <= k <= s.len(),
        forall|j: int| s.len() - k <= j < s.len() ==> s[j] == c,
        k == s.len() || s[s.len() - k - 1] != c,
    ensures
        char_suffix_len(s, c) == k,
    decreases k,
{
    if k > 0 {
        let t = s.drop_last();
        assert forall|j: int| t.len() - (k - 1) <= j < t.len() implies t[j] == c by {
            assert(t[j] == s[j]);
        }
        if k - 1 < t.len() {
            assert(t[t.len() - (k - 1) - 1] == s[s.len() - k - 1]);
        }
        lemma_char_suffix_len(t, c, k - 1);
    }
}

/// The value of a digit string is at least the value of each of its prefixes.
pub proof fn lemma_digits_value_prefix_le(d: Seq<char>, k: int)
    requires
        0 <= k <= d.len(),
        all_digits(d),
    ensures
        digits_value(d.take(k)) <= digits_value(d),
    decreases d.len() - k,
{
    if k < d.len() {
        lemma_digits_value_prefix_le(d, k + 1);
        assert(d.take(k + 1).drop_last() == d.take(k));
    } else {
        assert(d.take(k) == d);
    }
}

/// The decimal rendering of a number is never empty.
pub proof fn lemma_decimal_nonempty(n: nat)
    ensures
        decimal(n).len() >= 1,
    decreases n,
{
    if n >= 10 {
        lemma_decimal_nonempty(n / 10);
    }
}

// ---------------------------------------------------------------------------
// Executable helpers
// ---------------------------------------------------------------------------

/// Appends one character to a `String` (std `String::push`).
/// Trusted: the documentation of `String::push` states that the character is
/// appended at the end and nothing else changes.
#[verifier::external_body]
pub(crate) fn push_char(s: &mut String, c: char)
    ensures
        final(s)@ == old(s)@.push(c),
{
    s.push(c);
}

/// The characters of `s`, in order.
pub fn chars_of(s: &str) -> (v: Vec<char>)
    ensures
        v@ == s@,
{
    let mut v: Vec<char> = Vec::new();
    for c in it: s.chars()
        invariant
            v@ == it.seq().take(it.index() as int),
    {
        v.push(c);
    }
    v
}

/// A `String` holding `v[lo..hi]`.
pub fn string_of_range(v: &Vec<char>, lo: usize, hi: usize) -> (s: String)
    requires
        lo <= hi <= v@.len(),
    ensures
        s@ == v@.subrange(lo as int, hi as int),
{
    let mut s = String::new();
    let mut i: usize = lo;
    while i < hi
        invariant
            lo <= i <= hi <= v@.len(),
            s@ == v@.subrange(lo as int, i as int),
        decreases hi - i,
    {
        push_char(&mut s, v[i]);
        assert(v@.subrange(lo as int, i + 1) == v@.subrange(lo as int, i as int).push(v@[i as int]));
        i += 1;
    }
    s
}

/// A `String` holding exactly the characters of `v`.
pub fn string_of(v: &Vec<char>) -> (s: String)
    ensures
        s@ == v@,
{
    let s = string_of_range(v, 0, v.len());
    assert(v@.subrange(0, v@.len() as int) == v@);
    s
}

/// Appends the characters of `v` to `s`.
pub fn push_all(s: &mut String, v: &Vec<char>)
    ensures
        final(s)@ == old(s)@ + v@,
{
    let mut i: usize = 0;
    while i < v.len()
        invariant
            i <= v@.len(),
            s@ == old(s)@ + v@.take(i as int),
        decreases v@.len() - i,
    {
        push_char(s, v[i]);
        assert(v@.take(i + 1) == v@.take(i as int).push(v@[i as int]));
        i += 1;
    }
    assert(v@.take(v@.len() as int) == v@);
}

/// Appends the characters of `t` to `s`.
pub fn push_str(s: &mut String, t: &str)
    ensures
        final(s)@ == old(s)@ + t@,
{
    let v = chars_of(t);
    push_all(s, &v);
}

/// The view of an optional string.
pub open spec fn opt_view(o: Option<String>) -> Option<Seq<char>> {
    match o {
        Some(s) => Some(s@),
        None => None,
    }
}

/// A copy of an optional string.
pub fn clone_opt(o: &Option<String>) -> (r: Option<String>)
    ensures
        opt_view(r) == opt_view(*o),
{
    match o {
        Some(s) => Some(s.clone()),
        None => None,
    }
}

/// Copies a `&str` into a `String`.
pub fn to_string(t: &str) -> (s: String)
    ensures
        s@ == t@,
{
    let mut s = String::new();
    push_str(&mut s, t);
    assert(Seq::<char>::empty() + t@ == t@);
    s
}

/// `char::is_whitespace`.
pub fn is_whitespace(c: char) -> (b: bool)
    ensures
        b == is_ws(c),
{
    let u: u32 = c as u32;
    (0x9 <= u && u <= 0xd) || u == 0x20 || u == 0x85 || u == 0xa0 || u == 0x1680 || (0x2000 <= u
        && u <= 0x200a) || u == 0x2028 || u == 0x2029 || u == 0x202f || u == 0x205f || u == 0x3000
}

/// Position of the first non-whitespace character of `v` (or its length).
pub fn ws_prefix_end(v: &Vec<char>) -> (k: usize)
    ensures
        k == ws_prefix_len(v@),
        k <= v@.len(),
{
    let mut k: usize = 0;
    while k < v.len() && is_whitespace(v[k])
        invariant
            k <= v@.len(),
            forall|j: int| 0 <= j < k ==> is_ws(v@[j]),
        decreases v@.len() - k,
    {
        k += 1;
    }
    proof {
        lemma_ws_prefix_len(v@, k as int);
    }
    k
}

/// Number of trailing whitespace characters of `v`.
pub fn ws_suffix_count(v: &Vec<char>) -> (k: usize)
    ensures
        k == ws_suffix_len(v@),
        k <= v@.len(),
{
    let mut k: usize = 0;
    while k < v.len() && is_whitespace(v[v.len() - k - 1])
        invariant
            k <= v@.len(),
            forall|j: int| v@.len() - k <= j < v@.len() ==> is_ws(v@[j]),
        decreases v@.len() - k,
    {
        k += 1;
    }
    proof {
        lemma_ws_suffix_len(v@, k as int);
    }
    k
}

/// The bounds `[lo, hi)` of `trim(v)` inside `v`.
pub fn trim_bounds(v: &Vec<char>) -> (r: (usize, usize))
    ensures
        r.0 <= r.1 <= v@.len(),
        v@.subrange(r.0 as int, r.1 as int) == trim(v@),
{
    let lo = ws_prefix_end(v);
    let ghost t = v@.skip(lo as int);
    let mut k: usize = 0;
    while k < v.len() - lo && is_whitespace(v[v.len() - k - 1])
        invariant
            lo <= v@.len(),
            t == v@.skip(lo as int),
            k <= v@.len() - lo,
            forall|j: int| t.len() - k <= j < t.len() ==> is_ws(t[j]),
        decreases v@.len() - lo - k,
    {
        assert(t[t.len() - k - 1] == v@[v@.len() - k - 1]);
        k += 1;
    }
    proof {
        if k < t.len() {
            assert(t[t.len() - k - 1] == v@[v@.len() - k - 1]);
        }
        lemma_ws_suffix_len(t, k as int);
        assert(v@.subrange(lo as int, (v@.len() - k) as int) == t.take(t.len() - k));
    }
    (lo, v.len() - k)
}

/// `str::trim`, returning an owned string.
pub fn trim_str(s: &str) -> (r: String)
    ensures
        r@ == trim(s@),
{
    let v = chars_of(s);
    let (lo, hi) = trim_bounds(&v);
    string_of_range(&v, lo, hi)
}

/// `v[lo..hi]` equals `p`.
pub fn range_eq(v: &Vec<char>, lo: usize, hi: usize, p: &Vec<char>) -> (b: bool)
    requires
        lo <= hi <= v@.len(),
    ensures
        b == (v@.subrange(lo as int, hi as int) == p@),
{
    if hi - lo != p.len() {
        return false;
    }
    let mut i: usize = 0;
    while i < p.len()
        invariant
            lo <= hi <= v@.len(),
            hi - lo == p@.len(),
            i <= p@.len(),
            forall|j: int| 0 <= j < i ==> v@[lo + j] == p@[j],
        decreases p@.len() - i,
    {
        if v[lo + i] != p[i] {
            assert(v@.subrange(lo as int, hi as int)[i as int] != p@[i as int]);
            return false;
        }
        i += 1;
    }
    assert(v@.subrange(lo as int, hi as int) =~= p@);
    true
}

/// Equality of two character vectors.
pub fn chars_eq(a: &Vec<char>, b: &Vec<char>) -> (r: bool)
    ensures
        r == (a@ == b@),
{
    let r = range_eq(a, 0, a.len(), b);
    assert(a@.subrange(0, a@.len() as int) == a@);
    r
}

/// Equality of two strings by content.
pub fn str_eq(a: &str, b: &str) -> (r: bool)
    ensures
        r == (a@ == b@),
{
    let va = chars_of(a);
    let vb = chars_of(b);
    chars_eq(&va, &vb)
}

/// `v` begins with `p`.
pub fn starts_with(v: &Vec<char>, p: &Vec<char>) -> (b: bool)
    ensures
        b == has_prefix(v@, p@),
{
    if p.len() > v.len() {
        false
    } else {
        range_eq(v, 0, p.len(), p)
    }
}

/// `v` ends with `p`.
pub fn ends_with(v: &Vec<char>, p: &Vec<char>) -> (b: bool)
    ensures
        b == has_suffix(v@, p@),
{
    if p.len() > v.len() {
        false
    } else {
        let r = range_eq(v, v.len() - p.len(), v.len(), p);
        assert(v@.subrange((v@.len() - p@.len()) as int, v@.len() as int) == v@.skip(
            v@.len() - p@.len(),
        ));
        r
    }
}

/// First position at or after `from` where `p` occurs in `v`.
pub fn find_from(v: &Vec<char>, p: &Vec<char>, from: usize) -> (r: Option<usize>)
    requires
        from <= v@.len(),
    ensures
        match r {
            Some(i) => from <= i && occurs_at(v@, p@, i as int) && forall|j: int|
                from <= j < i ==> !occurs_at(v@, p@, j),
            None => forall|j: int| from <= j ==> !occurs_at(v@, p@, j),
        },
        match r {
            Some(i) => find_from_spec(v@, p@, from as int) == Some(i as int),
            None => find_from_spec(v@, p@, from as int) is None,
        },
{
    proof {
        lemma_find_from_spec(v@, p@, from as int);
    }
    if p.len() > v.len() {
        return None;
    }
    let mut i: usize = from;
    while i <= v.len() - p.len()
        invariant
            from <= i <= v@.len(),
            p@.len() <= v@.len(),
            forall|j: int| from <= j < i ==> !occurs_at(v@, p@, j),
            find_from_spec(v@, p@, from as int) == find_from_spec(v@, p@, i as int),
        decreases v@.len() - i,
    {
        if range_eq(v, i, i + p.len(), p) {
            assert(occurs_at(v@, p@, i as int));
            assert(find_from_spec(v@, p@, i as int) == Some(i as int));
            return Some(i);
        }
        if i == v.len() {
            proof {
                if p@.len() == 0 {
                    assert(v@.subrange(i as int, i as int + p@.len()) =~= p@);
                }
            }
            return None;
        }
        i += 1;
    }
    None
}

/// `str::find`: the first position where `p` occurs in `v`.
pub fn find(v: &Vec<char>, p: &Vec<char>) -> (r: Option<usize>)
    ensures
        match r {
            Some(i) => is_first_occurrence(v@, p@, i as int),
            None => !contains(v@, p@),
        },
        match r {
            Some(i) => find_spec(v@, p@) == Some(i as int),
            None => find_spec(v@, p@) is None,
        },
{
    find_from(v, p, 0)
}

/// A copy of `v[lo..hi]`.
pub fn sub_chars(v: &Vec<char>, lo: usize, hi: usize) -> (r: Vec<char>)
    requires
        lo <= hi <= v@.len(),
    ensures
        r@ == v@.subrange(lo as int, hi as int),
{
    let mut r: Vec<char> = Vec::new();
    let mut i: usize = lo;
    while i < hi
        invariant
            lo <= i <= hi <= v@.len(),
            r@ == v@.subrange(lo as int, i as int),
        decreases hi - i,
    {
        r.push(v[i]);
        assert(v@.subrange(lo as int, i + 1) == v@.subrange(lo as int, i as int).push(v@[i as int]));
        i += 1;
    }
    r
}

/// `str::contains` for a string pattern.
pub fn contains_chars(v: &Vec<char>, p: &Vec<char>) -> (b: bool)
    ensures
        b == contains(v@, p@),
{
    match find(v, p) {
        Some(i) => {
            assert(occurs_at(v@, p@, i as int));
            true
        },
        None => false,
    }
}

/// Position of the first occurrence of `c` at or after `from`.
pub fn find_char_from(v: &Vec<char>, c: char, from: usize) -> (r: Option<usize>)
    requires
        from <= v@.len(),
    ensures
        match r {
            Some(i) => from <= i < v@.len() && v@[i as int] == c && forall|j: int|
                from <= j < i ==> v@[j] != c,
            None => forall|j: int| from <= j < v@.len() ==> v@[j] != c,
        },
{
    let mut i: usize = from;
    while i < v.len()
        invariant
            from <= i <= v@.len(),
            forall|j: int| from <= j < i ==> v@[j] != c,
        decreases v@.len() - i,
    {
        if v[i] == c {
            return Some(i);
        }
        i += 1;
    }
    None
}

/// Appends `v[lo..hi]` to `out`.
pub fn extend_range(out: &mut Vec<char>, v: &Vec<char>, lo: usize, hi: usize)
    requires
        lo <= hi <= v@.len(),
    ensures
        final(out)@ == old(out)@ + v@.subrange(lo as int, hi as int),
{
    let mut i: usize = lo;
    while i < hi
        invariant
            lo <= i <= hi <= v@.len(),
            out@ == old(out)@ + v@.subrange(lo as int, i as int),
        decreases hi - i,
    {
        out.push(v[i]);
        assert(v@.subrange(lo as int, i + 1) == v@.subrange(lo as int, i as int).push(v@[i as int]));
        i += 1;
    }
}

/// The bounds `[lo, hi)` of `trim_char(v, c)` inside `v`.
pub fn trim_char_bounds(v: &Vec<char>, c: char) -> (r: (usize, usize))
    ensures
        r.0 <= r.1 <= v@.len(),
        r.0 == char_prefix_len(v@, c),
        v@.subrange(r.0 as int, r.1 as int) == trim_char(v@, c),
{
    let mut lo: usize = 0;
    while lo < v.len() && v[lo] == c
        invariant
            lo <= v@.len(),
            forall|j: int| 0 <= j < lo ==> v@[j] == c,
        decreases v@.len() - lo,
    {
        lo += 1;
    }
    proof {
        lemma_char_prefix_len(v@, c, lo as int);
    }
    let ghost t = v@.skip(lo as int);
    let mut k: usize = 0;
    while k < v.len() - lo && v[v.len() - k - 1] == c
        invariant
            lo <= v@.len(),
            t == v@.skip(lo as int),
            k <= v@.len() - lo,
            forall|j: int| t.len() - k <= j < t.len() ==> t[j] == c,
        decreases v@.len() - lo - k,
    {
        assert(t[t.len() - k - 1] == v@[v@.len() - k - 1]);
        k += 1;
    }
    proof {
        if k < t.len() {
            assert(t[t.len() - k - 1] == v@[v@.len() - k - 1]);
        }
        lemma_char_suffix_len(t, c, k as int);
        assert(v@.subrange(lo as int, (v@.len() - k) as int) == t.take(t.len() - k));
    }
    (lo, v.len() - k)
}

/// Number of leading copies of `c` in `v`.
pub fn char_prefix_count(v: &Vec<char>, c: char) -> (k: usize)
    ensures
        k == char_prefix_len(v@, c),
        k <= v@.len(),
{
    let mut k: usize = 0;
    while k < v.len() && v[k] == c
        invariant
            k <= v@.len(),
            forall|j: int| 0 <= j < k ==> v@[j] == c,
        decreases v@.len() - k,
    {
        k += 1;
    }
    proof {
        lemma_char_prefix_len(v@, c, k as int);
    }
    k
}

/// Number of trailing copies of `c` in `v`.
pub fn char_suffix_count(v: &Vec<char>, c: char) -> (k: usize)
    ensures
        k == char_suffix_len(v@, c),
        k <= v@.len(),
{
    let mut k: usize = 0;
    while k < v.len() && v[v.len() - k - 1] == c
        invariant
            k <= v@.len(),
            forall|j: int| v@.len() - k <= j < v@.len() ==> v@[j] == c,
        decreases v@.len() - k,
    {
        k += 1;
    }
    proof {
        lemma_char_suffix_len(v@, c, k as int);
    }
    k
}

/// `str::parse::<u64>`.
pub fn parse_u64(v: &Vec<char>) -> (r: Option<u64>)
    ensures
        r == parse_u64_spec(v@),
{
    let start: usize = if v.len() > 0 && v[0] == '+' {
        1
    } else {
        0
    };
    let ghost d = unsigned_body(v@);
    assert(d == v@.skip(start as int));
    if start == v.len() {
        return None;
    }
    let mut acc: u64 = 0;
    let mut i: usize = start;
    while i < v.len()
        invariant
            start <= i <= v@.len(),
            d == v@.skip(start as int),
            d == unsigned_body(v@),
            forall|j: int| 0 <= j < i - start ==> is_digit(d[j]),
            acc == digits_value(d.take(i - start)),
        decreases v@.len() - i,
    {
        let c = v[i];
        if !('0' <= c && c <= '9') {
            assert(d[i - start] == c);
            assert(!is_digit(d[i - start]));
            assert(!all_digits(d));
            return None;
        }
        let dv: u64 = (c as u32 - 48) as u64;
        assert(d.take(i + 1 - start).drop_last() == d.take(i - start));
        assert(digits_value(d.take(i + 1 - start)) == digits_value(d.take(i - start)) * 10 + dv);
        match acc.checked_mul(10) {
            None => {
                proof {
                    if all_digits(d) {
                        lemma_digits_value_prefix_le(d, i + 1 - start);
                    }
                }
                return None;
            },
            Some(m) => match m.checked_add(dv) {
                None => {
                    proof {
                        if all_digits(d) {
                            lemma_digits_value_prefix_le(d, i + 1 - start);
                        }
                    }
                    return None;
                },
                Some(n) => {
                    acc = n;
                },
            },
        }
        i += 1;
    }
    assert(d.take(d.len() as int) == d);
    assert(all_digits(d));
    Some(acc)
}

/// Appends `v[lo..hi]` to the string `s`.
pub fn push_range(s: &mut String, v: &Vec<char>, lo: usize, hi: usize)
    requires
        lo <= hi <= v@.len(),
    ensures
        final(s)@ == old(s)@ + v@.subrange(lo as int, hi as int),
{
    let mut i: usize = lo;
    while i < hi
        invariant
            lo <= i <= hi <= v@.len(),
            s@ == old(s)@ + v@.subrange(lo as int, i as int),
        decreases hi - i,
    {
        push_char(s, v[i]);
        assert(v@.subrange(lo as int, i + 1) == v@.subrange(lo as int, i as int).push(v@[i as int]));
        i += 1;
    }
}

/// `char::is_ascii_alphanumeric`.
pub fn is_ascii_alphanumeric(c: char) -> (b: bool)
    ensures
        b == is_ascii_alnum(c),
{
    ('0' <= c && c <= '9') || ('a' <= c && c <= 'z') || ('A' <= c && c <= 'Z')
}

/// `char::to_ascii_lowercase`.
pub fn to_ascii_lower_char(c: char) -> (r: char)
    ensures
        r == ascii_lower_char(c),
{
    if 'A' <= c && c <= 'Z' {
        let u: u8 = (c as u32 + 32) as u8;
        u as char
    } else {
        c
    }
}

/// `str::to_ascii_lowercase`.
pub fn to_ascii_lowercase(s: &str) -> (r: String)
    ensures
        r@ == ascii_lower(s@),
{
    let v = chars_of(s);
    let mut out = String::new();
    let mut i: usize = 0;
    while i < v.len()
        invariant
            v@ == s@,
            i <= v@.len(),
            out@ == ascii_lower(v@.take(i as int)),
        decreases v@.len() - i,
    {
        let c = to_ascii_lower_char(v[i]);
        push_char(&mut out, c);
        assert(ascii_lower(v@.take(i + 1)) =~= ascii_lower(v@.take(i as int)).push(
            ascii_lower_char(v@[i as int]),
        ));
        i += 1;
    }
    assert(v@.take(v@.len() as int) == v@);
    out
}

/// The decimal digit character for `d`.
pub fn digit(d: u64) -> (c: char)
    requires
        d < 10,
    ensures
        c == digit_char(d as nat),
{
    let u: u8 = (d as u8) + 48;
    u as char
}

/// Decimal rendering of `n` (what `n.to_string()` produces).
pub fn u64_decimal(n: u64) -> (s: String)
    ensures
        s@ == decimal(n as nat),
    decreases n,
{
    if n < 10 {
        let mut s = String::new();
        push_char(&mut s, digit(n));
        assert(s@ =~= seq![digit_char(n as nat)]);
        s
    } else {
        let mut s = u64_decimal(n / 10);
        push_char(&mut s, digit(n % 10));
        s
    }
}

// ---------------------------------------------------------------------------
// Lexicographic order (the order of `str`, byte-wise UTF-8 = code points)
// ---------------------------------------------------------------------------

/// `a` sorts strictly before `b` in code-point lexicographic order.
pub open spec fn lex_lt(a: Seq<char>, b: Seq<char>) -> bool
    decreases a.len(),
{
    if a.len() == 0 {
        b.len() > 0
    } else if b.len() == 0 {
        false
    } else if a[0] < b[0] {
        true
    } else if a[0] == b[0] {
        lex_lt(a.drop_first(), b.drop_first())
    } else {
        false
    }
}

/// No string sorts before itself.
pub proof fn lemma_lex_irreflexive(a: Seq<char>)
    ensures
        !lex_lt(a, a),
    decreases a.len(),
{
    if a.len() > 0 {
        lemma_lex_irreflexive(a.drop_first());
    }
}

/// The order is transitive.
pub proof fn lemma_lex_transitive(a: Seq<char>, b: Seq<char>, c: Seq<char>)
    requires
        lex_lt(a, b),
        lex_lt(b, c),
    ensures
        lex_lt(a, c),
    decreases a.len(),
{
    if a.len() > 0 && b.len() > 0 && c.len() > 0 && a[0] == b[0] && b[0] == c[0] {
        lemma_lex_transitive(a.drop_first(), b.drop_first(), c.drop_first());
    }
}

/// Two distinct strings are ordered one way or the other, and never both.
pub proof fn lemma_lex_total(a: Seq<char>, b: Seq<char>)
    ensures
        a != b ==> (lex_lt(a, b) || lex_lt(b, a)),
        !(lex_lt(a, b) && lex_lt(b, a)),
    decreases a.len(),
{
    if a.len() > 0 && b.len() > 0 {
        lemma_lex_total(a.drop_first(), b.drop_first());
        if a[0] == b[0] && a != b {
            assert(a == seq![a[0]] + a.drop_first());
            assert(b == seq![b[0]] + b.drop_first());
        }
    } else if a.len() == 0 && b.len() == 0 {
        assert(a =~= b);
    }
}

/// `a` sorts strictly before `b`.
pub fn str_lt(a: &str, b: &str) -> (r: bool)
    ensures
        r == lex_lt(a@, b@),
{
    let va = chars_of(a);
    let vb = chars_of(b);
    let mut i: usize = 0;
    assert(va@.skip(0) == va@);
    assert(vb@.skip(0) == vb@);
    while i < va.len() && i < vb.len()
        invariant
            i <= va@.len(),
            i <= vb@.len(),
            va@ == a@,
            vb@ == b@,
            lex_lt(va@, vb@) == lex_lt(va@.skip(i as int), vb@.skip(i as int)),
        decreases va@.len() - i,
    {
        let ca = va[i];
        let cb = vb[i];
        let ghost sa = va@.skip(i as int);
        let ghost sb = vb@.skip(i as int);
        assert(sa.len() > 0 && sb.len() > 0);
        assert(sa[0] == ca);
        assert(sb[0] == cb);
        if ca < cb {
            assert(lex_lt(sa, sb));
            return true;
        }
        if ca != cb {
            assert(!lex_lt(sa, sb));
            return false;
        }
        assert(va@.skip(i as int).drop_first() == va@.skip(i + 1));
        assert(vb@.skip(i as int).drop_first() == vb@.skip(i + 1));
        i += 1;
    }
    i < vb.len()
}

/// The strings of a vector by view.
pub open spec fn views(v: Seq<String>) -> Seq<Seq<char>> {
    v.map_values(|s: String| s@)
}

/// Sorted in non-decreasing lexicographic order.
pub open spec fn lex_sorted(s: Seq<Seq<char>>) -> bool {
    forall|i: int, j: int| 0 <= i < j < s.len() ==> !lex_lt(#[trigger] s[j], #[trigger] s[i])
}

/// A copy of `v` sorted lexicographically (`sort_unstable` on strings).
pub fn sort_strings(v: &Vec<String>) -> (r: Vec<String>)
    ensures
        lex_sorted(views(r@)),
        views(r@).to_multiset() == views(v@).to_multiset(),
{
    let mut out: Vec<String> = Vec::new();
    let mut i: usize = 0;
    assert(views(out@) =~= views(v@.take(0)));
    while i < v.len()
        invariant
            i <= v@.len(),
            lex_sorted(views(out@)),
            views(out@).to_multiset() == views(v@.take(i as int)).to_multiset(),
        decreases v@.len() - i,
    {
        let x = &v[i];
        let mut p: usize = 0;
        while p < out.len() && !str_lt(x.as_str(), out[p].as_str())
            invariant
                p <= out@.len(),
                forall|k: int| 0 <= k < p ==> !lex_lt(x@, #[trigger] views(out@)[k]),
            decreases out@.len() - p,
        {
            p += 1;
        }
        let ghost o = views(out@);
        proof {
            assert forall|k: int| p <= k < o.len() implies lex_lt(x@, #[trigger] o[k]) by {
                assert(lex_lt(x@, o[p as int]));
                if k > p {
                    assert(!lex_lt(o[k], o[p as int]));
                    lemma_lex_total(o[k], o[p as int]);
                    if o[k] != o[p as int] {
                        lemma_lex_transitive(x@, o[p as int], o[k]);
                    }
                }
            }
        }
        out.insert(p, x.clone());
        proof {
            let n = views(out@);
            assert(n =~= o.insert(p as int, x@));
            assert forall|a: int, b: int| 0 <= a < b < n.len() implies !lex_lt(
                #[trigger] n[b],
                #[trigger] n[a],
            ) by {
                if a < p && b < p {
                    assert(n[a] == o[a] && n[b] == o[b]);
                } else if a < p && b == p {
                    assert(n[a] == o[a] && n[b] == x@);
                    lemma_lex_total(x@, o[a]);
                } else if a < p && b > p {
                    assert(n[a] == o[a] && n[b] == o[b - 1]);
                } else if a == p {
                    assert(n[a] == x@ && n[b] == o[b - 1]);
                    lemma_lex_total(x@, o[b - 1]);
                } else {
                    assert(n[a] == o[a - 1] && n[b] == o[b - 1]);
                }
            }
            let t = views(v@.take(i as int));
            assert(v@.take(i + 1) == v@.take(i as int).push(v@[i as int]));
            assert(views(v@.take(i + 1)) =~= t.insert(t.len() as int, x@));
            vstd::seq_lib::to_multiset_insert(t, t.len() as int, x@);
            vstd::seq_lib::to_multiset_insert(o, p as int, x@);
        }
        i += 1;
    }
    assert(v@.take(v@.len() as int) == v@);
    out
}


// ---------------------------------------------------------------------------
// Splitting at a character
// ---------------------------------------------------------------------------

/// `s` split at every `c` (what `str::split(c)` yields).
pub open spec fn split_on(s: Seq<char>, c: char) -> Seq<Seq<char>>
    decreases s.len(),
{
    if s.len() == 0 {
        seq![Seq::empty()]
    } else {
        let rest = split_on(s.drop_last(), c);
        if s.last() == c {
            rest.push(Seq::empty())
        } else {
            rest.update(rest.len() - 1, rest.last().push(s.last()))
        }
    }
}

/// `split_on` never yields an empty list of pieces.
pub proof fn lemma_split_on_nonempty(s: Seq<char>, c: char)
    ensures
        split_on(s, c).len() >= 1,
    decreases s.len(),
{
    if s.len() > 0 {
        lemma_split_on_nonempty(s.drop_last(), c);
    }
}

/// Pieces joined with `c` between them (`join` of `str::split(c)`'s pieces).
pub open spec fn join_on(ps: Seq<Seq<char>>, c: char) -> Seq<char>
    decreases ps.len(),
{
    if ps.len() <= 1 {
        if ps.len() == 1 {
            ps[0]
        } else {
            Seq::empty()
        }
    } else {
        join_on(ps.drop_last(), c).push(c) + ps.last()
    }
}

/// Joining the pieces of `s` split at `c` with `c` gives back `s`.
pub proof fn lemma_split_join(s: Seq<char>, c: char)
    ensures
        join_on(split_on(s, c), c) == s,
    decreases s.len(),
{
    if s.len() == 0 {
        assert(join_on(split_on(s, c), c) =~= s);
    } else {
        let t = s.drop_last();
        let x = s.last();
        lemma_split_join(t, c);
        lemma_split_on_nonempty(t, c);
        let rest = split_on(t, c);
        if x == c {
            assert(split_on(s, c) == rest.push(Seq::empty()));
            assert(rest.push(Seq::<char>::empty()).drop_last() == rest);
            assert(join_on(split_on(s, c), c) =~= s);
        } else {
            let y = rest.last().push(x);
            let up = rest.update(rest.len() - 1, y);
            assert(split_on(s, c) == up);
            if rest.len() == 1 {
                assert(join_on(up, c) == y);
                assert(rest[0] == rest.last());
                assert(y =~= s);
            } else {
                assert(up.drop_last() =~= rest.drop_last());
                assert(join_on(rest, c) == join_on(rest.drop_last(), c).push(c) + rest.last());
                let j = join_on(rest.drop_last(), c).push(c);
                assert(join_on(up, c) == j + y);
                assert(j + y =~= (j + rest.last()).push(x));
                assert(s =~= t.push(x));
            }
        }
    }
}

/// The pieces of `s` between occurrences of `c` (`str::split(c)`).
pub fn split_char(s: &str, c: char) -> (r: Vec<String>)
    ensures
        views(r@) == split_on(s@, c),
{
    let v = chars_of(s);
    let mut done: Vec<String> = Vec::new();
    let mut cur: Vec<char> = Vec::new();
    let mut i: usize = 0;
    while i < v.len()
        invariant
            i <= v@.len(),
            v@ == s@,
            split_on(v@.take(i as int), c) == views(done@).push(cur@),
        decreases v@.len() - i,
    {
        let ghost before = views(done@);
        assert(v@.take(i + 1).drop_last() == v@.take(i as int));
        assert(v@.take(i + 1).last() == v@[i as int]);
        if v[i] == c {
            let piece = string_of(&cur);
            done.push(piece);
            cur = Vec::new();
            assert(views(done@) =~= before.push(piece@));
        } else {
            let ghost old_cur = cur@;
            cur.push(v[i]);
            assert(before.push(old_cur).update(before.len() as int, old_cur.push(v@[i as int])) =~= before.push(cur@));
        }
        i += 1;
    }
    assert(v@.take(v@.len() as int) == v@);
    let last = string_of(&cur);
    let ghost before = views(done@);
    done.push(last);
    assert(views(done@) =~= before.push(last@));
    done
}

} // verus!
