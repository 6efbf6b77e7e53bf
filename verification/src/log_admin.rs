//! Admin control of the verbose log categories: turning a requested list of
//! category names into a category mask, or the list of unknown names.
use vstd::prelude::*;
use crate::text::{ascii_lower, str_eq, to_ascii_lowercase, trim, trim_str};

verus! {

/// Body of a request that replaces the enabled verbose categories.
#[derive(Debug, Clone)]
pub struct VerboseCategoriesRequest {
    pub categories: Vec<String>,
}

/// A verbose log category: its environment name and its mask bit(s).
#[derive(Debug, Clone)]
pub struct VerboseCategory {
    pub env_name: String,
    pub mask: u64,
}

/// The categories of `table` by view.
pub open spec fn table_view(table: Seq<VerboseCategory>) -> Seq<(Seq<char>, u64)> {
    table.map_values(|c: VerboseCategory| (c.env_name@, c.mask))
}

/// A requested name as it is matched and reported: trimmed, then ASCII
/// lower-cased.
pub open spec fn normalize(s: Seq<char>) -> Seq<char> {
    ascii_lower(trim(s))
}

/// The mask of the first category of `table` named `name`, if any.
pub open spec fn lookup_mask(table: Seq<(Seq<char>, u64)>, name: Seq<char>) -> Option<u64>
    decreases table.len(),
{
    if table.len() == 0 {
        None
    } else if table[0].0 == name {
        Some(table[0].1)
    } else {
        lookup_mask(table.drop_first(), name)
    }
}

/// `unknown` with `n` appended unless it is already there.
pub open spec fn push_unique(unknown: Seq<Seq<char>>, n: Seq<char>) -> Seq<Seq<char>> {
    if unknown.contains(n) {
        unknown
    } else {
        unknown.push(n)
    }
}

/// The mask of the known names among `cats` and the distinct unknown
/// (normalized) names, in first-seen order; a blank name counts as the
/// unknown name "". A name is looked up in `table` as it was given.
pub open spec fn mask_and_unknown(table: Seq<(Seq<char>, u64)>, cats: Seq<Seq<char>>) -> (
    u64,
    Seq<Seq<char>>,
)
    decreases cats.len(),
{
    if cats.len() == 0 {
        (0u64, Seq::empty())
    } else {
        let (m, unk) = mask_and_unknown(table, cats.drop_last());
        let n = normalize(cats.last());
        if n.len() == 0 {
            (m, push_unique(unk, Seq::empty()))
        } else {
            match lookup_mask(table, cats.last()) {
                Some(x) => (m | x, unk),
                None => (m, push_unique(unk, n)),
            }
        }
    }
}

/// The outcome of a category request: the mask when every name is known,
/// else the unknown names.
pub open spec fn categories_outcome(table: Seq<(Seq<char>, u64)>, cats: Seq<Seq<char>>) -> Result<
    u64,
    Seq<Seq<char>>,
> {
    let (m, unk) = mask_and_unknown(table, cats);
    if unk.len() == 0 {
        Ok(m)
    } else {
        Err(unk)
    }
}

/// The mask of the category of `table` named `name`, if any.
pub fn lookup_category(table: &[VerboseCategory], name: &str) -> (r: Option<u64>)
    ensures
        r == lookup_mask(table_view(table@), name@),
{
    let ghost tv = table_view(table@);
    assert(tv.skip(0) == tv);
    let mut i: usize = 0;
    while i < table.len()
        invariant
            i <= table@.len(),
            tv == table_view(table@),
            lookup_mask(tv, name@) == lookup_mask(tv.skip(i as int), name@),
        decreases table@.len() - i,
    {
        assert(tv.skip(i as int).drop_first() == tv.skip(i + 1));
        if str_eq(table[i].env_name.as_str(), name) {
            return Some(table[i].mask);
        }
        i += 1;
    }
    None
}

fn contains_str(v: &Vec<String>, n: &str) -> (b: bool)
    ensures
        b == v@.map_values(|s: String| s@).contains(n@),
{
    let ghost vv = v@.map_values(|s: String| s@);
    let mut i: usize = 0;
    while i < v.len()
        invariant
            i <= v@.len(),
            vv == v@.map_values(|s: String| s@),
            forall|k: int| 0 <= k < i ==> vv[k] != n@,
        decreases v@.len() - i,
    {
        if str_eq(v[i].as_str(), n) {
            assert(vv[i as int] == n@);
            return true;
        }
        i += 1;
    }
    false
}

/// The mask enabling exactly the requested categories (each name looked up
/// in `table` as given; a blank name is never a category), or the distinct
/// unknown names, trimmed and lower-cased, in the order first seen.
pub fn verbose_categories_mask_from_request(categories: &[String], table: &[VerboseCategory]) -> (r:
    Result<u64, Vec<String>>)
    ensures
        match r {
            Ok(m) => categories_outcome(table_view(table@), categories@.map_values(
                |s: String| s@,
            )) == Ok::<u64, Seq<Seq<char>>>(m),
            Err(u) => categories_outcome(table_view(table@), categories@.map_values(
                |s: String| s@,
            )) == Err::<u64, Seq<Seq<char>>>(u@.map_values(|s: String| s@)),
        },
{
    let ghost tv = table_view(table@);
    let ghost cv = categories@.map_values(|s: String| s@);
    let mut mask: u64 = 0;
    let mut unknown: Vec<String> = Vec::new();
    let mut i: usize = 0;
    while i < categories.len()
        invariant
            i <= categories@.len(),
            tv == table_view(table@),
            cv == categories@.map_values(|s: String| s@),
            mask_and_unknown(tv, cv.take(i as int)) == (mask, unknown@.map_values(|s: String| s@)),
        decreases categories@.len() - i,
    {
        assert(cv.take(i + 1).drop_last() == cv.take(i as int));
        assert(cv.take(i + 1).last() == categories@[i as int]@);
        let trimmed = trim_str(categories[i].as_str());
        let normalized = to_ascii_lowercase(trimmed.as_str());
        let ghost before = unknown@.map_values(|s: String| s@);
        if normalized.as_str().is_empty() {
            proof {
                assert(normalized@.len() == 0);
                assert(normalized@ == Seq::<char>::empty());
            }
            if !contains_str(&unknown, normalized.as_str()) {
                unknown.push(normalized);
                assert(unknown@.map_values(|s: String| s@) =~= before.push(Seq::<char>::empty()));
            }
        } else {
            proof {
                assert(normalized@.len() > 0);
            }
            match lookup_category(table, categories[i].as_str()) {
                Some(m) => {
                    mask = mask | m;
                },
                None => {
                    if !contains_str(&unknown, normalized.as_str()) {
                        let ghost n = normalized@;
                        unknown.push(normalized);
                        assert(unknown@.map_values(|s: String| s@) =~= before.push(n));
                    }
                },
            }
        }
        i += 1;
    }
    assert(cv.take(cv.len() as int) == cv);
    if unknown.len() == 0 {
        Ok(mask)
    } else {
        Err(unknown)
    }
}

/// Whether a single-category request turns its category on or off.
#[derive(Clone, Copy, Debug, PartialEq, Eq, Structural)]
pub enum CategorySwitch {
    Enable,
    Disable,
}

/// `old_mask` with the bits of `cat` set (enable) or cleared (disable).
pub open spec fn switched_mask(old_mask: u64, cat: u64, switch: CategorySwitch) -> u64 {
    match switch {
        CategorySwitch::Enable => old_mask | cat,
        CategorySwitch::Disable => old_mask & !cat,
    }
}

/// The mask after turning the category named `name` (looked up in `table`
/// as given) on or off in `old_mask`; an unknown name is refused with its
/// trimmed, lower-cased form.
pub fn verbose_category_switch(
    table: &[VerboseCategory],
    old_mask: u64,
    name: &str,
    switch: CategorySwitch,
) -> (r: Result<u64, String>)
    ensures
        match r {
            Ok(m) => lookup_mask(table_view(table@), name@) matches Some(c) && m == switched_mask(
                old_mask,
                c,
                switch,
            ),
            Err(u) => lookup_mask(table_view(table@), name@) is None && u@ == normalize(name@),
        },
{
    match lookup_category(table, name) {
        Some(c) => match switch {
            CategorySwitch::Enable => Ok(old_mask | c),
            CategorySwitch::Disable => Ok(old_mask & !c),
        },
        None => {
            let trimmed = trim_str(name);
            Err(to_ascii_lowercase(trimmed.as_str()))
        },
    }
}

/// Enabling a category sets all of its bits and leaves the others as they
/// were; disabling clears them, likewise; disabling right after enabling
/// gives what disabling alone gives.
pub proof fn lemma_switch_sets_and_clears(old_mask: u64, cat: u64, other: u64)
    requires
        cat & other == 0,
    ensures
        switched_mask(old_mask, cat, CategorySwitch::Enable) & cat == cat,
        switched_mask(old_mask, cat, CategorySwitch::Disable) & cat == 0,
        switched_mask(old_mask, cat, CategorySwitch::Enable) & other == old_mask & other,
        switched_mask(old_mask, cat, CategorySwitch::Disable) & other == old_mask & other,
        switched_mask(
            switched_mask(old_mask, cat, CategorySwitch::Enable),
            cat,
            CategorySwitch::Disable,
        ) == switched_mask(old_mask, cat, CategorySwitch::Disable),
{
    assert((old_mask | cat) & cat == cat) by (bit_vector);
    assert((old_mask & !cat) & cat == 0) by (bit_vector);
    assert((old_mask | cat) & other == old_mask & other) by (bit_vector)
        requires
            cat & other == 0,
    ;
    assert((old_mask & !cat) & other == old_mask & other) by (bit_vector)
        requires
            cat & other == 0,
    ;
    assert(((old_mask | cat) & !cat) == (old_mask & !cat)) by (bit_vector);
}

// ---------------------------------------------------------------------------
// Laws of a category request
// ---------------------------------------------------------------------------

/// A requested name that is refused: blank, or not a category of `table`.
pub open spec fn rejected(table: Seq<(Seq<char>, u64)>, c: Seq<char>) -> bool {
    normalize(c).len() == 0 || lookup_mask(table, c) is None
}

/// The first position in `cats` of a refused name whose reported form is `n`.
pub open spec fn first_rejected(table: Seq<(Seq<char>, u64)>, cats: Seq<Seq<char>>, n: Seq<char>) -> Option<
    int,
>
    decreases cats.len(),
{
    if cats.len() == 0 {
        None
    } else {
        match first_rejected(table, cats.drop_last(), n) {
            Some(k) => Some(k),
            None => if rejected(table, cats.last()) && normalize(cats.last()) == n {
                Some(cats.len() - 1)
            } else {
                None
            },
        }
    }
}

proof fn lemma_first_rejected(table: Seq<(Seq<char>, u64)>, cats: Seq<Seq<char>>, n: Seq<char>)
    ensures
        first_rejected(table, cats, n) matches Some(k) ==> 0 <= k < cats.len() && rejected(table, cats[k])
            && normalize(cats[k]) == n,
        first_rejected(table, cats, n) is None ==> forall|k: int|
            0 <= k < cats.len() && rejected(table, cats[k]) ==> normalize(#[trigger] cats[k]) != n,
    decreases cats.len(),
{
    if cats.len() > 0 {
        lemma_first_rejected(table, cats.drop_last(), n);
        assert forall|k: int| 0 <= k < cats.len() - 1 implies #[trigger] cats[k] == cats.drop_last()[k] by {}
    }
}

proof fn bv_cover_grows(c: u64, p: u64, x: u64)
    by (bit_vector)
    requires
        c | p == p,
    ensures
        c | (p | x) == p | x,
{
}

proof fn bv_cover_last(p: u64, x: u64)
    by (bit_vector)
    ensures
        x | (p | x) == p | x,
{
}

proof fn bv_least_step(p: u64, x: u64, n: u64)
    by (bit_vector)
    requires
        p | n == n,
        x | n == n,
    ensures
        (p | x) | n == n,
{
}

proof fn bv_zero_least(n: u64)
    by (bit_vector)
    ensures
        0u64 | n == n,
{
}

proof fn bv_antisymmetric(a: u64, b: u64)
    by (bit_vector)
    requires
        a | b == b,
        b | a == a,
    ensures
        a == b,
{
}

/// The mask covers every accepted name's category.
proof fn lemma_mask_covers(table: Seq<(Seq<char>, u64)>, cats: Seq<Seq<char>>)
    ensures
        forall|k: int|
            0 <= k < cats.len() && !rejected(table, cats[k]) ==> (lookup_mask(table, #[trigger] cats[k])->0
                | mask_and_unknown(table, cats).0) == mask_and_unknown(table, cats).0,
    decreases cats.len(),
{
    if cats.len() > 0 {
        let pre = cats.drop_last();
        lemma_mask_covers(table, pre);
        let p = mask_and_unknown(table, pre).0;
        let m = mask_and_unknown(table, cats).0;
        assert forall|k: int|
            0 <= k < cats.len() && !rejected(table, cats[k]) implies (lookup_mask(
            table,
            #[trigger] cats[k],
        )->0 | m) == m by {
            let c = lookup_mask(table, cats[k])->0;
            if k < cats.len() - 1 {
                assert(cats[k] == pre[k]);
                if !rejected(table, cats.last()) {
                    bv_cover_grows(c, p, lookup_mask(table, cats.last())->0);
                }
            } else {
                bv_cover_last(p, c);
            }
        }
    }
}

/// The mask is the least one covering every accepted name's category.
proof fn lemma_mask_least(table: Seq<(Seq<char>, u64)>, cats: Seq<Seq<char>>, n: u64)
    requires
        forall|k: int|
            0 <= k < cats.len() && !rejected(table, cats[k]) ==> (lookup_mask(table, #[trigger] cats[k])->0
                | n) == n,
    ensures
        mask_and_unknown(table, cats).0 | n == n,
    decreases cats.len(),
{
    if cats.len() == 0 {
        bv_zero_least(n);
    } else {
        let pre = cats.drop_last();
        assert forall|k: int| 0 <= k < pre.len() && !rejected(table, pre[k]) implies (lookup_mask(
            table,
            #[trigger] pre[k],
        )->0 | n) == n by {
            assert(pre[k] == cats[k]);
        }
        lemma_mask_least(table, pre, n);
        if !rejected(table, cats.last()) {
            assert(cats.last() == cats[cats.len() - 1]);
            bv_least_step(mask_and_unknown(table, pre).0, lookup_mask(table, cats.last())->0, n);
        }
    }
}

/// The unknown names: distinct, each the reported form of a refused name,
/// every refused name reported, in the order first refused.
proof fn lemma_unknown(table: Seq<(Seq<char>, u64)>, cats: Seq<Seq<char>>)
    ensures
        mask_and_unknown(table, cats).1.no_duplicates(),
        forall|i: int|
            0 <= i < mask_and_unknown(table, cats).1.len() ==> first_rejected(
                table,
                cats,
                #[trigger] mask_and_unknown(table, cats).1[i],
            ) is Some,
        forall|i: int, j: int|
            0 <= i < j < mask_and_unknown(table, cats).1.len() ==> first_rejected(
                table,
                cats,
                #[trigger] mask_and_unknown(table, cats).1[i],
            )->0 < first_rejected(table, cats, #[trigger] mask_and_unknown(table, cats).1[j])->0,
        forall|k: int|
            0 <= k < cats.len() && rejected(table, cats[k]) ==> mask_and_unknown(table, cats).1.contains(
                normalize(#[trigger] cats[k]),
            ),
        mask_and_unknown(table, cats).1.len() == 0 <==> forall|k: int|
            0 <= k < cats.len() ==> !rejected(table, #[trigger] cats[k]),
    decreases cats.len(),
{
    if cats.len() > 0 {
        let pre = cats.drop_last();
        lemma_unknown(table, pre);
        let u0 = mask_and_unknown(table, pre).1;
        let u = mask_and_unknown(table, cats).1;
        let c = cats.last();
        let n = normalize(c);
        assert forall|k: int| 0 <= k < pre.len() implies #[trigger] pre[k] == cats[k] by {}
        assert(c == cats[cats.len() - 1]);
        // positions found in the prefix stay where they were
        assert forall|x: Seq<char>| #[trigger] first_rejected(table, pre, x) is Some implies first_rejected(
            table,
            cats,
            x,
        ) == first_rejected(table, pre, x) && first_rejected(table, pre, x)->0 < cats.len() - 1 by {
            lemma_first_rejected(table, pre, x);
        }
        if rejected(table, c) {
            if n.len() == 0 {
                assert(n =~= Seq::<char>::empty());
            }
            assert(u == push_unique(u0, n));
            if !u0.contains(n) {
                lemma_first_rejected(table, pre, n);
                if first_rejected(table, pre, n) is Some {
                    let k = first_rejected(table, pre, n)->0;
                    assert(rejected(table, pre[k]));
                    assert(u0.contains(normalize(pre[k])));
                }
                assert(first_rejected(table, cats, n) == Some(cats.len() - 1));
                assert(u == u0.push(n));
                assert forall|i: int, j: int| 0 <= i < j < u.len() implies u[i] != u[j] by {
                    if j == u.len() - 1 {
                        assert(u0.contains(u0[i]));
                    } else {
                        assert(u0[i] != u0[j]);
                    }
                }
                assert forall|i: int| 0 <= i < u.len() implies first_rejected(table, cats, #[trigger] u[i]) is Some by {
                    if i < u0.len() {
                        assert(u[i] == u0[i]);
                    }
                }
                assert forall|i: int, j: int|
                    0 <= i < j < u.len() implies first_rejected(table, cats, #[trigger] u[i])->0
                    < first_rejected(table, cats, #[trigger] u[j])->0 by {
                    assert(u[i] == u0[i]);
                    if j < u0.len() {
                        assert(u[j] == u0[j]);
                    }
                }
                assert forall|k: int| 0 <= k < cats.len() && rejected(table, cats[k]) implies u.contains(
                    normalize(#[trigger] cats[k]),
                ) by {
                    if k < cats.len() - 1 {
                        assert(u0.contains(normalize(pre[k])));
                        let i = choose|i: int| 0 <= i < u0.len() && u0[i] == normalize(pre[k]);
                        assert(u[i] == u0[i]);
                    } else {
                        assert(u[u.len() - 1] == n);
                    }
                }
            } else {
                assert(u == u0);
                assert forall|k: int| 0 <= k < cats.len() && rejected(table, cats[k]) implies u.contains(
                    normalize(#[trigger] cats[k]),
                ) by {
                    if k < cats.len() - 1 {
                        assert(u0.contains(normalize(pre[k])));
                    }
                }
                assert forall|i: int| 0 <= i < u.len() implies first_rejected(table, cats, #[trigger] u[i]) is Some by {
                    assert(first_rejected(table, pre, u0[i]) is Some);
                }
                assert forall|i: int, j: int|
                    0 <= i < j < u.len() implies first_rejected(table, cats, #[trigger] u[i])->0
                    < first_rejected(table, cats, #[trigger] u[j])->0 by {
                    assert(first_rejected(table, pre, u0[i]) is Some);
                    assert(first_rejected(table, pre, u0[j]) is Some);
                }
            }
        } else {
            assert(u == u0);
            assert forall|k: int| 0 <= k < cats.len() && rejected(table, cats[k]) implies u.contains(
                normalize(#[trigger] cats[k]),
            ) by {
                assert(k < cats.len() - 1);
                assert(u0.contains(normalize(pre[k])));
            }
            assert forall|i: int| 0 <= i < u.len() implies first_rejected(table, cats, #[trigger] u[i]) is Some by {
                assert(first_rejected(table, pre, u0[i]) is Some);
            }
            assert forall|i: int, j: int|
                0 <= i < j < u.len() implies first_rejected(table, cats, #[trigger] u[i])->0
                < first_rejected(table, cats, #[trigger] u[j])->0 by {
                assert(first_rejected(table, pre, u0[i]) is Some);
                assert(first_rejected(table, pre, u0[j]) is Some);
            }
        }
    }
}

/// What a category request gives. It succeeds exactly when no name is blank
/// and every name is a category; its mask is then the bitwise OR of those
/// categories' masks: it covers each of them and is the least mask that
/// does. Otherwise it reports each refused name once, trimmed and
/// lower-cased, in the order the names were first refused, and every
/// refused name is reported.
pub proof fn lemma_categories_outcome(table: Seq<(Seq<char>, u64)>, cats: Seq<Seq<char>>)
    ensures
        categories_outcome(table, cats) is Ok <==> forall|k: int|
            0 <= k < cats.len() ==> normalize(#[trigger] cats[k]).len() > 0 && lookup_mask(table, cats[k]) is Some,
        categories_outcome(table, cats) matches Ok(m) ==> (forall|k: int|
            0 <= k < cats.len() ==> (lookup_mask(table, #[trigger] cats[k])->0 | m) == m) && (forall|n: u64|
            (forall|k: int| 0 <= k < cats.len() ==> (lookup_mask(table, #[trigger] cats[k])->0 | n) == n)
                ==> #[trigger] (m | n) == n),
        categories_outcome(table, cats) matches Err(u) ==> {
            &&& u.len() > 0
            &&& u.no_duplicates()
            &&& forall|i: int|
                0 <= i < u.len() ==> exists|k: int|
                    0 <= k < cats.len() && rejected(table, cats[k]) && normalize(cats[k]) == #[trigger] u[i]
            &&& forall|k: int| 0 <= k < cats.len() && rejected(table, cats[k]) ==> u.contains(normalize(#[trigger] cats[k]))
            &&& forall|i: int, j: int|
                0 <= i < j < u.len() ==> first_rejected(table, cats, #[trigger] u[i])->0 < first_rejected(
                    table,
                    cats,
                    #[trigger] u[j],
                )->0
        },
{
    lemma_unknown(table, cats);
    lemma_mask_covers(table, cats);
    let (m, u) = mask_and_unknown(table, cats);
    if u.len() == 0 {
        assert forall|n: u64|
            (forall|k: int| 0 <= k < cats.len() ==> (lookup_mask(table, #[trigger] cats[k])->0 | n) == n)
                implies #[trigger] (m | n) == n by {
            lemma_mask_least(table, cats, n);
        }
    } else {
        assert forall|i: int| 0 <= i < u.len() implies exists|k: int|
            0 <= k < cats.len() && rejected(table, cats[k]) && normalize(cats[k]) == #[trigger] u[i] by {
            lemma_first_rejected(table, cats, u[i]);
            let k = first_rejected(table, cats, u[i])->0;
            assert(0 <= k < cats.len() && rejected(table, cats[k]) && normalize(cats[k]) == u[i]);
        }
    }
}

/// The outcome of a category request does not depend on the order of the
/// names or on their repetition: two requests naming the same set of names
/// both succeed or both fail, and when they succeed their masks are equal.
pub proof fn lemma_categories_order_free(
    table: Seq<(Seq<char>, u64)>,
    cats1: Seq<Seq<char>>,
    cats2: Seq<Seq<char>>,
)
    requires
        cats1.to_set() == cats2.to_set(),
    ensures
        categories_outcome(table, cats1) is Ok == categories_outcome(table, cats2) is Ok,
        categories_outcome(table, cats1) matches Ok(m1) ==> categories_outcome(table, cats2) matches Ok(m2)
            && m1 == m2,
{
    lemma_unknown(table, cats1);
    lemma_unknown(table, cats2);
    lemma_mask_covers(table, cats1);
    lemma_mask_covers(table, cats2);
    let m1 = mask_and_unknown(table, cats1).0;
    let m2 = mask_and_unknown(table, cats2).0;
    assert forall|k: int| 0 <= k < cats1.len() implies exists|j: int|
        0 <= j < cats2.len() && #[trigger] cats1[k] == cats2[j] by {
        assert(cats1.to_set().contains(cats1[k]));
        assert(cats2.to_set().contains(cats1[k]));
    }
    assert forall|k: int| 0 <= k < cats2.len() implies exists|j: int|
        0 <= j < cats1.len() && #[trigger] cats2[k] == cats1[j] by {
        assert(cats2.to_set().contains(cats2[k]));
        assert(cats1.to_set().contains(cats2[k]));
    }
    // the same names are refused
    if mask_and_unknown(table, cats1).1.len() == 0 {
        assert forall|k: int| 0 <= k < cats2.len() implies !rejected(table, #[trigger] cats2[k]) by {
            let j = choose|j: int| 0 <= j < cats1.len() && cats2[k] == cats1[j];
            assert(!rejected(table, cats1[j]));
        }
    }
    if mask_and_unknown(table, cats2).1.len() == 0 {
        assert forall|k: int| 0 <= k < cats1.len() implies !rejected(table, #[trigger] cats1[k]) by {
            let j = choose|j: int| 0 <= j < cats2.len() && cats1[k] == cats2[j];
            assert(!rejected(table, cats2[j]));
        }
    }
    // the masks cover each other
    assert forall|k: int| 0 <= k < cats1.len() && !rejected(table, cats1[k]) implies (lookup_mask(
        table,
        #[trigger] cats1[k],
    )->0 | m2) == m2 by {
        let j = choose|j: int| 0 <= j < cats2.len() && cats1[k] == cats2[j];
        assert(!rejected(table, cats2[j]));
    }
    assert forall|k: int| 0 <= k < cats2.len() && !rejected(table, cats2[k]) implies (lookup_mask(
        table,
        #[trigger] cats2[k],
    )->0 | m1) == m1 by {
        let j = choose|j: int| 0 <= j < cats1.len() && cats2[k] == cats1[j];
        assert(!rejected(table, cats1[j]));
    }
    lemma_mask_least(table, cats1, m2);
    lemma_mask_least(table, cats2, m1);
    bv_antisymmetric(m1, m2);
}

} // verus!
