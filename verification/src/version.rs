//! Version strings: the order in which they are listed, and sorted lists of them.
use vstd::prelude::*;

verus! {

/// Whether version `a` comes strictly before version `b`: the lexicographic order of their
/// characters by code point, a proper prefix coming first.
pub open spec fn precedes(a: Seq<char>, b: Seq<char>) -> bool
    decreases a.len(),
{
    if b.len() == 0 {
        false
    } else if a.len() == 0 {
        true
    } else if a[0] != b[0] {
        (a[0] as int) < (b[0] as int)
    } else {
        precedes(a.drop_first(), b.drop_first())
    }
}

/// The views of a list of strings.
pub open spec fn views(list: Seq<String>) -> Seq<Seq<char>> {
    list.map_values(|s: String| s@)
}

/// Whether no two of the versions are the same.
pub open spec fn all_distinct(versions: Seq<Seq<char>>) -> bool {
    forall|i: int, j: int| 0 <= i < j < versions.len() ==> versions[i] != versions[j]
}

/// Whether `i` is the place of the first entry of `list` that is `version`.
pub open spec fn is_first_of(list: Seq<Seq<char>>, version: Seq<char>, i: int) -> bool {
    &&& 0 <= i < list.len()
    &&& list[i] == version
    &&& forall|j: int| 0 <= j < i ==> list[j] != version
}

/// The place of the first entry of `list` that is `version`, if there is one.
pub open spec fn first_of(list: Seq<Seq<char>>, version: Seq<char>) -> Option<int> {
    if exists|i: int| is_first_of(list, version, i) {
        Some(choose|i: int| is_first_of(list, version, i))
    } else {
        None
    }
}

/// Only one place is the first of a version.
pub proof fn lemma_first_of_is(list: Seq<Seq<char>>, version: Seq<char>, i: int)
    requires
        is_first_of(list, version, i),
    ensures
        first_of(list, version) == Some(i),
{
    let j = choose|j: int| is_first_of(list, version, j);
    assert(is_first_of(list, version, j));
    if j < i {
        assert(list[j] != version);
    } else if i < j {
        assert(list[i] != version);
    }
}

/// What `first_of` finds is the first entry that is the version; it finds none only where
/// the list holds none.
pub proof fn lemma_first_of(list: Seq<Seq<char>>, version: Seq<char>)
    ensures
        match first_of(list, version) {
            Some(i) => is_first_of(list, version, i),
            None => forall|k: int| 0 <= k < list.len() ==> list[k] != version,
        },
{
    match first_of(list, version) {
        Some(i) => {
            let j = choose|j: int| is_first_of(list, version, j);
            assert(is_first_of(list, version, j));
        },
        None => {
            assert forall|k: int| 0 <= k < list.len() implies list[k] != version by {
                if list[k] == version {
                    lemma_earliest(list, version, k);
                }
            }
        },
    }
}

/// Where an entry at `k` is the version, some entry at or before `k` is the first that is.
proof fn lemma_earliest(list: Seq<Seq<char>>, version: Seq<char>, k: int)
    requires
        0 <= k < list.len(),
        list[k] == version,
    ensures
        exists|i: int| is_first_of(list, version, i),
    decreases k,
{
    if forall|j: int| 0 <= j < k ==> list[j] != version {
        assert(is_first_of(list, version, k));
    } else {
        let j = choose|j: int| 0 <= j < k && list[j] == version;
        lemma_earliest(list, version, j);
    }
}

/// The views of a list that has grown by one string are the views of the list, grown by the
/// view of that string.
pub proof fn lemma_views_push(list: Seq<String>, last: String)
    ensures
        views(list.push(last)) == views(list).push(last@),
{
    assert(views(list.push(last)) =~= views(list).push(last@));
}

/// Whether a list of versions is strictly ascending, so that it names no version twice.
pub open spec fn ascending(list: Seq<Seq<char>>) -> bool {
    forall|i: int, j: int| 0 <= i < j < list.len() ==> precedes(list[i], list[j])
}

/// Whether `list` is the sorted listing of the versions in `versions`: strictly ascending,
/// and holding exactly those versions.
pub open spec fn lists_sorted(list: Seq<Seq<char>>, versions: Set<Seq<char>>) -> bool {
    &&& ascending(list)
    &&& forall|v: Seq<char>| list.contains(v) <==> versions.contains(v)
}

/// No version comes before itself.
pub proof fn lemma_precedes_irreflexive(a: Seq<char>)
    ensures
        !precedes(a, a),
    decreases a.len(),
{
    if a.len() > 0 {
        lemma_precedes_irreflexive(a.drop_first());
    }
}

/// The order of versions is transitive.
pub proof fn lemma_precedes_transitive(a: Seq<char>, b: Seq<char>, c: Seq<char>)
    requires
        precedes(a, b),
        precedes(b, c),
    ensures
        precedes(a, c),
    decreases a.len(),
{
    if a.len() > 0 && a[0] == b[0] && b[0] == c[0] {
        lemma_precedes_transitive(a.drop_first(), b.drop_first(), c.drop_first());
    }
}

/// Of two different versions one comes before the other.
pub proof fn lemma_precedes_connected(a: Seq<char>, b: Seq<char>)
    requires
        a != b,
    ensures
        precedes(a, b) || precedes(b, a),
    decreases a.len(),
{
    if a.len() > 0 && b.len() > 0 && a[0] == b[0] {
        if a.drop_first() == b.drop_first() {
            assert(a =~= seq![a[0]] + a.drop_first());
            assert(b =~= seq![b[0]] + b.drop_first());
        }
        lemma_precedes_connected(a.drop_first(), b.drop_first());
    } else if a.len() == 0 && b.len() == 0 {
        assert(a =~= b);
    }
}

/// A set of versions has only one sorted listing.
pub proof fn lemma_sorted_listing_unique(x: Seq<Seq<char>>, y: Seq<Seq<char>>, versions: Set<Seq<char>>)
    requires
        lists_sorted(x, versions),
        lists_sorted(y, versions),
    ensures
        x == y,
    decreases x.len(),
{
    if x.len() == 0 {
        if y.len() > 0 {
            assert(y.contains(y[0]));
            assert(x.contains(y[0]));
        }
        assert(x =~= y);
    } else if y.len() == 0 {
        assert(x.contains(x[0]));
        assert(y.contains(x[0]));
    } else {
        // The least version stands first in both.
        assert(x.contains(x[0]));
        assert(y.contains(y[0]));
        assert(y.contains(x[0]));
        assert(x.contains(y[0]));
        let i = choose|i: int| 0 <= i < y.len() && y[i] == x[0];
        let j = choose|j: int| 0 <= j < x.len() && x[j] == y[0];
        if i > 0 {
            // y[0] precedes y[i] == x[0], and x[0] precedes or equals x[j] == y[0].
            if j > 0 {
                lemma_precedes_transitive(y[0], x[0], y[0]);
            }
            lemma_precedes_irreflexive(y[0]);
        }
        assert(x[0] == y[0]);
        let rest = versions.remove(x[0]);
        assert forall|v: Seq<char>| x.drop_first().contains(v) <==> rest.contains(v) by {
            if x.drop_first().contains(v) {
                let k = choose|k: int| 0 <= k < x.drop_first().len() && x.drop_first()[k] == v;
                assert(x[k + 1] == v);
                assert(x.contains(v));
                if v == x[0] {
                    lemma_precedes_irreflexive(v);
                }
            }
            if rest.contains(v) {
                assert(x.contains(v));
                let k = choose|k: int| 0 <= k < x.len() && x[k] == v;
                assert(x.drop_first()[k - 1] == v);
            }
        }
        assert forall|v: Seq<char>| y.drop_first().contains(v) <==> rest.contains(v) by {
            if y.drop_first().contains(v) {
                let k = choose|k: int| 0 <= k < y.drop_first().len() && y.drop_first()[k] == v;
                assert(y[k + 1] == v);
                assert(y.contains(v));
                if v == y[0] {
                    lemma_precedes_irreflexive(v);
                }
            }
            if rest.contains(v) {
                assert(y.contains(v));
                let k = choose|k: int| 0 <= k < y.len() && y[k] == v;
                assert(y.drop_first()[k - 1] == v);
            }
        }
        assert(ascending(x.drop_first())) by {
            assert forall|a: int, b: int| 0 <= a < b < x.drop_first().len() implies precedes(
                x.drop_first()[a],
                x.drop_first()[b],
            ) by {
                assert(precedes(x[a + 1], x[b + 1]));
            }
        }
        assert(ascending(y.drop_first())) by {
            assert forall|a: int, b: int| 0 <= a < b < y.drop_first().len() implies precedes(
                y.drop_first()[a],
                y.drop_first()[b],
            ) by {
                assert(precedes(y[a + 1], y[b + 1]));
            }
        }
        lemma_sorted_listing_unique(x.drop_first(), y.drop_first(), rest);
        assert(x =~= seq![x[0]] + x.drop_first());
        assert(y =~= seq![y[0]] + y.drop_first());
    }
}

/// Whether the first string is less than the second. This is `str`'s own `<`, which std
/// documents as the lexicographic order of the strings' bytes, and so of their characters by
/// code point. The contract claims just that: the result is `precedes` of the two views. It
/// is believed, not proved.
#[verifier::external_body]
pub(crate) fn version_lt(a: &String, b: &String) -> (r: bool)
    ensures
        r == precedes(a@, b@),
{
    a.as_str() < b.as_str()
}

/// Whether `list` holds `version`.
pub fn holds_version(list: &Vec<String>, version: &String) -> (r: bool)
    ensures
        r == views(list@).contains(version@),
{
    let mut i: usize = 0;
    while i < list.len()
        invariant
            i <= list.len(),
            forall|k: int| 0 <= k < i ==> views(list@)[k] != version@,
        decreases list.len() - i,
    {
        if list[i] == *version {
            assert(views(list@)[i as int] == version@);
            return true;
        }
        i += 1;
    }
    false
}

/// Puts `version` at its place in the ascending `list`, unless the list holds it already.
pub fn insert_sorted(list: &mut Vec<String>, version: String)
    requires
        ascending(views(old(list)@)),
    ensures
        ascending(views(final(list)@)),
        forall|v: Seq<char>|
            views(final(list)@).contains(v) <==> (views(old(list)@).contains(v) || v == version@),
{
    let ghost before = views(list@);
    let mut i: usize = 0;
    while i < list.len() && version_lt(&list[i], &version)
        invariant
            i <= list.len(),
            list@ == old(list)@,
            forall|k: int| 0 <= k < i ==> precedes(views(list@)[k], version@),
        decreases list.len() - i,
    {
        i += 1;
    }
    if i < list.len() && list[i] == version {
        assert(before[i as int] == version@);
        assert(before.contains(version@));
        return ;
    }
    proof {
        // Every entry from `i` on comes after `version`.
        assert forall|k: int| i <= k < before.len() implies precedes(version@, before[k]) by {
            lemma_precedes_connected(before[i as int], version@);
            if k > i {
                lemma_precedes_transitive(version@, before[i as int], before[k]);
            }
        }
    }
    list.insert(i, version);
    proof {
        let after = views(list@);
        assert(after =~= before.insert(i as int, version@));
        assert forall|a: int, b: int| 0 <= a < b < after.len() implies precedes(after[a], after[b]) by {
            if b < i {
                assert(after[a] == before[a] && after[b] == before[b]);
            } else if b == i {
                assert(after[a] == before[a]);
            } else if a < i {
                assert(after[a] == before[a] && after[b] == before[b - 1]);
            } else if a == i {
                assert(after[b] == before[b - 1]);
            } else {
                assert(after[a] == before[a - 1] && after[b] == before[b - 1]);
            }
        }
        assert forall|v: Seq<char>| after.contains(v) <==> (before.contains(v) || v == version@) by {
            if after.contains(v) {
                let k = choose|k: int| 0 <= k < after.len() && after[k] == v;
                if k < i {
                    assert(before[k] == v);
                } else if k > i {
                    assert(before[k - 1] == v);
                }
            }
            if before.contains(v) {
                let k = choose|k: int| 0 <= k < before.len() && before[k] == v;
                if k < i {
                    assert(after[k] == v);
                } else {
                    assert(after[k + 1] == v);
                }
            }
            if v == version@ {
                assert(after[i as int] == v);
            }
        }
    }
}

/// The versions of `list`, each once, in ascending order.
pub fn sorted_versions(list: &Vec<String>) -> (r: Vec<String>)
    ensures
        lists_sorted(views(r@), views(list@).to_set()),
{
    let mut sorted: Vec<String> = Vec::new();
    let mut i: usize = 0;
    while i < list.len()
        invariant
            i <= list.len(),
            ascending(views(sorted@)),
            forall|v: Seq<char>|
                views(sorted@).contains(v) <==> views(list@).subrange(0, i as int).contains(v),
        decreases list.len() - i,
    {
        let ghost seen = views(list@).subrange(0, i as int);
        let item = list[i].clone();
        insert_sorted(&mut sorted, item);
        proof {
            let now = views(list@).subrange(0, i + 1);
            assert(now =~= seen.push(views(list@)[i as int]));
            assert forall|v: Seq<char>| views(sorted@).contains(v) <==> now.contains(v) by {
                if now.contains(v) {
                    let k = choose|k: int| 0 <= k < now.len() && now[k] == v;
                    if k < i {
                        assert(seen[k] == v);
                    }
                }
                if seen.contains(v) {
                    let k = choose|k: int| 0 <= k < seen.len() && seen[k] == v;
                    assert(now[k] == v);
                }
                if v == views(list@)[i as int] {
                    assert(now[i as int] == v);
                }
            }
        }
        i += 1;
    }
    proof {
        assert(views(list@).subrange(0, i as int) =~= views(list@));
    }
    sorted
}

} // verus!
