//! Association sequences with unique keys, viewed as finite maps: the
//! machinery that the transactional tree and the keyed CRDT states share,
//! with the lemmas connecting sequence operations, map operations, key-wise
//! joins, and sums.
use vstd::prelude::*;

verus! {

/// No two entries share a key.
pub open spec fn keys_unique<K, V>(s: Seq<(K, V)>) -> bool {
    forall|i: int, j: int| 0 <= i < j < s.len() ==> s[i].0 != s[j].0
}

/// Whether some entry carries the key.
pub open spec fn has_key<K, V>(s: Seq<(K, V)>, k: K) -> bool {
    exists|i: int| 0 <= i < s.len() && s[i].0 == k
}

/// The map an association sequence denotes. Earlier entries win, which is
/// immaterial once keys are unique.
pub open spec fn map_of<K, V>(s: Seq<(K, V)>) -> Map<K, V>
    decreases s.len(),
{
    if s.len() == 0 {
        Map::empty()
    } else {
        map_of(s.drop_first()).insert(s[0].0, s[0].1)
    }
}

/// Dropping the first entry keeps keys unique.
pub proof fn lemma_keys_unique_drop_first<K, V>(s: Seq<(K, V)>)
    requires
        keys_unique(s),
        s.len() > 0,
    ensures
        keys_unique(s.drop_first()),
{
    assert forall|i: int, j: int|
        0 <= i < j < s.drop_first().len() implies s.drop_first()[i].0 != s.drop_first()[j].0 by {
        assert(s.drop_first()[i] == s[i + 1]);
        assert(s.drop_first()[j] == s[j + 1]);
    }
}

/// Removing one entry keeps keys unique.
pub proof fn lemma_keys_unique_remove<K, V>(s: Seq<(K, V)>, i: int)
    requires
        keys_unique(s),
        0 <= i < s.len(),
    ensures
        keys_unique(s.remove(i)),
{
    let t = s.remove(i);
    assert forall|a: int, b: int| 0 <= a < b < t.len() implies t[a].0 != t[b].0 by {
        assert(t[a] == if a < i {
            s[a]
        } else {
            s[a + 1]
        });
        assert(t[b] == if b < i {
            s[b]
        } else {
            s[b + 1]
        });
    }
}

/// The map contains a key exactly when some entry carries it.
pub proof fn lemma_map_of_contains<K, V>(s: Seq<(K, V)>, k: K)
    ensures
        map_of(s).contains_key(k) <==> has_key(s, k),
    decreases s.len(),
{
    if s.len() > 0 {
        lemma_map_of_contains(s.drop_first(), k);
        if s[0].0 != k {
            if has_key(s, k) {
                let i = choose|i: int| 0 <= i < s.len() && s[i].0 == k;
                assert(s.drop_first()[i - 1] == s[i]);
                assert(has_key(s.drop_first(), k));
            }
            if has_key(s.drop_first(), k) {
                let i = choose|i: int| 0 <= i < s.drop_first().len() && s.drop_first()[i].0 == k;
                assert(s[i + 1] == s.drop_first()[i]);
            }
        }
    }
}

/// With unique keys, the map sends each entry's key to that entry's value.
pub proof fn lemma_map_of_index<K, V>(s: Seq<(K, V)>, i: int)
    requires
        keys_unique(s),
        0 <= i < s.len(),
    ensures
        map_of(s).contains_key(s[i].0),
        map_of(s)[s[i].0] == s[i].1,
    decreases s.len(),
{
    if i > 0 {
        lemma_keys_unique_drop_first(s);
        assert(s.drop_first()[i - 1] == s[i]);
        lemma_map_of_index(s.drop_first(), i - 1);
        assert(s[0].0 != s[i].0);
    }
}

/// Appending an entry with a fresh key inserts it into the map.
pub proof fn lemma_map_of_push<K, V>(s: Seq<(K, V)>, e: (K, V))
    requires
        !has_key(s, e.0),
    ensures
        map_of(s.push(e)) == map_of(s).insert(e.0, e.1),
    decreases s.len(),
{
    if s.len() == 0 {
        assert(s.push(e)[0] == e);
        assert(s.push(e).drop_first() =~= Seq::<(K, V)>::empty());
        assert(map_of(s.push(e)) == map_of(Seq::<(K, V)>::empty()).insert(e.0, e.1));
        assert(map_of(Seq::<(K, V)>::empty()) == Map::<K, V>::empty());
        assert(map_of(s) == Map::<K, V>::empty());
    } else {
        assert(s.push(e).drop_first() =~= s.drop_first().push(e));
        assert(!has_key(s.drop_first(), e.0)) by {
            if has_key(s.drop_first(), e.0) {
                let i = choose|i: int|
                    0 <= i < s.drop_first().len() && s.drop_first()[i].0 == e.0;
                assert(s[i + 1] == s.drop_first()[i]);
            }
        }
        lemma_map_of_push(s.drop_first(), e);
        assert(s[0].0 != e.0) by {
            if s[0].0 == e.0 {
                assert(has_key(s, e.0));
            }
        }
        assert(map_of(s.drop_first()).insert(e.0, e.1).insert(s[0].0, s[0].1) =~= map_of(
            s.drop_first(),
        ).insert(s[0].0, s[0].1).insert(e.0, e.1));
    }
}

/// Updating the value at one index updates the map at that entry's key.
pub proof fn lemma_map_of_update<K, V>(s: Seq<(K, V)>, i: int, v: V)
    requires
        keys_unique(s),
        0 <= i < s.len(),
    ensures
        keys_unique(s.update(i, (s[i].0, v))),
        map_of(s.update(i, (s[i].0, v))) == map_of(s).insert(s[i].0, v),
    decreases s.len(),
{
    let t = s.update(i, (s[i].0, v));
    assert forall|a: int, b: int| 0 <= a < b < t.len() implies t[a].0 != t[b].0 by {
        assert(s[a].0 != s[b].0);
    }
    if i == 0 {
        assert(t.drop_first() =~= s.drop_first());
        assert(map_of(t) == map_of(s.drop_first()).insert(s[0].0, v));
        assert(map_of(s.drop_first()).insert(s[0].0, s[0].1).insert(s[0].0, v) =~= map_of(
            s.drop_first(),
        ).insert(s[0].0, v));
    } else {
        lemma_keys_unique_drop_first(s);
        assert(t.drop_first() =~= s.drop_first().update(i - 1, (s[i].0, v)));
        assert(s.drop_first()[i - 1] == s[i]);
        lemma_map_of_update(s.drop_first(), i - 1, v);
        assert(s[0].0 != s[i].0);
        assert(map_of(s.drop_first()).insert(s[i].0, v).insert(s[0].0, s[0].1) =~= map_of(
            s.drop_first(),
        ).insert(s[0].0, s[0].1).insert(s[i].0, v));
    }
}

/// Removing one entry removes that entry's key from the map.
pub proof fn lemma_map_of_remove<K, V>(s: Seq<(K, V)>, i: int)
    requires
        keys_unique(s),
        0 <= i < s.len(),
    ensures
        map_of(s.remove(i)) == map_of(s).remove(s[i].0),
    decreases s.len(),
{
    if i == 0 {
        assert(s.remove(0) =~= s.drop_first());
        lemma_map_of_contains(s.drop_first(), s[0].0);
        assert(!has_key(s.drop_first(), s[0].0)) by {
            if has_key(s.drop_first(), s[0].0) {
                let a = choose|a: int|
                    0 <= a < s.drop_first().len() && s.drop_first()[a].0 == s[0].0;
                assert(s[a + 1] == s.drop_first()[a]);
            }
        }
        assert(map_of(s.drop_first()).insert(s[0].0, s[0].1).remove(s[0].0) =~= map_of(
            s.drop_first(),
        ));
    } else {
        lemma_keys_unique_drop_first(s);
        assert(s.remove(i).drop_first() =~= s.drop_first().remove(i - 1));
        assert(s.drop_first()[i - 1] == s[i]);
        lemma_map_of_remove(s.drop_first(), i - 1);
        assert(s[0].0 != s[i].0);
        assert(map_of(s.drop_first()).remove(s[i].0).insert(s[0].0, s[0].1) =~= map_of(
            s.drop_first(),
        ).insert(s[0].0, s[0].1).remove(s[i].0));
    }
}

/// The weighted sum of the entries' values.
pub open spec fn sum_by<K, V>(s: Seq<(K, V)>, w: spec_fn(V) -> int) -> int
    decreases s.len(),
{
    if s.len() == 0 {
        0
    } else {
        w(s[0].1) + sum_by(s.drop_first(), w)
    }
}

/// Removing one entry subtracts its weight from the sum.
pub proof fn lemma_sum_by_remove<K, V>(s: Seq<(K, V)>, i: int, w: spec_fn(V) -> int)
    requires
        0 <= i < s.len(),
    ensures
        sum_by(s.remove(i), w) == sum_by(s, w) - w(s[i].1),
    decreases s.len(),
{
    if i == 0 {
        assert(s.remove(0) =~= s.drop_first());
    } else {
        assert(s.remove(i).drop_first() =~= s.drop_first().remove(i - 1));
        assert(s.drop_first()[i - 1] == s[i]);
        lemma_sum_by_remove(s.drop_first(), i - 1, w);
        assert(s.remove(i)[0] == s[0]);
    }
}

/// Entries with nonnegative weights give a nonnegative sum.
pub proof fn lemma_sum_by_nonneg<K, V>(s: Seq<(K, V)>, w: spec_fn(V) -> int)
    requires
        forall|i: int| 0 <= i < s.len() ==> #[trigger] w(s[i].1) >= 0,
    ensures
        sum_by(s, w) >= 0,
    decreases s.len(),
{
    if s.len() > 0 {
        assert forall|i: int|
            0 <= i < s.drop_first().len() implies #[trigger] w(s.drop_first()[i].1) >= 0 by {
            assert(s.drop_first()[i] == s[i + 1]);
        }
        lemma_sum_by_nonneg(s.drop_first(), w);
        assert(w(s[0].1) >= 0);
    }
}

/// Entries with nonpositive weights give a nonpositive sum.
pub proof fn lemma_sum_by_nonpos<K, V>(s: Seq<(K, V)>, w: spec_fn(V) -> int)
    requires
        forall|i: int| 0 <= i < s.len() ==> #[trigger] w(s[i].1) <= 0,
    ensures
        sum_by(s, w) <= 0,
    decreases s.len(),
{
    if s.len() > 0 {
        assert forall|i: int|
            0 <= i < s.drop_first().len() implies #[trigger] w(s.drop_first()[i].1) <= 0 by {
            assert(s.drop_first()[i] == s[i + 1]);
        }
        lemma_sum_by_nonpos(s.drop_first(), w);
        assert(w(s[0].1) <= 0);
    }
}

/// A weight that splits pointwise splits the sum.
pub proof fn lemma_sum_by_linear<K, V>(
    s: Seq<(K, V)>,
    w1: spec_fn(V) -> int,
    w2: spec_fn(V) -> int,
    w3: spec_fn(V) -> int,
)
    requires
        forall|v: V| #[trigger] w3(v) == w1(v) + w2(v),
    ensures
        sum_by(s, w3) == sum_by(s, w1) + sum_by(s, w2),
    decreases s.len(),
{
    if s.len() > 0 {
        lemma_sum_by_linear(s.drop_first(), w1, w2, w3);
    }
}

/// Appending an entry with a fresh key keeps keys unique.
pub proof fn lemma_keys_unique_push<K, V>(s: Seq<(K, V)>, e: (K, V))
    requires
        keys_unique(s),
        !has_key(s, e.0),
    ensures
        keys_unique(s.push(e)),
{
    assert forall|a: int, b: int|
        0 <= a < b < s.push(e).len() implies s.push(e)[a].0 != s.push(e)[b].0 by {
        if b < s.len() {
        } else {
            assert(s.push(e)[b] == e);
            assert(s.push(e)[a] == s[a]);
            if s[a].0 == e.0 {
                assert(has_key(s, e.0));
            }
        }
    }
}

/// Unfolds the sum of a suffix by one entry.
pub proof fn lemma_sum_by_skip_unfold<K, V>(s: Seq<(K, V)>, i: int, w: spec_fn(V) -> int)
    requires
        0 <= i < s.len(),
    ensures
        sum_by(s.skip(i), w) == w(s[i].1) + sum_by(s.skip(i + 1), w),
{
    assert(s.skip(i).drop_first() =~= s.skip(i + 1));
    assert(s.skip(i)[0] == s[i]);
    assert(s.skip(i).len() > 0);
}

/// Two unique-keyed sequences denoting the same map have the same weighted
/// sum: the sum is determined by the map alone.
pub proof fn lemma_sum_by_map_eq<K, V>(s1: Seq<(K, V)>, s2: Seq<(K, V)>, w: spec_fn(V) -> int)
    requires
        keys_unique(s1),
        keys_unique(s2),
        map_of(s1) == map_of(s2),
    ensures
        sum_by(s1, w) == sum_by(s2, w),
    decreases s1.len(),
{
    if s1.len() == 0 {
        if s2.len() > 0 {
            lemma_map_of_index(s2, 0);
            lemma_map_of_contains(s1, s2[0].0);
        }
    } else {
        let k = s1[0].0;
        let v = s1[0].1;
        lemma_map_of_index(s1, 0);
        lemma_map_of_contains(s2, k);
        let j = choose|j: int| 0 <= j < s2.len() && s2[j].0 == k;
        lemma_map_of_index(s2, j);
        assert(s2[j].1 == v);
        lemma_sum_by_remove(s2, j, w);
        lemma_map_of_remove(s2, j);
        lemma_map_of_remove(s1, 0);
        lemma_keys_unique_remove(s1, 0);
        lemma_keys_unique_remove(s2, j);
        assert(s1.remove(0) =~= s1.drop_first());
        lemma_sum_by_map_eq(s1.remove(0), s2.remove(j), w);
    }
}

/// The key-wise join of two maps: where both are defined the values are
/// combined with `j`, elsewhere the one defined value is kept.
pub open spec fn joined<K, V>(m1: Map<K, V>, m2: Map<K, V>, j: spec_fn(V, V) -> V) -> Map<K, V> {
    Map::new(
        |k: K| m1.contains_key(k) || m2.contains_key(k),
        |k: K|
            if m1.contains_key(k) {
                if m2.contains_key(k) {
                    j(m1[k], m2[k])
                } else {
                    m1[k]
                }
            } else {
                m2[k]
            },
    )
}

/// A commutative combiner makes the join commutative.
pub proof fn lemma_joined_commutative<K, V>(m1: Map<K, V>, m2: Map<K, V>, j: spec_fn(V, V) -> V)
    requires
        forall|a: V, b: V| #[trigger] j(a, b) == j(b, a),
    ensures
        joined(m1, m2, j) == joined(m2, m1, j),
{
    assert(joined(m1, m2, j) =~= joined(m2, m1, j));
}

/// An idempotent combiner makes the join idempotent.
pub proof fn lemma_joined_idempotent<K, V>(m: Map<K, V>, j: spec_fn(V, V) -> V)
    requires
        forall|a: V| #[trigger] j(a, a) == a,
    ensures
        joined(m, m, j) == m,
{
    assert(joined(m, m, j) =~= m);
}

/// Folding one entry into an association sequence: combine with the existing
/// entry for that key, or append the pair.
pub open spec fn merge_entry<K, V>(s: Seq<(K, V)>, e: (K, V), j: spec_fn(V, V) -> V) -> Seq<
    (K, V),
> {
    if has_key(s, e.0) {
        let i = choose|i: int| 0 <= i < s.len() && s[i].0 == e.0;
        s.update(i, (e.0, j(s[i].1, e.1)))
    } else {
        s.push(e)
    }
}

/// Folding a whole sequence of entries in, left to right.
pub open spec fn merge_entries<K, V>(
    mine: Seq<(K, V)>,
    other: Seq<(K, V)>,
    j: spec_fn(V, V) -> V,
) -> Seq<(K, V)>
    decreases other.len(),
{
    if other.len() == 0 {
        mine
    } else {
        merge_entries(merge_entry(mine, other[0], j), other.drop_first(), j)
    }
}

/// One folded entry acts on the map as a combine-or-insert at its key.
pub proof fn lemma_merge_entry<K, V>(s: Seq<(K, V)>, e: (K, V), j: spec_fn(V, V) -> V)
    requires
        keys_unique(s),
    ensures
        keys_unique(merge_entry(s, e, j)),
        map_of(merge_entry(s, e, j)) == (if map_of(s).contains_key(e.0) {
            map_of(s).insert(e.0, j(map_of(s)[e.0], e.1))
        } else {
            map_of(s).insert(e.0, e.1)
        }),
{
    lemma_map_of_contains(s, e.0);
    if has_key(s, e.0) {
        let i = choose|i: int| 0 <= i < s.len() && s[i].0 == e.0;
        lemma_map_of_index(s, i);
        lemma_map_of_update(s, i, j(s[i].1, e.1));
        assert((e.0, j(s[i].1, e.1)) == (s[i].0, j(s[i].1, e.1)));
    } else {
        lemma_map_of_push(s, e);
        assert forall|a: int, b: int|
            0 <= a < b < s.push(e).len() implies s.push(e)[a].0 != s.push(e)[b].0 by {
            if b < s.len() {
            } else {
                assert(s.push(e)[b] == e);
                assert(s.push(e)[a] == s[a]);
                if s[a].0 == e.0 {
                    assert(has_key(s, e.0));
                }
            }
        }
    }
}

/// Folding a whole sequence in computes exactly the key-wise join of the two
/// denoted maps, and keeps keys unique.
pub proof fn lemma_merge_entries<K, V>(mine: Seq<(K, V)>, other: Seq<(K, V)>, j: spec_fn(V, V) -> V)
    requires
        keys_unique(mine),
        keys_unique(other),
    ensures
        keys_unique(merge_entries(mine, other, j)),
        map_of(merge_entries(mine, other, j)) == joined(map_of(mine), map_of(other), j),
    decreases other.len(),
{
    if other.len() == 0 {
        assert(joined(map_of(mine), map_of(other), j) =~= map_of(mine)) by {
            assert forall|k: K| !map_of(other).contains_key(k) by {
                lemma_map_of_contains(other, k);
            }
        }
    } else {
        let e = other[0];
        lemma_merge_entry(mine, e, j);
        lemma_keys_unique_drop_first(other);
        lemma_merge_entries(merge_entry(mine, e, j), other.drop_first(), j);
        let m1 = map_of(mine);
        let mrest = map_of(other.drop_first());
        assert(!has_key(other.drop_first(), e.0)) by {
            if has_key(other.drop_first(), e.0) {
                let a = choose|a: int|
                    0 <= a < other.drop_first().len() && other.drop_first()[a].0 == e.0;
                assert(other[a + 1] == other.drop_first()[a]);
            }
        }
        lemma_map_of_contains(other.drop_first(), e.0);
        lemma_map_of_contains(mine, e.0);
        assert(joined(map_of(merge_entry(mine, e, j)), mrest, j) =~= joined(
            m1,
            mrest.insert(e.0, e.1),
            j,
        ));
    }
}

} // verus!
