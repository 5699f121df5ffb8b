//! Association sequences: the ghost model of the manager's indexes.
//!
//! A map is modelled as a `Seq` of key-value pairs with pairwise-distinct
//! keys. Lookup finds the first pair with the key; removal and update act on
//! that pair. The lemmas here characterise the operations by index and by
//! key so that facts quantified over all entries carry across a mutation.

use vstd::prelude::*;

verus! {

/// The value at key `k`: the first pair with that key, if any.
pub open spec fn alist_find<K, V>(m: Seq<(K, V)>, k: K) -> Option<V>
    decreases m.len(),
{
    if m.len() == 0 {
        None
    } else if m.first().0 == k {
        Some(m.first().1)
    } else {
        alist_find(m.drop_first(), k)
    }
}

/// Whether key `k` is present.
pub open spec fn alist_has<K, V>(m: Seq<(K, V)>, k: K) -> bool {
    alist_find(m, k) is Some
}

/// The sequence with the first pair keyed `k` removed.
pub open spec fn alist_remove<K, V>(m: Seq<(K, V)>, k: K) -> Seq<(K, V)>
    decreases m.len(),
{
    if m.len() == 0 {
        m
    } else if m.first().0 == k {
        m.drop_first()
    } else {
        seq![m.first()] + alist_remove(m.drop_first(), k)
    }
}

/// The sequence with the value of the first pair keyed `k` replaced by `v`.
pub open spec fn alist_update<K, V>(m: Seq<(K, V)>, k: K, v: V) -> Seq<(K, V)>
    decreases m.len(),
{
    if m.len() == 0 {
        m
    } else if m.first().0 == k {
        m.update(0, (k, v))
    } else {
        seq![m.first()] + alist_update(m.drop_first(), k, v)
    }
}

/// All keys pairwise distinct.
pub open spec fn alist_distinct<K, V>(m: Seq<(K, V)>) -> bool {
    forall|i: int, j: int| 0 <= i < j < m.len() ==> m[i].0 != m[j].0
}

/// A missing key matches no entry, and conversely.
pub proof fn lemma_find_none<K, V>(m: Seq<(K, V)>, k: K)
    ensures
        alist_find(m, k) is None <==> (forall|i: int| 0 <= i < m.len() ==> (#[trigger] m[i]).0
            != k),
    decreases m.len(),
{
    if m.len() > 0 {
        lemma_find_none(m.drop_first(), k);
        assert(forall|i: int| 1 <= i < m.len() ==> m.drop_first()[i - 1] == (#[trigger] m[i]));
        assert(forall|i: int|
            0 <= i < m.drop_first().len() ==> (#[trigger] m.drop_first()[i]) == m[i + 1]);
    }
}

/// If entry `i` is the first with key `k`, lookup returns its value.
pub proof fn lemma_find_at<K, V>(m: Seq<(K, V)>, k: K, i: int)
    requires
        0 <= i < m.len(),
        m[i].0 == k,
        forall|j: int| 0 <= j < i ==> (#[trigger] m[j]).0 != k,
    ensures
        alist_find(m, k) == Some(m[i].1),
    decreases i,
{
    if i > 0 {
        assert(forall|j: int| 0 <= j < i - 1 ==> (#[trigger] m.drop_first()[j]) == m[j + 1]);
        lemma_find_at(m.drop_first(), k, i - 1);
    }
}

/// A found key has a first matching entry.
pub proof fn lemma_find_some_index<K, V>(m: Seq<(K, V)>, k: K) -> (i: int)
    requires
        alist_has(m, k),
    ensures
        0 <= i < m.len(),
        m[i].0 == k,
        m[i].1 == alist_find(m, k)->0,
        forall|j: int| 0 <= j < i ==> (#[trigger] m[j]).0 != k,
    decreases m.len(),
{
    if m.first().0 == k {
        0
    } else {
        let i0 = lemma_find_some_index(m.drop_first(), k);
        assert(forall|j: int|
            0 <= j < m.drop_first().len() ==> (#[trigger] m.drop_first()[j]) == m[j + 1]);
        assert(forall|j: int| 0 <= j < i0 + 1 ==> (#[trigger] m[j]).0 != k) by {
            assert(forall|j: int| 1 <= j < i0 + 1 ==> (#[trigger] m[j]) == m.drop_first()[j - 1]);
        }
        i0 + 1
    }
}

/// Lookup after a push: an existing key keeps its value, the pushed key
/// becomes visible if it was absent.
pub proof fn lemma_find_push<K, V>(m: Seq<(K, V)>, k2: K, v2: V, k: K)
    ensures
        alist_find(m.push((k2, v2)), k) == (if alist_has(m, k) {
            alist_find(m, k)
        } else if k == k2 {
            Some(v2)
        } else {
            None::<V>
        }),
    decreases m.len(),
{
    if m.len() == 0 {
        assert(m.push((k2, v2)).first() == (k2, v2));
        assert(m.push((k2, v2)).drop_first() =~= m);
    } else {
        assert(m.push((k2, v2)).first() == m.first());
        assert(m.push((k2, v2)).drop_first() =~= m.drop_first().push((k2, v2)));
        lemma_find_push(m.drop_first(), k2, v2, k);
    }
}

/// A push of an absent key keeps the keys distinct.
pub proof fn lemma_push_distinct<K, V>(m: Seq<(K, V)>, k: K, v: V)
    requires
        alist_distinct(m),
        !alist_has(m, k),
    ensures
        alist_distinct(m.push((k, v))),
{
    lemma_find_none(m, k);
    assert(forall|i: int, j: int|
        0 <= i < j < m.push((k, v)).len() ==> (#[trigger] m.push((k, v))[i]).0 != (
        #[trigger] m.push((k, v))[j]).0) by {
        assert(forall|i: int| 0 <= i < m.len() ==> (#[trigger] m.push((k, v))[i]) == m[i]);
        assert(m.push((k, v))[m.len() as int] == (k, v));
    }
}

/// Distinctness carries to the tail.
pub proof fn lemma_distinct_drop_first<K, V>(m: Seq<(K, V)>)
    requires
        m.len() > 0,
        alist_distinct(m),
    ensures
        alist_distinct(m.drop_first()),
{
    assert(forall|i: int, j: int|
        0 <= i < j < m.drop_first().len() ==> (#[trigger] m.drop_first()[i]) == m[i + 1] && (
        #[trigger] m.drop_first()[j]) == m[j + 1] && m[i + 1].0 != m[j + 1].0);
}

/// Lookup of one key after removal of another (or the same) key.
pub proof fn lemma_remove_find<K, V>(m: Seq<(K, V)>, k: K, k2: K)
    requires
        alist_distinct(m),
    ensures
        alist_find(alist_remove(m, k), k2) == (if k2 == k {
            None::<V>
        } else {
            alist_find(m, k2)
        }),
    decreases m.len(),
{
    if m.len() == 0 {
    } else if m.first().0 == k {
        if k2 == k {
            lemma_find_none(m.drop_first(), k);
            assert(forall|j: int|
                0 <= j < m.drop_first().len() ==> (#[trigger] m.drop_first()[j]) == m[j + 1]
                    && m[j + 1].0 != m[0].0);
        }
    } else {
        lemma_distinct_drop_first(m);
        lemma_remove_find(m.drop_first(), k, k2);
        let r = seq![m.first()] + alist_remove(m.drop_first(), k);
        assert(r.first() == m.first());
        assert(r.drop_first() =~= alist_remove(m.drop_first(), k));
        assert(r.len() > 0);
    }
}

/// Removal shrinks the length exactly when the key was present.
pub proof fn lemma_remove_len<K, V>(m: Seq<(K, V)>, k: K)
    ensures
        alist_remove(m, k).len() == (if alist_has(m, k) {
            m.len() - 1
        } else {
            m.len() as int
        }),
    decreases m.len(),
{
    if m.len() > 0 && m.first().0 != k {
        lemma_remove_len(m.drop_first(), k);
    }
}

/// Every entry that survives a removal was an entry before.
pub proof fn lemma_remove_entries<K, V>(m: Seq<(K, V)>, k: K)
    ensures
        forall|i: int|
            0 <= i < alist_remove(m, k).len() ==> exists|j: int|
                0 <= j < m.len() && #[trigger] alist_remove(m, k)[i] == #[trigger] m[j],
    decreases m.len(),
{
    if m.len() == 0 {
    } else if m.first().0 == k {
        assert(forall|i: int|
            0 <= i < m.drop_first().len() ==> (#[trigger] m.drop_first()[i]) == m[i + 1]);
    } else {
        lemma_remove_entries(m.drop_first(), k);
        let r = seq![m.first()] + alist_remove(m.drop_first(), k);
        assert(forall|i: int|
            1 <= i < r.len() ==> (#[trigger] r[i]) == alist_remove(m.drop_first(), k)[i - 1]);
        assert(forall|i: int|
            0 <= i < m.drop_first().len() ==> (#[trigger] m.drop_first()[i]) == m[i + 1]);
        assert(r[0] == m[0]);
        assert(forall|i: int|
            0 <= i < r.len() ==> exists|j: int| 0 <= j < m.len() && #[trigger] r[i] == #[trigger] m[j])
            by {
            assert forall|i: int| 1 <= i < r.len() implies exists|j: int|
                0 <= j < m.len() && #[trigger] r[i] == #[trigger] m[j] by {
                let x = alist_remove(m.drop_first(), k)[i - 1];
                let j0 = choose|j: int|
                    0 <= j < m.drop_first().len() && x == #[trigger] m.drop_first()[j];
                assert(r[i] == m[j0 + 1]);
            }
        }
    }
}

/// Removal keeps the keys distinct.
pub proof fn lemma_remove_distinct<K, V>(m: Seq<(K, V)>, k: K)
    requires
        alist_distinct(m),
    ensures
        alist_distinct(alist_remove(m, k)),
    decreases m.len(),
{
    if m.len() == 0 {
    } else if m.first().0 == k {
        lemma_distinct_drop_first(m);
    } else {
        lemma_distinct_drop_first(m);
        lemma_remove_distinct(m.drop_first(), k);
        lemma_remove_entries(m.drop_first(), k);
        let rr = alist_remove(m.drop_first(), k);
        let r = seq![m.first()] + rr;
        assert(forall|i: int| 1 <= i < r.len() ==> (#[trigger] r[i]) == rr[i - 1]);
        assert(forall|i: int|
            0 <= i < m.drop_first().len() ==> (#[trigger] m.drop_first()[i]) == m[i + 1]);
        assert forall|i: int, j: int| 0 <= i < j < r.len() implies (#[trigger] r[i]).0 != (
        #[trigger] r[j]).0 by {
            if i == 0 {
                let x = rr[j - 1];
                let j0 = choose|jj: int|
                    0 <= jj < m.drop_first().len() && x == #[trigger] m.drop_first()[jj];
                assert(r[j] == m[j0 + 1]);
                assert(m[0].0 != m[j0 + 1].0);
            }
        }
    }
}

/// Lookup of one key after updating another (or the same) key.
pub proof fn lemma_update_find<K, V>(m: Seq<(K, V)>, k: K, v: V, k2: K)
    requires
        alist_distinct(m),
    ensures
        alist_find(alist_update(m, k, v), k2) == (if k2 == k && alist_has(m, k) {
            Some(v)
        } else {
            alist_find(m, k2)
        }),
    decreases m.len(),
{
    if m.len() == 0 {
    } else if m.first().0 == k {
        let r = m.update(0, (k, v));
        assert(r.first() == (k, v));
        assert(r.drop_first() =~= m.drop_first());
    } else {
        lemma_distinct_drop_first(m);
        lemma_update_find(m.drop_first(), k, v, k2);
        let r = seq![m.first()] + alist_update(m.drop_first(), k, v);
        assert(r.first() == m.first());
        assert(r.drop_first() =~= alist_update(m.drop_first(), k, v));
        assert(r.len() > 0);
    }
}

/// An update keeps the length.
pub proof fn lemma_update_len<K, V>(m: Seq<(K, V)>, k: K, v: V)
    ensures
        alist_update(m, k, v).len() == m.len(),
    decreases m.len(),
{
    if m.len() > 0 && m.first().0 != k {
        lemma_update_len(m.drop_first(), k, v);
    }
}

/// After an update every entry is either untouched or the updated pair.
pub proof fn lemma_update_entries<K, V>(m: Seq<(K, V)>, k: K, v: V)
    ensures
        alist_update(m, k, v).len() == m.len(),
        forall|i: int|
            0 <= i < m.len() ==> (#[trigger] alist_update(m, k, v)[i] == m[i] || (m[i].0 == k
                && alist_update(m, k, v)[i] == (k, v))),
    decreases m.len(),
{
    lemma_update_len(m, k, v);
    if m.len() == 0 {
    } else if m.first().0 == k {
        assert(forall|i: int| 1 <= i < m.len() ==> (#[trigger] m.update(0, (k, v))[i]) == m[i]);
    } else {
        lemma_update_entries(m.drop_first(), k, v);
        let rr = alist_update(m.drop_first(), k, v);
        let r = seq![m.first()] + rr;
        assert(r[0] == m[0]);
        assert(forall|i: int| 1 <= i < r.len() ==> (#[trigger] r[i]) == rr[i - 1]);
        assert(forall|i: int|
            0 <= i < m.drop_first().len() ==> (#[trigger] m.drop_first()[i]) == m[i + 1]);
        assert forall|i: int| 0 <= i < m.len() implies (#[trigger] r[i] == m[i] || (m[i].0 == k
            && r[i] == (k, v))) by {
            if i >= 1 {
                assert(rr[i - 1] == m.drop_first()[i - 1] || (m.drop_first()[i - 1].0 == k && rr[i
                    - 1] == (k, v)));
            }
        }
    }
}

/// An update keeps the keys distinct.
pub proof fn lemma_update_distinct<K, V>(m: Seq<(K, V)>, k: K, v: V)
    requires
        alist_distinct(m),
    ensures
        alist_distinct(alist_update(m, k, v)),
{
    lemma_update_entries(m, k, v);
    let r = alist_update(m, k, v);
    assert(forall|i: int| 0 <= i < r.len() ==> (#[trigger] r[i]).0 == m[i].0);
}

/// Removing the first entry with key `k` at its index is `alist_remove`.
pub proof fn lemma_remove_at<K, V>(m: Seq<(K, V)>, k: K, i: int)
    requires
        0 <= i < m.len(),
        m[i].0 == k,
        forall|j: int| 0 <= j < i ==> (#[trigger] m[j]).0 != k,
    ensures
        alist_remove(m, k) =~= m.remove(i),
    decreases i,
{
    if i == 0 {
        assert(m.remove(0) =~= m.drop_first());
    } else {
        assert(forall|j: int| 0 <= j < i - 1 ==> (#[trigger] m.drop_first()[j]) == m[j + 1]);
        lemma_remove_at(m.drop_first(), k, i - 1);
        assert(seq![m.first()] + m.drop_first().remove(i - 1) =~= m.remove(i));
    }
}

/// Removal of the first entry with key `k` at index `i` shifts the later
/// entries down by one and leaves the earlier ones in place.
pub proof fn lemma_remove_index_map<K, V>(m: Seq<(K, V)>, k: K, i: int)
    requires
        0 <= i < m.len(),
        m[i].0 == k,
        forall|j: int| 0 <= j < i ==> (#[trigger] m[j]).0 != k,
    ensures
        alist_remove(m, k).len() == m.len() - 1,
        forall|j: int| 0 <= j < i ==> #[trigger] alist_remove(m, k)[j] == m[j],
        forall|j: int| i <= j < m.len() - 1 ==> #[trigger] alist_remove(m, k)[j] == m[j + 1],
{
    lemma_remove_at(m, k, i);
    m.remove_ensures(i);
}

/// Updating the first entry with key `k` at its index is `alist_update`.
pub proof fn lemma_update_at<K, V>(m: Seq<(K, V)>, k: K, v: V, i: int)
    requires
        0 <= i < m.len(),
        m[i].0 == k,
        forall|j: int| 0 <= j < i ==> (#[trigger] m[j]).0 != k,
    ensures
        alist_update(m, k, v) =~= m.update(i, (k, v)),
    decreases i,
{
    if i == 0 {
    } else {
        assert(forall|j: int| 0 <= j < i - 1 ==> (#[trigger] m.drop_first()[j]) == m[j + 1]);
        lemma_update_at(m.drop_first(), k, v, i - 1);
        assert(seq![m.first()] + m.drop_first().update(i - 1, (k, v)) =~= m.update(i, (k, v)));
    }
}

} // verus!
