//! The mathematical model shared by all containers: specification functions
//! over a sequence of key-value pairs, and the lemmas that relate them.
//!
//! Keys are identified by their views; the ordered container additionally
//! uses the total order of [`OrdKey`].

use vstd::prelude::*;
use crate::key::OrdKey;

verus! {

/// No two pairs share a key.
pub open spec fn distinct_keys<K: View, V>(s: Seq<(K, V)>) -> bool {
    forall|i: int, j: int| 0 <= i < j < s.len() ==> s[i].0@ != s[j].0@
}

/// Some pair carries the key `k`.
pub open spec fn has_key<K: View, V>(s: Seq<(K, V)>, k: K::V) -> bool {
    exists|i: int| 0 <= i < s.len() && s[i].0@ == k
}

/// Index of the first pair carrying `k`, or `-1` when no pair does.
pub open spec fn find_key<K: View, V>(s: Seq<(K, V)>, k: K::V) -> int
    decreases s.len(),
{
    if s.len() == 0 {
        -1
    } else if s[0].0@ == k {
        0
    } else {
        let r = find_key(s.skip(1), k);
        if r < 0 {
            -1
        } else {
            r + 1
        }
    }
}

/// The value stored for `k`: the first match, as the linear scan sees it.
pub open spec fn spec_get<K: View, V>(s: Seq<(K, V)>, k: K::V) -> Option<V> {
    if find_key(s, k) >= 0 {
        Some(s[find_key(s, k)].1)
    } else {
        None
    }
}

/// `find_key` points at the first pair carrying `k`, and fails exactly when
/// no pair carries it.
pub proof fn lemma_find_key<K: View, V>(s: Seq<(K, V)>, k: K::V)
    ensures
        (find_key(s, k) == -1) <==> !has_key(s, k),
        find_key(s, k) != -1 ==> {
            &&& 0 <= find_key(s, k) < s.len()
            &&& s[find_key(s, k)].0@ == k
            &&& forall|j: int| 0 <= j < find_key(s, k) ==> s[j].0@ != k
        },
    decreases s.len(),
{
    if s.len() == 0 {
    } else if s[0].0@ == k {
    } else {
        let t = s.skip(1);
        lemma_find_key(t, k);
        if find_key(t, k) == -1 {
            assert(!has_key(s, k)) by {
                if has_key(s, k) {
                    let i = choose|i: int| 0 <= i < s.len() && s[i].0@ == k;
                    assert(t[i - 1].0@ == k);
                    assert(has_key(t, k));
                }
            }
        } else {
            let r = find_key(t, k);
            assert(s[r + 1].0@ == k);
            assert(forall|j: int| 1 <= j < r + 1 ==> s[j].0@ == t[j - 1].0@);
        }
    }
}

/// An index that carries `k`, with no earlier match, is what `find_key`
/// returns.
pub proof fn lemma_find_key_is<K: View, V>(s: Seq<(K, V)>, k: K::V, i: int)
    requires
        0 <= i < s.len(),
        s[i].0@ == k,
        forall|j: int| 0 <= j < i ==> s[j].0@ != k,
    ensures
        find_key(s, k) == i,
    decreases s.len(),
{
    if i == 0 {
    } else {
        let t = s.skip(1);
        assert(forall|j: int| 0 <= j < i - 1 ==> t[j].0@ == s[j + 1].0@);
        lemma_find_key_is(t, k, i - 1);
    }
}

/// What inserting into the unordered container does to the stored sequence:
/// replace the value of the first pair carrying the key, or else append a
/// new pair.
pub open spec fn vec_insert_model<K: View, V>(s: Seq<(K, V)>, k: K, v: V) -> Seq<(K, V)> {
    let i = find_key(s, k@);
    if i >= 0 {
        s.update(i, (s[i].0, v))
    } else {
        s.push((k, v))
    }
}

/// Appending a pair with a fresh key keeps the sequence duplicate-free.
pub proof fn lemma_push_distinct<K: View, V>(s: Seq<(K, V)>, k: K, v: V)
    requires
        distinct_keys(s),
        !has_key(s, k@),
    ensures
        distinct_keys(s.push((k, v))),
{
    let t = s.push((k, v));
    assert forall|i: int, j: int| 0 <= i < j < t.len() implies t[i].0@ != t[j].0@ by {
        if j == s.len() {
            assert(t[i] == s[i]);
            if t[i].0@ == k@ {
                assert(has_key(s, k@));
            }
        } else {
            assert(t[i] == s[i] && t[j] == s[j]);
        }
    }
}

/// The pairs are sorted by key, ascending in the order of [`OrdKey`].
pub open spec fn sorted<K: OrdKey, V>(s: Seq<(K, V)>) -> bool {
    forall|i: int, j: int| 0 <= i < j < s.len() ==> s[i].0.le(&s[j].0)
}

/// The index of the first pair whose key is at or above `k` in the order;
/// the length when every key is below `k`.
pub open spec fn lower_bound<K: OrdKey, V>(s: Seq<(K, V)>, k: K) -> int
    decreases s.len(),
{
    if s.len() == 0 {
        0
    } else if k.le(&s[0].0) {
        0
    } else {
        1 + lower_bound(s.skip(1), k)
    }
}

/// A boundary below which no key is at or above `k`, and at which one is,
/// is what `lower_bound` returns.
pub proof fn lemma_lower_bound_is<K: OrdKey, V>(s: Seq<(K, V)>, k: K, m: int)
    requires
        0 <= m <= s.len(),
        forall|i: int| 0 <= i < m ==> !k.le(&s[i].0),
        m < s.len() ==> k.le(&s[m].0),
    ensures
        lower_bound(s, k) == m,
    decreases s.len(),
{
    if s.len() == 0 {
    } else if k.le(&s[0].0) {
        assert(m == 0);
    } else {
        let t = s.skip(1);
        assert(forall|i: int| 0 <= i < m - 1 ==> t[i] == s[i + 1]);
        lemma_lower_bound_is(t, k, m - 1);
    }
}

/// What `lower_bound` returns: in range, below it no key reaches `k`, at it
/// the first key that does.
pub proof fn lemma_lower_bound<K: OrdKey, V>(s: Seq<(K, V)>, k: K)
    ensures
        0 <= lower_bound(s, k) <= s.len(),
        forall|i: int| 0 <= i < lower_bound(s, k) ==> !k.le(&s[i].0),
        lower_bound(s, k) < s.len() ==> k.le(&s[lower_bound(s, k)].0),
    decreases s.len(),
{
    if s.len() == 0 {
    } else if k.le(&s[0].0) {
    } else {
        let t = s.skip(1);
        lemma_lower_bound(t, k);
        assert(forall|i: int| 1 <= i < 1 + lower_bound(t, k) ==> s[i] == t[i - 1]);
    }
}

/// In a sorted, duplicate-free sequence, the key `k`, if present at all,
/// sits exactly at its lower bound.
pub proof fn lemma_lower_bound_finds<K: OrdKey, V>(s: Seq<(K, V)>, k: K)
    requires
        sorted(s),
        distinct_keys(s),
    ensures
        has_key(s, k@) <==> (lower_bound(s, k) < s.len() && s[lower_bound(s, k)].0@ == k@),
        has_key(s, k@) ==> find_key(s, k@) == lower_bound(s, k),
{
    let m = lower_bound(s, k);
    lemma_lower_bound(s, k);
    if has_key(s, k@) {
        let i = choose|i: int| 0 <= i < s.len() && s[i].0@ == k@;
        // Below the boundary no key can share k's view.
        assert forall|j: int| 0 <= j < m implies s[j].0@ != k@ by {
            if s[j].0@ == k@ {
                K::le_refl(&k, &s[j].0);
            }
        }
        assert(i >= m);
        if i > m {
            // The key at the boundary is sandwiched between k and a key with
            // k's view, so it would have k's view as well.
            assert(k.le(&s[m].0));
            assert(s[m].0.le(&s[i].0));
            K::le_refl(&s[i].0, &k);
            K::le_trans(&s[m].0, &s[i].0, &k);
            K::le_antisym(&k, &s[m].0);
            assert(s[m].0@ == k@);
            assert(false);
        }
        lemma_find_key_is(s, k@, m);
    } else {
        if m < s.len() && s[m].0@ == k@ {
            assert(has_key(s, k@));
        }
    }
}

/// Inserting a fresh key at its lower bound keeps the sequence sorted and
/// duplicate-free.
pub proof fn lemma_sorted_insert<K: OrdKey, V>(s: Seq<(K, V)>, k: K, v: V)
    requires
        sorted(s),
        distinct_keys(s),
        !has_key(s, k@),
    ensures
        sorted(s.insert(lower_bound(s, k), (k, v))),
        distinct_keys(s.insert(lower_bound(s, k), (k, v))),
{
    let m = lower_bound(s, k);
    lemma_lower_bound(s, k);
    let t = s.insert(m, (k, v));
    assert(t.len() == s.len() + 1);
    // Keys below the boundary are at or below k; keys at or above it are at
    // or above k.
    assert forall|i: int| 0 <= i < m implies s[i].0.le(&k) by {
        K::le_total(&k, &s[i].0);
    }
    assert forall|i: int| m <= i < s.len() implies k.le(&s[i].0) by {
        if i > m {
            K::le_trans(&k, &s[m].0, &s[i].0);
        }
    }
    assert forall|i: int, j: int| 0 <= i < j < t.len() implies t[i].0.le(&t[j].0) by {
        if i < m && j == m {
            assert(t[i] == s[i]);
        } else if i == m && j > m {
            assert(t[j] == s[j - 1]);
        } else if i < m && j > m {
            assert(t[i] == s[i] && t[j] == s[j - 1]);
        } else if i < m && j < m {
            assert(t[i] == s[i] && t[j] == s[j]);
        } else if i > m && j > m {
            assert(t[i] == s[i - 1] && t[j] == s[j - 1]);
        }
    }
    assert forall|i: int, j: int| 0 <= i < j < t.len() implies t[i].0@ != t[j].0@ by {
        if i == m {
            assert(t[j] == s[j - 1]);
            if t[j].0@ == k@ {
                assert(has_key(s, k@));
            }
        } else if j == m {
            assert(t[i] == s[i]);
            if t[i].0@ == k@ {
                assert(has_key(s, k@));
            }
        } else {
            let si = if i < m { i } else { i - 1 };
            let sj = if j < m { j } else { j - 1 };
            assert(t[i] == s[si] && t[j] == s[sj]);
        }
    }
}

/// Replacing the value at one slot, keeping its key, preserves
/// duplicate-freedom.
pub proof fn lemma_update_value<K: View, V>(s: Seq<(K, V)>, i: int, v: V)
    requires
        0 <= i < s.len(),
        distinct_keys(s),
    ensures
        distinct_keys(s.update(i, (s[i].0, v))),
{
    let t = s.update(i, (s[i].0, v));
    assert(forall|a: int| 0 <= a < t.len() ==> t[a].0 == s[a].0);
}

/// Replacing the value at one slot of a sorted sequence keeps it sorted.
pub proof fn lemma_update_value_sorted<K: OrdKey, V>(s: Seq<(K, V)>, i: int, v: V)
    requires
        0 <= i < s.len(),
        sorted(s),
    ensures
        sorted(s.update(i, (s[i].0, v))),
{
    let t = s.update(i, (s[i].0, v));
    assert(forall|a: int| 0 <= a < t.len() ==> t[a].0 == s[a].0);
}

/// Removing one slot preserves sortedness and duplicate-freedom.
pub proof fn lemma_remove_keeps<K: OrdKey, V>(s: Seq<(K, V)>, i: int)
    requires
        0 <= i < s.len(),
        sorted(s),
        distinct_keys(s),
    ensures
        sorted(s.remove(i)),
        distinct_keys(s.remove(i)),
{
    let t = s.remove(i);
    assert forall|a: int, b: int| 0 <= a < b < t.len() implies t[a].0.le(&t[b].0)
        && t[a].0@ != t[b].0@ by {
        let sa = if a < i { a } else { a + 1 };
        let sb = if b < i { b } else { b + 1 };
        assert(t[a] == s[sa] && t[b] == s[sb]);
    }
}

/// Swap-removal — overwriting slot `i` with the last slot and dropping the
/// last — preserves duplicate-freedom.
pub proof fn lemma_swap_remove_distinct<K: View, V>(s: Seq<(K, V)>, i: int)
    requires
        0 <= i < s.len(),
        distinct_keys(s),
    ensures
        distinct_keys(s.update(i, s.last()).drop_last()),
{
    let t = s.update(i, s.last()).drop_last();
    assert forall|a: int, b: int| 0 <= a < b < t.len() implies t[a].0@ != t[b].0@ by {
        let sa = if a == i { s.len() - 1 } else { a };
        let sb = if b == i { s.len() - 1 } else { b };
        assert(t[a] == s[sa] && t[b] == s[sb]);
    }
}

/// Removing the one slot carrying a key leaves no slot carrying it.
pub proof fn lemma_remove_no_key<K: View, V>(s: Seq<(K, V)>, i: int)
    requires
        0 <= i < s.len(),
        distinct_keys(s),
    ensures
        !has_key(s.remove(i), s[i].0@),
{
    let k = s[i].0@;
    let t = s.remove(i);
    assert forall|a: int| 0 <= a < t.len() implies t[a].0@ != k by {
        let sa = if a < i { a } else { a + 1 };
        assert(t[a] == s[sa]);
    }
    if has_key(t, k) {
        let a = choose|a: int| 0 <= a < t.len() && t[a].0@ == k;
    }
}

/// What inserting into the ordered container does to the stored sequence:
/// replace the value at the key's lower bound when the key already sits
/// there, or else open a gap at the lower bound for the new pair.
pub open spec fn bin_insert_model<K: OrdKey, V>(s: Seq<(K, V)>, k: K, v: V) -> Seq<(K, V)> {
    let i = lower_bound(s, k);
    if i < s.len() && s[i].0@ == k@ {
        s.update(i, (s[i].0, v))
    } else {
        s.insert(i, (k, v))
    }
}

/// Inserting a pair stores its value under its key.
pub proof fn lemma_insert_get_same<K: View, V>(s: Seq<(K, V)>, k: K, v: V)
    ensures
        spec_get(vec_insert_model(s, k, v), k@) == Some(v),
        has_key(vec_insert_model(s, k, v), k@),
{
    lemma_find_key(s, k@);
    let i = find_key(s, k@);
    if i >= 0 {
        let t = s.update(i, (s[i].0, v));
        assert(forall|j: int| 0 <= j < i ==> t[j] == s[j]);
        lemma_find_key_is(t, k@, i);
    } else {
        let t = s.push((k, v));
        assert forall|j: int| 0 <= j < s.len() implies t[j].0@ != k@ by {
            assert(t[j] == s[j]);
            if s[j].0@ == k@ {
                assert(has_key(s, k@));
            }
        }
        lemma_find_key_is(t, k@, s.len() as int);
    }
}

/// Inserting a pair leaves every other key's stored value alone.
pub proof fn lemma_insert_get_other<K: View, V>(s: Seq<(K, V)>, k: K, v: V, k2: K::V)
    requires
        k2 != k@,
    ensures
        spec_get(vec_insert_model(s, k, v), k2) == spec_get(s, k2),
{
    lemma_find_key(s, k@);
    lemma_find_key(s, k2);
    let i = find_key(s, k@);
    let j2 = find_key(s, k2);
    if i >= 0 {
        let t = s.update(i, (s[i].0, v));
        assert(forall|a: int| 0 <= a < t.len() ==> t[a].0 == s[a].0);
        if j2 >= 0 {
            assert(j2 != i);
            assert(forall|a: int| 0 <= a < j2 ==> t[a].0@ != k2);
            lemma_find_key_is(t, k2, j2);
        } else {
            assert forall|a: int| 0 <= a < t.len() implies t[a].0@ != k2 by {
                if s[a].0@ == k2 {
                    assert(has_key(s, k2));
                }
            }
            lemma_find_key(t, k2);
            if has_key(t, k2) {
                let a = choose|a: int| 0 <= a < t.len() && t[a].0@ == k2;
            }
        }
    } else {
        let t = s.push((k, v));
        if j2 >= 0 {
            assert(forall|a: int| 0 <= a <= j2 ==> t[a] == s[a]);
            lemma_find_key_is(t, k2, j2);
        } else {
            assert forall|a: int| 0 <= a < t.len() implies t[a].0@ != k2 by {
                if a < s.len() {
                    assert(t[a] == s[a]);
                    if s[a].0@ == k2 {
                        assert(has_key(s, k2));
                    }
                }
            }
            lemma_find_key(t, k2);
            if has_key(t, k2) {
                let a = choose|a: int| 0 <= a < t.len() && t[a].0@ == k2;
            }
        }
    }
}

/// Inserting into the unordered container preserves duplicate-freedom.
pub proof fn lemma_insert_distinct<K: View, V>(s: Seq<(K, V)>, k: K, v: V)
    requires
        distinct_keys(s),
    ensures
        distinct_keys(vec_insert_model(s, k, v)),
{
    lemma_find_key(s, k@);
    let i = find_key(s, k@);
    if i >= 0 {
        lemma_update_value(s, i, v);
    } else {
        lemma_push_distinct(s, k, v);
    }
}

/// Prepending a key strictly below the first keeps the sequence sorted and
/// duplicate-free.
pub proof fn lemma_prepend<K: OrdKey, V>(s: Seq<(K, V)>, k: K, v: V)
    requires
        sorted(s),
        distinct_keys(s),
        s.len() > 0 ==> k.le(&s[0].0) && k@ != s[0].0@,
    ensures
        sorted(s.insert(0, (k, v))),
        distinct_keys(s.insert(0, (k, v))),
{
    let t = s.insert(0, (k, v));
    assert forall|i: int, j: int| 0 <= i < j < t.len() implies t[i].0.le(&t[j].0) by {
        if i == 0 {
            assert(t[j] == s[j - 1]);
            if j - 1 > 0 {
                K::le_trans(&k, &s[0].0, &s[j - 1].0);
            }
        } else {
            assert(t[i] == s[i - 1] && t[j] == s[j - 1]);
        }
    }
    assert forall|i: int, j: int| 0 <= i < j < t.len() implies t[i].0@ != t[j].0@ by {
        if i == 0 {
            assert(t[j] == s[j - 1]);
            if s[j - 1].0@ == k@ {
                // A later slot with k's view would squeeze the first slot
                // into having k's view as well.
                K::le_refl(&s[j - 1].0, &k);
                K::le_trans(&s[0].0, &s[j - 1].0, &k);
                K::le_antisym(&k, &s[0].0);
                assert(false);
            }
        } else {
            assert(t[i] == s[i - 1] && t[j] == s[j - 1]);
        }
    }
}

/// Appending a key strictly above the last keeps the sequence sorted and
/// duplicate-free.
pub proof fn lemma_append_back<K: OrdKey, V>(s: Seq<(K, V)>, k: K, v: V)
    requires
        sorted(s),
        distinct_keys(s),
        s.len() > 0 ==> s.last().0.le(&k) && s.last().0@ != k@,
    ensures
        sorted(s.push((k, v))),
        distinct_keys(s.push((k, v))),
{
    let t = s.push((k, v));
    let n = s.len() as int;
    assert forall|i: int, j: int| 0 <= i < j < t.len() implies t[i].0.le(&t[j].0) by {
        if j == n {
            assert(t[i] == s[i]);
            if i < n - 1 {
                K::le_trans(&s[i].0, &s[n - 1].0, &k);
            }
        } else {
            assert(t[i] == s[i] && t[j] == s[j]);
        }
    }
    assert forall|i: int, j: int| 0 <= i < j < t.len() implies t[i].0@ != t[j].0@ by {
        if j == n {
            assert(t[i] == s[i]);
            if s[i].0@ == k@ {
                K::le_refl(&k, &s[i].0);
                K::le_trans(&s[n - 1].0, &k, &s[i].0);
                K::le_antisym(&s[i].0, &s[n - 1].0);
                assert(false);
            }
        } else {
            assert(t[i] == s[i] && t[j] == s[j]);
        }
    }
}

/// Inserting into the ordered container preserves sortedness and
/// duplicate-freedom.
pub proof fn lemma_bin_insert_wf<K: OrdKey, V>(s: Seq<(K, V)>, k: K, v: V)
    requires
        sorted(s),
        distinct_keys(s),
    ensures
        sorted(bin_insert_model(s, k, v)),
        distinct_keys(bin_insert_model(s, k, v)),
{
    lemma_lower_bound_finds(s, k);
    lemma_lower_bound(s, k);
    let i = lower_bound(s, k);
    if i < s.len() && s[i].0@ == k@ {
        lemma_update_value(s, i, v);
        lemma_update_value_sorted(s, i, v);
    } else {
        lemma_sorted_insert(s, k, v);
    }
}

/// Ordered insert stores its value under its key.
pub proof fn lemma_bin_insert_get_same<K: OrdKey, V>(s: Seq<(K, V)>, k: K, v: V)
    requires
        sorted(s),
        distinct_keys(s),
    ensures
        spec_get(bin_insert_model(s, k, v), k@) == Some(v),
        has_key(bin_insert_model(s, k, v), k@),
{
    lemma_lower_bound_finds(s, k);
    lemma_lower_bound(s, k);
    lemma_find_key(s, k@);
    let i = lower_bound(s, k);
    if i < s.len() && s[i].0@ == k@ {
        let t = s.update(i, (s[i].0, v));
        assert(forall|j: int| 0 <= j < i ==> t[j] == s[j]);
        lemma_find_key_is(t, k@, i);
    } else {
        let t = s.insert(i, (k, v));
        assert forall|j: int| 0 <= j < i implies t[j].0@ != k@ by {
            assert(t[j] == s[j]);
            if s[j].0@ == k@ {
                assert(has_key(s, k@));
            }
        }
        assert(t[i] == (k, v));
        lemma_find_key_is(t, k@, i);
    }
}

/// Inserting a run of pairs into the unordered container, left to right.
pub open spec fn vec_insert_all<K: View, V>(s: Seq<(K, V)>, ps: Seq<(K, V)>) -> Seq<(K, V)>
    decreases ps.len(),
{
    if ps.len() == 0 {
        s
    } else {
        vec_insert_model(vec_insert_all(s, ps.drop_last()), ps.last().0, ps.last().1)
    }
}

/// Inserting a run of pairs into the ordered container, left to right.
pub open spec fn bin_insert_all<K: OrdKey, V>(s: Seq<(K, V)>, ps: Seq<(K, V)>) -> Seq<(K, V)>
    decreases ps.len(),
{
    if ps.len() == 0 {
        s
    } else {
        bin_insert_model(bin_insert_all(s, ps.drop_last()), ps.last().0, ps.last().1)
    }
}

/// After swap-removal of the slot holding `k`, the key is gone.
pub proof fn lemma_swap_remove_no_key<K: View, V>(s: Seq<(K, V)>, i: int)
    requires
        0 <= i < s.len(),
        distinct_keys(s),
    ensures
        !has_key(s.update(i, s.last()).drop_last(), s[i].0@),
{
    let k = s[i].0@;
    let t = s.update(i, s.last()).drop_last();
    assert forall|a: int| 0 <= a < t.len() implies t[a].0@ != k by {
        let sa = if a == i { s.len() - 1 } else { a };
        assert(t[a] == s[sa]);
    }
    if has_key(t, k) {
        let a = choose|a: int| 0 <= a < t.len() && t[a].0@ == k;
    }
}

} // verus!
