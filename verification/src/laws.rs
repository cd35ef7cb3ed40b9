//! The laws the containers obey, stated over the same models their
//! contracts use and proved once and for all.

use vstd::prelude::*;
use crate::key::OrdKey;
use crate::pairs::{
    bin_insert_model, distinct_keys, find_key, has_key, lemma_bin_insert_get_same,
    lemma_bin_insert_wf, lemma_find_key, lemma_insert_distinct, lemma_insert_get_other,
    lemma_insert_get_same, lemma_lower_bound_finds, lower_bound, sorted, spec_get,
    vec_insert_all, vec_insert_model,
};

verus! {

/// Round-trip: inserting any run of pairs with pairwise distinct keys into
/// an empty unordered map stores every pair, and looking each key up
/// afterwards yields exactly the value inserted with it.
///
/// The fixed map reads its pairs through the same model, so a snapshot of
/// the resulting storage answers the same lookups identically.
pub proof fn lemma_round_trip<K: View, V>(ps: Seq<(K, V)>, i: int)
    requires
        distinct_keys(ps),
        0 <= i < ps.len(),
    ensures
        spec_get(vec_insert_all(Seq::<(K, V)>::empty(), ps), ps[i].0@) == Some(ps[i].1),
    decreases ps.len(),
{
    let prev = vec_insert_all(Seq::<(K, V)>::empty(), ps.drop_last());
    let last = ps.last();
    if i == ps.len() - 1 {
        lemma_insert_get_same(prev, last.0, last.1);
    } else {
        assert(distinct_keys(ps.drop_last())) by {
            assert(forall|a: int, b: int|
                0 <= a < b < ps.len() - 1 ==> ps.drop_last()[a] == ps[a] && ps.drop_last()[b]
                    == ps[b]);
        }
        assert(ps.drop_last()[i] == ps[i]);
        lemma_round_trip(ps.drop_last(), i);
        lemma_insert_get_other(prev, last.0, last.1, ps[i].0@);
    }
}

/// Entry equivalence for the unordered map: locating a key and then
/// occupying its slot, or filling a vacant one, changes the storage exactly
/// as one direct insert does.
pub proof fn lemma_entry_insert_equiv<K: View, V>(s: Seq<(K, V)>, k: K, v: V)
    ensures
        has_key(s, k@) ==> vec_insert_model(s, k, v) == s.update(
            find_key(s, k@),
            (s[find_key(s, k@)].0, v),
        ),
        !has_key(s, k@) ==> vec_insert_model(s, k, v) == s.push((k, v)),
{
    lemma_find_key(s, k@);
}

/// Entry equivalence for the ordered map: locating a key by binary search
/// and then occupying its slot, or inserting at the remembered position of
/// a vacant one, changes the storage exactly as one direct insert does.
pub proof fn lemma_bin_entry_insert_equiv<K: OrdKey, V>(s: Seq<(K, V)>, k: K, v: V)
    requires
        sorted(s),
        distinct_keys(s),
    ensures
        has_key(s, k@) ==> bin_insert_model(s, k, v) == s.update(
            find_key(s, k@),
            (s[find_key(s, k@)].0, v),
        ),
        !has_key(s, k@) ==> bin_insert_model(s, k, v) == s.insert(lower_bound(s, k), (k, v)),
{
    lemma_lower_bound_finds(s, k);
}

/// Idempotence of duplicate insert into the unordered map: storing a key
/// twice keeps the length of the first insert's result and leaves the
/// second value as the one stored; with duplicate-free storage that is
/// exactly one pair for the key.
pub proof fn lemma_insert_twice<K: View, V>(s: Seq<(K, V)>, k1: K, k2: K, v1: V, v2: V)
    requires
        k1@ == k2@,
    ensures
        vec_insert_model(vec_insert_model(s, k1, v1), k2, v2).len() == vec_insert_model(
            s,
            k1,
            v1,
        ).len(),
        spec_get(vec_insert_model(vec_insert_model(s, k1, v1), k2, v2), k2@) == Some(v2),
        distinct_keys(s) ==> distinct_keys(vec_insert_model(vec_insert_model(s, k1, v1), k2, v2)),
{
    let t1 = vec_insert_model(s, k1, v1);
    lemma_insert_get_same(s, k1, v1);
    lemma_find_key(t1, k2@);
    lemma_insert_get_same(t1, k2, v2);
    if distinct_keys(s) {
        lemma_insert_distinct(s, k1, v1);
        lemma_insert_distinct(t1, k2, v2);
    }
}

/// Idempotence of duplicate insert into the ordered map: storing a key
/// twice keeps the length of the first insert's result, leaves the second
/// value as the one stored, and keeps the storage sorted and
/// duplicate-free — exactly one pair for the key.
pub proof fn lemma_bin_insert_twice<K: OrdKey, V>(s: Seq<(K, V)>, k1: K, k2: K, v1: V, v2: V)
    requires
        sorted(s),
        distinct_keys(s),
        k1@ == k2@,
    ensures
        bin_insert_model(bin_insert_model(s, k1, v1), k2, v2).len() == bin_insert_model(
            s,
            k1,
            v1,
        ).len(),
        spec_get(bin_insert_model(bin_insert_model(s, k1, v1), k2, v2), k2@) == Some(v2),
        sorted(bin_insert_model(bin_insert_model(s, k1, v1), k2, v2)),
        distinct_keys(bin_insert_model(bin_insert_model(s, k1, v1), k2, v2)),
{
    let t1 = bin_insert_model(s, k1, v1);
    lemma_bin_insert_wf(s, k1, v1);
    lemma_bin_insert_get_same(s, k1, v1);
    lemma_bin_insert_wf(t1, k2, v2);
    lemma_bin_insert_get_same(t1, k2, v2);
    lemma_lower_bound_finds(t1, k2);
}

} // verus!
