//! The ordered array map: pairs kept sorted by key, binary search for every
//! lookup, shift-based insertion and removal.

use vstd::prelude::*;
use crate::key::{EqKey, OrdKey};
use crate::pairs::{
    bin_insert_model, distinct_keys, find_key, has_key, lemma_append_back, lemma_find_key,
    lemma_lower_bound, lemma_lower_bound_finds, lemma_lower_bound_is, lemma_prepend,
    lemma_remove_keeps, lemma_remove_no_key, lemma_sorted_insert, lemma_update_value,
    lemma_update_value_sorted, lower_bound, sorted, spec_get,
};
use crate::vec::vec_capacity;

verus! {

/// Borrowed cursors are shared with the unordered map.
pub type Iter<'a, K, V> = crate::vec::Iter<'a, K, V>;

pub type Keys<'a, K, V> = crate::vec::Keys<'a, K, V>;

pub type Values<'a, K, V> = crate::vec::Values<'a, K, V>;

/// Owning cursors are shared with the unordered map.
pub type IntoIter<K, V> = crate::vec::IntoIter<K, V>;

pub type IntoKeys<K, V> = crate::vec::IntoKeys<K, V>;

pub type IntoValues<K, V> = crate::vec::IntoValues<K, V>;

pub type Drain<K, V> = crate::vec::Drain<K, V>;

/// A map over a contiguous sequence of key-value pairs kept sorted by key.
///
/// Every lookup is a binary search; insertion and removal shift the run of
/// pairs after the touched slot, preserving the order.
#[derive(Debug, Clone)]
pub struct BinaryMap<K, V> {
    inner: Vec<(K, V)>,
}

impl<K, V> Default for BinaryMap<K, V> {
    fn default() -> (m: Self)
        ensures
            m@ == Seq::<(K, V)>::empty(),
    {
        Self::new()
    }
}

impl<K, V> View for BinaryMap<K, V> {
    type V = Seq<(K, V)>;

    closed spec fn view(&self) -> Seq<(K, V)> {
        self.inner@
    }
}

impl<K: OrdKey, V> BinaryMap<K, V> {
    /// The container invariant: sorted ascending by key, no two pairs
    /// sharing a key.
    pub open spec fn wf(&self) -> bool {
        sorted(self@) && distinct_keys(self@)
    }
}

impl<K, V> BinaryMap<K, V> {
    /// An empty map.
    pub fn new() -> (m: Self)
        ensures
            m@ == Seq::<(K, V)>::empty(),
    {
        BinaryMap { inner: Vec::new() }
    }

    /// An empty map whose storage is pre-sized for `capacity` pairs.
    pub fn with_capacity(capacity: usize) -> (m: Self)
        ensures
            m@ == Seq::<(K, V)>::empty(),
    {
        BinaryMap { inner: Vec::with_capacity(capacity) }
    }

    /// The number of pairs held.
    pub fn len(&self) -> (n: usize)
        ensures
            n == self@.len(),
    {
        self.inner.len()
    }

    /// How many pairs the storage can hold before it must grow.
    pub fn capacity(&self) -> (c: usize)
        ensures
            c >= self@.len(),
    {
        vec_capacity(&self.inner)
    }

    /// Removes every pair.
    pub fn clear(&mut self)
        ensures
            final(self)@ == Seq::<(K, V)>::empty(),
    {
        self.inner.clear()
    }

    /// The whole storage, surrendered as a plain vector of sorted pairs.
    pub fn into_vec(self) -> (v: Vec<(K, V)>)
        ensures
            v@ == self@,
    {
        self.inner
    }

    /// A borrowed cursor over the pairs, in ascending key order.
    pub fn iter(&self) -> (it: Iter<'_, K, V>)
        ensures
            it.wf(),
            it@ == self@,
    {
        Iter::over_slice(self.inner.as_slice())
    }

    /// A borrowed cursor over the keys, in ascending order.
    pub fn keys(&self) -> (it: Keys<'_, K, V>)
        ensures
            it.wf(),
            it@ == self@,
    {
        Keys::over_slice(self.inner.as_slice())
    }

    /// A borrowed cursor over the values, in ascending key order.
    pub fn values(&self) -> (it: Values<'_, K, V>)
        ensures
            it.wf(),
            it@ == self@,
    {
        Values::over_slice(self.inner.as_slice())
    }

    /// Consumes the map into an owning cursor over its pairs.
    pub fn into_iter(self) -> (it: IntoIter<K, V>)
        ensures
            it@ == self@,
    {
        IntoIter::over_vec(self.inner)
    }

    /// Consumes the map into an owning cursor over its keys.
    pub fn into_keys(self) -> (it: IntoKeys<K, V>)
        ensures
            it@ == self@,
    {
        IntoKeys::over_vec(self.inner)
    }

    /// Consumes the map into an owning cursor over its values.
    pub fn into_values(self) -> (it: IntoValues<K, V>)
        ensures
            it@ == self@,
    {
        IntoValues::over_vec(self.inner)
    }

    /// Empties the map, handing its pairs back as an owning cursor.
    pub fn drain(&mut self) -> (d: Drain<K, V>)
        ensures
            final(self)@ == Seq::<(K, V)>::empty(),
            d@ == old(self)@,
    {
        let mut taken: Vec<(K, V)> = Vec::new();
        core::mem::swap(&mut self.inner, &mut taken);
        IntoIter::over_vec(taken)
    }
}

impl<K: OrdKey, V> BinaryMap<K, V> {
    /// Binary search for the key's lower bound: the first slot whose key is
    /// at or above `key` in the order.
    fn search(&self, key: &K) -> (r: usize)
        requires
            self.wf(),
        ensures
            r as int == lower_bound(self@, *key),
    {
        let mut lo: usize = 0;
        let mut hi: usize = self.inner.len();
        while lo < hi
            invariant
                self.wf(),
                lo <= hi <= self@.len(),
                forall|i: int| 0 <= i < lo ==> !key.le(&self@[i].0),
                forall|i: int| hi <= i < self@.len() ==> key.le(&self@[i].0),
            decreases hi - lo,
        {
            let mid = lo + (hi - lo) / 2;
            if key.le_key(&self.inner[mid].0) {
                proof {
                    assert forall|i: int| mid <= i < self@.len() implies key.le(&self@[i].0) by {
                        if i > mid {
                            K::le_trans(key, &self@[mid as int].0, &self@[i].0);
                        }
                    }
                }
                hi = mid;
            } else {
                proof {
                    assert forall|i: int| 0 <= i <= mid implies !key.le(&self@[i].0) by {
                        if i < mid && key.le(&self@[i].0) {
                            K::le_trans(key, &self@[i].0, &self@[mid as int].0);
                        }
                    }
                }
                lo = mid + 1;
            }
        }
        proof {
            lemma_lower_bound_is(self@, *key, lo as int);
        }
        lo
    }

    /// Whether some pair carries `key`.
    pub fn contains_key(&self, key: &K) -> (r: bool)
        requires
            self.wf(),
        ensures
            r == has_key(self@, key@),
    {
        proof {
            lemma_lower_bound_finds(self@, *key);
        }
        let i = self.search(key);
        i < self.inner.len() && self.inner[i].0.eq_key(key)
    }

    /// Looks up the value stored for `key` by binary search.
    pub fn get(&self, key: &K) -> (r: Option<&V>)
        requires
            self.wf(),
        ensures
            r is Some <==> has_key(self@, key@),
            match r {
                Some(v) => spec_get(self@, key@) == Some(*v),
                None => !has_key(self@, key@),
            },
    {
        proof {
            lemma_lower_bound_finds(self@, *key);
            lemma_find_key(self@, key@);
        }
        let i = self.search(key);
        if i < self.inner.len() {
            let p = &self.inner[i];
            if p.0.eq_key(key) {
                return Some(&p.1);
            }
        }
        None
    }

    /// Looks up the stored pair for `key`, handing back the stored key too.
    pub fn get_key_value(&self, key: &K) -> (r: Option<(&K, &V)>)
        requires
            self.wf(),
        ensures
            match r {
                Some((k, v)) => {
                    &&& has_key(self@, key@)
                    &&& find_key(self@, key@) >= 0
                    &&& *k == self@[find_key(self@, key@)].0
                    &&& spec_get(self@, key@) == Some(*v)
                },
                None => !has_key(self@, key@),
            },
    {
        proof {
            lemma_lower_bound_finds(self@, *key);
            lemma_find_key(self@, key@);
        }
        let i = self.search(key);
        if i < self.inner.len() {
            let p = &self.inner[i];
            if p.0.eq_key(key) {
                return Some((&p.0, &p.1));
            }
        }
        None
    }

    /// Looks up the value stored for `key` and borrows it mutably.
    pub fn get_mut(&mut self, key: &K) -> (r: Option<&mut V>)
        requires
            old(self).wf(),
        ensures
            r is Some <==> has_key(old(self)@, key@),
            match r {
                Some(v) => {
                    &&& find_key(old(self)@, key@) >= 0
                    &&& *v == old(self)@[find_key(old(self)@, key@)].1
                    &&& final(self)@ == old(self)@.update(
                        find_key(old(self)@, key@),
                        (old(self)@[find_key(old(self)@, key@)].0, *final(v)),
                    )
                },
                None => {
                    &&& !has_key(old(self)@, key@)
                    &&& final(self)@ == old(self)@
                },
            },
    {
        proof {
            lemma_lower_bound_finds(self@, *key);
            lemma_find_key(self@, key@);
        }
        let i = self.search(key);
        if i < self.inner.len() {
            if self.inner[i].0.eq_key(key) {
                return Some(&mut self.inner[i].1);
            }
        }
        None
    }

    /// The value stored for `key`; the caller must know the key is present.
    pub fn index(&self, key: &K) -> (v: &V)
        requires
            self.wf(),
            has_key(self@, key@),
        ensures
            spec_get(self@, key@) == Some(*v),
    {
        let r = self.get(key);
        match r {
            Some(v) => v,
            None => unreached(),
        }
    }

    /// Removes the pair carrying `key`, closing the gap by a shift, so the
    /// order of the remaining pairs is preserved.
    pub fn remove_entry(&mut self, key: &K) -> (r: Option<(K, V)>)
        requires
            old(self).wf(),
        ensures
            final(self).wf(),
            match r {
                Some(p) => {
                    &&& find_key(old(self)@, key@) >= 0
                    &&& p == old(self)@[find_key(old(self)@, key@)]
                    &&& p.0@ == key@
                    &&& final(self)@ == old(self)@.remove(find_key(old(self)@, key@))
                    &&& !has_key(final(self)@, key@)
                },
                None => {
                    &&& !has_key(old(self)@, key@)
                    &&& final(self)@ == old(self)@
                },
            },
    {
        proof {
            lemma_lower_bound_finds(self@, *key);
            lemma_find_key(self@, key@);
        }
        let i = self.search(key);
        if i < self.inner.len() {
            if self.inner[i].0.eq_key(key) {
                proof {
                    lemma_remove_keeps(self@, i as int);
                    lemma_remove_no_key(self@, i as int);
                }
                let p = self.inner.remove(i);
                return Some(p);
            }
        }
        None
    }

    /// Removes the pair carrying `key`, handing back its value.
    pub fn remove(&mut self, key: &K) -> (r: Option<V>)
        requires
            old(self).wf(),
        ensures
            final(self).wf(),
            match r {
                Some(v) => {
                    &&& find_key(old(self)@, key@) >= 0
                    &&& v == old(self)@[find_key(old(self)@, key@)].1
                    &&& final(self)@ == old(self)@.remove(find_key(old(self)@, key@))
                    &&& !has_key(final(self)@, key@)
                },
                None => {
                    &&& !has_key(old(self)@, key@)
                    &&& final(self)@ == old(self)@
                },
            },
    {
        match self.remove_entry(key) {
            Some(p) => Some(p.1),
            None => None,
        }
    }

    /// Locates `key` with one binary search and hands back a handle that can
    /// occupy or fill its slot without searching again.
    pub fn entry<'a>(&'a mut self, key: K) -> (e: Entry<'a, K, V>)
        requires
            old(self).wf(),
        ensures
            match e {
                Entry::Occupied(o) => {
                    &&& *o.parent == *old(self)
                    &&& o.idx < old(self)@.len()
                    &&& o.idx as int == find_key(old(self)@, key@)
                    &&& old(self)@[o.idx as int].0@ == key@
                    &&& *final(self) == *final(o.parent)
                },
                Entry::Vacant(va) => {
                    &&& *va.parent == *old(self)
                    &&& va.key == key
                    &&& va.idx as int == lower_bound(old(self)@, key)
                    &&& !has_key(old(self)@, key@)
                    &&& *final(self) == *final(va.parent)
                },
            },
    {
        proof {
            lemma_lower_bound_finds(self@, key);
        }
        let i = self.search(&key);
        if i < self.inner.len() && self.inner[i].0.eq_key(&key) {
            Entry::Occupied(OcuppiedEntry { parent: self, idx: i })
        } else {
            Entry::Vacant(VacantEntry { parent: self, key, idx: i })
        }
    }

    /// Stores `value` for `key`: replaces the value of the pair already
    /// carrying the key, or else shifts a gap open at the key's sorted
    /// position and places the new pair there.
    pub fn insert(&mut self, key: K, value: V) -> (r: Option<V>)
        requires
            old(self).wf(),
        ensures
            final(self).wf(),
            final(self)@ == bin_insert_model(old(self)@, key, value),
            r == spec_get(old(self)@, key@),
            r is Some <==> has_key(old(self)@, key@),
            spec_get(final(self)@, key@) == Some(value),
            final(self)@.len() == if has_key(old(self)@, key@) {
                old(self)@.len()
            } else {
                old(self)@.len() + 1
            },
    {
        proof {
            lemma_lower_bound_finds(self@, key);
            lemma_lower_bound(self@, key);
            lemma_find_key(self@, key@);
            crate::pairs::lemma_bin_insert_get_same(self@, key, value);
        }
        match self.entry(key) {
            Entry::Occupied(o) => {
                proof {
                    lemma_update_value(o.parent@, o.idx as int, value);
                    lemma_update_value_sorted(o.parent@, o.idx as int, value);
                }
                Some(o.insert(value))
            },
            Entry::Vacant(va) => {
                proof {
                    lemma_sorted_insert(va.parent@, va.key, value);
                }
                va.insert(value);
                None
            },
        }
    }

    /// Builds an ordered map out of an arbitrary run of pairs by inserting
    /// them one by one: the result comes out sorted whatever the input
    /// order, and of pairs sharing a key the last one wins.
    pub fn from_vec(pairs: Vec<(K, V)>) -> (m: Self)
        ensures
            m.wf(),
            m@ == crate::pairs::bin_insert_all(Seq::<(K, V)>::empty(), pairs@),
    {
        let ghost orig = pairs@;
        let mut rest = pairs;
        let mut m = BinaryMap::new();
        proof {
            assert(orig.take(0) =~= Seq::<(K, V)>::empty());
        }
        let mut j_exec: usize = 0;
        let n = rest.len();
        while j_exec < n
            invariant
                n == orig.len(),
                0 <= j_exec <= n,
                rest@ == orig.skip(j_exec as int),
                m.wf(),
                m@ == crate::pairs::bin_insert_all(Seq::<(K, V)>::empty(), orig.take(
                    j_exec as int,
                )),
            decreases n - j_exec,
        {
            let p = rest.remove(0);
            proof {
                assert(p == orig[j_exec as int]);
                assert(rest@ =~= orig.skip(j_exec as int + 1));
                assert(orig.take(j_exec as int + 1).drop_last() =~= orig.take(j_exec as int));
                assert(orig.take(j_exec as int + 1).last() == orig[j_exec as int]);
            }
            m.insert(p.0, p.1);
            j_exec += 1;
        }
        proof {
            assert(orig.take(n as int) =~= orig);
        }
        m
    }

    /// Prepends a pair whose key lies strictly below the current minimum;
    /// hands the pair back unchanged when that precondition fails, leaving
    /// the map untouched.
    pub fn insert_front(&mut self, key: K, value: V) -> (r: Result<(), (K, V)>)
        requires
            old(self).wf(),
        ensures
            final(self).wf(),
            match r {
                Ok(()) => {
                    &&& old(self)@.len() == 0 || (key.le(&old(self)@[0].0) && key@
                        != old(self)@[0].0@)
                    &&& final(self)@ == old(self)@.insert(0, (key, value))
                },
                Err(p) => {
                    &&& p == (key, value)
                    &&& old(self)@.len() > 0
                    &&& !(key.le(&old(self)@[0].0) && key@ != old(self)@[0].0@)
                    &&& final(self)@ == old(self)@
                },
            },
    {
        if self.inner.len() == 0 {
            proof {
                lemma_prepend(self@, key, value);
            }
            self.inner.insert(0, (key, value));
            Ok(())
        } else {
            let ok = key.le_key(&self.inner[0].0) && !key.eq_key(&self.inner[0].0);
            if ok {
                proof {
                    lemma_prepend(self@, key, value);
                }
                self.inner.insert(0, (key, value));
                Ok(())
            } else {
                Err((key, value))
            }
        }
    }

    /// Appends a pair whose key lies strictly above the current maximum;
    /// hands the pair back unchanged when that precondition fails, leaving
    /// the map untouched.
    pub fn insert_back(&mut self, key: K, value: V) -> (r: Result<(), (K, V)>)
        requires
            old(self).wf(),
        ensures
            final(self).wf(),
            match r {
                Ok(()) => {
                    &&& old(self)@.len() == 0 || (old(self)@.last().0.le(&key)
                        && old(self)@.last().0@ != key@)
                    &&& final(self)@ == old(self)@.push((key, value))
                },
                Err(p) => {
                    &&& p == (key, value)
                    &&& old(self)@.len() > 0
                    &&& !(old(self)@.last().0.le(&key) && old(self)@.last().0@ != key@)
                    &&& final(self)@ == old(self)@
                },
            },
    {
        let n = self.inner.len();
        if n == 0 {
            proof {
                lemma_append_back(self@, key, value);
            }
            self.inner.push((key, value));
            Ok(())
        } else {
            let last = &self.inner[n - 1];
            let ok = last.0.le_key(&key) && !last.0.eq_key(&key);
            if ok {
                proof {
                    lemma_append_back(self@, key, value);
                }
                self.inner.push((key, value));
                Ok(())
            } else {
                Err((key, value))
            }
        }
    }

    /// Prepends a pair without checking the order; the caller must know the
    /// key lies strictly below the current minimum.
    pub fn insert_front_unchecked(&mut self, key: K, value: V)
        requires
            old(self).wf(),
            old(self)@.len() > 0 ==> key.le(&old(self)@[0].0) && key@ != old(self)@[0].0@,
        ensures
            final(self).wf(),
            final(self)@ == old(self)@.insert(0, (key, value)),
    {
        proof {
            lemma_prepend(self@, key, value);
        }
        self.inner.insert(0, (key, value));
    }

    /// Appends a pair without checking the order; the caller must know the
    /// key lies strictly above the current maximum.
    pub fn insert_back_unchecked(&mut self, key: K, value: V)
        requires
            old(self).wf(),
            old(self)@.len() > 0 ==> old(self)@.last().0.le(&key) && old(self)@.last().0@
                != key@,
        ensures
            final(self).wf(),
            final(self)@ == old(self)@.push((key, value)),
    {
        proof {
            lemma_append_back(self@, key, value);
        }
        self.inner.push((key, value));
    }
}

/// The outcome of locating a key: a handle on the slot that carries it, or
/// a handle holding the key and its sorted insertion position.
pub enum Entry<'a, K, V> {
    Occupied(OcuppiedEntry<'a, K, V>),
    Vacant(VacantEntry<'a, K, V>),
}

/// A handle on the slot of an existing pair, valid while the borrow lasts.
pub struct OcuppiedEntry<'a, K, V> {
    pub parent: &'a mut BinaryMap<K, V>,
    pub idx: usize,
}

/// A handle holding a key that is not in the map together with the position
/// its pair belongs at, ready to insert there without a second search.
pub struct VacantEntry<'a, K, V> {
    pub parent: &'a mut BinaryMap<K, V>,
    pub idx: usize,
    pub key: K,
}

impl<'a, K, V> OcuppiedEntry<'a, K, V> {
    /// The key of the located pair.
    pub fn key(&self) -> (k: &K)
        requires
            self.idx < self.parent@.len(),
        ensures
            *k == old(self.parent)@[self.idx as int].0,
    {
        &self.parent.inner[self.idx].0
    }

    /// Borrows the located value.
    pub fn get(&self) -> (v: &V)
        requires
            self.idx < self.parent@.len(),
        ensures
            *v == old(self.parent)@[self.idx as int].1,
    {
        &self.parent.inner[self.idx].1
    }

    /// Surrenders the handle for a mutable borrow of the located value that
    /// lives as long as the borrow of the map itself.
    pub fn into_mut(self) -> (v: &'a mut V)
        requires
            self.idx < self.parent@.len(),
        ensures
            *v == old(self.parent)@[self.idx as int].1,
            final(self.parent)@ == old(self.parent)@.update(
                self.idx as int,
                (old(self.parent)@[self.idx as int].0, *final(v)),
            ),
    {
        let idx = self.idx;
        &mut self.parent.inner[idx].1
    }

    /// Replaces the located value, handing the previous one back.
    pub fn insert(self, value: V) -> (r: V)
        requires
            self.idx < self.parent@.len(),
        ensures
            r == old(self.parent)@[self.idx as int].1,
            final(self.parent)@ == old(self.parent)@.update(
                self.idx as int,
                (old(self.parent)@[self.idx as int].0, value),
            ),
    {
        let idx = self.idx;
        let mut taken = value;
        core::mem::swap(&mut self.parent.inner[idx].1, &mut taken);
        taken
    }

    /// Evicts the located pair by a shift, handing the whole pair back.
    pub fn remove_entry(self) -> (p: (K, V))
        requires
            self.idx < self.parent@.len(),
        ensures
            p == old(self.parent)@[self.idx as int],
            final(self.parent)@ == old(self.parent)@.remove(self.idx as int),
    {
        let idx = self.idx;
        self.parent.inner.remove(idx)
    }

    /// Evicts the located pair by a shift, handing its value back.
    pub fn remove(self) -> (v: V)
        requires
            self.idx < self.parent@.len(),
        ensures
            v == old(self.parent)@[self.idx as int].1,
            final(self.parent)@ == old(self.parent)@.remove(self.idx as int),
    {
        let (_, v) = self.remove_entry();
        v
    }
}

impl<'a, K, V> VacantEntry<'a, K, V> {
    /// The key the handle was created for.
    pub fn key(&self) -> (k: &K)
        ensures
            *k == self.key,
    {
        &self.key
    }

    /// Abandons the insertion, handing the key back.
    pub fn into_key(self) -> (k: K)
        ensures
            k == self.key,
    {
        self.key
    }

    /// Commits the insertion: shifts a gap open at the remembered position,
    /// places the pair there, and borrows the freshly stored value mutably.
    pub fn insert(self, value: V) -> (v: &'a mut V)
        requires
            self.idx <= self.parent@.len(),
        ensures
            *v == value,
            final(self.parent)@ == old(self.parent)@.insert(
                self.idx as int,
                (self.key, *final(v)),
            ),
    {
        let p = self.parent;
        let idx = self.idx;
        p.inner.insert(idx, (self.key, value));
        &mut p.inner[idx].1
    }
}

} // verus!
