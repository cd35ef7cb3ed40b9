//! The unordered array map: linear-scan lookup, insertion at the end,
//! constant-time removal by swapping with the last slot.

use vstd::prelude::*;
use crate::key::EqKey;
use crate::pairs::{
    distinct_keys, find_key, has_key, lemma_find_key, lemma_find_key_is, lemma_push_distinct,
    lemma_swap_remove_distinct, lemma_swap_remove_no_key, lemma_update_value, spec_get,
    vec_insert_model,
};

verus! {

/// Relies on `Vec::capacity`: how many elements the vector can hold without
/// reallocating, never less than the current length.
#[verifier::external_body]
pub(crate) fn vec_capacity<T>(v: &Vec<T>) -> (c: usize)
    ensures
        c >= v@.len(),
{
    v.capacity()
}

/// Relies on `Vec::into_boxed_slice`: hands the same elements over to a
/// fixed-length allocation, dropping any excess capacity.
#[verifier::external_body]
pub(crate) fn vec_into_box<T>(v: Vec<T>) -> (b: Box<[T]>)
    ensures
        b@ == v@,
{
    v.into_boxed_slice()
}

/// An unordered map over a contiguous sequence of key-value pairs.
///
/// Lookup scans from the front; insertion of a fresh key appends; removal
/// swaps the removed slot with the last one, so it does not preserve the
/// relative order of the remaining pairs.
#[derive(Clone, PartialEq, Eq, Hash)]
pub struct VecMap<K, V> {
    inner: Vec<(K, V)>,
}

impl<K, V> Default for VecMap<K, V> {
    fn default() -> (m: Self)
        ensures
            m@ == Seq::<(K, V)>::empty(),
    {
        Self::new()
    }
}

impl<K, V> View for VecMap<K, V> {
    type V = Seq<(K, V)>;

    closed spec fn view(&self) -> Seq<(K, V)> {
        self.inner@
    }
}

impl<K: View, V> VecMap<K, V> {
    /// The container invariant: no two pairs share a key.
    pub open spec fn wf(&self) -> bool {
        distinct_keys(self@)
    }
}

impl<K, V> VecMap<K, V> {
    /// An empty map.
    pub fn new() -> (m: Self)
        ensures
            m@ == Seq::<(K, V)>::empty(),
    {
        VecMap { inner: Vec::new() }
    }

    /// An empty map whose storage is pre-sized for `capacity` pairs.
    pub fn with_capacity(capacity: usize) -> (m: Self)
        ensures
            m@ == Seq::<(K, V)>::empty(),
    {
        VecMap { inner: Vec::with_capacity(capacity) }
    }

    /// The number of pairs held.
    pub fn len(&self) -> (n: usize)
        ensures
            n == self@.len(),
    {
        self.inner.len()
    }

    /// Whether no pair is held.
    pub fn is_empty(&self) -> (r: bool)
        ensures
            r == (self@.len() == 0),
    {
        self.inner.is_empty()
    }

    /// How many pairs the storage can hold before it must grow.
    pub fn capacity(&self) -> (c: usize)
        ensures
            c >= self@.len(),
    {
        vec_capacity(&self.inner)
    }

    /// Removes every pair.
    pub fn clear(&mut self)
        ensures
            final(self)@ == Seq::<(K, V)>::empty(),
    {
        self.inner.clear()
    }

    /// The whole storage, surrendered as a plain vector of pairs.
    pub fn into_vec(self) -> (v: Vec<(K, V)>)
        ensures
            v@ == self@,
    {
        self.inner
    }

    /// The whole storage, frozen into an exact-size fixed allocation.
    pub fn into_box(self) -> (b: Box<[(K, V)]>)
        ensures
            b@ == self@,
    {
        vec_into_box(self.inner)
    }
}

impl<K: View, V> VecMap<K, V> {
    /// Adopts a vector of pairs as a map without copying.
    ///
    /// The caller vouches that no two pairs share a key; nothing is checked
    /// at run time.
    pub fn from_vec_unchecked(vec: Vec<(K, V)>) -> (m: Self)
        requires
            distinct_keys(vec@),
        ensures
            m@ == vec@,
            m.wf(),
    {
        VecMap { inner: vec }
    }

    /// Adopts a fixed array of pairs as a map.
    ///
    /// The caller vouches that no two pairs share a key; nothing is checked
    /// at run time.
    pub fn from_box_unchecked(bx: Box<[(K, V)]>) -> (m: Self)
        requires
            distinct_keys(bx@),
        ensures
            m@ == bx@,
            m.wf(),
    {
        VecMap { inner: bx.into_vec() }
    }
}

impl<K: EqKey, V> VecMap<K, V> {
    /// Looks up the value stored for `key` by scanning from the front.
    pub fn get(&self, key: &K) -> (r: Option<&V>)
        ensures
            r is Some <==> has_key(self@, key@),
            match r {
                Some(v) => spec_get(self@, key@) == Some(*v),
                None => !has_key(self@, key@),
            },
    {
        let n = self.inner.len();
        let mut i: usize = 0;
        while i < n
            invariant
                n == self@.len(),
                0 <= i <= n,
                forall|j: int| 0 <= j < i ==> self@[j].0@ != key@,
            decreases n - i,
        {
            let pair = &self.inner[i];
            if pair.0.eq_key(key) {
                proof {
                    lemma_find_key_is(self@, key@, i as int);
                }
                return Some(&pair.1);
            }
            i += 1;
        }
        None
    }

    /// Looks up the stored pair for `key`, handing back the stored key too.
    pub fn get_key_value(&self, key: &K) -> (r: Option<(&K, &V)>)
        ensures
            match r {
                Some((k, v)) => {
                    &&& has_key(self@, key@)
                    &&& find_key(self@, key@) >= 0
                    &&& *k == self@[find_key(self@, key@)].0
                    &&& spec_get(self@, key@) == Some(*v)
                },
                None => !has_key(self@, key@),
            },
    {
        let n = self.inner.len();
        let mut i: usize = 0;
        while i < n
            invariant
                n == self@.len(),
                0 <= i <= n,
                forall|j: int| 0 <= j < i ==> self@[j].0@ != key@,
            decreases n - i,
        {
            let pair = &self.inner[i];
            if pair.0.eq_key(key) {
                proof {
                    lemma_find_key_is(self@, key@, i as int);
                }
                return Some((&pair.0, &pair.1));
            }
            i += 1;
        }
        None
    }

    /// Whether some pair carries `key`.
    pub fn contains_key(&self, key: &K) -> (r: bool)
        ensures
            r == has_key(self@, key@),
    {
        let n = self.inner.len();
        let mut i: usize = 0;
        while i < n
            invariant
                n == self@.len(),
                0 <= i <= n,
                forall|j: int| 0 <= j < i ==> self@[j].0@ != key@,
            decreases n - i,
        {
            if self.inner[i].0.eq_key(key) {
                return true;
            }
            i += 1;
        }
        false
    }

    /// The value stored for `key`; the caller must know the key is present.
    pub fn index(&self, key: &K) -> (v: &V)
        requires
            has_key(self@, key@),
        ensures
            spec_get(self@, key@) == Some(*v),
    {
        proof {
            lemma_find_key(self@, key@);
        }
        let r = self.get(key);
        match r {
            Some(v) => v,
            None => unreached(),
        }
    }

    /// Removes the pair carrying `key`, handing back the whole pair.
    ///
    /// The former last pair moves into the vacated slot, so the relative
    /// order of the remaining pairs is not preserved.
    pub fn remove_entry(&mut self, key: &K) -> (r: Option<(K, V)>)
        requires
            old(self).wf(),
        ensures
            final(self).wf(),
            match r {
                Some(p) => {
                    &&& find_key(old(self)@, key@) >= 0
                    &&& p == old(self)@[find_key(old(self)@, key@)]
                    &&& p.0@ == key@
                    &&& final(self)@ == old(self)@.update(
                        find_key(old(self)@, key@),
                        old(self)@.last(),
                    ).drop_last()
                    &&& !has_key(final(self)@, key@)
                },
                None => {
                    &&& !has_key(old(self)@, key@)
                    &&& final(self)@ == old(self)@
                },
            },
    {
        let n = self.inner.len();
        let mut i: usize = 0;
        while i < n
            invariant
                n == self@.len(),
                *self == *old(self),
                old(self).wf(),
                0 <= i <= n,
                forall|j: int| 0 <= j < i ==> self@[j].0@ != key@,
            decreases n - i,
        {
            if self.inner[i].0.eq_key(key) {
                proof {
                    lemma_find_key_is(self@, key@, i as int);
                    lemma_swap_remove_distinct(self@, i as int);
                    lemma_swap_remove_no_key(self@, i as int);
                }
                let p = self.inner.swap_remove(i);
                return Some(p);
            }
            i += 1;
        }
        None
    }

    /// Looks up the value stored for `key` and borrows it mutably.
    pub fn get_mut(&mut self, key: &K) -> (r: Option<&mut V>)
        ensures
            r is Some <==> has_key(old(self)@, key@),
            match r {
                Some(v) => {
                    &&& find_key(old(self)@, key@) >= 0
                    &&& *v == old(self)@[find_key(old(self)@, key@)].1
                    &&& final(self)@ == old(self)@.update(
                        find_key(old(self)@, key@),
                        (old(self)@[find_key(old(self)@, key@)].0, *final(v)),
                    )
                },
                None => {
                    &&& !has_key(old(self)@, key@)
                    &&& final(self)@ == old(self)@
                },
            },
    {
        let n = self.inner.len();
        let mut i: usize = 0;
        while i < n
            invariant
                n == self@.len(),
                *self == *old(self),
                0 <= i <= n,
                forall|j: int| 0 <= j < i ==> self@[j].0@ != key@,
            decreases n - i,
        {
            if self.inner[i].0.eq_key(key) {
                proof {
                    lemma_find_key_is(self@, key@, i as int);
                }
                return Some(&mut self.inner[i].1);
            }
            i += 1;
        }
        None
    }

    /// Locates `key` with one scan and hands back a handle that can occupy
    /// or fill its slot without searching again.
    pub fn entry<'a>(&'a mut self, key: K) -> (e: Entry<'a, K, V>)
        ensures
            match e {
                Entry::Occupied(o) => {
                    &&& *o.parent == *old(self)
                    &&& o.idx < old(self)@.len()
                    &&& o.idx as int == find_key(old(self)@, key@)
                    &&& old(self)@[o.idx as int].0@ == key@
                    &&& *final(self) == *final(o.parent)
                },
                Entry::Vacant(va) => {
                    &&& *va.parent == *old(self)
                    &&& va.key == key
                    &&& !has_key(old(self)@, key@)
                    &&& *final(self) == *final(va.parent)
                },
            },
    {
        let n = self.inner.len();
        let mut i: usize = 0;
        while i < n
            invariant
                n == self@.len(),
                *self == *old(self),
                0 <= i <= n,
                forall|j: int| 0 <= j < i ==> self@[j].0@ != key@,
            decreases n - i,
        {
            if self.inner[i].0.eq_key(&key) {
                proof {
                    lemma_find_key_is(self@, key@, i as int);
                }
                return Entry::Occupied(OccupiedEntry { parent: self, idx: i });
            }
            i += 1;
        }
        Entry::Vacant(VacantEntry { parent: self, key })
    }

    /// Stores `value` for `key`: replaces the value of the pair already
    /// carrying the key, or else appends a new pair at the end.
    pub fn insert(&mut self, key: K, value: V) -> (r: Option<V>)
        requires
            old(self).wf(),
        ensures
            final(self).wf(),
            final(self)@ == vec_insert_model(old(self)@, key, value),
            r == spec_get(old(self)@, key@),
            r is Some <==> has_key(old(self)@, key@),
            spec_get(final(self)@, key@) == Some(value),
            final(self)@.len() == if has_key(old(self)@, key@) {
                old(self)@.len()
            } else {
                old(self)@.len() + 1
            },
    {
        proof {
            lemma_find_key(self@, key@);
            crate::pairs::lemma_insert_get_same(self@, key, value);
        }
        match self.entry(key) {
            Entry::Occupied(o) => {
                proof {
                    lemma_update_value(o.parent@, o.idx as int, value);
                }
                Some(o.insert(value))
            },
            Entry::Vacant(va) => {
                proof {
                    lemma_push_distinct(va.parent@, va.key, value);
                }
                va.insert(value);
                None
            },
        }
    }

    /// Removes the pair carrying `key`, handing back its value.
    pub fn remove(&mut self, key: &K) -> (r: Option<V>)
        requires
            old(self).wf(),
        ensures
            final(self).wf(),
            match r {
                Some(v) => {
                    &&& find_key(old(self)@, key@) >= 0
                    &&& v == old(self)@[find_key(old(self)@, key@)].1
                    &&& final(self)@ == old(self)@.update(
                        find_key(old(self)@, key@),
                        old(self)@.last(),
                    ).drop_last()
                    &&& !has_key(final(self)@, key@)
                },
                None => {
                    &&& !has_key(old(self)@, key@)
                    &&& final(self)@ == old(self)@
                },
            },
    {
        match self.remove_entry(key) {
            Some(p) => Some(p.1),
            None => None,
        }
    }
}

/// The outcome of locating a key: a handle on the slot that carries it, or
/// a handle holding the key still to be inserted.
pub enum Entry<'a, K, V> {
    Occupied(OccupiedEntry<'a, K, V>),
    Vacant(VacantEntry<'a, K, V>),
}

/// A handle on the slot of an existing pair, valid while the borrow lasts.
pub struct OccupiedEntry<'a, K, V> {
    pub parent: &'a mut VecMap<K, V>,
    pub idx: usize,
}

/// A handle holding a key that is not in the map, ready to append its pair.
pub struct VacantEntry<'a, K, V> {
    pub parent: &'a mut VecMap<K, V>,
    pub key: K,
}

impl<'a, K, V> OccupiedEntry<'a, K, V> {
    /// The key of the located pair.
    pub fn key(&self) -> (k: &K)
        requires
            self.idx < self.parent@.len(),
        ensures
            *k == old(self.parent)@[self.idx as int].0,
    {
        &self.parent.inner[self.idx].0
    }

    /// Borrows the located value.
    pub fn get(&self) -> (v: &V)
        requires
            self.idx < self.parent@.len(),
        ensures
            *v == old(self.parent)@[self.idx as int].1,
    {
        &self.parent.inner[self.idx].1
    }

    /// Surrenders the handle for a mutable borrow of the located value that
    /// lives as long as the borrow of the map itself.
    pub fn into_mut(self) -> (v: &'a mut V)
        requires
            self.idx < self.parent@.len(),
        ensures
            *v == old(self.parent)@[self.idx as int].1,
            final(self.parent)@ == old(self.parent)@.update(
                self.idx as int,
                (old(self.parent)@[self.idx as int].0, *final(v)),
            ),
    {
        let idx = self.idx;
        &mut self.parent.inner[idx].1
    }

    /// Replaces the located value, handing the previous one back.
    pub fn insert(self, value: V) -> (r: V)
        requires
            self.idx < self.parent@.len(),
        ensures
            r == old(self.parent)@[self.idx as int].1,
            final(self.parent)@ == old(self.parent)@.update(
                self.idx as int,
                (old(self.parent)@[self.idx as int].0, value),
            ),
    {
        let idx = self.idx;
        let mut taken = value;
        core::mem::swap(&mut self.parent.inner[idx].1, &mut taken);
        taken
    }

    /// Evicts the located pair by swap-removal, handing the whole pair back.
    pub fn remove_entry(self) -> (p: (K, V))
        requires
            self.idx < self.parent@.len(),
        ensures
            p == old(self.parent)@[self.idx as int],
            final(self.parent)@ == old(self.parent)@.update(
                self.idx as int,
                old(self.parent)@.last(),
            ).drop_last(),
    {
        let idx = self.idx;
        self.parent.inner.swap_remove(idx)
    }

    /// Evicts the located pair by swap-removal, handing its value back.
    pub fn remove(self) -> (v: V)
        requires
            self.idx < self.parent@.len(),
        ensures
            v == old(self.parent)@[self.idx as int].1,
            final(self.parent)@ == old(self.parent)@.update(
                self.idx as int,
                old(self.parent)@.last(),
            ).drop_last(),
    {
        let (_, v) = self.remove_entry();
        v
    }
}

impl<'a, K, V> VacantEntry<'a, K, V> {
    /// The key the handle was created for.
    pub fn key(&self) -> (k: &K)
        ensures
            *k == self.key,
    {
        &self.key
    }

    /// Abandons the insertion, handing the key back.
    pub fn into_key(self) -> (k: K)
        ensures
            k == self.key,
    {
        self.key
    }

    /// Commits the insertion: appends the pair at the end and borrows the
    /// freshly stored value mutably.
    pub fn insert(self, value: V) -> (v: &'a mut V)
        ensures
            *v == value,
            final(self.parent)@ == old(self.parent)@.push((self.key, *final(v))),
    {
        let p = self.parent;
        p.inner.push((self.key, value));
        let n = p.inner.len();
        &mut p.inner[n - 1].1
    }
}

/// A borrowed cursor over a run of pairs, consumable from either end.
pub struct Iter<'a, K, V> {
    elems: &'a [(K, V)],
    pos: usize,
    end: usize,
}

impl<'a, K, V> View for Iter<'a, K, V> {
    type V = Seq<(K, V)>;

    closed spec fn view(&self) -> Seq<(K, V)> {
        self.elems@.subrange(self.pos as int, self.end as int)
    }
}

impl<'a, K, V> Iter<'a, K, V> {
    /// The cursor's bounds lie within the borrowed run.
    pub closed spec fn wf(&self) -> bool {
        self.pos <= self.end <= self.elems@.len()
    }

    pub(crate) fn over_slice(elems: &'a [(K, V)]) -> (it: Self)
        ensures
            it.wf(),
            it@ == elems@,
    {
        let n = elems.len();
        let it = Iter { elems, pos: 0, end: n };
        proof {
            assert(it@ =~= elems@);
        }
        it
    }

    /// The next pair from the front, if one is left.
    pub fn next(&mut self) -> (r: Option<(&'a K, &'a V)>)
        requires
            old(self).wf(),
        ensures
            final(self).wf(),
            match r {
                Some((k, v)) => {
                    &&& old(self)@.len() > 0
                    &&& *k == old(self)@[0].0
                    &&& *v == old(self)@[0].1
                    &&& final(self)@ == old(self)@.skip(1)
                },
                None => old(self)@.len() == 0 && final(self)@ == old(self)@,
            },
    {
        if self.pos < self.end {
            let elems = self.elems;
            let p = &elems[self.pos];
            self.pos += 1;
            proof {
                assert(self@ =~= old(self)@.skip(1));
            }
            Some((&p.0, &p.1))
        } else {
            None
        }
    }

    /// The next pair from the back, if one is left.
    pub fn next_back(&mut self) -> (r: Option<(&'a K, &'a V)>)
        requires
            old(self).wf(),
        ensures
            final(self).wf(),
            match r {
                Some((k, v)) => {
                    &&& old(self)@.len() > 0
                    &&& *k == old(self)@.last().0
                    &&& *v == old(self)@.last().1
                    &&& final(self)@ == old(self)@.drop_last()
                },
                None => old(self)@.len() == 0 && final(self)@ == old(self)@,
            },
    {
        if self.pos < self.end {
            let elems = self.elems;
            let p = &elems[self.end - 1];
            self.end -= 1;
            proof {
                assert(self@ =~= old(self)@.drop_last());
            }
            Some((&p.0, &p.1))
        } else {
            None
        }
    }

    /// Skips `n` pairs and hands back the one after them; consumes the rest
    /// when fewer are left.
    pub fn nth(&mut self, n: usize) -> (r: Option<(&'a K, &'a V)>)
        requires
            old(self).wf(),
        ensures
            final(self).wf(),
            match r {
                Some((k, v)) => {
                    &&& n < old(self)@.len()
                    &&& *k == old(self)@[n as int].0
                    &&& *v == old(self)@[n as int].1
                    &&& final(self)@ == old(self)@.skip(n as int + 1)
                },
                None => n >= old(self)@.len() && final(self)@.len() == 0,
            },
    {
        if n < self.end - self.pos {
            let elems = self.elems;
            let i = self.pos + n;
            let p = &elems[i];
            self.pos = i + 1;
            proof {
                assert(self@ =~= old(self)@.skip(n as int + 1));
            }
            Some((&p.0, &p.1))
        } else {
            self.pos = self.end;
            None
        }
    }

    /// Skips `n` pairs from the back and hands back the one before them;
    /// consumes the rest when fewer are left.
    pub fn nth_back(&mut self, n: usize) -> (r: Option<(&'a K, &'a V)>)
        requires
            old(self).wf(),
        ensures
            final(self).wf(),
            match r {
                Some((k, v)) => {
                    &&& n < old(self)@.len()
                    &&& *k == old(self)@[old(self)@.len() - 1 - n as int].0
                    &&& *v == old(self)@[old(self)@.len() - 1 - n as int].1
                    &&& final(self)@ == old(self)@.take(old(self)@.len() - 1 - n as int)
                },
                None => n >= old(self)@.len() && final(self)@.len() == 0,
            },
    {
        if n < self.end - self.pos {
            let elems = self.elems;
            let i = self.end - 1 - n;
            let p = &elems[i];
            self.end = i;
            proof {
                assert(self@ =~= old(self)@.take(old(self)@.len() - 1 - n as int));
            }
            Some((&p.0, &p.1))
        } else {
            self.pos = self.end;
            None
        }
    }

    /// How many pairs are left.
    pub fn count(self) -> (n: usize)
        requires
            self.wf(),
        ensures
            n == self@.len(),
    {
        self.end - self.pos
    }

    /// The last remaining pair, if one is left.
    pub fn last(self) -> (r: Option<(&'a K, &'a V)>)
        requires
            self.wf(),
        ensures
            match r {
                Some((k, v)) => self@.len() > 0 && *k == self@.last().0 && *v == self@.last().1,
                None => self@.len() == 0,
            },
    {
        if self.pos < self.end {
            let p = &self.elems[self.end - 1];
            Some((&p.0, &p.1))
        } else {
            None
        }
    }

    /// How many pairs are left, without consuming the cursor.
    pub fn len(&self) -> (n: usize)
        requires
            self.wf(),
        ensures
            n == self@.len(),
    {
        self.end - self.pos
    }

    /// The exact bounds on how many pairs are left.
    pub fn size_hint(&self) -> (r: (usize, Option<usize>))
        requires
            self.wf(),
        ensures
            r.0 == self@.len(),
            r.1 == Some(self@.len() as usize),
    {
        let n = self.end - self.pos;
        (n, Some(n))
    }
}

/// A borrowed cursor over the keys of a run of pairs.
pub struct Keys<'a, K, V>(Iter<'a, K, V>);

impl<'a, K, V> View for Keys<'a, K, V> {
    type V = Seq<(K, V)>;

    closed spec fn view(&self) -> Seq<(K, V)> {
        self.0@
    }
}

impl<'a, K, V> Keys<'a, K, V> {
    pub closed spec fn wf(&self) -> bool {
        self.0.wf()
    }

    pub(crate) fn over_slice(elems: &'a [(K, V)]) -> (it: Self)
        ensures
            it.wf(),
            it@ == elems@,
    {
        Keys(Iter::over_slice(elems))
    }

    /// The next key from the front, if one is left.
    pub fn next(&mut self) -> (r: Option<&'a K>)
        requires
            old(self).wf(),
        ensures
            final(self).wf(),
            match r {
                Some(k) => {
                    &&& old(self)@.len() > 0
                    &&& *k == old(self)@[0].0
                    &&& final(self)@ == old(self)@.skip(1)
                },
                None => old(self)@.len() == 0 && final(self)@ == old(self)@,
            },
    {
        match self.0.next() {
            Some((k, _)) => Some(k),
            None => None,
        }
    }

    /// The next key from the back, if one is left.
    pub fn next_back(&mut self) -> (r: Option<&'a K>)
        requires
            old(self).wf(),
        ensures
            final(self).wf(),
            match r {
                Some(k) => {
                    &&& old(self)@.len() > 0
                    &&& *k == old(self)@.last().0
                    &&& final(self)@ == old(self)@.drop_last()
                },
                None => old(self)@.len() == 0 && final(self)@ == old(self)@,
            },
    {
        match self.0.next_back() {
            Some((k, _)) => Some(k),
            None => None,
        }
    }

    /// Skips `n` keys and hands back the one after them.
    pub fn nth(&mut self, n: usize) -> (r: Option<&'a K>)
        requires
            old(self).wf(),
        ensures
            final(self).wf(),
            match r {
                Some(k) => {
                    &&& n < old(self)@.len()
                    &&& *k == old(self)@[n as int].0
                    &&& final(self)@ == old(self)@.skip(n as int + 1)
                },
                None => n >= old(self)@.len() && final(self)@.len() == 0,
            },
    {
        match self.0.nth(n) {
            Some((k, _)) => Some(k),
            None => None,
        }
    }

    /// How many keys are left.
    pub fn count(self) -> (n: usize)
        requires
            self.wf(),
        ensures
            n == self@.len(),
    {
        self.0.count()
    }

    /// The last remaining key, if one is left.
    pub fn last(self) -> (r: Option<&'a K>)
        requires
            self.wf(),
        ensures
            match r {
                Some(k) => self@.len() > 0 && *k == self@.last().0,
                None => self@.len() == 0,
            },
    {
        match self.0.last() {
            Some((k, _)) => Some(k),
            None => None,
        }
    }

    /// How many keys are left, without consuming the cursor.
    pub fn len(&self) -> (n: usize)
        requires
            self.wf(),
        ensures
            n == self@.len(),
    {
        self.0.len()
    }
}

/// A borrowed cursor over the values of a run of pairs.
pub struct Values<'a, K, V>(Iter<'a, K, V>);

impl<'a, K, V> View for Values<'a, K, V> {
    type V = Seq<(K, V)>;

    closed spec fn view(&self) -> Seq<(K, V)> {
        self.0@
    }
}

impl<'a, K, V> Values<'a, K, V> {
    pub closed spec fn wf(&self) -> bool {
        self.0.wf()
    }

    pub(crate) fn over_slice(elems: &'a [(K, V)]) -> (it: Self)
        ensures
            it.wf(),
            it@ == elems@,
    {
        Values(Iter::over_slice(elems))
    }

    /// The next value from the front, if one is left.
    pub fn next(&mut self) -> (r: Option<&'a V>)
        requires
            old(self).wf(),
        ensures
            final(self).wf(),
            match r {
                Some(v) => {
                    &&& old(self)@.len() > 0
                    &&& *v == old(self)@[0].1
                    &&& final(self)@ == old(self)@.skip(1)
                },
                None => old(self)@.len() == 0 && final(self)@ == old(self)@,
            },
    {
        match self.0.next() {
            Some((_, v)) => Some(v),
            None => None,
        }
    }

    /// The next value from the back, if one is left.
    pub fn next_back(&mut self) -> (r: Option<&'a V>)
        requires
            old(self).wf(),
        ensures
            final(self).wf(),
            match r {
                Some(v) => {
                    &&& old(self)@.len() > 0
                    &&& *v == old(self)@.last().1
                    &&& final(self)@ == old(self)@.drop_last()
                },
                None => old(self)@.len() == 0 && final(self)@ == old(self)@,
            },
    {
        match self.0.next_back() {
            Some((_, v)) => Some(v),
            None => None,
        }
    }

    /// Skips `n` values and hands back the one after them.
    pub fn nth(&mut self, n: usize) -> (r: Option<&'a V>)
        requires
            old(self).wf(),
        ensures
            final(self).wf(),
            match r {
                Some(v) => {
                    &&& n < old(self)@.len()
                    &&& *v == old(self)@[n as int].1
                    &&& final(self)@ == old(self)@.skip(n as int + 1)
                },
                None => n >= old(self)@.len() && final(self)@.len() == 0,
            },
    {
        match self.0.nth(n) {
            Some((_, v)) => Some(v),
            None => None,
        }
    }

    /// How many values are left.
    pub fn count(self) -> (n: usize)
        requires
            self.wf(),
        ensures
            n == self@.len(),
    {
        self.0.count()
    }

    /// The last remaining value, if one is left.
    pub fn last(self) -> (r: Option<&'a V>)
        requires
            self.wf(),
        ensures
            match r {
                Some(v) => self@.len() > 0 && *v == self@.last().1,
                None => self@.len() == 0,
            },
    {
        match self.0.last() {
            Some((_, v)) => Some(v),
            None => None,
        }
    }

    /// How many values are left, without consuming the cursor.
    pub fn len(&self) -> (n: usize)
        requires
            self.wf(),
        ensures
            n == self@.len(),
    {
        self.0.len()
    }
}

/// An owning cursor over pairs, consumable from either end.
pub struct IntoIter<K, V> {
    rest: Vec<(K, V)>,
}

/// Draining a map hands back the same owning cursor.
pub type Drain<K, V> = IntoIter<K, V>;

impl<K, V> View for IntoIter<K, V> {
    type V = Seq<(K, V)>;

    closed spec fn view(&self) -> Seq<(K, V)> {
        self.rest@
    }
}

impl<K, V> IntoIter<K, V> {
    pub(crate) fn over_vec(rest: Vec<(K, V)>) -> (it: Self)
        ensures
            it@ == rest@,
    {
        IntoIter { rest }
    }

    /// The next pair from the front, if one is left.
    pub fn next(&mut self) -> (r: Option<(K, V)>)
        ensures
            match r {
                Some(p) => {
                    &&& old(self)@.len() > 0
                    &&& p == old(self)@[0]
                    &&& final(self)@ == old(self)@.skip(1)
                },
                None => old(self)@.len() == 0 && final(self)@ == old(self)@,
            },
    {
        if self.rest.len() > 0 {
            let p = self.rest.remove(0);
            proof {
                assert(self@ =~= old(self)@.skip(1));
            }
            Some(p)
        } else {
            None
        }
    }

    /// The next pair from the back, if one is left.
    pub fn next_back(&mut self) -> (r: Option<(K, V)>)
        ensures
            match r {
                Some(p) => {
                    &&& old(self)@.len() > 0
                    &&& p == old(self)@.last()
                    &&& final(self)@ == old(self)@.drop_last()
                },
                None => old(self)@.len() == 0 && final(self)@ == old(self)@,
            },
    {
        let r = self.rest.pop();
        proof {
            if old(self)@.len() > 0 {
                assert(self@ =~= old(self)@.drop_last());
            }
        }
        r
    }

    /// Skips `n` pairs and hands back the one after them; consumes the rest
    /// when fewer are left.
    pub fn nth(&mut self, n: usize) -> (r: Option<(K, V)>)
        ensures
            match r {
                Some(p) => {
                    &&& n < old(self)@.len()
                    &&& p == old(self)@[n as int]
                    &&& final(self)@ == old(self)@.skip(n as int + 1)
                },
                None => n >= old(self)@.len() && final(self)@.len() == 0,
            },
    {
        if n < self.rest.len() {
            let mut j: usize = 0;
            while j < n
                invariant
                    j <= n,
                    n < old(self)@.len(),
                    self@ == old(self)@.skip(j as int),
                decreases n - j,
            {
                self.rest.remove(0);
                proof {
                    assert(self@ =~= old(self)@.skip(j as int + 1));
                }
                j += 1;
            }
            let p = self.rest.remove(0);
            proof {
                assert(self@ =~= old(self)@.skip(n as int + 1));
            }
            Some(p)
        } else {
            self.rest.clear();
            None
        }
    }

    /// How many pairs are left.
    pub fn count(self) -> (n: usize)
        ensures
            n == self@.len(),
    {
        self.rest.len()
    }

    /// The last remaining pair, if one is left.
    pub fn last(self) -> (r: Option<(K, V)>)
        ensures
            match r {
                Some(p) => self@.len() > 0 && p == self@.last(),
                None => self@.len() == 0,
            },
    {
        let mut s = self;
        s.rest.pop()
    }

    /// How many pairs are left, without consuming the cursor.
    pub fn len(&self) -> (n: usize)
        ensures
            n == self@.len(),
    {
        self.rest.len()
    }

    /// The exact bounds on how many pairs are left.
    pub fn size_hint(&self) -> (r: (usize, Option<usize>))
        ensures
            r.0 == self@.len(),
            r.1 == Some(self@.len() as usize),
    {
        let n = self.rest.len();
        (n, Some(n))
    }
}

/// An owning cursor over keys.
pub struct IntoKeys<K, V>(IntoIter<K, V>);

impl<K, V> View for IntoKeys<K, V> {
    type V = Seq<(K, V)>;

    closed spec fn view(&self) -> Seq<(K, V)> {
        self.0@
    }
}

impl<K, V> IntoKeys<K, V> {
    pub(crate) fn over_vec(rest: Vec<(K, V)>) -> (it: Self)
        ensures
            it@ == rest@,
    {
        IntoKeys(IntoIter::over_vec(rest))
    }

    /// The next key from the front, if one is left.
    pub fn next(&mut self) -> (r: Option<K>)
        ensures
            match r {
                Some(k) => {
                    &&& old(self)@.len() > 0
                    &&& k == old(self)@[0].0
                    &&& final(self)@ == old(self)@.skip(1)
                },
                None => old(self)@.len() == 0 && final(self)@ == old(self)@,
            },
    {
        match self.0.next() {
            Some((k, _)) => Some(k),
            None => None,
        }
    }

    /// The next key from the back, if one is left.
    pub fn next_back(&mut self) -> (r: Option<K>)
        ensures
            match r {
                Some(k) => {
                    &&& old(self)@.len() > 0
                    &&& k == old(self)@.last().0
                    &&& final(self)@ == old(self)@.drop_last()
                },
                None => old(self)@.len() == 0 && final(self)@ == old(self)@,
            },
    {
        match self.0.next_back() {
            Some((k, _)) => Some(k),
            None => None,
        }
    }

    /// How many keys are left, without consuming the cursor.
    pub fn len(&self) -> (n: usize)
        ensures
            n == self@.len(),
    {
        self.0.len()
    }
}

/// An owning cursor over values.
pub struct IntoValues<K, V>(IntoIter<K, V>);

impl<K, V> View for IntoValues<K, V> {
    type V = Seq<(K, V)>;

    closed spec fn view(&self) -> Seq<(K, V)> {
        self.0@
    }
}

impl<K, V> IntoValues<K, V> {
    pub(crate) fn over_vec(rest: Vec<(K, V)>) -> (it: Self)
        ensures
            it@ == rest@,
    {
        IntoValues(IntoIter::over_vec(rest))
    }

    /// The next value from the front, if one is left.
    pub fn next(&mut self) -> (r: Option<V>)
        ensures
            match r {
                Some(v) => {
                    &&& old(self)@.len() > 0
                    &&& v == old(self)@[0].1
                    &&& final(self)@ == old(self)@.skip(1)
                },
                None => old(self)@.len() == 0 && final(self)@ == old(self)@,
            },
    {
        match self.0.next() {
            Some((_, v)) => Some(v),
            None => None,
        }
    }

    /// The next value from the back, if one is left.
    pub fn next_back(&mut self) -> (r: Option<V>)
        ensures
            match r {
                Some(v) => {
                    &&& old(self)@.len() > 0
                    &&& v == old(self)@.last().1
                    &&& final(self)@ == old(self)@.drop_last()
                },
                None => old(self)@.len() == 0 && final(self)@ == old(self)@,
            },
    {
        match self.0.next_back() {
            Some((_, v)) => Some(v),
            None => None,
        }
    }

    /// How many values are left, without consuming the cursor.
    pub fn len(&self) -> (n: usize)
        ensures
            n == self@.len(),
    {
        self.0.len()
    }
}

impl<K, V> VecMap<K, V> {
    /// A borrowed cursor over the pairs, in storage order.
    pub fn iter(&self) -> (it: Iter<'_, K, V>)
        ensures
            it.wf(),
            it@ == self@,
    {
        Iter::over_slice(self.inner.as_slice())
    }

    /// A borrowed cursor over the keys, in storage order.
    pub fn keys(&self) -> (it: Keys<'_, K, V>)
        ensures
            it.wf(),
            it@ == self@,
    {
        Keys::over_slice(self.inner.as_slice())
    }

    /// A borrowed cursor over the values, in storage order.
    pub fn values(&self) -> (it: Values<'_, K, V>)
        ensures
            it.wf(),
            it@ == self@,
    {
        Values::over_slice(self.inner.as_slice())
    }

    /// Consumes the map into an owning cursor over its pairs.
    pub fn into_iter(self) -> (it: IntoIter<K, V>)
        ensures
            it@ == self@,
    {
        IntoIter::over_vec(self.inner)
    }

    /// Consumes the map into an owning cursor over its keys.
    pub fn into_keys(self) -> (it: IntoKeys<K, V>)
        ensures
            it@ == self@,
    {
        IntoKeys::over_vec(self.inner)
    }

    /// Consumes the map into an owning cursor over its values.
    pub fn into_values(self) -> (it: IntoValues<K, V>)
        ensures
            it@ == self@,
    {
        IntoValues::over_vec(self.inner)
    }

    /// Empties the map, handing its pairs back as an owning cursor.
    pub fn drain(&mut self) -> (d: Drain<K, V>)
        ensures
            final(self)@ == Seq::<(K, V)>::empty(),
            d@ == old(self)@,
    {
        let mut taken: Vec<(K, V)> = Vec::new();
        core::mem::swap(&mut self.inner, &mut taken);
        IntoIter::over_vec(taken)
    }
}

} // verus!
