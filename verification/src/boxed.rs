//! The fixed map: an exact-size, non-growable snapshot of an unordered map,
//! with the same linear-scan read surface.

use vstd::prelude::*;
use crate::key::EqKey;
use crate::pairs::{distinct_keys, find_key, has_key, lemma_find_key, lemma_find_key_is, spec_get};

verus! {

/// Borrowed cursors are shared with the unordered map.
pub type Iter<'a, K, V> = crate::vec::Iter<'a, K, V>;

pub type Keys<'a, K, V> = crate::vec::Keys<'a, K, V>;

pub type Values<'a, K, V> = crate::vec::Values<'a, K, V>;

/// Owning cursors are shared with the unordered map.
pub type IntoIter<K, V> = crate::vec::IntoIter<K, V>;

pub type IntoKeys<K, V> = crate::vec::IntoKeys<K, V>;

pub type IntoValues<K, V> = crate::vec::IntoValues<K, V>;

/// A map over a fixed-length sequence of key-value pairs.
///
/// Its storage can neither grow nor shrink: there is no insertion and no
/// removal, only lookup, iteration, and whole-container conversion.
#[derive(PartialEq, Eq, Hash)]
pub struct BoxMap<K, V> {
    inner: Box<[(K, V)]>,
}

impl<K, V> Default for BoxMap<K, V> {
    fn default() -> (m: Self)
        ensures
            m@ == Seq::<(K, V)>::empty(),
    {
        BoxMap { inner: crate::vec::vec_into_box(Vec::new()) }
    }
}

impl<K, V> View for BoxMap<K, V> {
    type V = Seq<(K, V)>;

    closed spec fn view(&self) -> Seq<(K, V)> {
        self.inner@
    }
}

impl<K: View, V> BoxMap<K, V> {
    /// The container invariant: no two pairs share a key.
    pub open spec fn wf(&self) -> bool {
        distinct_keys(self@)
    }

    /// Adopts a vector of pairs, frozen to exact size.
    ///
    /// The caller vouches that no two pairs share a key; nothing is checked
    /// at run time.
    pub fn from_vec_unchecked(vec: Vec<(K, V)>) -> (m: Self)
        requires
            distinct_keys(vec@),
        ensures
            m@ == vec@,
            m.wf(),
    {
        BoxMap { inner: crate::vec::vec_into_box(vec) }
    }

    /// Adopts a fixed array of pairs as a map.
    ///
    /// The caller vouches that no two pairs share a key; nothing is checked
    /// at run time.
    pub fn from_box_unchecked(bx: Box<[(K, V)]>) -> (m: Self)
        requires
            distinct_keys(bx@),
        ensures
            m@ == bx@,
            m.wf(),
    {
        BoxMap { inner: bx }
    }
}

impl<K, V> BoxMap<K, V> {
    /// The number of pairs held.
    pub fn len(&self) -> (n: usize)
        ensures
            n == self@.len(),
    {
        self.inner.len()
    }

    /// Whether no pair is held.
    pub fn is_empty(&self) -> (r: bool)
        ensures
            r == (self@.len() == 0),
    {
        self.inner.is_empty()
    }

    /// The whole storage, surrendered as a plain vector of pairs.
    pub fn into_vec(self) -> (v: Vec<(K, V)>)
        ensures
            v@ == self@,
    {
        self.inner.into_vec()
    }

    /// The whole storage, surrendered as the fixed array itself.
    pub fn into_box(self) -> (b: Box<[(K, V)]>)
        ensures
            b@ == self@,
    {
        self.inner
    }

    /// A borrowed cursor over the pairs, in storage order.
    pub fn iter(&self) -> (it: Iter<'_, K, V>)
        ensures
            it.wf(),
            it@ == self@,
    {
        Iter::over_slice(&self.inner)
    }

    /// A borrowed cursor over the keys, in storage order.
    pub fn keys(&self) -> (it: Keys<'_, K, V>)
        ensures
            it.wf(),
            it@ == self@,
    {
        Keys::over_slice(&self.inner)
    }

    /// A borrowed cursor over the values, in storage order.
    pub fn values(&self) -> (it: Values<'_, K, V>)
        ensures
            it.wf(),
            it@ == self@,
    {
        Values::over_slice(&self.inner)
    }

    /// Consumes the map into an owning cursor over its pairs.
    pub fn into_iter(self) -> (it: IntoIter<K, V>)
        ensures
            it@ == self@,
    {
        IntoIter::over_vec(self.inner.into_vec())
    }

    /// Consumes the map into an owning cursor over its keys.
    pub fn into_keys(self) -> (it: IntoKeys<K, V>)
        ensures
            it@ == self@,
    {
        IntoKeys::over_vec(self.inner.into_vec())
    }

    /// Consumes the map into an owning cursor over its values.
    pub fn into_values(self) -> (it: IntoValues<K, V>)
        ensures
            it@ == self@,
    {
        IntoValues::over_vec(self.inner.into_vec())
    }
}

impl<K: EqKey, V> BoxMap<K, V> {
    /// Looks up the value stored for `key` by scanning from the front.
    pub fn get(&self, key: &K) -> (r: Option<&V>)
        ensures
            r is Some <==> has_key(self@, key@),
            match r {
                Some(v) => spec_get(self@, key@) == Some(*v),
                None => !has_key(self@, key@),
            },
    {
        let n = self.inner.len();
        let mut i: usize = 0;
        while i < n
            invariant
                n == self@.len(),
                0 <= i <= n,
                forall|j: int| 0 <= j < i ==> self@[j].0@ != key@,
            decreases n - i,
        {
            let pair = &self.inner[i];
            if pair.0.eq_key(key) {
                proof {
                    lemma_find_key_is(self@, key@, i as int);
                }
                return Some(&pair.1);
            }
            i += 1;
        }
        None
    }

    /// Looks up the stored pair for `key`, handing back the stored key too.
    pub fn get_key_value(&self, key: &K) -> (r: Option<(&K, &V)>)
        ensures
            match r {
                Some((k, v)) => {
                    &&& has_key(self@, key@)
                    &&& find_key(self@, key@) >= 0
                    &&& *k == self@[find_key(self@, key@)].0
                    &&& spec_get(self@, key@) == Some(*v)
                },
                None => !has_key(self@, key@),
            },
    {
        let n = self.inner.len();
        let mut i: usize = 0;
        while i < n
            invariant
                n == self@.len(),
                0 <= i <= n,
                forall|j: int| 0 <= j < i ==> self@[j].0@ != key@,
            decreases n - i,
        {
            let pair = &self.inner[i];
            if pair.0.eq_key(key) {
                proof {
                    lemma_find_key_is(self@, key@, i as int);
                }
                return Some((&pair.0, &pair.1));
            }
            i += 1;
        }
        None
    }

    /// Looks up the value stored for `key` and borrows it mutably.
    pub fn get_mut(&mut self, key: &K) -> (r: Option<&mut V>)
        ensures
            r is Some <==> has_key(old(self)@, key@),
            match r {
                Some(v) => {
                    &&& find_key(old(self)@, key@) >= 0
                    &&& *v == old(self)@[find_key(old(self)@, key@)].1
                    &&& final(self)@ == old(self)@.update(
                        find_key(old(self)@, key@),
                        (old(self)@[find_key(old(self)@, key@)].0, *final(v)),
                    )
                },
                None => {
                    &&& !has_key(old(self)@, key@)
                    &&& final(self)@ == old(self)@
                },
            },
    {
        let n = self.inner.len();
        let mut i: usize = 0;
        while i < n
            invariant
                n == self@.len(),
                *self == *old(self),
                0 <= i <= n,
                forall|j: int| 0 <= j < i ==> self@[j].0@ != key@,
            decreases n - i,
        {
            if self.inner[i].0.eq_key(key) {
                proof {
                    lemma_find_key_is(self@, key@, i as int);
                }
                return Some(&mut self.inner[i].1);
            }
            i += 1;
        }
        None
    }

    /// Whether some pair carries `key`.
    pub fn contains_key(&self, key: &K) -> (r: bool)
        ensures
            r == has_key(self@, key@),
    {
        let n = self.inner.len();
        let mut i: usize = 0;
        while i < n
            invariant
                n == self@.len(),
                0 <= i <= n,
                forall|j: int| 0 <= j < i ==> self@[j].0@ != key@,
            decreases n - i,
        {
            if self.inner[i].0.eq_key(key) {
                return true;
            }
            i += 1;
        }
        false
    }

    /// The value stored for `key`; the caller must know the key is present.
    pub fn index(&self, key: &K) -> (v: &V)
        requires
            has_key(self@, key@),
        ensures
            spec_get(self@, key@) == Some(*v),
    {
        proof {
            lemma_find_key(self@, key@);
        }
        let r = self.get(key);
        match r {
            Some(v) => v,
            None => unreached(),
        }
    }
}

} // verus!
