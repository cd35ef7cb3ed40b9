//! Key traits: executable comparisons that decide an abstract equality and a
//! total order, which every container contract is stated over.

use vstd::prelude::*;
use vstd::string::StrSliceExecFns;

verus! {

/// A key usable in the unordered containers.
///
/// Two keys count as the same entry exactly when their views are equal;
/// `eq_key` is the executable decision procedure for that equality.
pub trait EqKey: View + Sized {
    /// Decides whether `self` and `other` are the same key.
    fn eq_key(&self, other: &Self) -> (r: bool)
        ensures
            r == (self@ == other@),
    ;
}

/// A key usable in the ordered container: `le` is a total order on keys,
/// compatible with the view equality of `EqKey`, and `le_key` decides it.
pub trait OrdKey: EqKey {
    /// The order the container is sorted by.
    spec fn le(&self, other: &Self) -> bool;

    /// Keys with equal views compare as less-or-equal.
    proof fn le_refl(a: &Self, b: &Self)
        requires
            a@ == b@,
        ensures
            a.le(b),
    ;

    /// Any two keys are comparable.
    proof fn le_total(a: &Self, b: &Self)
        ensures
            a.le(b) || b.le(a),
    ;

    /// The order is transitive.
    proof fn le_trans(a: &Self, b: &Self, c: &Self)
        requires
            a.le(b),
            b.le(c),
        ensures
            a.le(c),
    ;

    /// Keys that compare less-or-equal both ways have equal views.
    proof fn le_antisym(a: &Self, b: &Self)
        requires
            a.le(b),
            b.le(a),
        ensures
            a@ == b@,
    ;

    /// Decides whether `self` comes at or before `other` in the order.
    fn le_key(&self, other: &Self) -> (r: bool)
        ensures
            r == self.le(other),
    ;
}

impl EqKey for u64 {
    fn eq_key(&self, other: &Self) -> (r: bool) {
        *self == *other
    }
}

impl OrdKey for u64 {
    open spec fn le(&self, other: &Self) -> bool {
        *self <= *other
    }

    proof fn le_refl(a: &Self, b: &Self) {
    }

    proof fn le_total(a: &Self, b: &Self) {
    }

    proof fn le_trans(a: &Self, b: &Self, c: &Self) {
    }

    proof fn le_antisym(a: &Self, b: &Self) {
    }

    fn le_key(&self, other: &Self) -> (r: bool) {
        *self <= *other
    }
}

/// Lexicographic order on character sequences, comparing code points.
pub open spec fn chars_le(a: Seq<char>, b: Seq<char>) -> bool
    decreases a.len(),
{
    if a.len() == 0 {
        true
    } else if b.len() == 0 {
        false
    } else if a[0] == b[0] {
        chars_le(a.skip(1), b.skip(1))
    } else {
        a[0] < b[0]
    }
}

/// The lexicographic order is reflexive.
pub proof fn lemma_chars_le_refl(a: Seq<char>)
    ensures
        chars_le(a, a),
    decreases a.len(),
{
    if a.len() > 0 {
        lemma_chars_le_refl(a.skip(1));
    }
}

/// The lexicographic order is total.
pub proof fn lemma_chars_le_total(a: Seq<char>, b: Seq<char>)
    ensures
        chars_le(a, b) || chars_le(b, a),
    decreases a.len(),
{
    if a.len() == 0 {
    } else if b.len() == 0 {
    } else if a[0] == b[0] {
        lemma_chars_le_total(a.skip(1), b.skip(1));
    }
}

/// The lexicographic order is transitive.
pub proof fn lemma_chars_le_trans(a: Seq<char>, b: Seq<char>, c: Seq<char>)
    requires
        chars_le(a, b),
        chars_le(b, c),
    ensures
        chars_le(a, c),
    decreases a.len(),
{
    if a.len() == 0 {
    } else {
        assert(b.len() > 0);
        assert(c.len() > 0);
        if a[0] == b[0] && b[0] == c[0] {
            lemma_chars_le_trans(a.skip(1), b.skip(1), c.skip(1));
        }
    }
}

/// Sequences at or below each other in the lexicographic order are equal.
pub proof fn lemma_chars_le_antisym(a: Seq<char>, b: Seq<char>)
    requires
        chars_le(a, b),
        chars_le(b, a),
    ensures
        a == b,
    decreases a.len(),
{
    if a.len() == 0 {
        assert(b.len() == 0);
        assert(a =~= b);
    } else {
        assert(b.len() > 0);
        assert(a[0] == b[0]);
        lemma_chars_le_antisym(a.skip(1), b.skip(1));
        assert forall|i: int| 0 <= i < a.len() implies a[i] == b[i] by {
            if i > 0 {
                assert(a.skip(1)[i - 1] == a[i]);
                assert(b.skip(1)[i - 1] == b[i]);
            }
        }
        assert(a =~= b);
    }
}

impl EqKey for String {
    fn eq_key(&self, other: &Self) -> (r: bool) {
        self.eq(other)
    }
}

impl OrdKey for String {
    open spec fn le(&self, other: &Self) -> bool {
        chars_le(self@, other@)
    }

    proof fn le_refl(a: &Self, b: &Self) {
        lemma_chars_le_refl(a@);
    }

    proof fn le_total(a: &Self, b: &Self) {
        lemma_chars_le_total(a@, b@);
    }

    proof fn le_trans(a: &Self, b: &Self, c: &Self) {
        lemma_chars_le_trans(a@, b@, c@);
    }

    proof fn le_antisym(a: &Self, b: &Self) {
        lemma_chars_le_antisym(a@, b@);
    }

    fn le_key(&self, other: &Self) -> (r: bool) {
        let a: &str = self.as_str();
        let b: &str = other.as_str();
        let n1 = a.unicode_len();
        let n2 = b.unicode_len();
        let min = if n1 < n2 {
            n1
        } else {
            n2
        };
        let mut i: usize = 0;
        proof {
            assert(a@.skip(0) =~= a@);
            assert(b@.skip(0) =~= b@);
        }
        while i < min
            invariant
                a@ == self@,
                b@ == other@,
                n1 == a@.len(),
                n2 == b@.len(),
                min == if n1 < n2 { n1 } else { n2 },
                0 <= i <= min,
                chars_le(self@, other@) == chars_le(a@.skip(i as int), b@.skip(i as int)),
            decreases min - i,
        {
            let ca = a.get_char(i);
            let cb = b.get_char(i);
            if ca != cb {
                proof {
                    assert(a@.skip(i as int)[0] == ca);
                    assert(b@.skip(i as int)[0] == cb);
                }
                return ca < cb;
            }
            proof {
                assert(a@.skip(i as int)[0] == ca);
                assert(b@.skip(i as int)[0] == cb);
                assert(a@.skip(i as int).skip(1) =~= a@.skip(i as int + 1));
                assert(b@.skip(i as int).skip(1) =~= b@.skip(i as int + 1));
            }
            i += 1;
        }
        proof {
            if n1 <= n2 {
                assert(a@.skip(i as int).len() == 0);
            } else {
                assert(b@.skip(i as int).len() == 0);
                assert(a@.skip(i as int).len() > 0);
            }
        }
        n1 <= n2
    }
}

} // verus!
