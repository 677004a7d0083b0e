//! Equality and lexicographic order between views.
//!
//! Views are compared by the elements they show. The stride and the gaps
//! between the visible elements play no part, so views of different strides,
//! and of different element types that can be compared with each other, can
//! be compared.
//!
//! What is said of the results holds for element types whose own comparisons
//! are lawful, that is, whose `eq`, `partial_cmp` and `cmp` return what their
//! specifications say. Of other element types only what does not rest on
//! their comparisons is said.

use crate::view::Stride;
use core::cmp::Ordering;
use vstd::prelude::*;
use vstd::std_specs::cmp::{
    OrdSpec, PartialEqSpec, PartialEqSpecImpl, PartialOrdSpec, PartialOrdSpecImpl,
};

verus! {

/// Two sequences are equal where they are equally long and equal element by
/// element.
pub open spec fn seq_eq<T: PartialEq<U>, U>(a: Seq<T>, b: Seq<U>) -> bool {
    &&& a.len() == b.len()
    &&& forall|i: int| 0 <= i < a.len() ==> #[trigger] a[i].eq_spec(&b[i])
}

/// The length of the shorter of two sequences of lengths `n` and `m`: the
/// number of positions that both have.
pub open spec fn common_len(n: nat, m: nat) -> int {
    if n <= m {
        n as int
    } else {
        m as int
    }
}

/// How two lengths compare.
pub open spec fn len_order(n: nat, m: nat) -> Ordering {
    if n < m {
        Ordering::Less
    } else if n == m {
        Ordering::Equal
    } else {
        Ordering::Greater
    }
}

/// Lexicographic order of `a` and `b` from position `from` on, by the partial
/// order of their elements: the first pair of elements that is not equal
/// decides, also where it cannot be ordered; where one sequence ends before
/// any pair has decided, the lengths decide.
pub open spec fn lex_partial<T: PartialOrd<U>, U>(a: Seq<T>, b: Seq<U>, from: int) -> Option<
    Ordering,
>
    decreases a.len() - from,
{
    if 0 <= from < a.len() && from < b.len() {
        match a[from].partial_cmp_spec(&b[from]) {
            Some(Ordering::Equal) => lex_partial(a, b, from + 1),
            decided => decided,
        }
    } else {
        Some(len_order(a.len(), b.len()))
    }
}

/// Lexicographic order of `a` and `b` from position `from` on, by the total
/// order of their elements: the first pair of elements that is not equal
/// decides; where one sequence ends before any pair has decided, the lengths
/// decide.
pub open spec fn lex_total<T: Ord>(a: Seq<T>, b: Seq<T>, from: int) -> Ordering
    decreases a.len() - from,
{
    if 0 <= from < a.len() && from < b.len() {
        match a[from].cmp_spec(&b[from]) {
            Ordering::Equal => lex_total(a, b, from + 1),
            decided => decided,
        }
    } else {
        len_order(a.len(), b.len())
    }
}

/// The first `upto` pairs of elements are equal in the partial order.
pub open spec fn agree_partial<T: PartialOrd<U>, U>(a: Seq<T>, b: Seq<U>, upto: int) -> bool {
    forall|i: int|
        0 <= i < upto ==> #[trigger] a[i].partial_cmp_spec(&b[i]) == Some(Ordering::Equal)
}

/// The first `upto` pairs of elements are equal in the total order.
pub open spec fn agree_total<T: Ord>(a: Seq<T>, b: Seq<T>, upto: int) -> bool {
    forall|i: int| 0 <= i < upto ==> #[trigger] a[i].cmp_spec(&b[i]) == Ordering::Equal
}

/// Pairs of elements that are equal do not decide: where the first `upto`
/// pairs are equal, the order of the sequences is their order from `upto`
/// on.
pub proof fn lemma_partial_skips_equal<T: PartialOrd<U>, U>(a: Seq<T>, b: Seq<U>, upto: int)
    requires
        0 <= upto <= a.len(),
        upto <= b.len(),
        agree_partial(a, b, upto),
    ensures
        lex_partial(a, b, 0) == lex_partial(a, b, upto),
    decreases upto,
{
    if upto > 0 {
        lemma_partial_skips_equal(a, b, upto - 1);
        assert(a[upto - 1].partial_cmp_spec(&b[upto - 1]) == Some(Ordering::Equal));
    }
}

/// The first pair of elements that is not equal decides the order of the
/// sequences, whatever follows it and however long the sequences are.
pub proof fn lemma_partial_first_difference<T: PartialOrd<U>, U>(a: Seq<T>, b: Seq<U>, at: int)
    requires
        0 <= at < a.len(),
        at < b.len(),
        agree_partial(a, b, at),
        a[at].partial_cmp_spec(&b[at]) != Some(Ordering::Equal),
    ensures
        lex_partial(a, b, 0) == a[at].partial_cmp_spec(&b[at]),
{
    lemma_partial_skips_equal(a, b, at);
}

/// Where one sequence is a prefix of the other, the lengths decide: the
/// shorter sequence comes first, and sequences of the same length are equal.
pub proof fn lemma_partial_prefix<T: PartialOrd<U>, U>(a: Seq<T>, b: Seq<U>)
    requires
        agree_partial(a, b, common_len(a.len(), b.len())),
    ensures
        lex_partial(a, b, 0) == Some(len_order(a.len(), b.len())),
        a.len() < b.len() ==> lex_partial(a, b, 0) == Some(Ordering::Less),
{
    lemma_partial_skips_equal(a, b, common_len(a.len(), b.len()));
}

/// Pairs of elements that are equal do not decide: where the first `upto`
/// pairs are equal, the order of the sequences is their order from `upto`
/// on.
pub proof fn lemma_total_skips_equal<T: Ord>(a: Seq<T>, b: Seq<T>, upto: int)
    requires
        0 <= upto <= a.len(),
        upto <= b.len(),
        agree_total(a, b, upto),
    ensures
        lex_total(a, b, 0) == lex_total(a, b, upto),
    decreases upto,
{
    if upto > 0 {
        lemma_total_skips_equal(a, b, upto - 1);
        assert(a[upto - 1].cmp_spec(&b[upto - 1]) == Ordering::Equal);
    }
}

/// The first pair of elements that is not equal decides the order of the
/// sequences, whatever follows it and however long the sequences are.
pub proof fn lemma_total_first_difference<T: Ord>(a: Seq<T>, b: Seq<T>, at: int)
    requires
        0 <= at < a.len(),
        at < b.len(),
        agree_total(a, b, at),
        a[at].cmp_spec(&b[at]) != Ordering::Equal,
    ensures
        lex_total(a, b, 0) == a[at].cmp_spec(&b[at]),
{
    lemma_total_skips_equal(a, b, at);
}

/// Where one sequence is a prefix of the other, the lengths decide: the
/// shorter sequence comes first, and sequences of the same length are equal.
pub proof fn lemma_total_prefix<T: Ord>(a: Seq<T>, b: Seq<T>)
    requires
        agree_total(a, b, common_len(a.len(), b.len())),
    ensures
        lex_total(a, b, 0) == len_order(a.len(), b.len()),
        a.len() < b.len() ==> lex_total(a, b, 0) == Ordering::Less,
{
    lemma_total_skips_equal(a, b, common_len(a.len(), b.len()));
}

impl<'a, 'b, T, U, const S: usize, const R: usize> PartialEq<Stride<'b, U, R>> for Stride<
    'a,
    T,
    S,
> where T: PartialEq<U> {
    /// Whether both views show equally many elements and equal ones at every
    /// position. Views of different lengths are never equal and two empty
    /// views are always equal, whatever the elements' own equality says.
    fn eq(&self, other: &Stride<'b, U, R>) -> (equal: bool)
        ensures
            self@.len() != other@.len() ==> !equal,
            self@.len() == 0 && other@.len() == 0 ==> equal,
    {
        if self.len() != other.len() {
            return false;
        }
        let mut left = self.iter();
        let mut right = other.iter();
        let ghost mut seen: int = 0;
        loop
            invariant
                self@.len() == other@.len(),
                0 <= seen <= self@.len(),
                left@ == self@.skip(seen),
                right@ == other@.skip(seen),
                T::obeys_eq_spec() ==> forall|i: int|
                    0 <= i < seen ==> #[trigger] self@[i].eq_spec(&other@[i]),
            decreases self@.len() - seen,
        {
            match (left.next(), right.next()) {
                (Some(x), Some(y)) => {
                    if !(*x == *y) {
                        return false;
                    }
                    proof {
                        seen = seen + 1;
                    }
                },
                _ => {
                    return true;
                },
            }
        }
    }
}

impl<'a, 'b, T, U, const S: usize, const R: usize> PartialEqSpecImpl<Stride<'b, U, R>> for Stride<
    'a,
    T,
    S,
> where T: PartialEq<U> {
    /// Views are compared as specified where their elements are.
    open spec fn obeys_eq_spec() -> bool {
        T::obeys_eq_spec()
    }

    /// Two views are equal where the sequences they show are.
    open spec fn eq_spec(&self, other: &Stride<'b, U, R>) -> bool {
        seq_eq(self@, other@)
    }
}

impl<'a, T: Eq, const S: usize> Eq for Stride<'a, T, S> {

}

impl<'a, 'b, T, U, const S: usize, const R: usize> PartialOrd<Stride<'b, U, R>> for Stride<
    'a,
    T,
    S,
> where T: PartialOrd<U> {
    /// Lexicographic order of the two views by the partial order of their
    /// elements: the first pair of elements that is not equal decides, also
    /// where it cannot be ordered; where one view is a prefix of the other,
    /// the shorter view comes first. Where one of the views is empty no
    /// element is compared and the lengths decide.
    fn partial_cmp(&self, other: &Stride<'b, U, R>) -> (order: Option<Ordering>)
        ensures
            self@.len() == 0 || other@.len() == 0 ==> order == Some(
                len_order(self@.len(), other@.len()),
            ),
    {
        let n = self.len();
        let m = other.len();
        let shorter = if n < m {
            n
        } else {
            m
        };
        let mut i: usize = 0;
        let ghost mut seen: int = 0;
        while i < shorter
            invariant
                n == self@.len(),
                m == other@.len(),
                shorter <= n,
                shorter <= m,
                i <= shorter,
                seen == i,
                T::obeys_partial_cmp_spec() ==> agree_partial(self@, other@, seen),
            decreases shorter - i,
        {
            match self[i].partial_cmp(&other[i]) {
                Some(Ordering::Equal) => {},
                decided => {
                    proof {
                        if T::obeys_partial_cmp_spec() {
                            lemma_partial_first_difference(self@, other@, seen);
                        }
                    }
                    return decided;
                },
            }
            i += 1;
            proof {
                seen = seen + 1;
            }
        }
        proof {
            if T::obeys_partial_cmp_spec() {
                lemma_partial_prefix(self@, other@);
            }
        }
        if n < m {
            Some(Ordering::Less)
        } else if n == m {
            Some(Ordering::Equal)
        } else {
            Some(Ordering::Greater)
        }
    }
}

impl<'a, 'b, T, U, const S: usize, const R: usize> PartialOrdSpecImpl<Stride<'b, U, R>> for Stride<
    'a,
    T,
    S,
> where T: PartialOrd<U> {
    /// Views are ordered as specified where their elements are.
    open spec fn obeys_partial_cmp_spec() -> bool {
        T::obeys_partial_cmp_spec()
    }

    /// Two views are ordered as the sequences they show.
    open spec fn partial_cmp_spec(&self, other: &Stride<'b, U, R>) -> Option<Ordering> {
        lex_partial(self@, other@, 0)
    }
}

impl<'a, T: Ord, const S: usize> Stride<'a, T, S> {
    /// Lexicographic order of the two views by the total order of their
    /// elements: the first pair of elements that is not equal decides; where
    /// one view is a prefix of the other, the shorter view comes first. Where
    /// one of the views is empty no element is compared and the lengths
    /// decide.
    pub fn cmp(&self, other: &Stride<'a, T, S>) -> (order: Ordering)
        ensures
            T::obeys_cmp_spec() ==> order == lex_total(self@, other@, 0),
            self@.len() == 0 || other@.len() == 0 ==> order == len_order(
                self@.len(),
                other@.len(),
            ),
    {
        let n = self.len();
        let m = other.len();
        let shorter = if n < m {
            n
        } else {
            m
        };
        let mut i: usize = 0;
        let ghost mut seen: int = 0;
        while i < shorter
            invariant
                n == self@.len(),
                m == other@.len(),
                shorter <= n,
                shorter <= m,
                i <= shorter,
                seen == i,
                T::obeys_cmp_spec() ==> agree_total(self@, other@, seen),
            decreases shorter - i,
        {
            match self[i].cmp(&other[i]) {
                Ordering::Equal => {},
                decided => {
                    proof {
                        if T::obeys_cmp_spec() {
                            lemma_total_first_difference(self@, other@, seen);
                        }
                    }
                    return decided;
                },
            }
            i += 1;
            proof {
                seen = seen + 1;
            }
        }
        proof {
            if T::obeys_cmp_spec() {
                lemma_total_prefix(self@, other@);
            }
        }
        if n < m {
            Ordering::Less
        } else if n == m {
            Ordering::Equal
        } else {
            Ordering::Greater
        }
    }
}

} // verus!
