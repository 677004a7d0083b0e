//! Double-ended iteration over strided views.
//!
//! An iterator holds the part of the buffer that it has not visited yet. The
//! start of that region is its front cursor and the end its back cursor.
//! Taking from the front moves the start forward by one stride; taking from
//! the back moves the end to the last visible element. The cursors meet when
//! the region is empty, so front and back may be taken from in any order and
//! every element is yielded once.

use crate::model::{
    after_first, before_last, first_group, last_group, lemma_strided_after_first,
    lemma_strided_before_last, lemma_strided_len_bounds, strided, visible_len,
};
use vstd::prelude::*;

verus! {

/// Iterator over the elements of a [`Stride`](crate::view::Stride), from
/// either end.
pub struct Iter<'a, T, const S: usize> {
    rest: &'a [T],
}

impl<'a, T, const S: usize> View for Iter<'a, T, S> {
    type V = Seq<T>;

    /// The elements not yet yielded, in the order in which `next` yields
    /// them.
    open spec fn view(&self) -> Seq<T> {
        strided(self.buffer(), S as nat)
    }
}

impl<'a, T, const S: usize> Iter<'a, T, S> {
    /// The part of the backing buffer between the two cursors.
    pub closed spec fn buffer(&self) -> Seq<T> {
        self.rest@
    }

    /// An iterator over every `S`-th element of `data`.
    pub(crate) fn new(data: &'a [T]) -> (iter: Self)
        ensures
            iter.buffer() == data@,
    {
        Iter { rest: data }
    }

    /// Yields the first element not yet yielded and steps over it and the gap
    /// behind it, or yields nothing where no element is left.
    pub fn next(&mut self) -> (item: Option<&'a T>)
        ensures
            match item {
                Some(elem) => {
                    &&& old(self)@.len() > 0
                    &&& *elem == old(self)@.first()
                    &&& final(self)@ == old(self)@.drop_first()
                    &&& final(self).buffer() == after_first(old(self).buffer(), S as nat)
                },
                None => {
                    &&& old(self)@.len() == 0
                    &&& S > 0 ==> old(self).buffer().len() == 0
                    &&& final(self).buffer() == old(self).buffer()
                },
            },
    {
        let rest = self.rest;
        let n = rest.len();
        if n == 0 || S == 0 {
            proof {
                if S > 0 {
                    lemma_strided_len_bounds(n as nat, S as nat);
                }
            }
            return None;
        }
        proof {
            lemma_strided_after_first(rest@, S as nat);
        }
        let start = if S < n {
            S
        } else {
            n
        };
        self.rest = &rest[start..n];
        Some(&rest[0])
    }

    /// Yields the last element not yet yielded and steps back before it, or
    /// yields nothing where no element is left.
    pub fn next_back(&mut self) -> (item: Option<&'a T>)
        ensures
            match item {
                Some(elem) => {
                    &&& old(self)@.len() > 0
                    &&& *elem == old(self)@.last()
                    &&& final(self)@ == old(self)@.drop_last()
                    &&& final(self).buffer() == before_last(old(self).buffer(), S as nat)
                },
                None => {
                    &&& old(self)@.len() == 0
                    &&& S > 0 ==> old(self).buffer().len() == 0
                    &&& final(self).buffer() == old(self).buffer()
                },
            },
    {
        let rest = self.rest;
        let n = rest.len();
        if n == 0 || S == 0 {
            proof {
                if S > 0 {
                    lemma_strided_len_bounds(n as nat, S as nat);
                }
            }
            return None;
        }
        proof {
            lemma_strided_before_last(rest@, S as nat);
        }
        let cut = (visible_len(n, S) - 1) * S;
        self.rest = &rest[0..cut];
        Some(&rest[cut])
    }

    /// Number of elements not yet yielded, from the distance between the
    /// cursors.
    pub fn len(&self) -> (n: usize)
        ensures
            n == self@.len(),
    {
        visible_len(self.rest.len(), S)
    }
}

impl<'a, T, const S: usize> Clone for Iter<'a, T, S> {
    /// Another iterator at the same place.
    fn clone(&self) -> (iter: Self)
        ensures
            iter == *self,
    {
        Iter { rest: self.rest }
    }
}

/// Iterator over the elements of a [`StrideMut`](crate::view::StrideMut),
/// from either end, that lets each element be changed.
///
/// The iterator hands every element out once and gives up its hold on it, so
/// no two of the references that it yields point to the same element, and
/// each may be kept for as long as the buffer is borrowed. Once the iterator
/// is no longer used, the part of the buffer that it did not visit keeps what
/// it held (see [`lemma_resolved`](IterMut::lemma_resolved)).
pub struct IterMut<'a, T, const S: usize> {
    rest: &'a mut [T],
}

impl<'a, T, const S: usize> View for IterMut<'a, T, S> {
    type V = Seq<T>;

    /// The elements not yet yielded as they are now, in the order in which
    /// `next` yields them.
    open spec fn view(&self) -> Seq<T> {
        strided(self.buffer(), S as nat)
    }
}

impl<'a, T, const S: usize> IterMut<'a, T, S> {
    /// The borrow of the part of the backing buffer between the two cursors.
    pub closed spec fn borrowed(&self) -> &'a mut [T] {
        self.rest
    }

    /// The part of the backing buffer between the two cursors as it is now.
    pub open spec fn buffer(&self) -> Seq<T> {
        self.borrowed()@
    }

    /// Once the iterator is no longer used, the part of the buffer that it
    /// did not visit keeps what it held.
    pub broadcast proof fn lemma_resolved(self)
        requires
            #[trigger] has_resolved(self),
        ensures
            has_resolved(self.borrowed()),
    {
    }

    /// An iterator over every `S`-th element of `data`.
    pub(crate) fn new(data: &'a mut [T]) -> (iter: Self)
        ensures
            iter.buffer() == old(data)@,
            final(iter.borrowed())@ == final(data)@,
    {
        IterMut { rest: data }
    }

    /// Yields the first element not yet yielded and steps over it and the gap
    /// behind it, or yields nothing where no element is left.
    ///
    /// In the end the region that the iterator held consists of the yielded
    /// element as the caller leaves it, the gap behind it as it was, and the
    /// region that the iterator holds now as that will be left.
    pub fn next(&mut self) -> (item: Option<&'a mut T>)
        ensures
            match item {
                Some(elem) => {
                    &&& old(self)@.len() > 0
                    &&& *elem == old(self)@.first()
                    &&& final(self)@ == old(self)@.drop_first()
                    &&& final(self).buffer() == after_first(old(self).buffer(), S as nat)
                    &&& final(old(self).borrowed())@ == first_group(
                        old(self).buffer(),
                        S as nat,
                    ).update(0, *final(elem)) + final(final(self).borrowed())@
                },
                None => {
                    &&& old(self)@.len() == 0
                    &&& S > 0 ==> old(self).buffer().len() == 0
                    &&& final(self).buffer() == old(self).buffer()
                    &&& final(final(self).borrowed())@ == final(old(self).borrowed())@
                },
            },
    {
        let n = self.rest.len();
        if n == 0 || S == 0 {
            proof {
                if S > 0 {
                    lemma_strided_len_bounds(n as nat, S as nat);
                }
            }
            return None;
        }
        proof {
            lemma_strided_after_first(self.rest@, S as nat);
        }
        let mut rest: &'a mut [T] = &mut [];
        core::mem::swap(&mut self.rest, &mut rest);
        let start = if S < n {
            S
        } else {
            n
        };
        let (group, behind) = rest.split_at_mut(start);
        self.rest = behind;
        Some(&mut group[0])
    }

    /// Yields the last element not yet yielded and steps back before it, or
    /// yields nothing where no element is left.
    ///
    /// In the end the region that the iterator held consists of the region
    /// that the iterator holds now as that will be left, the yielded element
    /// as the caller leaves it, and what lay behind it as it was.
    pub fn next_back(&mut self) -> (item: Option<&'a mut T>)
        ensures
            match item {
                Some(elem) => {
                    &&& old(self)@.len() > 0
                    &&& *elem == old(self)@.last()
                    &&& final(self)@ == old(self)@.drop_last()
                    &&& final(self).buffer() == before_last(old(self).buffer(), S as nat)
                    &&& final(old(self).borrowed())@ == final(final(self).borrowed())@
                        + last_group(old(self).buffer(), S as nat).update(0, *final(elem))
                },
                None => {
                    &&& old(self)@.len() == 0
                    &&& S > 0 ==> old(self).buffer().len() == 0
                    &&& final(self).buffer() == old(self).buffer()
                    &&& final(final(self).borrowed())@ == final(old(self).borrowed())@
                },
            },
    {
        let n = self.rest.len();
        if n == 0 || S == 0 {
            proof {
                if S > 0 {
                    lemma_strided_len_bounds(n as nat, S as nat);
                }
            }
            return None;
        }
        proof {
            lemma_strided_before_last(self.rest@, S as nat);
        }
        let cut = (visible_len(n, S) - 1) * S;
        let mut rest: &'a mut [T] = &mut [];
        core::mem::swap(&mut self.rest, &mut rest);
        let (before, group) = rest.split_at_mut(cut);
        self.rest = before;
        Some(&mut group[0])
    }

    /// Number of elements not yet yielded, from the distance between the
    /// cursors.
    pub fn len(&self) -> (n: usize)
        ensures
            n == self@.len(),
    {
        visible_len(self.rest.len(), S)
    }
}

} // verus!
