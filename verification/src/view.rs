//! Strided views over a borrowed buffer.
//!
//! A view shows every `S`-th element of a contiguous buffer, beginning with
//! the first, as a sequence of its own: element `i` of the view is element
//! `i * S` of the buffer. The last element may stand alone at the end of the
//! buffer, without a full gap behind it, so a buffer of `n` elements shows
//! `n / S` of them, rounded up.
//!
//! A view borrows its buffer and never copies or owns it. [`Stride`] borrows
//! it for reading, [`StrideMut`] for reading and writing.
//!
//! A view of a buffer is made at a positive stride. The empty view exists at
//! every stride, and a view of stride zero shows nothing.

use crate::iter::{Iter, IterMut};
use crate::model::{
    lemma_offset_in_bounds, lemma_strided_empty, lemma_strided_len_bounds, lemma_strided_unit,
    lemma_strided_update, strided, visible_len,
};
use vstd::prelude::*;

verus! {

/// A read-only view of every `S`-th element of a borrowed buffer.
pub struct Stride<'a, T, const S: usize> {
    data: &'a [T],
}

impl<'a, T, const S: usize> View for Stride<'a, T, S> {
    type V = Seq<T>;

    /// The visible elements, in order.
    open spec fn view(&self) -> Seq<T> {
        strided(self.buffer(), S as nat)
    }
}

impl<'a, T, const S: usize> Stride<'a, T, S> {
    /// The whole backing buffer: the visible elements and the gaps between
    /// them.
    pub closed spec fn buffer(&self) -> Seq<T> {
        self.data@
    }

    /// Wraps `data` as a view for reading. Nothing is copied, and a buffer of
    /// any length is accepted. The stride must be positive.
    pub fn new(data: &'a [T]) -> (view: Self)
        requires
            S > 0,
        ensures
            view.buffer() == data@,
    {
        Stride { data }
    }

    /// Wraps `data` as a view for reading and writing. Nothing is copied, and
    /// a buffer of any length is accepted. The stride must be positive.
    ///
    /// What the view holds in the end is what `data` holds in the end.
    pub fn new_mut(data: &'a mut [T]) -> (view: StrideMut<'a, T, S>)
        requires
            S > 0,
        ensures
            view.buffer() == old(data)@,
            final(view.borrowed())@ == final(data)@,
    {
        StrideMut { data }
    }

    /// Number of visible elements: the buffer's length divided by `S`,
    /// rounded up.
    pub fn len(&self) -> (n: usize)
        ensures
            n == self@.len(),
            S > 0 ==> n == (self.buffer().len() + S - 1) / (S as int),
    {
        visible_len(self.data.len(), S)
    }

    /// Whether no element is visible, which at a positive stride is so
    /// exactly for an empty buffer.
    pub fn is_empty(&self) -> (empty: bool)
        ensures
            empty <==> self@.len() == 0,
            S > 0 ==> (empty <==> self.buffer().len() == 0),
    {
        proof {
            if S > 0 {
                lemma_strided_len_bounds(self.buffer().len(), S as nat);
            }
        }
        self.len() == 0
    }

    /// An iterator over the visible elements, from either end.
    pub fn iter(&self) -> (iter: Iter<'a, T, S>)
        ensures
            iter@ == self@,
            iter.buffer() == self.buffer(),
    {
        Iter::new(self.data)
    }
}

impl<'a, T> Stride<'a, T, 1> {
    /// The whole view as an ordinary slice: at stride one nothing is skipped,
    /// and the slice is the buffer that the view was made of.
    pub fn as_slice(&self) -> (slice: &'a [T])
        ensures
            slice@ == self@,
            slice@ == self.buffer(),
    {
        proof {
            lemma_strided_unit(self.buffer());
        }
        self.data
    }
}

impl<'a, T, const S: usize> core::ops::Index<usize> for Stride<'a, T, S> {
    type Output = T;

    /// The element at position `idx` of the view, which is the buffer's
    /// element at offset `idx * S`.
    fn index(&self, idx: usize) -> (elem: &T)
        ensures
            *elem == self@[idx as int],
            *elem == self.buffer()[idx * S],
            idx * S < self.buffer().len(),
    {
        proof {
            lemma_offset_in_bounds(self.buffer().len(), S as nat, idx as int);
            assert(self.buffer().len() == self.data.len());
        }
        &self.data[idx * S]
    }
}

impl<'a, T, const S: usize> vstd::std_specs::core::IndexSpecImpl<usize> for Stride<'a, T, S> {
    /// Indexing asks for a position inside the view.
    open spec fn index_req(&self, idx: &usize) -> bool {
        *idx < self@.len()
    }
}

impl<'a, T, const S: usize> Default for Stride<'a, T, S> {
    /// The empty view: a view of the empty buffer, at any stride.
    fn default() -> (view: Self)
        ensures
            view.buffer() == Seq::<T>::empty(),
            view@ == Seq::<T>::empty(),
    {
        let view = Stride { data: &[] };
        proof {
            lemma_strided_empty(view.buffer(), S as nat);
        }
        view
    }
}

impl<'a, T, const S: usize> Clone for Stride<'a, T, S> {
    /// Another view of the same buffer.
    fn clone(&self) -> (view: Self)
        ensures
            view == *self,
    {
        Stride { data: self.data }
    }
}

impl<'a, T, const S: usize> Copy for Stride<'a, T, S> {

}

/// A view of every `S`-th element of a mutably borrowed buffer, through which
/// the visible elements can be changed in place.
///
/// Writing through the view writes to the buffer: once the view is no longer
/// used, the buffer holds what the view held last (see
/// [`lemma_resolved`](StrideMut::lemma_resolved)).
pub struct StrideMut<'a, T, const S: usize> {
    data: &'a mut [T],
}

impl<'a, T, const S: usize> View for StrideMut<'a, T, S> {
    type V = Seq<T>;

    /// The visible elements as they are now, in order.
    open spec fn view(&self) -> Seq<T> {
        strided(self.buffer(), S as nat)
    }
}

impl<'a, T, const S: usize> StrideMut<'a, T, S> {
    /// The borrow of the buffer that the view holds.
    pub closed spec fn borrowed(&self) -> &'a mut [T] {
        self.data
    }

    /// The whole backing buffer as it is now: the visible elements and the
    /// gaps between them.
    pub open spec fn buffer(&self) -> Seq<T> {
        self.borrowed()@
    }

    /// Once the view is no longer used, the buffer keeps what the view held
    /// last.
    pub broadcast proof fn lemma_resolved(self)
        requires
            #[trigger] has_resolved(self),
        ensures
            has_resolved(self.borrowed()),
    {
    }

    /// The same elements as a read-only view, for as long as this view is not
    /// written through.
    pub fn as_stride(&self) -> (view: Stride<'_, T, S>)
        ensures
            view.buffer() == self.buffer(),
            view@ == self@,
    {
        Stride { data: &*self.data }
    }

    /// Number of visible elements: the buffer's length divided by `S`,
    /// rounded up.
    pub fn len(&self) -> (n: usize)
        ensures
            n == self@.len(),
            S > 0 ==> n == (self.buffer().len() + S - 1) / (S as int),
    {
        self.as_stride().len()
    }

    /// Whether no element is visible, which at a positive stride is so
    /// exactly for an empty buffer.
    pub fn is_empty(&self) -> (empty: bool)
        ensures
            empty <==> self@.len() == 0,
            S > 0 ==> (empty <==> self.buffer().len() == 0),
    {
        self.as_stride().is_empty()
    }

    /// An iterator over the visible elements, from either end.
    pub fn iter(&self) -> (iter: Iter<'_, T, S>)
        ensures
            iter@ == self@,
            iter.buffer() == self.buffer(),
    {
        self.as_stride().iter()
    }

    /// An iterator over the visible elements, from either end, that lets each
    /// of them be changed.
    ///
    /// The iterator borrows the whole buffer from the view: what the view
    /// holds afterwards is what the iterator leaves behind.
    pub fn iter_mut(&mut self) -> (iter: IterMut<'_, T, S>)
        ensures
            iter@ == old(self)@,
            iter.buffer() == old(self).buffer(),
            final(self).buffer() == final(iter.borrowed())@,
            final(final(self).borrowed())@ == final(old(self).borrowed())@,
    {
        IterMut::new(&mut *self.data)
    }
}

impl<'a, T> StrideMut<'a, T, 1> {
    /// The whole view as an ordinary slice: at stride one nothing is skipped,
    /// and the slice is the buffer that the view was made of.
    pub fn as_slice(&self) -> (slice: &[T])
        ensures
            slice@ == self@,
            slice@ == self.buffer(),
    {
        proof {
            lemma_strided_unit(self.buffer());
        }
        &*self.data
    }

    /// The whole view as an ordinary mutable slice. What is written to the
    /// slice is written to the view and to its buffer.
    pub fn as_mut_slice(&mut self) -> (slice: &mut [T])
        ensures
            slice@ == old(self)@,
            slice@ == old(self).buffer(),
            final(self)@ == final(slice)@,
            final(self).buffer() == final(slice)@,
            final(final(self).borrowed())@ == final(old(self).borrowed())@,
    {
        proof {
            lemma_strided_unit(self.buffer());
            lemma_strided_unit(final(self).buffer());
        }
        &mut *self.data
    }
}

impl<'a, T, const S: usize> core::ops::Index<usize> for StrideMut<'a, T, S> {
    type Output = T;

    /// The element at position `idx` of the view, which is the buffer's
    /// element at offset `idx * S`.
    fn index(&self, idx: usize) -> (elem: &T)
        ensures
            *elem == self@[idx as int],
            *elem == self.buffer()[idx * S],
            idx * S < self.buffer().len(),
    {
        proof {
            lemma_offset_in_bounds(self.buffer().len(), S as nat, idx as int);
            assert(self.buffer().len() == self.data.len());
        }
        &self.data[idx * S]
    }
}

impl<'a, T, const S: usize> vstd::std_specs::core::IndexSpecImpl<usize> for StrideMut<'a, T, S> {
    /// Indexing asks for a position inside the view.
    open spec fn index_req(&self, idx: &usize) -> bool {
        *idx < self@.len()
    }
}

impl<'a, T, const S: usize> core::ops::IndexMut<usize> for StrideMut<'a, T, S> {
    /// The element at position `idx` of the view, for writing. What the
    /// caller leaves in it is what the view and the buffer hold afterwards at
    /// that place: position `idx` of the view, offset `idx * S` of the
    /// buffer. Every other element stays as it is.
    fn index_mut(&mut self, idx: usize) -> (elem: &mut T)
        requires
            idx < old(self)@.len(),
        ensures
            *elem == old(self)@[idx as int],
            idx * S < old(self).buffer().len(),
            final(self)@ == old(self)@.update(idx as int, *final(elem)),
            final(self).buffer() == old(self).buffer().update(idx * S, *final(elem)),
            final(final(self).borrowed())@ == final(old(self).borrowed())@,
    {
        proof {
            lemma_offset_in_bounds(self.buffer().len(), S as nat, idx as int);
            assert(self.buffer().len() == self.data.len());
        }
        let elem = &mut self.data[idx * S];
        proof {
            lemma_strided_update(old(self).buffer(), S as nat, idx as int, *final(elem));
        }
        elem
    }
}

impl<'a, T, const S: usize> Default for StrideMut<'a, T, S> {
    /// The empty view: a view of the empty buffer, at any stride.
    fn default() -> (view: Self)
        ensures
            view.buffer() == Seq::<T>::empty(),
            view@ == Seq::<T>::empty(),
    {
        let view = StrideMut { data: &mut [] };
        proof {
            lemma_strided_empty(view.buffer(), S as nat);
        }
        view
    }
}

/// What becomes of a buffer once a view of it, or an iterator over the view,
/// is no longer used.
pub broadcast group group_resolved {
    StrideMut::lemma_resolved,
    IterMut::lemma_resolved,
}

} // verus!
