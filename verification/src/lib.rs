//! Strided views: every `S`-th element of a borrowed buffer, seen as a
//! sequence of its own.
//!
//! Given the buffer `[1, 2, 3, 4, 5]`, the view of stride 2 shows `[1, 3, 5]`.
//! The stride is a constant of the view's type, so a view is no larger than
//! the borrow it wraps, and nothing is copied or allocated to make one.
//!
//! - [`Stride`] is the view for reading, made by [`Stride::new`].
//! - [`StrideMut`] is the view for reading and writing, made by
//!   [`Stride::new_mut`]. What is written through it is written to the
//!   buffer.
//! - [`Iter`] and [`IterMut`] iterate over a view from either end.
//! - Views are compared by what they show (module [`compare`]), whatever their
//!   strides.
//!
//! Every operation is specified over the sequence that a view shows, which
//! module [`model`] defines, and is proved to meet its specification without
//! overflow and without reaching outside the buffer.

pub mod compare;
pub mod ends;
pub mod iter;
pub mod model;
pub mod render;
pub mod view;

pub use iter::{Iter, IterMut};
pub use view::{Stride, StrideMut};
