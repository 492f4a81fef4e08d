//! A contiguous buffer that grows cheaply from its *front*, plus a
//! UTF-8-constrained string type built on top of it.
//!
//! `FrontVec<T>` keeps its live elements in the trailing region of a single
//! backing buffer, so prepending an element is amortized O(1): the element is
//! written into the spare slot just before the current front, and the buffer
//! is reallocated (doubling) only when no spare capacity is left.
//! `FrontString` wraps a `FrontVec<u8>` whose contents are valid UTF-8 at
//! every observable point. `IntoIter` drains a `FrontVec` from the front.

mod front_string;
mod front_vec;
mod iter;

pub use crate::front_string::FrontString;
pub use crate::front_vec::FrontVec;
pub use crate::front_vec::grown_capacity;
pub use crate::iter::IntoIter;
