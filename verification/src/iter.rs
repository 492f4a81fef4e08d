//! A draining iterator over a `FrontVec`.

use vstd::prelude::*;

use crate::front_vec::FrontVec;

verus! {

/// Consumes a `FrontVec` by repeatedly removing its front element.  The
/// iterator owns the vector and carries no state of its own: each step pops
/// the front and yields it.  When the last element is yielded the wrapped
/// vector itself is dropped, releasing its buffer; every later step returns
/// `None`.
pub struct IntoIter<T> {
    v: Option<FrontVec<T>>,
}

impl<T> IntoIter<T> {
    /// The elements not yet yielded, front first.
    pub closed spec fn remaining(&self) -> Seq<T> {
        match self.v {
            Some(fv) => fv@,
            None => Seq::empty(),
        }
    }

    /// The wrapped vector, if still present, keeps its own invariant.
    pub closed spec fn wf(&self) -> bool {
        match self.v {
            Some(fv) => fv.wf(),
            None => true,
        }
    }

    /// Wraps a vector for draining.
    pub fn new(v: FrontVec<T>) -> (it: Self)
        requires
            v.wf(),
        ensures
            it.wf(),
            it.remaining() == v@,
    {
        IntoIter { v: Some(v) }
    }

    /// One draining step: yields the front element, or `None` once nothing
    /// remains.  An exhausted iterator stays exhausted.
    pub fn next(&mut self) -> (r: Option<T>)
        requires
            old(self).wf(),
        ensures
            final(self).wf(),
            old(self).remaining().len() == 0 ==> r is None
                && final(self).remaining() == old(self).remaining(),
            old(self).remaining().len() > 0 ==> r == Some(old(self).remaining()[0])
                && final(self).remaining() == old(self).remaining().drop_first(),
    {
        match self.v.take() {
            None => None,
            Some(mut fv) => {
                if fv.len() == 1 {
                    // Final element: yield it and drop the emptied vector.
                    let r = fv.pop_front();
                    proof {
                        assert(self.remaining() =~= old(self).remaining().drop_first());
                    }
                    r
                } else if fv.len() > 0 {
                    let r = fv.pop_front();
                    self.v = Some(fv);
                    r
                } else {
                    self.v = Some(fv);
                    None
                }
            },
        }
    }
}

} // verus!
