//! The front-growing vector and its growth algorithm.

use vstd::prelude::*;

verus! {

/// A contiguous sequence of `T` that grows from its front.
///
/// The backing buffer models the raw allocation of the structure: a block of
/// `capacity` slots of which only the trailing `len` hold live values.  A
/// slot holding `None` stands for an uninitialized slot of the allocation,
/// a slot holding `Some` for a live element.
///
/// Layout:
/// ```text
/// [ -, -, -, -, e1, e2, e3 ]
///               ^^^^^^^^^^ live (trailing) region, logical index 0 first
/// ^^^^^^^^^^^^ spare (leading) region
/// ```
pub struct FrontVec<T> {
    buf: Vec<Option<T>>,
    len: usize,
}

/// The capacity that a single-element prepend leaves behind: a vector with no
/// buffer jumps to a small fixed capacity, a full one doubles, and one with
/// spare room keeps its buffer.
pub open spec fn grown_capacity(cap: int, len: int) -> int {
    if cap == 0 {
        4
    } else if len >= cap {
        2 * cap
    } else {
        cap
    }
}

impl<T> FrontVec<T> {
    /// Trailing-alignment invariant: the live elements are exactly the last
    /// `len` slots of the buffer; every leading slot is spare.
    pub closed spec fn wf(&self) -> bool {
        &&& self.len <= self.buf@.len()
        &&& forall|i: int|
            0 <= i < self.buf@.len() - self.len ==> (#[trigger] self.buf@[i]) is None
        &&& forall|i: int|
            self.buf@.len() - self.len <= i < self.buf@.len() ==> (#[trigger] self.buf@[i]) is Some
    }

    /// Total number of slots in the backing buffer.
    pub closed spec fn spec_capacity(&self) -> int {
        self.buf@.len() as int
    }

    /// A well-formed vector never holds more live elements than slots.
    pub proof fn lemma_len_le_capacity(&self)
        requires
            self.wf(),
        ensures
            self@.len() <= self.spec_capacity(),
    {
    }
}

impl<T> View for FrontVec<T> {
    type V = Seq<T>;

    /// The logical contents: the live elements in logical order, index 0
    /// being the front (the leftmost live slot).
    closed spec fn view(&self) -> Seq<T> {
        Seq::new(self.len as nat, |i: int| self.buf@[self.buf@.len() - self.len + i]->0)
    }
}

/// A buffer of `n` spare slots.
fn spare_buf<T>(n: usize) -> (r: Vec<Option<T>>)
    ensures
        r@.len() == n,
        forall|i: int| 0 <= i < n ==> (#[trigger] r@[i]) is None,
{
    let mut r: Vec<Option<T>> = Vec::new();
    let mut k: usize = 0;
    while k < n
        invariant
            k <= n,
            r@.len() == k,
            forall|i: int| 0 <= i < k ==> (#[trigger] r@[i]) is None,
        decreases n - k,
    {
        r.push(None);
        k = k + 1;
    }
    r
}

impl<T> FrontVec<T> {
    /// An empty vector with no backing buffer.
    pub fn new() -> (v: Self)
        ensures
            v.wf(),
            v@ == Seq::<T>::empty(),
            v.spec_capacity() == 0,
    {
        let v = FrontVec { buf: Vec::<Option<T>>::new(), len: 0 };
        proof {
            assert(v@ =~= Seq::<T>::empty());
        }
        v
    }

    /// An empty vector whose buffer already holds `cap` spare slots.
    pub fn with_capacity(cap: usize) -> (v: Self)
        ensures
            v.wf(),
            v@ == Seq::<T>::empty(),
            v.spec_capacity() == cap,
    {
        let v = FrontVec { buf: spare_buf(cap), len: 0 };
        proof {
            assert(v@ =~= Seq::<T>::empty());
        }
        v
    }

    /// Number of live elements.
    pub fn len(&self) -> (r: usize)
        ensures
            r == self@.len(),
    {
        self.len
    }

    /// Total number of slots in the backing buffer.
    pub fn capacity(&self) -> (r: usize)
        ensures
            r == self.spec_capacity(),
    {
        self.buf.len()
    }

    /// True when no live element exists.
    pub fn is_empty(&self) -> (r: bool)
        ensures
            r == (self@.len() == 0),
    {
        self.len == 0
    }

    /// Replaces the backing buffer with a fresh one of `new_cap` slots and
    /// moves only the live elements into its trailing region, so the
    /// trailing-alignment invariant holds in the new buffer.  The cost is
    /// proportional to the number of live elements, never to the old
    /// capacity: spare slots are not copied.
    pub fn grow_no_realloc(&mut self, new_cap: usize)
        requires
            old(self).wf(),
            old(self)@.len() <= new_cap,
        ensures
            final(self).wf(),
            final(self)@ == old(self)@,
            final(self).spec_capacity() == new_cap,
    {
        let n = self.len;
        let cap = self.buf.len();
        let mut live = self.buf.split_off(cap - n);
        let mut nb = spare_buf::<T>(new_cap - n);
        nb.append(&mut live);
        self.buf = nb;
        proof {
            assert(self@ =~= old(self)@);
        }
    }

    /// Doubles the capacity, reallocating as `grow_no_realloc` does.
    pub fn double_no_realloc(&mut self)
        requires
            old(self).wf(),
            2 * old(self).spec_capacity() <= usize::MAX,
        ensures
            final(self).wf(),
            final(self)@ == old(self)@,
            final(self).spec_capacity() == 2 * old(self).spec_capacity(),
    {
        let cap = self.buf.len();
        self.grow_no_realloc(cap * 2);
    }

    /// Prepends one element: grows the buffer if no spare slot is left (see
    /// `grown_capacity`), then writes the element into the slot just before
    /// the current front.  Amortized O(1).
    pub fn push_front(&mut self, val: T)
        requires
            old(self).wf(),
            grown_capacity(old(self).spec_capacity(), old(self)@.len() as int) <= usize::MAX,
        ensures
            final(self).wf(),
            final(self)@ == seq![val] + old(self)@,
            final(self).spec_capacity() == grown_capacity(
                old(self).spec_capacity(),
                old(self)@.len() as int,
            ),
    {
        if self.buf.len() == 0 {
            self.buf = spare_buf(4);
        } else if self.len >= self.buf.len() {
            let cap = self.buf.len();
            self.grow_no_realloc(cap * 2);
        }
        let idx = self.buf.len() - self.len - 1;
        self.buf[idx] = Some(val);
        self.len = self.len + 1;
        proof {
            assert(self@ =~= seq![val] + old(self)@);
        }
    }

    /// Removes and returns the front element, or `None` when the vector is
    /// empty; an empty vector is left exactly as it was.  Never reallocates.
    pub fn pop_front(&mut self) -> (r: Option<T>)
        requires
            old(self).wf(),
        ensures
            final(self).wf(),
            final(self).spec_capacity() == old(self).spec_capacity(),
            old(self)@.len() == 0 ==> r is None && *final(self) == *old(self),
            old(self)@.len() > 0 ==> r == Some(old(self)@[0]) && final(self)@ == old(self)@.drop_first(),
    {
        if self.len == 0 {
            return None;
        }
        let idx = self.buf.len() - self.len;
        let slot = self.buf.remove(idx);
        self.buf.insert(idx, None);
        self.len = self.len - 1;
        proof {
            assert(self.buf@ =~= old(self).buf@.update(idx as int, None));
            assert(self@ =~= old(self)@.drop_first());
        }
        Some(slot.unwrap())
    }

    /// Makes room for `extra` more elements in front of the live region.
    /// Does nothing and returns `false` when the spare region is already
    /// large enough; otherwise grows the buffer to exactly
    /// `capacity + extra` slots and returns `true`, telling the caller that
    /// the backing buffer was replaced.
    pub fn reserve_front(&mut self, extra: usize) -> (r: bool)
        requires
            old(self).wf(),
            old(self).spec_capacity() - old(self)@.len() < extra ==> old(self).spec_capacity()
                + extra <= usize::MAX,
        ensures
            final(self).wf(),
            final(self)@ == old(self)@,
            r == (old(self).spec_capacity() - old(self)@.len() < extra),
            r ==> final(self).spec_capacity() == old(self).spec_capacity() + extra,
            !r ==> *final(self) == *old(self),
    {
        let available = self.buf.len() - self.len;
        if available >= extra {
            false
        } else {
            let cap = self.buf.len();
            self.grow_no_realloc(cap + extra);
            true
        }
    }

    /// Prepends a whole slice in one bulk operation: reserves exactly the
    /// needed room, then copies the slice into the newly opened leading
    /// region.  The slice's own order is preserved: its first element becomes
    /// the vector's new front.
    pub fn extend_front(&mut self, slice: &[T]) where T: Copy
        requires
            old(self).wf(),
            old(self).spec_capacity() - old(self)@.len() < slice@.len() ==> old(
                self,
            ).spec_capacity() + slice@.len() <= usize::MAX,
        ensures
            final(self).wf(),
            final(self)@ == slice@ + old(self)@,
            final(self).spec_capacity() == if old(self).spec_capacity() - old(self)@.len()
                >= slice@.len() {
                old(self).spec_capacity()
            } else {
                old(self).spec_capacity() + slice@.len()
            },
    {
        let n = slice.len();
        if n == 0 {
            proof {
                assert(self@ =~= slice@ + old(self)@);
            }
            return;
        }
        self.reserve_front(n);
        let start = self.buf.len() - self.len - n;
        let ghost mid = *self;
        let mut k: usize = 0;
        while k < n
            invariant
                k <= n,
                n == slice@.len(),
                start + n + mid@.len() == mid.spec_capacity(),
                mid.spec_capacity() <= usize::MAX,
                self.len == mid@.len(),
                self.buf@.len() == mid.spec_capacity(),
                mid.wf(),
                forall|i: int| 0 <= i < k ==> #[trigger] self.buf@[start + i] == Some(slice@[i]),
                forall|i: int|
                    0 <= i < self.buf@.len() && !(start <= i < start + k) ==> #[trigger] self.buf@[i]
                        == mid.buf@[i],
            decreases n - k,
        {
            self.buf[start + k] = Some(slice[k]);
            k = k + 1;
        }
        self.len = self.len + n;
        proof {
            assert forall|i: int| 0 <= i < self.buf@.len() - self.len implies (#[trigger] self.buf@[i]) is None by {
                assert(self.buf@[i] == mid.buf@[i]);
            }
            assert forall|i: int|
                self.buf@.len() - self.len <= i < self.buf@.len() implies (#[trigger] self.buf@[i]) is Some by {
                if start <= i < start + n {
                    assert(self.buf@[start + (i - start)] == Some(slice@[i - start]));
                } else {
                    assert(self.buf@[i] == mid.buf@[i]);
                }
            }
            assert(self@ =~= slice@ + old(self)@);
        }
    }

    /// Shortens the vector, keeping the **last** `new_len` live elements and
    /// dropping the rest from the front, each dropped element destructed as
    /// its slot turns spare.  A `new_len` of at least the current length
    /// leaves the vector exactly as it was.  The capacity never shrinks.
    pub fn truncate(&mut self, new_len: usize)
        requires
            old(self).wf(),
        ensures
            final(self).wf(),
            final(self).spec_capacity() == old(self).spec_capacity(),
            new_len >= old(self)@.len() ==> *final(self) == *old(self),
            new_len < old(self)@.len() ==> final(self)@ == old(self)@.subrange(
                old(self)@.len() - new_len,
                old(self)@.len() as int,
            ),
    {
        if new_len >= self.len {
            return;
        }
        let to_drop = self.len - new_len;
        let front = self.buf.len() - self.len;
        let ghost start_state = *self;
        let mut k: usize = 0;
        while k < to_drop
            invariant
                k <= to_drop,
                to_drop <= start_state@.len(),
                front == start_state.spec_capacity() - start_state@.len(),
                start_state.spec_capacity() <= usize::MAX,
                self.len == start_state@.len(),
                self.buf@.len() == start_state.spec_capacity(),
                start_state.wf(),
                forall|i: int| 0 <= i < k ==> (#[trigger] self.buf@[front + i]) is None,
                forall|i: int|
                    0 <= i < self.buf@.len() && !(front <= i < front + k) ==> #[trigger] self.buf@[i]
                        == start_state.buf@[i],
            decreases to_drop - k,
        {
            self.buf[front + k] = None;
            k = k + 1;
        }
        self.len = new_len;
        proof {
            assert forall|i: int| 0 <= i < self.buf@.len() - self.len implies (#[trigger] self.buf@[i]) is None by {
                if front <= i < front + to_drop {
                    assert((self.buf@[front + (i - front)]) is None);
                } else {
                    assert(self.buf@[i] == start_state.buf@[i]);
                }
            }
            assert forall|i: int|
                self.buf@.len() - self.len <= i < self.buf@.len() implies (#[trigger] self.buf@[i]) is Some by {
                assert(self.buf@[i] == start_state.buf@[i]);
            }
            assert(self@ =~= old(self)@.subrange(
                old(self)@.len() - new_len,
                old(self)@.len() as int,
            ));
        }
    }

    /// Read access to the element at logical index `i`, `None` when the index
    /// is out of range.
    pub fn get(&self, i: usize) -> (r: Option<&T>)
        requires
            self.wf(),
        ensures
            i < self@.len() ==> r is Some && *r->0 == self@[i as int],
            i >= self@.len() ==> r is None,
    {
        if i >= self.len {
            None
        } else {
            let idx = self.buf.len() - self.len + i;
            self.buf[idx].as_ref()
        }
    }

    /// Overwrites the element at logical index `i`; the index must be in
    /// range.
    pub fn set(&mut self, i: usize, val: T)
        requires
            old(self).wf(),
            i < old(self)@.len(),
        ensures
            final(self).wf(),
            final(self)@ == old(self)@.update(i as int, val),
            final(self).spec_capacity() == old(self).spec_capacity(),
    {
        let idx = self.buf.len() - self.len + i;
        self.buf[idx] = Some(val);
        proof {
            assert(self@ =~= old(self)@.update(i as int, val));
        }
    }

    /// The live elements, copied front to back into a plain vector.
    pub fn to_vec(&self) -> (r: Vec<T>) where T: Copy
        requires
            self.wf(),
        ensures
            r@ == self@,
    {
        let mut r: Vec<T> = Vec::new();
        let mut k: usize = 0;
        while k < self.len
            invariant
                k <= self@.len(),
                self.wf(),
                self.len == self@.len(),
                r@ =~= self@.subrange(0, k as int),
            decreases self.len - k,
        {
            let x = *self.get(k).unwrap();
            r.push(x);
            proof {
                assert(r@ =~= self@.subrange(0, k + 1));
            }
            k = k + 1;
        }
        proof {
            assert(r@ =~= self@);
        }
        r
    }

    /// Takes over an already-built vector: its elements become the trailing
    /// region of a buffer with no spare slots, so capacity equals length.
    pub fn from_vec(v: Vec<T>) -> (r: Self)
        ensures
            r.wf(),
            r@ == v@,
            r.spec_capacity() == v@.len(),
    {
        let mut v = v;
        let n = v.len();
        let mut buf: Vec<Option<T>> = Vec::new();
        let ghost orig = v@;
        while v.len() > 0
            invariant
                orig.len() == n,
                buf@.len() + v@.len() == n,
                buf@.len() <= n,
                v@ =~= orig.subrange(buf@.len() as int, n as int),
                forall|i: int| 0 <= i < buf@.len() ==> #[trigger] buf@[i] == Some(orig[i]),
            decreases v@.len(),
        {
            let ghost done = buf@.len() as int;
            let x = v.remove(0);
            buf.push(Some(x));
            proof {
                assert(x == orig[done]);
                assert(v@ =~= orig.subrange(buf@.len() as int, n as int));
            }
        }
        let r = FrontVec { buf, len: n };
        proof {
            assert(r@ =~= orig);
        }
        r
    }

    /// Builds a vector holding a copy of the slice, front to back, with
    /// capacity equal to its length.
    pub fn from_slice(slice: &[T]) -> (r: Self) where T: Copy
        ensures
            r.wf(),
            r@ == slice@,
            r.spec_capacity() == slice@.len(),
    {
        let n = slice.len();
        let mut buf: Vec<Option<T>> = Vec::new();
        let mut k: usize = 0;
        while k < n
            invariant
                k <= n,
                n == slice@.len(),
                buf@.len() == k,
                forall|i: int| 0 <= i < k ==> #[trigger] buf@[i] == Some(slice@[i]),
            decreases n - k,
        {
            buf.push(Some(slice[k]));
            k = k + 1;
        }
        let r = FrontVec { buf, len: n };
        proof {
            assert(r@ =~= slice@);
        }
        r
    }

    /// Structural equality, delegating to the logical element sequence: true
    /// exactly when both vectors hold the same elements in the same order,
    /// compared by the element type's own equality (whenever that equality
    /// means what its specification says).
    pub fn eq_elements(&self, other: &Self) -> (r: bool) where
        T: PartialEq + vstd::std_specs::cmp::PartialEqSpec,
        requires
            self.wf(),
            other.wf(),
        ensures
            T::obeys_eq_spec() ==> r == (self@.len() == other@.len() && (forall|i: int|
                0 <= i < self@.len() ==> #[trigger] self@[i].eq_spec(&other@[i]))),
    {
        if self.len != other.len {
            return false;
        }
        let n = self.len;
        let mut k: usize = 0;
        while k < n
            invariant
                k <= n,
                n == self@.len(),
                n == other@.len(),
                self.wf(),
                other.wf(),
                T::obeys_eq_spec() ==> forall|i: int|
                    0 <= i < k ==> #[trigger] self@[i].eq_spec(&other@[i]),
            decreases n - k,
        {
            let a = self.get(k).unwrap();
            let b = other.get(k).unwrap();
            if !(*a == *b) {
                return false;
            }
            k = k + 1;
        }
        true
    }

    /// Deep copy: every live element is copied, index-wise, into a fresh
    /// buffer of matching capacity.
    pub fn duplicate(&self) -> (r: Self) where T: Copy
        requires
            self.wf(),
        ensures
            r.wf(),
            r@ == self@,
            r.spec_capacity() == self.spec_capacity(),
    {
        let spare = self.buf.len() - self.len;
        let mut buf: Vec<Option<T>> = spare_buf(spare);
        let mut k: usize = 0;
        while k < self.len
            invariant
                k <= self@.len(),
                self.wf(),
                self.len == self@.len(),
                buf@.len() == spare + k,
                spare == self.spec_capacity() - self@.len(),
                forall|i: int| 0 <= i < spare ==> (#[trigger] buf@[i]) is None,
                forall|i: int| 0 <= i < k ==> #[trigger] buf@[spare + i] == Some(self@[i]),
            decreases self.len - k,
        {
            buf.push(Some(*self.get(k).unwrap()));
            k = k + 1;
        }
        let r = FrontVec { buf, len: self.len };
        proof {
            assert forall|i: int| spare <= i < buf@.len() implies (#[trigger] buf@[i]) is Some by {
                assert(buf@[i] == Some(self@[i - spare]));
            }
            assert(r@ =~= self@);
        }
        r
    }
}

impl<T> Default for FrontVec<T> {
    /// An empty vector with no backing buffer, as `new` builds it.
    fn default() -> (v: Self)
        ensures
            v.wf(),
            v@ == Seq::<T>::empty(),
            v.spec_capacity() == 0,
    {
        FrontVec::new()
    }
}

/// The capacity left behind by a run of `n` single-element prepends that
/// starts at capacity `cap` with `len` live elements, following
/// `grown_capacity` at each step.
pub open spec fn capacity_after_prepends(cap: int, len: int, n: nat) -> int
    decreases n,
{
    if n == 0 {
        cap
    } else {
        capacity_after_prepends(grown_capacity(cap, len), len + 1, (n - 1) as nat)
    }
}

/// Law: single-element prepends come out in reverse call order.  Prepending
/// `a`, then `b`, then `c` onto any prior contents yields the logical order
/// `c, b, a` followed by the prior contents, since `push_front` ensures that
/// each new element becomes the new front.  A bulk prepend of `[a, b, c]`
/// instead keeps the slice's own order, by the contract of `extend_front`.
pub proof fn lemma_prepend_reverses_order<T>(prior: Seq<T>, a: T, b: T, c: T)
    ensures
        seq![c] + (seq![b] + (seq![a] + prior)) == seq![c, b, a] + prior,
{
    assert(seq![c] + (seq![b] + (seq![a] + prior)) =~= seq![c, b, a] + prior);
}

/// Law: starting from an empty vector with no buffer, six single-element
/// prepends drive the capacity to at least 8: the first prepend jumps to the
/// fixed initial capacity 4 and the fifth doubles it.  `push_front` ensures
/// that its capacity follows `grown_capacity` and that each prepend grows the
/// length by one, so six prepends compose to `capacity_after_prepends`.
pub proof fn lemma_six_prepends_reach_capacity_eight()
    ensures
        capacity_after_prepends(0, 0, 6) >= 8,
{
    reveal_with_fuel(capacity_after_prepends, 7);
}

} // verus!

