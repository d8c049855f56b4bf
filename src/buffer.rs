use vstd::prelude::*;

use crate::laws::retain_last;
use vstd::std_specs::iter::IteratorSpec;

verus! {

/// Why a buffer could not be created.
#[derive(Clone, Copy, Debug, PartialEq, Eq, Structural)]
pub enum BufferError {
    /// The capacity was zero, or so large that a backing region of
    /// `2 * capacity - 1` slots cannot be addressed.
    InvalidCapacity,
}

/// A ring buffer of fixed capacity whose contents always form one slice.
///
/// The elements live in a backing vector that grows to `2 * capacity - 1`
/// slots. Once `capacity` elements have been pushed, the buffer's contents
/// are `vec[cur_start .. cur_start + capacity]`. Each slot `j` before
/// `cur_start` holds a copy of slot `j + capacity`, so that when
/// `cur_start` wraps back to 0 the window is already in place. Elements are
/// `Copy` because a push may write the same value into two slots.
pub struct CircleBuffer<T> {
    capacity: usize,
    vec: Vec<T>,
    cur_start: usize,
}

/// The largest capacity whose backing region, `2 * capacity - 1` slots, fits in a `usize`.
pub open spec fn max_capacity() -> nat {
    (usize::MAX as nat + 1) / 2
}

impl<T: Copy> View for CircleBuffer<T> {
    type V = Seq<T>;

    /// The elements held, oldest first.
    open spec fn view(&self) -> Seq<T> {
        self.window()
    }
}

impl<T: Copy> CircleBuffer<T> {
    /// The capacity the buffer was created with.
    pub closed spec fn spec_capacity(&self) -> nat {
        self.capacity as nat
    }

    /// The part of the backing vector that holds the buffer's contents.
    pub closed spec fn window(&self) -> Seq<T> {
        if self.vec@.len() < self.capacity {
            self.vec@
        } else {
            self.vec@.subrange(self.cur_start as int, self.cur_start + self.capacity)
        }
    }

    /// The backing vector's length and the cursor agree with the phase the
    /// buffer is in: filling, mirroring, or full.
    pub closed spec fn shape_ok(&self) -> bool {
        let len = self.vec@.len();
        let cap = self.capacity as int;
        &&& 1 <= cap <= max_capacity()
        &&& len <= 2 * cap - 1
        &&& len < cap ==> self.cur_start == 0
        &&& cap <= len < 2 * cap - 1 ==> self.cur_start == len - cap
        &&& len == 2 * cap - 1 ==> self.cur_start < cap
    }

    /// Each slot before the cursor holds a copy of the slot `capacity` places later.
    pub closed spec fn mirrored(&self) -> bool {
        forall|j: int|
            0 <= j < self.cur_start ==> #[trigger] self.vec@[j] == self.vec@[j + self.capacity]
    }

    /// The buffer's invariant: pushes keep the window equal to the last
    /// `capacity` elements pushed only while it holds.
    pub closed spec fn wf(&self) -> bool {
        self.shape_ok() && self.mirrored()
    }

    /// Creates an empty buffer that retains at most `capacity` elements.
    pub fn with_capacity(capacity: usize) -> (r: Result<Self, BufferError>)
        ensures
            capacity == 0 || capacity > max_capacity() <==> r is Err,
            r matches Err(e) ==> e == BufferError::InvalidCapacity,
            r matches Ok(b) ==> b.wf() && b@ == Seq::<T>::empty() && b.spec_capacity()
                == capacity,
    {
        if capacity == 0 || capacity > usize::MAX / 2 + 1 {
            return Err(BufferError::InvalidCapacity);
        }
        Ok(CircleBuffer { capacity, vec: Vec::with_capacity(capacity + (capacity - 1)), cur_start: 0 })
    }

    /// The capacity the buffer was created with.
    pub fn capacity(&self) -> (r: usize)
        ensures
            r == self.spec_capacity(),
    {
        self.capacity
    }

    /// The number of elements held: the number pushed, capped at the capacity.
    pub fn len(&self) -> (r: usize)
        requires
            self.wf(),
        ensures
            r == self@.len(),
    {
        let len = self.vec.len();
        if len > self.capacity {
            self.capacity
        } else {
            len
        }
    }

    /// Pushes `value`. Once the buffer is full, the oldest element is dropped.
    pub fn push(&mut self, value: T)
        requires
            old(self).wf(),
        ensures
            final(self).wf(),
            final(self).spec_capacity() == old(self).spec_capacity(),
            final(self)@ == retain_last(old(self)@.push(value), old(self).spec_capacity()),
    {
        let cap = self.capacity;
        let len = self.vec.len();
        let ghost old_vec = self.vec@;
        if len < cap {
            self.vec.push(value);
            assert(self.vec@ == old_vec.push(value));
        } else if len < cap + (cap - 1) {
            let start = self.cur_start;
            self.vec.push(value);
            self.vec[start] = value;
            self.cur_start = start + 1;
            assert(self@ =~= retain_last(old(self)@.push(value), cap as nat));
        } else {
            let start = self.cur_start;
            let index = start + cap;
            if index < cap + (cap - 1) {
                self.vec[index] = value;
            }
            self.vec[start] = value;
            if start + 1 >= cap {
                self.cur_start = 0;
            } else {
                self.cur_start = start + 1;
            }
            assert(self@ =~= retain_last(old(self)@.push(value), cap as nat));
        }
    }

    /// How many elements at the end of the window have a copy before the cursor.
    pub closed spec fn mirror_count(&self) -> nat {
        self.cur_start as nat
    }

    /// The buffer's contents as one slice, oldest first.
    pub fn as_slice(&self) -> (r: &[T])
        requires
            self.wf(),
        ensures
            r@ == self@,
    {
        if self.vec.len() < self.capacity {
            self.vec.as_slice()
        } else {
            &self.vec.as_slice()[self.cur_start..self.cur_start + self.capacity]
        }
    }

    /// The element at position `i`, counting from the oldest.
    pub fn get(&self, i: usize) -> (r: T)
        requires
            self.wf(),
            i < self@.len(),
        ensures
            r == self@[i as int],
    {
        if self.vec.len() < self.capacity {
            self.vec[i]
        } else {
            self.vec[self.cur_start + i]
        }
    }

    /// Replaces the element at position `i`, counting from the oldest, with
    /// `value`. The copy of that slot, if it has one, is written too.
    pub fn set(&mut self, i: usize, value: T)
        requires
            old(self).wf(),
            i < old(self)@.len(),
        ensures
            final(self).wf(),
            final(self).spec_capacity() == old(self).spec_capacity(),
            final(self)@ == old(self)@.update(i as int, value),
    {
        let cap = self.capacity;
        let start = self.cur_start;
        let slot = start + i;
        self.vec[slot] = value;
        if slot >= cap && slot - cap < start {
            self.vec[slot - cap] = value;
        }
        assert(self@ =~= old(self)@.update(i as int, value));
    }

    /// The backing vector with its window replaced by `w`.
    closed spec fn with_window(&self, w: Seq<T>) -> Seq<T> {
        if self.vec@.len() < self.capacity {
            w
        } else {
            self.vec@.subrange(0, self.cur_start as int) + w + self.vec@.subrange(
                self.cur_start + self.capacity,
                self.vec@.len() as int,
            )
        }
    }

    /// Replacing the window keeps the buffer well formed exactly when the
    /// elements that have copies before the cursor are kept.
    proof fn lemma_rewrite_window(a: Self)
        requires
            a.wf(),
        ensures
            forall|b: Self, w: Seq<T>|
                #![trigger b.wf(), w.len()]
                b.capacity == a.capacity && b.cur_start == a.cur_start && w.len() == a@.len()
                    && b.vec@ == a.with_window(w) ==> (b.wf() <==> w.subrange(
                    a@.len() - a.mirror_count(),
                    a@.len() as int,
                ) == a@.subrange(a@.len() - a.mirror_count(), a@.len() as int)),
    {
        assert forall|b: Self, w: Seq<T>|
            #![trigger b.wf(), w.len()]
            b.capacity == a.capacity && b.cur_start == a.cur_start && w.len() == a@.len()
                && b.vec@ == a.with_window(w) implies (b.wf() <==> w.subrange(
                a@.len() - a.mirror_count(),
                a@.len() as int,
            ) == a@.subrange(a@.len() - a.mirror_count(), a@.len() as int)) by {
            let cap = a.capacity as int;
            let start = a.cur_start as int;
            let lo = cap - start;
            if a.vec@.len() < cap {
                assert(w.subrange(w.len() as int, w.len() as int) =~= a@.subrange(
                    w.len() as int,
                    w.len() as int,
                ));
            } else {
                assert(b.vec@.len() == a.vec@.len());
                assert forall|j: int| 0 <= j < start implies b.vec@[j] == a.vec@[j] by {}
                assert forall|j: int| 0 <= j < cap implies b.vec@[start + j] == w[j] by {}
                assert forall|j: int| 0 <= j < cap implies a.vec@[start + j] == a@[j] by {}
                if b.wf() {
                    assert forall|i: int| lo <= i < cap implies w[i] == a@[i] by {
                        let k = i - lo;
                        assert(b.vec@[k] == b.vec@[k + cap]);
                        assert(a.vec@[k] == a.vec@[k + cap]);
                        assert(b.vec@[start + (lo + k)] == w[lo + k]);
                    }
                    assert(w.subrange(lo, cap) =~= a@.subrange(lo, cap));
                }
                if w.subrange(lo, cap) == a@.subrange(lo, cap) {
                    assert forall|j: int| 0 <= j < start implies #[trigger] b.vec@[j] == b.vec@[j
                        + cap] by {
                        assert(a.vec@[j] == a.vec@[j + cap]);
                        assert(w.subrange(lo, cap)[j] == a@.subrange(lo, cap)[j]);
                        assert(b.vec@[start + (lo + j)] == w[lo + j]);
                        assert(a.vec@[start + (lo + j)] == a@[lo + j]);
                    }
                    assert(b.mirrored());
                }
            }
        }
    }

    /// The window of the backing vector, borrowed mutably.
    fn window_mut(&mut self) -> (r: &mut [T])
        requires
            old(self).wf(),
        ensures
            r@ == old(self)@,
            final(self).capacity == old(self).capacity,
            final(self).cur_start == old(self).cur_start,
            final(self).vec@ == old(self).with_window(final(r)@),
    {
        let len = self.vec.len();
        let cap = self.capacity;
        let start = self.cur_start;
        if len < cap {
            self.vec.as_mut_slice()
        } else {
            let (_, rest) = self.vec.as_mut_slice().split_at_mut(start);
            let (window, _) = rest.split_at_mut(cap);
            window
        }
    }

    /// The buffer's contents as one mutable slice, oldest first.
    ///
    /// A slice cannot change its length, which the clauses below take as
    /// given. Writes through the slice do not reach the copies kept before the
    /// cursor: the buffer stays well formed exactly when the last
    /// `mirror_count()` elements are left as they were. Use `set` to write
    /// any element and keep the buffer well formed.
    pub fn as_mut_slice(&mut self) -> (r: &mut [T])
        requires
            old(self).wf(),
        ensures
            r@ == old(self)@,
            final(self).spec_capacity() == old(self).spec_capacity(),
            final(r)@.len() == r@.len() ==> final(self)@ == final(r)@,
            final(r)@.len() == r@.len() ==> (final(self).wf() <==> final(r)@.subrange(
                r@.len() - old(self).mirror_count(),
                r@.len() as int,
            ) == r@.subrange(r@.len() - old(self).mirror_count(), r@.len() as int)),
    {
        proof {
            Self::lemma_rewrite_window(*self);
        }
        self.window_mut()
    }

    /// An iterator over the buffer's contents, oldest first.
    pub fn iter(&self) -> (r: std::slice::Iter<'_, T>)
        requires
            self.wf(),
        ensures
            r.remaining() == self@.as_ref(),
    {
        self.as_slice().iter()
    }

    /// An iterator over mutable references to the buffer's contents, oldest
    /// first. Writes through it reach the buffer as writes through
    /// `as_mut_slice` do.
    pub fn iter_mut(&mut self) -> (r: std::slice::IterMut<'_, T>)
        requires
            old(self).wf(),
        ensures
            final(self).spec_capacity() == old(self).spec_capacity(),
    {
        self.as_mut_slice().into_iter()
    }

    /// Whether nothing has been pushed yet.
    pub fn is_empty(&self) -> (r: bool)
        requires
            self.wf(),
        ensures
            r == (self@.len() == 0),
    {
        self.vec.len() == 0
    }
}

impl<T: Copy> std::ops::Index<usize> for CircleBuffer<T> {
    type Output = T;

    /// The element at position `i`, counting from the oldest.
    fn index(&self, i: usize) -> (r: &T)
        ensures
            *r == self@[i as int],
    {
        if self.vec.len() < self.capacity {
            &self.vec[i]
        } else {
            &self.vec[self.cur_start + i]
        }
    }
}

impl<T: Copy> vstd::std_specs::core::IndexSpecImpl<usize> for CircleBuffer<T> {
    open spec fn index_req(&self, i: &usize) -> bool {
        self.wf() && *i < self@.len()
    }
}

} // verus!
