//! Bounded ring buffer for sparkline history.

use std::collections::VecDeque;
use vstd::prelude::*;
use vstd::std_specs::iter::IteratorSpec;

verus! {

broadcast use vstd::std_specs::vecdeque::group_vec_dequeue_axioms;

/// The contents of a ring after `v` is pushed onto `s` under capacity
/// `cap`: the oldest element is dropped first when the ring is exactly
/// full, and a ring of capacity zero holds nothing.
pub open spec fn ring_step<T>(s: Seq<T>, cap: nat, v: T) -> Seq<T> {
    if cap == 0 {
        s
    } else if s.len() == cap {
        s.drop_first().push(v)
    } else {
        s.push(v)
    }
}

/// The contents of a ring created with capacity `cap` after pushing every
/// element of `pushes` in order.
pub open spec fn ring_after<T>(cap: nat, pushes: Seq<T>) -> Seq<T>
    decreases pushes.len(),
{
    if pushes.len() == 0 {
        Seq::empty()
    } else {
        ring_step(ring_after(cap, pushes.drop_last()), cap, pushes.last())
    }
}

/// A ring keeps exactly the newest `capacity` samples pushed into it (all
/// of them while fewer were pushed), in push order, and never holds more
/// than `capacity`; a ring of capacity zero stays empty.
pub proof fn lemma_ring_keeps_newest<T>(cap: nat, pushes: Seq<T>)
    ensures
        ring_after(cap, pushes).len() <= cap,
        ring_after(cap, pushes) == pushes.subrange(
            if pushes.len() > cap { pushes.len() - cap } else { 0 },
            pushes.len() as int,
        ),
    decreases pushes.len(),
{
    if pushes.len() > 0 {
        let prev = pushes.drop_last();
        lemma_ring_keeps_newest(cap, prev);
        let r = ring_after(cap, prev);
        let start = if prev.len() > cap { prev.len() - cap } else { 0 };
        let start2 = if pushes.len() > cap { pushes.len() - cap } else { 0 };
        if cap == 0 {
            assert(r =~= pushes.subrange(start2, pushes.len() as int));
        } else if r.len() == cap {
            assert(r.drop_first().push(pushes.last()) =~= pushes.subrange(start2, pushes.len() as int));
        } else {
            assert(r.push(pushes.last()) =~= pushes.subrange(start2, pushes.len() as int));
        }
    } else {
        assert(pushes.subrange(0, 0) =~= Seq::<T>::empty());
    }
}

/// Bounded ring buffer for sparkline history.
pub struct Ring<T> {
    cap: usize,
    inner: VecDeque<T>,
}

impl<T> View for Ring<T> {
    type V = Seq<T>;

    closed spec fn view(&self) -> Seq<T> {
        self.inner@
    }
}

impl<T: Clone> Ring<T> {
    /// The capacity the ring was created with.
    pub closed spec fn capacity(&self) -> nat {
        self.cap as nat
    }

    /// Creates an empty ring that keeps at most `cap` samples.
    pub fn new(cap: usize) -> (r: Self)
        ensures
            r@ == Seq::<T>::empty(),
            r.capacity() == cap,
    {
        Self { cap, inner: VecDeque::with_capacity(cap) }
    }

    /// Appends `v`, first dropping the oldest sample when the ring holds
    /// exactly `capacity` samples; a ring of capacity zero keeps nothing.
    pub fn push(&mut self, v: T)
        ensures
            final(self)@ == ring_step(old(self)@, old(self).capacity(), v),
            final(self).capacity() == old(self).capacity(),
            old(self)@.len() <= old(self).capacity() ==> final(self)@.len() <= final(self).capacity(),
    {
        if self.cap == 0 {
            return;
        }
        if self.inner.len() == self.cap {
            let _ = self.inner.pop_front();
        }
        self.inner.push_back(v);
    }

    /// Iterates over the samples, oldest first.
    pub fn iter(&self) -> (it: std::collections::vec_deque::Iter<'_, T>)
        ensures
            it.remaining() == self@.map_values(|x: T| &x),
    {
        let it = self.inner.iter();
        assert(self@.as_ref() =~= self@.map_values(|x: T| &x));
        it
    }

    /// Number of samples held.
    pub fn len(&self) -> (n: usize)
        ensures
            n == self@.len(),
    {
        self.inner.len()
    }

    /// True when no sample is held.
    pub fn is_empty(&self) -> (b: bool)
        ensures
            b == (self@.len() == 0),
    {
        self.inner.len() == 0
    }

    /// The newest sample.
    pub fn last(&self) -> (r: Option<&T>)
        ensures
            self@.len() == 0 ==> r is None,
            self@.len() > 0 ==> r == Some(&self@.last()),
    {
        let len = self.inner.len();
        if len == 0 {
            None
        } else {
            Some(&self.inner[len - 1])
        }
    }

    /// The `n`th sample counting back from the newest (0 = newest).
    pub fn nth_back(&self, n: usize) -> (r: Option<&T>)
        ensures
            n >= self@.len() ==> r is None,
            n < self@.len() ==> r == Some(&self@[self@.len() - 1 - n]),
    {
        let len = self.inner.len();
        if n >= len {
            return None;
        }
        Some(&self.inner[len - 1 - n])
    }

    /// Clones every sample into a vector, oldest first.
    pub fn to_vec(&self) -> (out: Vec<T>)
        ensures
            out@.len() == self@.len(),
            forall|i: int| 0 <= i < out@.len() ==> cloned(self@[i], #[trigger] out@[i]),
    {
        let len = self.inner.len();
        let mut out: Vec<T> = Vec::with_capacity(len);
        let mut i: usize = 0;
        while i < len
            invariant
                len == self@.len(),
                i <= len,
                out@.len() == i,
                forall|j: int| 0 <= j < i ==> cloned(self@[j], #[trigger] out@[j]),
            decreases len - i,
        {
            out.push(self.inner[i].clone());
            i += 1;
        }
        out
    }
}

} // verus!
