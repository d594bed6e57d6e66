use vstd::prelude::*;

verus! {

/// The capacity that a buffer of capacity `cap` grows to: one slot at
/// first, then twice as many.
pub open spec fn next_cap(cap: nat) -> nat {
    if cap == 0 {
        1
    } else {
        cap * 2
    }
}

/// Whether `cap` slots of `T` fit in the largest allocation the platform
/// allows (`isize::MAX` bytes).
pub open spec fn fits_in_memory<T>(cap: nat) -> bool {
    cap * vstd::layout::size_of::<T>() <= isize::MAX as nat
}

/// A block of `capacity` slots. A slot is either empty (`None`) or holds an
/// element. The buffer does not track which slots are in use; its owner does.
pub struct RawBuf<T> {
    slots: Vec<Option<T>>,
}

impl<T> View for RawBuf<T> {
    type V = Seq<Option<T>>;

    /// The slots, in order.
    closed spec fn view(&self) -> Seq<Option<T>> {
        self.slots@
    }
}

impl<T> RawBuf<T> {
    /// Number of slots.
    pub open spec fn cap(&self) -> nat {
        self@.len()
    }

    /// The slot count stays within the allocation limit, and `T` has a size.
    pub open spec fn wf(&self) -> bool {
        &&& vstd::layout::size_of::<T>() > 0
        &&& fits_in_memory::<T>(self.cap())
        &&& self.cap() <= isize::MAX
    }

    /// An empty buffer: no slots, nothing allocated.
    pub fn new() -> (r: Self)
        requires
            vstd::layout::size_of::<T>() > 0,
        ensures
            r.wf(),
            r.cap() == 0,
    {
        RawBuf { slots: Vec::new() }
    }

    pub fn capacity(&self) -> (r: usize)
        ensures
            r == self.cap(),
    {
        self.slots.len()
    }

    /// Grows to `next_cap` slots. The existing slots keep their content and
    /// position; the new ones are empty.
    pub fn grow(&mut self)
        requires
            old(self).wf(),
            fits_in_memory::<T>(next_cap(old(self).cap())),
        ensures
            final(self).wf(),
            final(self).cap() == next_cap(old(self).cap()),
            forall|i: int| 0 <= i < old(self).cap() ==> final(self)@[i] == old(self)@[i],
            forall|i: int| old(self).cap() <= i < final(self).cap() ==> final(self)@[i].is_none(),
    {
        let old_cap = self.slots.len();
        let new_cap: usize = if old_cap == 0 { 1 } else { old_cap * 2 };
        proof {
            let n = next_cap(old_cap as nat);
            assert(n <= isize::MAX) by (nonlinear_arith)
                requires
                    n * vstd::layout::size_of::<T>() <= isize::MAX,
                    vstd::layout::size_of::<T>() > 0,
            ;
        }
        while self.slots.len() < new_cap
            invariant
                old_cap <= self.slots@.len() <= new_cap,
                new_cap == next_cap(old(self).cap()),
                old_cap == old(self).cap(),
                forall|i: int| 0 <= i < old_cap ==> self.slots@[i] == old(self).slots@[i],
                forall|i: int| old_cap <= i < self.slots@.len() ==> self.slots@[i].is_none(),
            decreases new_cap - self.slots@.len(),
        {
            self.slots.push(None);
        }
    }

    /// Empties slot `i` and returns what it held.
    pub fn take(&mut self, i: usize) -> (r: Option<T>)
        requires
            i < old(self).cap(),
        ensures
            r == old(self)@[i as int],
            final(self)@ == old(self)@.update(i as int, None),
    {
        self.slots[i].take()
    }

    /// Sets slot `i` to `x`.
    pub fn put(&mut self, i: usize, x: Option<T>)
        requires
            i < old(self).cap(),
        ensures
            final(self)@ == old(self)@.update(i as int, x),
    {
        self.slots[i] = x;
    }

    /// A reference to the element in slot `i`, which must hold one.
    pub fn get(&self, i: usize) -> (r: &T)
        requires
            i < self.cap(),
            self@[i as int] is Some,
        ensures
            Some(*r) == self@[i as int],
    {
        self.slots[i].as_ref().unwrap()
    }
}

} // verus!
