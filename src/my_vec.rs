use vstd::prelude::*;

use crate::into_iter::IntoIter;
use vstd::multiset::Multiset;

use crate::laws::{lemma_occupied_range, occupied, popped, unwrapped};
use crate::raw_buf::{fits_in_memory, next_cap, RawBuf};

verus! {

/// A growable sequence. Slots `[0, len)` of the buffer hold the elements,
/// the slots from `len` up to the capacity are empty.
pub struct MyVec<T> {
    buf: RawBuf<T>,
    len: usize,
}

impl<T> View for MyVec<T> {
    type V = Seq<T>;

    /// The live elements, in order.
    closed spec fn view(&self) -> Seq<T> {
        Seq::new(self.len as nat, |i: int| self.buf@[i]->Some_0)
    }
}

impl<T> MyVec<T> {
    /// Number of slots of the buffer, live or not.
    pub closed spec fn cap(&self) -> nat {
        self.buf.cap()
    }

    /// The live slots are exactly those below the length.
    pub closed spec fn wf(&self) -> bool {
        &&& self.buf.wf()
        &&& self.len <= self.buf.cap()
        &&& forall|i: int| 0 <= i < self.len ==> (#[trigger] self.buf@[i]) is Some
        &&& forall|i: int| self.len <= i < self.buf.cap() ==> (#[trigger] self.buf@[i]) is None
    }

    /// One more element can be added: either a slot is free, or the grown
    /// buffer stays within the allocation limit.
    pub open spec fn can_push(&self) -> bool {
        self@.len() < self.cap() || fits_in_memory::<T>(next_cap(self.cap()))
    }

    /// The capacity after adding one element.
    pub open spec fn cap_after_push(&self) -> nat {
        if self@.len() < self.cap() {
            self.cap()
        } else {
            next_cap(self.cap())
        }
    }

    /// The elements that the buffer holds, which discarding the sequence
    /// destroys.
    pub closed spec fn held(&self) -> Multiset<T> {
        occupied(self.buf@)
    }

    /// Discarding a sequence destroys exactly its live elements, each once.
    pub proof fn lemma_discard_destroys_live(&self)
        requires
            self.wf(),
        ensures
            self.held() == self@.to_multiset(),
    {
        lemma_occupied_range(self.buf@, 0, self.len as int);
        assert(unwrapped(self.buf@, 0, self.len as int) =~= self@);
    }

    /// Each live slot holds the element that the view shows at its position.
    proof fn lemma_live_slots(&self)
        requires
            self.wf(),
        ensures
            forall|i: int| 0 <= i < self@.len() ==> self.buf@[i] == Some(#[trigger] self@[i]),
    {
    }

    /// An empty sequence. No memory is allocated until the first element
    /// comes. Elements of zero size are not supported.
    pub fn new() -> (r: Self)
        requires
            vstd::layout::size_of::<T>() > 0,
        ensures
            r.wf(),
            r@ == Seq::<T>::empty(),
            r.cap() == 0,
    {
        let r = MyVec { buf: RawBuf::new(), len: 0 };
        assert(r@ =~= Seq::<T>::empty());
        r
    }

    pub fn len(&self) -> (r: usize)
        ensures
            r == self@.len(),
    {
        self.len
    }

    pub fn is_empty(&self) -> (r: bool)
        ensures
            r == (self@.len() == 0),
    {
        self.len == 0
    }

    pub fn capacity(&self) -> (r: usize)
        ensures
            r == self.cap(),
    {
        self.buf.capacity()
    }

    /// Adds `x` at the end, doubling the buffer first when it is full.
    pub fn push(&mut self, x: T)
        requires
            old(self).wf(),
            old(self).can_push(),
        ensures
            final(self).wf(),
            final(self)@ == old(self)@.push(x),
            final(self).cap() == old(self).cap_after_push(),
    {
        proof {
            self.lemma_live_slots();
        }
        let ghost s = self@;
        if self.len == self.buf.capacity() {
            self.buf.grow();
        }
        self.buf.put(self.len, Some(x));
        self.len = self.len + 1;
        assert(self@ =~= s.push(x));
    }

    /// Removes the last element and returns it; `None` when empty.
    pub fn pop(&mut self) -> (r: Option<T>)
        requires
            old(self).wf(),
        ensures
            final(self).wf(),
            final(self).cap() == old(self).cap(),
            (r, final(self)@) == popped(old(self)@),
    {
        proof {
            self.lemma_live_slots();
        }
        let ghost s = self@;
        if self.len == 0 {
            None
        } else {
            self.len = self.len - 1;
            let r = self.buf.take(self.len);
            assert(self@ =~= s.drop_last());
            r
        }
    }

    /// Inserts `x` at position `idx`, moving the elements from `idx` on one
    /// slot up.
    pub fn insert(&mut self, idx: usize, x: T)
        requires
            old(self).wf(),
            idx <= old(self)@.len(),
            old(self).can_push(),
        ensures
            final(self).wf(),
            final(self)@ == old(self)@.insert(idx as int, x),
            final(self).cap() == old(self).cap_after_push(),
    {
        proof {
            self.lemma_live_slots();
        }
        let ghost s = self@;
        let n = self.len;
        if n == self.buf.capacity() {
            self.buf.grow();
        }
        let ghost cap = self.buf.cap();
        let mut j: usize = n;
        while j > idx
            invariant
                self.buf.wf(),
                self.buf.cap() == cap,
                n < cap,
                n == s.len(),
                self.len == n,
                idx <= j <= n,
                forall|k: int| 0 <= k < j ==> #[trigger] self.buf@[k] == Some(s[k]),
                self.buf@[j as int] is None,
                forall|k: int| j < k <= n ==> #[trigger] self.buf@[k] == Some(s[k - 1]),
                forall|k: int| n < k < cap ==> (#[trigger] self.buf@[k]) is None,
            decreases j,
        {
            let y = self.buf.take(j - 1);
            self.buf.put(j, y);
            j = j - 1;
        }
        self.buf.put(idx, Some(x));
        self.len = n + 1;
        assert(self@ =~= s.insert(idx as int, x));
    }

    /// Removes the element at position `idx` and returns it, moving the
    /// elements after it one slot down.
    pub fn remove(&mut self, idx: usize) -> (r: T)
        requires
            old(self).wf(),
            idx < old(self)@.len(),
        ensures
            final(self).wf(),
            final(self).cap() == old(self).cap(),
            r == old(self)@[idx as int],
            final(self)@ == old(self)@.remove(idx as int),
    {
        proof {
            self.lemma_live_slots();
        }
        let ghost s = self@;
        let ghost cap = self.buf.cap();
        let n = self.len;
        let r = self.buf.take(idx);
        let mut j: usize = idx + 1;
        while j < n
            invariant
                self.buf.wf(),
                self.buf.cap() == cap,
                n <= cap,
                n == s.len(),
                self.len == n,
                idx + 1 <= j <= n,
                forall|k: int| 0 <= k < idx ==> #[trigger] self.buf@[k] == Some(s[k]),
                forall|k: int| idx <= k < j - 1 ==> #[trigger] self.buf@[k] == Some(s[k + 1]),
                self.buf@[j - 1] is None,
                forall|k: int| j <= k < n ==> #[trigger] self.buf@[k] == Some(s[k]),
                forall|k: int| n <= k < cap ==> (#[trigger] self.buf@[k]) is None,
            decreases n - j,
        {
            let y = self.buf.take(j);
            self.buf.put(j - 1, y);
            j = j + 1;
        }
        self.len = n - 1;
        assert(self@ =~= s.remove(idx as int));
        r.unwrap()
    }

    /// The element at position `i`, which must be below the length.
    pub fn index(&self, i: usize) -> (r: &T)
        requires
            self.wf(),
            i < self@.len(),
        ensures
            *r == self@[i as int],
    {
        self.buf.get(i)
    }

    /// Overwrites the element at position `i`, which must be below the length.
    pub fn set(&mut self, i: usize, x: T)
        requires
            old(self).wf(),
            i < old(self)@.len(),
        ensures
            final(self).wf(),
            final(self).cap() == old(self).cap(),
            final(self)@ == old(self)@.update(i as int, x),
    {
        let ghost s = self@;
        self.buf.put(i, Some(x));
        assert(self@ =~= s.update(i as int, x));
    }

    /// Hands the buffer and the live elements over to a traversal that
    /// yields them, by value, from either end.
    pub fn into_iter(self) -> (r: IntoIter<T>)
        requires
            self.wf(),
        ensures
            r.wf(),
            r@ == self@,
    {
        IntoIter::from_buf(self.buf, self.len)
    }
}

} // verus!
