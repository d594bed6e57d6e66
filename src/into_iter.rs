use vstd::prelude::*;

use vstd::multiset::Multiset;

use crate::laws::{lemma_occupied_range, occupied, popped, taken_front, unwrapped};
use crate::raw_buf::RawBuf;

verus! {

/// A traversal that owns the buffer of a former sequence. The slots in
/// `[start, end)` hold the elements not yet handed out; all others are empty.
pub struct IntoIter<T> {
    buf: RawBuf<T>,
    start: usize,
    end: usize,
}

impl<T> View for IntoIter<T> {
    type V = Seq<T>;

    /// The elements not yet handed out, in order.
    closed spec fn view(&self) -> Seq<T> {
        Seq::new((self.end - self.start) as nat, |i: int| self.buf@[self.start + i]->Some_0)
    }
}

impl<T> IntoIter<T> {
    /// The remaining slots are exactly those in `[start, end)`.
    pub closed spec fn wf(&self) -> bool {
        &&& self.start <= self.end <= self.buf.cap()
        &&& forall|i: int| self.start <= i < self.end ==> (#[trigger] self.buf@[i]) is Some
        &&& forall|i: int|
            0 <= i < self.buf.cap() && !(self.start <= i < self.end) ==> (#[trigger] self.buf@[i]) is None
    }

    /// The elements that the buffer still holds, which discarding the
    /// traversal destroys.
    pub closed spec fn held(&self) -> Multiset<T> {
        occupied(self.buf@)
    }

    /// Discarding a traversal, however far it got, destroys exactly the
    /// elements not yet handed out, each once.
    pub proof fn lemma_discard_destroys_remaining(&self)
        requires
            self.wf(),
        ensures
            self.held() == self@.to_multiset(),
    {
        lemma_occupied_range(self.buf@, self.start as int, self.end as int);
        assert(unwrapped(self.buf@, self.start as int, self.end as int) =~= self@);
    }

    /// Takes over `buf`, whose first `len` slots hold the elements.
    pub(crate) fn from_buf(buf: RawBuf<T>, len: usize) -> (r: Self)
        requires
            len <= buf.cap(),
            forall|i: int| 0 <= i < len ==> (#[trigger] buf@[i]) is Some,
            forall|i: int| len <= i < buf.cap() ==> (#[trigger] buf@[i]) is None,
        ensures
            r.wf(),
            r@ == Seq::new(len as nat, |i: int| buf@[i]->Some_0),
    {
        let r = IntoIter { buf, start: 0, end: len };
        assert(r@ =~= Seq::new(len as nat, |i: int| r.buf@[i]->Some_0));
        r
    }

    pub fn len(&self) -> (r: usize)
        requires
            self.wf(),
        ensures
            r == self@.len(),
    {
        self.end - self.start
    }

    /// Hands out the first remaining element; `None` once none is left.
    pub fn next(&mut self) -> (r: Option<T>)
        requires
            old(self).wf(),
        ensures
            final(self).wf(),
            (r, final(self)@) == taken_front(old(self)@),
    {
        let ghost s = self@;
        if self.start == self.end {
            None
        } else {
            let r = self.buf.take(self.start);
            self.start = self.start + 1;
            assert(self@ =~= s.drop_first());
            r
        }
    }

    /// Hands out the last remaining element; `None` once none is left.
    pub fn next_back(&mut self) -> (r: Option<T>)
        requires
            old(self).wf(),
        ensures
            final(self).wf(),
            (r, final(self)@) == popped(old(self)@),
    {
        let ghost s = self@;
        if self.start == self.end {
            None
        } else {
            self.end = self.end - 1;
            let r = self.buf.take(self.end);
            assert(self@ =~= s.drop_last());
            r
        }
    }
}

} // verus!
