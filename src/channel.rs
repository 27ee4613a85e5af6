use vstd::prelude::*;
use std::collections::VecDeque;

verus! {

/// The bounded first-in first-out queue that carries the messages of one
/// edge. Besides what it holds it keeps, as ghost state, every item ever
/// offered to it and every item ever taken from it.
pub struct BoundedQueue<T> {
    items: VecDeque<T>,
    capacity: usize,
    sent: Ghost<Seq<T>>,
    received: Ghost<Seq<T>>,
}

impl<T> BoundedQueue<T> {
    /// What the queue holds, oldest first.
    pub closed spec fn view(&self) -> Seq<T> {
        self.items@
    }

    pub closed spec fn spec_capacity(&self) -> nat {
        self.capacity as nat
    }

    /// Every item accepted so far, in the order it was accepted.
    pub closed spec fn sent(&self) -> Seq<T> {
        self.sent@
    }

    /// Every item handed out so far, in the order it was handed out.
    pub closed spec fn received(&self) -> Seq<T> {
        self.received@
    }

    pub closed spec fn wf(&self) -> bool {
        &&& self.capacity > 0
        &&& self.items@.len() <= self.capacity
        &&& self.sent@ == self.received@ + self.items@
    }

    pub fn new(capacity: usize) -> (r: BoundedQueue<T>)
        requires
            capacity > 0,
        ensures
            r.wf(),
            r.view() == Seq::<T>::empty(),
            r.spec_capacity() == capacity,
            r.sent() == Seq::<T>::empty(),
            r.received() == Seq::<T>::empty(),
    {
        let r = BoundedQueue { items: VecDeque::new(), capacity, sent: Ghost(Seq::empty()), received: Ghost(Seq::empty()) };
        assert(r.sent@ =~= r.received@ + r.items@);
        r
    }

    pub fn len(&self) -> (r: usize)
        requires
            self.wf(),
        ensures
            r == self.view().len(),
    {
        self.items.len()
    }

    pub fn capacity(&self) -> (r: usize)
        ensures
            r == self.spec_capacity(),
    {
        self.capacity
    }

    pub fn is_full(&self) -> (r: bool)
        requires
            self.wf(),
        ensures
            r == (self.view().len() == self.spec_capacity()),
    {
        self.items.len() == self.capacity
    }

    pub fn is_empty(&self) -> (r: bool)
        requires
            self.wf(),
        ensures
            r == (self.view().len() == 0),
    {
        self.items.len() == 0
    }

    /// Appends `item` unless the queue is full; a full queue hands it back.
    pub fn try_send(&mut self, item: T) -> (r: Result<(), T>)
        requires
            old(self).wf(),
        ensures
            final(self).wf(),
            final(self).spec_capacity() == old(self).spec_capacity(),
            final(self).received() == old(self).received(),
            old(self).view().len() < old(self).spec_capacity() ==> r is Ok
                && final(self).view() == old(self).view().push(item)
                && final(self).sent() == old(self).sent().push(item),
            old(self).view().len() == old(self).spec_capacity() ==> r == Err::<(), T>(item)
                && final(self).view() == old(self).view()
                && final(self).sent() == old(self).sent(),
    {
        if self.items.len() == self.capacity {
            return Err(item);
        }
        proof {
            self.sent@ = self.sent@.push(item);
        }
        self.items.push_back(item);
        assert(self.sent@ =~= self.received@ + self.items@);
        Ok(())
    }

    /// Takes the oldest item, if any.
    pub fn try_recv(&mut self) -> (r: Option<T>)
        requires
            old(self).wf(),
        ensures
            final(self).wf(),
            final(self).spec_capacity() == old(self).spec_capacity(),
            final(self).sent() == old(self).sent(),
            old(self).view().len() == 0 ==> r is None && final(self).view() == old(self).view()
                && final(self).received() == old(self).received(),
            old(self).view().len() > 0 ==> r == Some(old(self).view()[0])
                && final(self).view() == old(self).view().drop_first()
                && final(self).received() == old(self).received().push(old(self).view()[0]),
    {
        match self.items.pop_front() {
            None => None,
            Some(item) => {
                proof {
                    self.received@ = self.received@.push(item);
                }
                assert(self.sent@ =~= self.received@ + self.items@);
                Some(item)
            },
        }
    }
}

/// Per-edge order: what the consumer has taken is exactly the beginning of
/// what the producer sent, in the same order; once the queue is drained the
/// two sequences are equal.
pub proof fn lemma_edge_order<T>(q: &BoundedQueue<T>)
    requires
        q.wf(),
    ensures
        q.received().len() <= q.sent().len(),
        q.received() == q.sent().subrange(0, q.received().len() as int),
        q.view() == q.sent().subrange(q.received().len() as int, q.sent().len() as int),
        q.view().len() == 0 ==> q.received() == q.sent(),
{
    assert(q.received() =~= q.sent().subrange(0, q.received().len() as int));
    assert(q.view() =~= q.sent().subrange(q.received().len() as int, q.sent().len() as int));
    if q.view().len() == 0 {
        assert(q.received() =~= q.sent());
    }
}

/// Delivery before a barrier: once the consumer has taken the item at
/// position `i` of what the producer sent (an epoch marker, say), it has
/// taken every item sent before it, each exactly once and in order.
pub proof fn lemma_delivered_before<T>(q: &BoundedQueue<T>, i: int)
    requires
        q.wf(),
        0 <= i < q.received().len(),
    ensures
        i < q.sent().len(),
        forall|j: int| 0 <= j <= i ==> #[trigger] q.received()[j] == q.sent()[j],
{
    lemma_edge_order(q);
    assert forall|j: int| 0 <= j <= i implies #[trigger] q.received()[j] == q.sent()[j] by {
        assert(q.received()[j] == q.sent().subrange(0, q.received().len() as int)[j]);
    }
}

} // verus!
