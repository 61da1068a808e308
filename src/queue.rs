use vstd::prelude::*;
use std::collections::VecDeque;

verus! {

/// What became of a batch offered to the queue.
pub enum Handoff<T> {
    /// The batch is queued.
    Accepted,
    /// The queue is full: the batch comes back, and the producer waits before it
    /// offers it again (nothing is dropped).
    Full(T),
    /// The consumer has stopped: the batch comes back, and the producer stops reading.
    Closed(T),
}

/// A bounded, ordered queue of batches between the producer and the consumer.
pub struct BatchQueue<T> {
    items: VecDeque<T>,
    depth: usize,
    closed: bool,
    offered: Ghost<Seq<T>>,
    taken: Ghost<Seq<T>>,
}

impl<T> BatchQueue<T> {
    /// The batches waiting, oldest first.
    pub closed spec fn view(&self) -> Seq<T> {
        self.items@
    }

    /// The most batches that may wait at once.
    pub closed spec fn depth(&self) -> nat {
        self.depth as nat
    }

    pub closed spec fn is_closed(&self) -> bool {
        self.closed
    }

    /// Every batch accepted so far, in the order it was accepted.
    pub closed spec fn accepted(&self) -> Seq<T> {
        self.offered@
    }

    /// Every batch handed to the consumer so far, in the order it was handed out.
    pub closed spec fn delivered(&self) -> Seq<T> {
        self.taken@
    }

    /// The queue holds at most `depth` batches, and what was delivered followed by
    /// what waits is exactly what was accepted.
    pub closed spec fn wf(&self) -> bool {
        &&& self.depth >= 1
        &&& self.items@.len() <= self.depth
        &&& self.taken@ + self.items@ == self.offered@
    }

    pub fn new(depth: usize) -> (r: Self)
        requires
            depth >= 1,
        ensures
            r.wf(),
            r.view() == Seq::<T>::empty(),
            r.depth() == depth,
            !r.is_closed(),
            r.accepted() == Seq::<T>::empty(),
            r.delivered() == Seq::<T>::empty(),
    {
        let r = BatchQueue {
            items: VecDeque::new(),
            depth,
            closed: false,
            offered: Ghost(Seq::empty()),
            taken: Ghost(Seq::empty()),
        };
        assert(r.taken@ + r.items@ =~= r.offered@);
        r
    }

    /// The number of batches waiting.
    pub fn len(&self) -> (r: usize)
        requires
            self.wf(),
        ensures
            r == self.view().len(),
    {
        broadcast use vstd::std_specs::vecdeque::axiom_spec_len;

        self.items.len()
    }

    pub fn is_full(&self) -> (r: bool)
        requires
            self.wf(),
        ensures
            r == (self.view().len() == self.depth()),
    {
        self.len() == self.depth
    }

    /// Offers a batch. It is queued unless the queue is full or closed; then it comes
    /// back unchanged.
    pub fn try_push(&mut self, item: T) -> (r: Handoff<T>)
        requires
            old(self).wf(),
        ensures
            final(self).wf(),
            final(self).depth() == old(self).depth(),
            final(self).is_closed() == old(self).is_closed(),
            final(self).delivered() == old(self).delivered(),
            match r {
                Handoff::Accepted => {
                    &&& !old(self).is_closed()
                    &&& old(self).view().len() < old(self).depth()
                    &&& final(self).view() == old(self).view().push(item)
                    &&& final(self).accepted() == old(self).accepted().push(item)
                },
                Handoff::Full(x) => {
                    &&& x == item
                    &&& !old(self).is_closed()
                    &&& old(self).view().len() == old(self).depth()
                    &&& final(self).view() == old(self).view()
                    &&& final(self).accepted() == old(self).accepted()
                },
                Handoff::Closed(x) => {
                    &&& x == item
                    &&& old(self).is_closed()
                    &&& final(self).view() == old(self).view()
                    &&& final(self).accepted() == old(self).accepted()
                },
            },
    {
        if self.closed {
            return Handoff::Closed(item);
        }
        if self.is_full() {
            return Handoff::Full(item);
        }
        proof {
            self.offered@ = self.offered@.push(item);
        }
        self.items.push_back(item);
        assert(self.taken@ + self.items@ =~= self.offered@);
        Handoff::Accepted
    }

    /// Hands the oldest waiting batch to the consumer.
    pub fn pop(&mut self) -> (r: Option<T>)
        requires
            old(self).wf(),
        ensures
            final(self).wf(),
            final(self).depth() == old(self).depth(),
            final(self).is_closed() == old(self).is_closed(),
            final(self).accepted() == old(self).accepted(),
            match r {
                Some(x) => {
                    &&& old(self).view().len() > 0
                    &&& x == old(self).view()[0]
                    &&& final(self).view() == old(self).view().drop_first()
                    &&& final(self).delivered() == old(self).delivered().push(x)
                },
                None => {
                    &&& old(self).view().len() == 0
                    &&& final(self).view() == old(self).view()
                    &&& final(self).delivered() == old(self).delivered()
                },
            },
    {
        let r = self.items.pop_front();
        match r {
            Some(x) => {
                proof {
                    self.taken@ = self.taken@.push(x);
                }
                assert(self.taken@ + self.items@ =~= self.offered@);
                Some(x)
            },
            None => None,
        }
    }

    /// The consumer stops: later offers are refused.
    pub fn close(&mut self)
        requires
            old(self).wf(),
        ensures
            final(self).wf(),
            final(self).is_closed(),
            final(self).depth() == old(self).depth(),
            final(self).view() == old(self).view(),
            final(self).accepted() == old(self).accepted(),
            final(self).delivered() == old(self).delivered(),
    {
        self.closed = true;
    }
}

/// Batches held in memory at one instant: those waiting in the queue, and the one
/// that the producer holds while it builds it or waits to hand it off.
pub open spec fn batches_in_memory(waiting: nat, producer_holds_one: bool) -> nat {
    waiting + if producer_holds_one {
        1nat
    } else {
        0nat
    }
}

/// Backpressure bounds memory: whatever the speeds of producer and consumer, the
/// batches in memory never exceed the queue depth plus the one being built.
pub proof fn lemma_backpressure_bound<T>(q: &BatchQueue<T>, producer_holds_one: bool)
    requires
        q.wf(),
    ensures
        batches_in_memory(q.view().len(), producer_holds_one) <= q.depth() + 1,
{
}

/// Batches reach the consumer in the order they were accepted: what was delivered
/// is always a prefix of what was accepted, and once the queue is drained the two
/// are the same.
pub proof fn lemma_delivery_in_order<T>(q: &BatchQueue<T>)
    requires
        q.wf(),
    ensures
        q.delivered() == q.accepted().take(q.delivered().len() as int),
        q.view().len() == 0 ==> q.delivered() == q.accepted(),
{
    assert(q.accepted().take(q.delivered().len() as int) =~= q.delivered());
    if q.view().len() == 0 {
        assert(q.delivered() =~= q.accepted());
    }
}

} // verus!
