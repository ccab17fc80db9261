//! A bounded, typed FIFO queue connecting two pipeline stages.
//!
//! The queue's capacity is fixed at creation and the queue never holds more
//! than that many pending items; with a concurrent scheduler around it,
//! `send` on a full queue and `recv` on an empty open queue are the points
//! where a stage blocks. That scheduling is outside this library, so here
//! both operations carry the blocking condition as a precondition: the
//! embedding program calls them only when they would not block. Ghost
//! counters record how many items were ever sent and received, which is
//! what the backpressure law speaks of.

use vstd::prelude::*;
use crate::error::AuError;

verus! {

pub struct Channel<T> {
    queue: Vec<T>,
    capacity: usize,
    closed: bool,
    sent: Ghost<nat>,
    received: Ghost<nat>,
}

impl<T> View for Channel<T> {
    type V = Seq<T>;

    /// The pending items, oldest first.
    closed spec fn view(&self) -> Seq<T> {
        self.queue@
    }
}

impl<T> Channel<T> {
    /// The bound the channel was created with.
    pub closed spec fn spec_capacity(&self) -> nat {
        self.capacity as nat
    }

    /// True once the producer has finished the stream.
    pub closed spec fn is_closed(&self) -> bool {
        self.closed
    }

    /// How many items were ever accepted by `send`.
    pub closed spec fn sent_count(&self) -> nat {
        self.sent@
    }

    /// How many items were ever handed out by `recv`.
    pub closed spec fn received_count(&self) -> nat {
        self.received@
    }

    pub open spec fn wf(&self) -> bool {
        &&& self@.len() <= self.spec_capacity()
        &&& 1 <= self.spec_capacity()
        &&& self.sent_count() == self.received_count() + self@.len()
    }

    pub fn new(capacity: usize) -> (c: Channel<T>)
        requires
            1 <= capacity,
        ensures
            c.wf(),
            c@ == Seq::<T>::empty(),
            c.spec_capacity() == capacity,
            !c.is_closed(),
            c.sent_count() == 0,
            c.received_count() == 0,
    {
        Channel {
            queue: Vec::new(),
            capacity,
            closed: false,
            sent: Ghost(0),
            received: Ghost(0),
        }
    }

    pub fn len(&self) -> (n: usize)
        ensures
            n == self@.len(),
    {
        self.queue.len()
    }

    pub fn capacity(&self) -> (n: usize)
        ensures
            n == self.spec_capacity(),
    {
        self.capacity
    }

    pub fn closed(&self) -> (b: bool)
        ensures
            b == self.is_closed(),
    {
        self.closed
    }

    /// Enqueue one item. The caller waits for space first (the queue is
    /// bounded), so a full queue is a precondition violation, not an error;
    /// a closed channel rejects the item instead.
    pub fn send(&mut self, value: T) -> (r: Result<(), AuError>)
        requires
            old(self).wf(),
            old(self)@.len() < old(self).spec_capacity(),
        ensures
            final(self).wf(),
            final(self).spec_capacity() == old(self).spec_capacity(),
            final(self).is_closed() == old(self).is_closed(),
            final(self).received_count() == old(self).received_count(),
            old(self).is_closed() ==> {
                &&& r == Err::<(), AuError>(AuError::ChannelClosed)
                &&& final(self)@ == old(self)@
                &&& final(self).sent_count() == old(self).sent_count()
            },
            !old(self).is_closed() ==> {
                &&& r == Ok::<(), AuError>(())
                &&& final(self)@ == old(self)@.push(value)
                &&& final(self).sent_count() == old(self).sent_count() + 1
            },
    {
        if self.closed {
            Err(AuError::ChannelClosed)
        } else {
            self.queue.push(value);
            proof {
                self.sent@ = self.sent@ + 1;
            }
            Ok(())
        }
    }

    /// Dequeue the oldest item. The caller waits until the queue is
    /// non-empty or the producer has closed the channel; `None` therefore
    /// means end of stream, never "try again".
    pub fn recv(&mut self) -> (r: Option<T>)
        requires
            old(self).wf(),
            old(self)@.len() > 0 || old(self).is_closed(),
        ensures
            final(self).wf(),
            final(self).spec_capacity() == old(self).spec_capacity(),
            final(self).is_closed() == old(self).is_closed(),
            final(self).sent_count() == old(self).sent_count(),
            old(self)@.len() > 0 ==> {
                &&& r == Some(old(self)@[0])
                &&& final(self)@ == old(self)@.drop_first()
                &&& final(self).received_count() == old(self).received_count() + 1
            },
            old(self)@.len() == 0 ==> {
                &&& r == Option::<T>::None
                &&& final(self)@ == old(self)@
                &&& final(self).received_count() == old(self).received_count()
            },
    {
        if self.queue.len() > 0 {
            let v = self.queue.remove(0);
            proof {
                self.received@ = self.received@ + 1;
            }
            Some(v)
        } else {
            None
        }
    }

    /// The producer's end-of-stream signal: no more sends will be accepted.
    pub fn close(&mut self)
        requires
            old(self).wf(),
        ensures
            final(self).wf(),
            final(self)@ == old(self)@,
            final(self).spec_capacity() == old(self).spec_capacity(),
            final(self).is_closed(),
            final(self).sent_count() == old(self).sent_count(),
            final(self).received_count() == old(self).received_count(),
    {
        self.closed = true;
    }
}

/// Backpressure law: a channel of capacity C never holds more than C
/// pending items, so once N items have been accepted by `send`, at least
/// N - C of them have already been handed out by `recv`.
pub proof fn lemma_backpressure<T>(c: &Channel<T>)
    requires
        c.wf(),
    ensures
        c@.len() <= c.spec_capacity(),
        c.sent_count() <= c.received_count() + c.spec_capacity(),
{
}

} // verus!
