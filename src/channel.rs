use std::collections::VecDeque;
use vstd::prelude::*;

verus! {

/// What a subscription channel holds: the events sent and not yet received,
/// oldest first, and whether the receiving side has gone away.
pub ghost struct ChannelModel<E> {
    pub pending: Seq<E>,
    pub closed: bool,
}

/// The channel's state after `event` is offered to it: queued at the back
/// while the receiver is there, dropped once it is gone.
pub open spec fn offer<E>(c: ChannelModel<E>, event: E) -> ChannelModel<E> {
    if c.closed {
        c
    } else {
        ChannelModel { pending: c.pending.push(event), closed: false }
    }
}

/// An unbounded FIFO queue joining a store to one reducer's processing loop.
pub struct Subscription<E> {
    queue: VecDeque<E>,
    closed: bool,
}

impl<E> View for Subscription<E> {
    type V = ChannelModel<E>;

    closed spec fn view(&self) -> ChannelModel<E> {
        ChannelModel { pending: self.queue@, closed: self.closed }
    }
}

impl<E> Subscription<E> {
    /// A fresh, open and empty channel.
    pub fn new() -> (r: Self)
        ensures
            r@.pending == Seq::<E>::empty(),
            !r@.closed,
    {
        Subscription { queue: VecDeque::new(), closed: false }
    }

    /// Queues `event` behind everything sent before it. A closed channel
    /// discards it silently; the result says whether it was queued.
    pub fn send(&mut self, event: E) -> (delivered: bool)
        ensures
            final(self)@ == offer(old(self)@, event),
            delivered == !old(self)@.closed,
    {
        if self.closed {
            false
        } else {
            self.queue.push_back(event);
            true
        }
    }

    /// Takes the oldest pending event, if any.
    pub fn recv(&mut self) -> (r: Option<E>)
        ensures
            old(self)@.pending.len() == 0 ==> r.is_none() && final(self)@ == old(self)@,
            old(self)@.pending.len() > 0 ==> r == Some(old(self)@.pending[0]) && final(self)@
                == (ChannelModel { pending: old(self)@.pending.drop_first(), ..old(self)@ }),
    {
        self.queue.pop_front()
    }

    /// Marks the receiving side as gone: later sends are discarded. Events
    /// already queued stay receivable.
    pub fn close(&mut self)
        ensures
            final(self)@ == (ChannelModel { pending: old(self)@.pending, closed: true }),
    {
        self.closed = true;
    }

    pub fn is_closed(&self) -> (r: bool)
        ensures
            r == self@.closed,
    {
        self.closed
    }

    /// Number of events waiting to be received.
    pub fn len(&self) -> (r: usize)
        ensures
            r == self@.pending.len(),
    {
        self.queue.len()
    }

    pub fn is_empty(&self) -> (r: bool)
        ensures
            r == (self@.pending.len() == 0),
    {
        self.queue.len() == 0
    }
}

} // verus!
