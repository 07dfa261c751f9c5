//! The bounded first-in-first-out channel between the receive tasks and the aggregator.
//!
//! Every producer holds one sender; the channel is closed once the last sender is
//! given back, and a closed channel takes no further message.

use std::collections::VecDeque;
use vstd::prelude::*;

verus! {

/// What a channel is, mathematically: the messages in flight, oldest first, the bound
/// on their number, and the number of senders not yet given back.
pub struct ChannelView<M> {
    pub queue: Seq<M>,
    pub capacity: nat,
    pub senders: nat,
}

impl<M> ChannelView<M> {
    /// No sender is left: nothing can be enqueued any more.
    pub open spec fn closed(self) -> bool {
        self.senders == 0
    }

    /// A send would have to wait.
    pub open spec fn full(self) -> bool {
        self.queue.len() >= self.capacity
    }

    /// The channel after `message` was enqueued.
    pub open spec fn sent(self, message: M) -> Self {
        ChannelView { queue: self.queue.push(message), ..self }
    }

    /// The channel after its oldest message was taken.
    pub open spec fn received(self) -> Self {
        ChannelView { queue: self.queue.drop_first(), ..self }
    }

    /// The channel with its number of senders replaced.
    pub open spec fn with_senders(self, senders: nat) -> Self {
        ChannelView { senders, ..self }
    }
}

/// Why a message was not enqueued. The message comes back to the caller.
pub enum SendError<M> {
    /// The channel holds as many messages as it may: the producer has to wait.
    Full(M),
    /// Every sender was given back: sending now is a programming error.
    Closed(M),
}

/// Why no message was handed out.
#[derive(Clone, Copy, Debug, PartialEq, Eq, Structural)]
pub enum RecvError {
    /// Nothing is in flight, but a sender may still enqueue: the consumer has to wait.
    Empty,
    /// Nothing is in flight and no sender is left: the consumer is done.
    Closed,
}

pub struct Channel<M> {
    queue: VecDeque<M>,
    capacity: usize,
    senders: usize,
}

impl<M> View for Channel<M> {
    type V = ChannelView<M>;

    closed spec fn view(&self) -> ChannelView<M> {
        ChannelView {
            queue: self.queue@,
            capacity: self.capacity as nat,
            senders: self.senders as nat,
        }
    }
}

impl<M> Channel<M> {
    /// The bound is at least one and is respected.
    pub open spec fn wf(&self) -> bool {
        &&& 1 <= self@.capacity <= usize::MAX
        &&& self@.queue.len() <= self@.capacity
        &&& self@.senders <= usize::MAX
    }

    /// An empty channel for at most `capacity` messages, with one sender: the creator's.
    pub fn new(capacity: usize) -> (channel: Self)
        requires
            capacity >= 1,
        ensures
            channel.wf(),
            channel@ == (ChannelView::<M> { queue: Seq::empty(), capacity: capacity as nat, senders: 1 }),
    {
        Channel { queue: VecDeque::new(), capacity, senders: 1 }
    }

    /// Hands out one more sender, unless the channel is closed (it stays closed) or
    /// the count of senders would no longer fit.
    pub fn add_sender(&mut self) -> (added: bool)
        requires
            old(self).wf(),
        ensures
            final(self).wf(),
            added == (!old(self)@.closed() && old(self)@.senders < usize::MAX),
            final(self)@ == if added {
                old(self)@.with_senders(old(self)@.senders + 1)
            } else {
                old(self)@
            },
    {
        if self.senders == 0 || self.senders == usize::MAX {
            false
        } else {
            self.senders = self.senders + 1;
            true
        }
    }

    /// Takes one sender back. Returns whether that was the last one, so that the
    /// channel is closed from now on. On a closed channel nothing changes.
    pub fn drop_sender(&mut self) -> (closed_now: bool)
        requires
            old(self).wf(),
        ensures
            final(self).wf(),
            closed_now == (old(self)@.senders == 1),
            final(self)@ == if old(self)@.closed() {
                old(self)@
            } else {
                old(self)@.with_senders((old(self)@.senders - 1) as nat)
            },
    {
        if self.senders == 0 {
            false
        } else {
            self.senders = self.senders - 1;
            self.senders == 0
        }
    }

    /// Enqueues `message` if a sender is left and there is room; otherwise the
    /// channel is unchanged and the message comes back with the reason.
    pub fn try_send(&mut self, message: M) -> (sent: Result<(), SendError<M>>)
        requires
            old(self).wf(),
        ensures
            final(self).wf(),
            match sent {
                Ok(()) => {
                    &&& !old(self)@.closed()
                    &&& !old(self)@.full()
                    &&& final(self)@ == old(self)@.sent(message)
                },
                Err(SendError::Closed(back)) => {
                    &&& old(self)@.closed()
                    &&& back == message
                    &&& final(self)@ == old(self)@
                },
                Err(SendError::Full(back)) => {
                    &&& !old(self)@.closed()
                    &&& old(self)@.full()
                    &&& back == message
                    &&& final(self)@ == old(self)@
                },
            },
    {
        if self.senders == 0 {
            Err(SendError::Closed(message))
        } else if self.queue.len() >= self.capacity {
            Err(SendError::Full(message))
        } else {
            self.queue.push_back(message);
            Ok(())
        }
    }

    /// Hands out the oldest message in flight. Without one, says whether a sender
    /// could still enqueue (`Empty`) or not (`Closed`).
    pub fn try_recv(&mut self) -> (got: Result<M, RecvError>)
        requires
            old(self).wf(),
        ensures
            final(self).wf(),
            match got {
                Ok(message) => {
                    &&& old(self)@.queue.len() > 0
                    &&& message == old(self)@.queue[0]
                    &&& final(self)@ == old(self)@.received()
                },
                Err(RecvError::Empty) => {
                    &&& old(self)@.queue.len() == 0
                    &&& !old(self)@.closed()
                    &&& final(self)@ == old(self)@
                },
                Err(RecvError::Closed) => {
                    &&& old(self)@.queue.len() == 0
                    &&& old(self)@.closed()
                    &&& final(self)@ == old(self)@
                },
            },
    {
        match self.queue.pop_front() {
            Some(message) => Ok(message),
            None => if self.senders == 0 {
                Err(RecvError::Closed)
            } else {
                Err(RecvError::Empty)
            },
        }
    }

    /// How many messages are in flight.
    pub fn len(&self) -> (n: usize)
        requires
            self.wf(),
        ensures
            n == self@.queue.len(),
    {
        self.queue.len()
    }

    /// The most messages that may be in flight at once.
    pub fn capacity(&self) -> (n: usize)
        ensures
            n == self@.capacity,
    {
        self.capacity
    }

    /// How many senders are still out.
    pub fn senders(&self) -> (n: usize)
        ensures
            n == self@.senders,
    {
        self.senders
    }

    /// Whether every sender was given back.
    pub fn is_closed(&self) -> (closed: bool)
        ensures
            closed == self@.closed(),
    {
        self.senders == 0
    }
}

} // verus!
