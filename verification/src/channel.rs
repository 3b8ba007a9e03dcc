//! The per-subscriber quote queue, backed by a crossbeam unbounded channel
//! exactly as the live fan-out is.  Both halves of the channel live in one
//! value, so the queue has a single owner and its contents can be named.
//!
//! The unbounded flavor is a linked-list first-in-first-out queue: messages
//! come out in the order they were sent.

use vstd::prelude::*;
use crate::domain::Quote;

verus! {

/// A first-in-first-out queue of quotes: one crossbeam unbounded channel,
/// holding both the send and the receive half.
#[verifier::external_body]
pub struct QuoteChannel {
    sender: crossbeam_channel::Sender<Quote>,
    receiver: crossbeam_channel::Receiver<Quote>,
}

/// The quotes queued in the channel, oldest first.
pub uninterp spec fn channel_queue(c: QuoteChannel) -> Seq<Quote>;

impl QuoteChannel {
    /// Relies on crossbeam_channel::unbounded: a fresh channel holds no
    /// messages.
    #[verifier::external_body]
    pub fn new() -> (r: QuoteChannel)
        ensures
            channel_queue(r) == Seq::<Quote>::empty(),
    {
        let (sender, receiver) = crossbeam_channel::unbounded();
        QuoteChannel { sender, receiver }
    }

    /// Relies on crossbeam_channel::Sender::send: on an unbounded channel
    /// whose receiver is alive (it is owned here), the message is enqueued
    /// behind the ones already sent.
    #[verifier::external_body]
    pub fn send(&mut self, quote: Quote)
        ensures
            channel_queue(*final(self)) == channel_queue(*old(self)).push(quote),
    {
        let _ = self.sender.send(quote);
    }

    /// Relies on crossbeam_channel::Receiver::try_recv: the oldest queued
    /// message is returned immediately, or nothing when the queue is empty
    /// (the sender is owned here, so the channel is never disconnected).
    #[verifier::external_body]
    pub fn try_recv(&mut self) -> (r: Option<Quote>)
        ensures
            channel_queue(*old(self)).len() > 0 ==> r == Some(
                channel_queue(*old(self)).first(),
            ) && channel_queue(*final(self)) == channel_queue(*old(self)).drop_first(),
            channel_queue(*old(self)).len() == 0 ==> r is None && channel_queue(*final(self))
                == channel_queue(*old(self)),
    {
        match self.receiver.try_recv() {
            Ok(q) => Some(q),
            Err(_) => None,
        }
    }

    /// Relies on crossbeam_channel::Receiver::len: the number of messages
    /// queued.
    #[verifier::external_body]
    pub fn len(&self) -> (r: usize)
        ensures
            r == channel_queue(*self).len(),
    {
        self.receiver.len()
    }
}

} // verus!
