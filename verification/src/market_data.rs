//! The market-data dispatcher core: a registry of subscribers, each with its
//! own queue, into which every quote read from the upstream session is
//! fanned out; and the reconnect policy of the work loop.
//!
//! Each subscriber's deliveries are exactly the dispatcher's reads from its
//! subscription point on, in read order: that invariant is carried by the
//! registry and exposed by `lemma_delivery_order`.

use vstd::prelude::*;
use crate::channel::{channel_queue, QuoteChannel};
use crate::domain::Quote;

verus! {

/// How long the work loop sleeps before reconnecting after a read failure,
/// in milliseconds.
pub const RECONNECT_DELAY_MS: u64 = 1000;

/// How long the work loop sleeps after a failed authenticate-and-connect,
/// in milliseconds.
pub const CONNECT_RETRY_DELAY_MS: u64 = 5000;

/// Where the dispatcher's work loop stands.
#[derive(Debug, Clone, Copy, PartialEq, Eq, Structural)]
pub enum DispatcherPhase {
    /// About to authenticate and connect.
    Connecting,
    /// Connected; reading frames.
    Reading,
    /// The shutdown flag was observed; the loop exits.
    Stopped,
}

/// What the work loop just observed.
#[derive(Debug, Clone, Copy, PartialEq, Eq, Structural)]
pub enum DispatcherEvent {
    Connected,
    ConnectFailed,
    FrameRead,
    ReadFailed,
}

/// What the work loop does next.
#[derive(Debug, Clone, Copy, PartialEq, Eq, Structural)]
pub enum DispatcherAction {
    /// Keep going in the new phase.
    Proceed,
    /// Sleep `RECONNECT_DELAY_MS`, then authenticate and connect again.
    SleepReconnect,
    /// Sleep `CONNECT_RETRY_DELAY_MS`, then authenticate and connect again.
    SleepConnectRetry,
    /// Leave the work loop.
    Exit,
}

/// The reconnect policy: read errors and unclean closes are transient, so
/// after one short sleep the loop re-enters the authenticate-and-connect
/// step; connect failures back off longer; the loop exits only when the
/// shutdown flag is observed.
pub fn dispatcher_step(phase: DispatcherPhase, event: DispatcherEvent, shutdown: bool) -> (r: (
    DispatcherPhase,
    DispatcherAction,
))
    ensures
        shutdown ==> r.0 is Stopped && r.1 is Exit,
        !shutdown && phase is Reading && event is ReadFailed ==> r.0 is Connecting
            && r.1 is SleepReconnect,
        !shutdown && phase is Reading && event is FrameRead ==> r.0 is Reading && r.1 is Proceed,
        !shutdown && phase is Connecting && event is Connected ==> r.0 is Reading
            && r.1 is Proceed,
        !shutdown && phase is Connecting && event is ConnectFailed ==> r.0 is Connecting
            && r.1 is SleepConnectRetry,
        phase is Stopped && !shutdown ==> r.0 is Stopped && r.1 is Exit,
{
    if shutdown {
        return (DispatcherPhase::Stopped, DispatcherAction::Exit);
    }
    match phase {
        DispatcherPhase::Connecting => {
            match event {
                DispatcherEvent::Connected => (DispatcherPhase::Reading, DispatcherAction::Proceed),
                _ => (DispatcherPhase::Connecting, DispatcherAction::SleepConnectRetry),
            }
        },
        DispatcherPhase::Reading => {
            match event {
                DispatcherEvent::FrameRead => (DispatcherPhase::Reading, DispatcherAction::Proceed),
                _ => (DispatcherPhase::Connecting, DispatcherAction::SleepReconnect),
            }
        },
        DispatcherPhase::Stopped => (DispatcherPhase::Stopped, DispatcherAction::Exit),
    }
}

/// The sleep an action asks for, in milliseconds.
pub fn action_delay_ms(action: DispatcherAction) -> (r: u64)
    ensures
        action is SleepReconnect ==> r == RECONNECT_DELAY_MS,
        action is SleepConnectRetry ==> r == CONNECT_RETRY_DELAY_MS,
        action is Proceed || action is Exit ==> r == 0,
{
    match action {
        DispatcherAction::SleepReconnect => RECONNECT_DELAY_MS,
        DispatcherAction::SleepConnectRetry => CONNECT_RETRY_DELAY_MS,
        DispatcherAction::Proceed => 0,
        DispatcherAction::Exit => 0,
    }
}

/// One registered subscriber: its queue of undelivered quotes, and (in ghost
/// state) what was already delivered to it and where in the read history it
/// subscribed.
pub struct Subscriber {
    pub token: u64,
    pub chan: QuoteChannel,
    pub delivered: Ghost<Seq<Quote>>,
    pub start: Ghost<int>,
}

/// A subscriber's deliveries followed by its queue are exactly the
/// dispatcher's reads from its subscription point on.
pub open spec fn sub_inv(s: Subscriber, reads: Seq<Quote>) -> bool {
    &&& 0 <= s.start@ <= reads.len()
    &&& s.delivered@ + channel_queue(s.chan) == reads.subrange(s.start@, reads.len() as int)
}

/// The dispatcher's subscriber registry, with the read history in ghost
/// state.
pub struct MarketData {
    pub subscribers: Vec<Subscriber>,
    pub next_token: u64,
    pub reads: Ghost<Seq<Quote>>,
}

fn subscriber_at<'a>(v: &'a mut Vec<Subscriber>, i: usize) -> (r: &'a mut Subscriber)
    requires
        i < old(v)@.len(),
    ensures
        *r == old(v)@[i as int],
        final(v)@ == old(v)@.update(i as int, *final(r)),
{
    &mut v[i]
}

impl MarketData {
    pub open spec fn wf(&self) -> bool {
        &&& forall|i: int|
            0 <= i < self.subscribers@.len() ==> sub_inv(#[trigger] self.subscribers@[i], self.reads@)
        &&& forall|i: int|
            0 <= i < self.subscribers@.len() ==> (#[trigger] self.subscribers@[i].token)
                < self.next_token
        &&& forall|i: int, j: int|
            0 <= i < j < self.subscribers@.len() ==> (#[trigger] self.subscribers@[i].token) != (
            #[trigger] self.subscribers@[j].token)
    }

    pub fn new() -> (r: Self)
        ensures
            r.wf(),
            r.subscribers@.len() == 0,
            r.reads@.len() == 0,
    {
        MarketData { subscribers: Vec::new(), next_token: 0, reads: Ghost(Seq::empty()) }
    }

    /// Registers a fresh subscriber with an empty unbounded queue and
    /// returns its token.
    pub fn subscribe(&mut self) -> (token: u64)
        requires
            old(self).wf(),
            old(self).next_token < 0xffffffffffffffff,
        ensures
            final(self).wf(),
            final(self).reads@ == old(self).reads@,
            final(self).subscribers@.len() == old(self).subscribers@.len() + 1,
            forall|i: int|
                0 <= i < old(self).subscribers@.len() ==> (#[trigger] final(self).subscribers@[i])
                    == old(self).subscribers@[i],
            final(self).subscribers@.last().token == token,
            final(self).subscribers@.last().delivered@.len() == 0,
            channel_queue(final(self).subscribers@.last().chan).len() == 0,
            token == old(self).next_token,
    {
        let token = self.next_token;
        let chan = QuoteChannel::new();
        let ghost start = self.reads@.len() as int;
        let sub = Subscriber { token, chan, delivered: Ghost(Seq::empty()), start: Ghost(start) };
        proof {
            assert(sub.delivered@ + channel_queue(sub.chan) =~= self.reads@.subrange(
                start,
                self.reads@.len() as int,
            ));
        }
        self.subscribers.push(sub);
        self.next_token = self.next_token + 1;
        token
    }

    /// Removes the subscriber with the given token.  Unsubscribing a token
    /// that is not registered — a duplicate unsubscribe — fails with its own
    /// kind.
    pub fn unsubscribe(&mut self, token: u64) -> (r: Result<(), String>)
        requires
            old(self).wf(),
        ensures
            final(self).wf(),
            final(self).reads@ == old(self).reads@,
            final(self).next_token == old(self).next_token,
            r is Ok <==> exists|i: int|
                0 <= i < old(self).subscribers@.len() && (#[trigger] old(
                    self,
                ).subscribers@[i].token) == token,
            r is Ok ==> exists|i: int|
                0 <= i < old(self).subscribers@.len() && old(self).subscribers@[i].token == token
                    && final(self).subscribers@ == old(self).subscribers@.remove(i),
            r is Err ==> final(self).subscribers@ == old(self).subscribers@ && r->Err_0@
                == "No such subscriber found"@,
    {
        let mut i: usize = 0;
        while i < self.subscribers.len()
            invariant
                self == old(self),
                old(self).wf(),
                0 <= i <= self.subscribers@.len(),
                forall|j: int| 0 <= j < i ==> (#[trigger] self.subscribers@[j].token) != token,
            decreases self.subscribers@.len() - i,
        {
            if self.subscribers[i].token == token {
                self.subscribers.remove(i);
                proof {
                    let olds = old(self).subscribers@;
                    let news = self.subscribers@;
                    assert(news == olds.remove(i as int));
                    assert(forall|j: int| 0 <= j < i ==> #[trigger] news[j] == olds[j]);
                    assert(forall|j: int|
                        i <= j < news.len() ==> #[trigger] news[j] == olds[j + 1]);
                }
                return Ok(());
            }
            i = i + 1;
        }
        Err(String::from_str("No such subscriber found"))
    }

    /// Fans one read quote out: it is appended to every subscriber's queue,
    /// and to the read history.
    pub fn dispatch(&mut self, quote: &Quote)
        requires
            old(self).wf(),
        ensures
            final(self).wf(),
            final(self).reads@ == old(self).reads@.push(*quote),
            final(self).next_token == old(self).next_token,
            final(self).subscribers@.len() == old(self).subscribers@.len(),
            forall|i: int|
                0 <= i < old(self).subscribers@.len() ==> {
                    let s0 = #[trigger] old(self).subscribers@[i];
                    let s1 = final(self).subscribers@[i];
                    &&& s1.token == s0.token
                    &&& s1.delivered@ == s0.delivered@
                    &&& s1.start@ == s0.start@
                    &&& channel_queue(s1.chan) == channel_queue(s0.chan).push(*quote)
                },
    {
        let ghost olds = self.subscribers@;
        let ghost oldreads = self.reads@;
        proof {
            self.reads@ = self.reads@.push(*quote);
        }
        let n: usize = self.subscribers.len();
        let mut i: usize = 0;
        while i < n
            invariant
                n == self.subscribers@.len() == olds.len(),
                self.reads@ == oldreads.push(*quote),
                self.next_token == old(self).next_token,
                olds == old(self).subscribers@,
                old(self).wf(),
                0 <= i <= n,
                forall|j: int|
                    0 <= j < n ==> {
                        let s0 = #[trigger] olds[j];
                        let s1 = self.subscribers@[j];
                        &&& s1.token == s0.token
                        &&& s1.delivered@ == s0.delivered@
                        &&& s1.start@ == s0.start@
                    },
                forall|j: int|
                    0 <= j < i ==> channel_queue(#[trigger] self.subscribers@[j].chan)
                        == channel_queue(olds[j].chan).push(*quote),
                forall|j: int|
                    i <= j < n ==> channel_queue(#[trigger] self.subscribers@[j].chan)
                        == channel_queue(olds[j].chan),
            decreases n - i,
        {
            let sub = subscriber_at(&mut self.subscribers, i);
            sub.chan.send(quote.clone());
            i = i + 1;
        }
        proof {
            assert forall|j: int| 0 <= j < n implies sub_inv(
                #[trigger] self.subscribers@[j],
                self.reads@,
            ) by {
                let s0 = olds[j];
                let s1 = self.subscribers@[j];
                assert(sub_inv(s0, oldreads));
                assert(self.reads@.subrange(s1.start@, self.reads@.len() as int)
                    =~= oldreads.subrange(s0.start@, oldreads.len() as int).push(*quote));
                assert(s1.delivered@ + channel_queue(s1.chan) =~= (s0.delivered@ + channel_queue(
                    s0.chan,
                )).push(*quote));
            }
        }
    }

    /// Hands the subscriber with the given token its next quote, if it has
    /// one queued; `None` for an unknown token or an empty queue.
    pub fn poll(&mut self, token: u64) -> (r: Option<Quote>)
        requires
            old(self).wf(),
        ensures
            final(self).wf(),
            final(self).reads@ == old(self).reads@,
            final(self).next_token == old(self).next_token,
            final(self).subscribers@.len() == old(self).subscribers@.len(),
            forall|i: int|
                0 <= i < old(self).subscribers@.len() && (#[trigger] old(
                    self,
                ).subscribers@[i].token) != token ==> final(self).subscribers@[i] == old(
                    self,
                ).subscribers@[i],
            forall|i: int|
                0 <= i < old(self).subscribers@.len() && (#[trigger] old(
                    self,
                ).subscribers@[i].token) == token ==> {
                    let s0 = old(self).subscribers@[i];
                    let s1 = final(self).subscribers@[i];
                    &&& s1.token == s0.token
                    &&& s1.start@ == s0.start@
                    &&& (channel_queue(s0.chan).len() == 0 ==> r is None && s1.delivered@
                        == s0.delivered@ && channel_queue(s1.chan) == channel_queue(s0.chan))
                    &&& (channel_queue(s0.chan).len() > 0 ==> r == Some(channel_queue(
                        s0.chan,
                    ).first()) && s1.delivered@ == s0.delivered@.push(channel_queue(s0.chan).first())
                        && channel_queue(s1.chan) == channel_queue(s0.chan).drop_first())
                },
            (forall|i: int|
                0 <= i < old(self).subscribers@.len() ==> (#[trigger] old(
                    self,
                ).subscribers@[i].token) != token) ==> r is None && final(self).subscribers@ == old(
                self,
            ).subscribers@,
    {
        let ghost olds = self.subscribers@;
        let n: usize = self.subscribers.len();
        let mut i: usize = 0;
        while i < n
            invariant
                self == old(self),
                olds == old(self).subscribers@,
                old(self).wf(),
                n == self.subscribers@.len(),
                0 <= i <= n,
                forall|j: int| 0 <= j < i ==> (#[trigger] self.subscribers@[j].token) != token,
            decreases n - i,
        {
            if self.subscribers[i].token == token {
                let sub = subscriber_at(&mut self.subscribers, i);
                let got = sub.chan.try_recv();
                let had_one = matches!(got, Some(_));
                proof {
                    if had_one {
                        sub.delivered@ = sub.delivered@.push(got->0);
                    }
                }
                proof {
                    let s0 = olds[i as int];
                    let s1 = self.subscribers@[i as int];
                    assert(self.subscribers@ == olds.update(i as int, s1));
                    assert(sub_inv(s0, self.reads@));
                    if had_one {
                        assert(channel_queue(s0.chan).len() > 0);
                        assert(got == Some(channel_queue(s0.chan).first()));
                        assert(s1.delivered@ + channel_queue(s1.chan) =~= s0.delivered@
                            + channel_queue(s0.chan)) by {
                            assert(channel_queue(s0.chan) =~= seq![
                                channel_queue(s0.chan).first(),
                            ] + channel_queue(s0.chan).drop_first());
                        }
                        assert(sub_inv(s1, self.reads@));
                    } else {
                        assert(s1.token == s0.token && s1.delivered@ == s0.delivered@
                            && s1.start@ == s0.start@ && channel_queue(s1.chan) == channel_queue(
                            s0.chan,
                        ));
                        assert(sub_inv(s1, self.reads@));
                    }
                    assert forall|j: int|
                        0 <= j < self.subscribers@.len() implies sub_inv(
                        #[trigger] self.subscribers@[j],
                        self.reads@,
                    ) by {
                        if j != i as int {
                            assert(self.subscribers@[j] == olds[j]);
                        }
                    }
                }
                return got;
            }
            i = i + 1;
        }
        None
    }

    /// Quote delivery order: what a subscriber has been handed is exactly
    /// the dispatcher's reads from the subscriber's registration on, in read
    /// order — the `k`-th delivery is the `(start + k)`-th read.
    pub proof fn lemma_delivery_order(&self, i: int)
        requires
            self.wf(),
            0 <= i < self.subscribers@.len(),
        ensures
            self.subscribers@[i].delivered@ == self.reads@.subrange(
                self.subscribers@[i].start@,
                self.subscribers@[i].start@ + self.subscribers@[i].delivered@.len(),
            ),
            forall|k: int|
                0 <= k < self.subscribers@[i].delivered@.len()
                    ==> (#[trigger] self.subscribers@[i].delivered@[k]) == self.reads@[
                    self.subscribers@[i].start@ + k],
    {
        let s = self.subscribers@[i];
        assert(sub_inv(s, self.reads@));
        let tail = self.reads@.subrange(s.start@, self.reads@.len() as int);
        assert(s.delivered@ + channel_queue(s.chan) == tail);
        assert forall|k: int| 0 <= k < s.delivered@.len() implies (#[trigger] s.delivered@[k])
            == self.reads@[s.start@ + k] by {
            assert((s.delivered@ + channel_queue(s.chan))[k] == s.delivered@[k]);
            assert(tail[k] == self.reads@[s.start@ + k]);
        }
        assert(s.delivered@ =~= self.reads@.subrange(s.start@, s.start@ + s.delivered@.len()));
    }
}

} // verus!
