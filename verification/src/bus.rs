//! The notification bus: multi-consumer fan-out of server events.
//!
//! Every published event is appended to one global publish order.  The bus
//! retains only the most recent `capacity` events; a subscriber that falls
//! behind the retained tail is told so by a distinguished lag outcome and is
//! then expected to tear its session down, rather than silently missing
//! events.  Publishing never blocks and never fails on account of a slow or
//! absent subscriber.
//!
//! The binary drives one subscriber per connection from its outbound task;
//! this model is the bus's contract: every subscriber observes the published
//! events in the global publish order, each at most once, with any gap
//! surfaced as an explicit lag.
use vstd::prelude::*;

use crate::messages::ServerMessage;
use crate::messages::ServerMessageView;

verus! {

/// What one receive attempt yields.
pub enum RecvOutcome {
    /// The next event in publish order.
    Event(ServerMessage),
    /// The subscriber fell behind the retained history and was repositioned
    /// to the oldest retained event; the session should treat this as fatal.
    Lagged,
    /// Nothing published yet beyond this subscriber's position.
    Pending,
}

/// The fan-out bus: a bounded buffer over an ever-growing publish order.
pub struct Bus {
    history: Vec<ServerMessage>,
    first_retained: usize,
    capacity: usize,
    published: Ghost<Seq<ServerMessageView>>,
}

/// A consumer's position in the publish order.
pub struct Subscriber {
    cursor: usize,
}

impl Subscriber {
    /// The index in the publish order of the next event this subscriber
    /// will observe.
    pub closed spec fn pos(&self) -> int {
        self.cursor as int
    }
}

impl Bus {
    /// Every event ever published, in publish order.
    pub closed spec fn log(&self) -> Seq<ServerMessageView> {
        self.published@
    }

    /// The number of events the bus retains for slow subscribers.
    pub closed spec fn cap(&self) -> int {
        self.capacity as int
    }

    /// The publish-order index of the oldest event still retained.
    pub closed spec fn oldest(&self) -> int {
        self.first_retained as int
    }

    pub closed spec fn wf(&self) -> bool {
        &&& self.capacity > 0
        &&& self.history@.len() <= self.capacity
        &&& self.log().len() <= usize::MAX
        &&& self.first_retained + self.history@.len() == self.log().len()
        &&& self.history.deep_view() == self.log().skip(self.first_retained as int)
    }

    /// A bus retaining at most `capacity` events.
    pub fn new(capacity: usize) -> (r: Bus)
        requires
            capacity > 0,
        ensures
            r.wf(),
            r.log() == Seq::<ServerMessageView>::empty(),
            r.cap() == capacity,
    {
        let r = Bus {
            history: Vec::new(),
            first_retained: 0,
            capacity,
            published: Ghost(Seq::empty()),
        };
        proof {
            assert(r.history.deep_view() =~= r.log().skip(0));
        }
        r
    }

    /// Appends `e` to the publish order, evicting the oldest retained event
    /// iff the buffer is already full — so the retained window, which `wf`
    /// ties to `log().skip(oldest())`, always holds the most recent events,
    /// the new one included.  Delivery to subscribers is their own pace;
    /// publishing itself cannot block or fail.
    pub fn publish(&mut self, e: ServerMessage)
        requires
            old(self).wf(),
            old(self).log().len() < usize::MAX,
        ensures
            final(self).wf(),
            final(self).log() == old(self).log().push(e.deep_view()),
            final(self).cap() == old(self).cap(),
            final(self).oldest() == if old(self).log().len() - old(self).oldest() < old(
                self,
            ).cap() {
                old(self).oldest()
            } else {
                old(self).oldest() + 1
            },
    {
        let ghost h0 = self.history@;
        let ghost l0 = self.published@;
        let ghost fr0 = self.first_retained as int;
        let ghost ev = e.deep_view();
        if self.history.len() == self.capacity {
            self.history.remove(0);
            self.first_retained += 1;
            proof {
                assert(self.history@ =~= h0.skip(1));
            }
        }
        self.history.push(e);
        proof {
            self.published = Ghost(l0.push(ev));
            let d = self.first_retained - fr0;
            assert forall|i: int| 0 <= i < self.history@.len() implies #[trigger] self
                .history
                .deep_view()[i] == self.published@.skip(self.first_retained as int)[i] by {
                if i < self.history@.len() - 1 {
                    assert(self.history@[i] == h0[d + i]);
                    assert(self.history.deep_view()[i] == old(self).history.deep_view()[d + i]);
                    assert(old(self).history.deep_view()[d + i] == l0[fr0 + d + i]);
                } else {
                    assert(self.history@[i] == e);
                }
            }
            assert(self.history.deep_view() =~= self.published@.skip(
                self.first_retained as int,
            ));
        }
    }

    /// A new subscription: it observes exactly the events published after
    /// this moment, in publish order.
    pub fn subscribe(&self) -> (r: Subscriber)
        requires
            self.wf(),
        ensures
            r.pos() == self.log().len(),
    {
        Subscriber { cursor: self.first_retained + self.history.len() }
    }

    /// One receive attempt for `sub`.  If the subscriber's next event is
    /// still retained, it is returned and the position advances by exactly
    /// one — so events are observed in publish order, each exactly once.  A
    /// position older than the retained tail yields `Lagged` and resets to
    /// the oldest retained event; a position at the end of the log yields
    /// `Pending` and changes nothing.
    pub fn recv(&self, sub: &mut Subscriber) -> (r: RecvOutcome)
        requires
            self.wf(),
            0 <= old(sub).pos() <= self.log().len(),
        ensures
            final(sub).pos() <= self.log().len(),
            final(sub).pos() >= old(sub).pos(),
            match r {
                RecvOutcome::Event(e) => {
                    &&& old(sub).pos() >= self.oldest()
                    &&& old(sub).pos() < self.log().len()
                    &&& e.deep_view() == self.log()[old(sub).pos()]
                    &&& final(sub).pos() == old(sub).pos() + 1
                },
                RecvOutcome::Lagged => {
                    &&& old(sub).pos() < self.oldest()
                    &&& final(sub).pos() == self.oldest()
                },
                RecvOutcome::Pending => {
                    &&& old(sub).pos() == self.log().len()
                    &&& final(sub).pos() == old(sub).pos()
                },
            },
    {
        if sub.cursor < self.first_retained {
            sub.cursor = self.first_retained;
            RecvOutcome::Lagged
        } else if sub.cursor - self.first_retained < self.history.len() {
            let e = self.history[sub.cursor - self.first_retained].clone();
            proof {
                assert(self.history.deep_view()[sub.cursor - self.first_retained] == self.log()[
                    sub.cursor as int]);
            }
            sub.cursor += 1;
            RecvOutcome::Event(e)
        } else {
            RecvOutcome::Pending
        }
    }

    /// Receives everything available for `sub`: the whole still-retained
    /// part of the log from the subscriber's position on, in publish order.
    pub fn drain(&self, sub: &mut Subscriber) -> (r: Vec<ServerMessage>)
        requires
            self.wf(),
            self.oldest() <= old(sub).pos() <= self.log().len(),
        ensures
            final(sub).pos() == self.log().len(),
            r.deep_view() == self.log().skip(old(sub).pos()),
    {
        let ghost start = sub.pos();
        let mut r: Vec<ServerMessage> = Vec::new();
        proof {
            assert(r.deep_view() =~= self.log().subrange(start, start));
        }
        loop
            invariant
                self.wf(),
                self.oldest() <= sub.pos() <= self.log().len(),
                0 <= start <= sub.pos(),
                r.deep_view() == self.log().subrange(start, sub.pos()),
            ensures
                sub.pos() == self.log().len(),
                r.deep_view() == self.log().subrange(start, sub.pos()),
            decreases self.log().len() - sub.pos(),
        {
            match self.recv(sub) {
                RecvOutcome::Event(e) => {
                    let ghost rd0 = r.deep_view();
                    let ghost rv0 = r@;
                    let ghost p0 = sub.pos() - 1;
                    r.push(e);
                    proof {
                        assert(rd0 == self.log().subrange(start, p0));
                        assert(rd0.len() == p0 - start);
                        assert(r@ == rv0.push(e));
                        assert forall|i: int| 0 <= i < r@.len() implies #[trigger] r.deep_view()[i]
                            == self.log().subrange(start, sub.pos())[i] by {
                            assert(self.log().subrange(start, sub.pos())[i] == self.log()[start
                                + i]);
                            if i < rv0.len() {
                                assert(r@[i] == rv0[i]);
                                assert(r.deep_view()[i] == rv0[i].deep_view());
                                assert(rd0[i] == rv0[i].deep_view());
                                assert(rd0[i] == self.log()[start + i]);
                            } else {
                                assert(r@[i] == e);
                                assert(r.deep_view()[i] == e.deep_view());
                                assert(e.deep_view() == self.log()[p0]);
                            }
                        }
                        assert(r.deep_view() =~= self.log().subrange(start, sub.pos()));
                    }
                },
                RecvOutcome::Lagged => {
                    proof {
                        assert(false);
                    }
                },
                RecvOutcome::Pending => {
                    break;
                },
            }
        }
        proof {
            assert(r.deep_view() =~= self.log().skip(start));
        }
        r
    }
}

/// Ordering of fan-out: what a subscriber observes is a contiguous,
/// in-order stretch of the publish order — if `e1` was published before
/// `e2` and a subscriber observes both, it observes `e1` first.
pub proof fn lemma_fanout_order(
    log: Seq<ServerMessageView>,
    start: int,
    i1: int,
    i2: int,
)
    requires
        0 <= start <= log.len(),
        0 <= i1 < i2 < log.skip(start).len(),
    ensures
        log.skip(start)[i1] == log[start + i1],
        log.skip(start)[i2] == log[start + i2],
        start + i1 < start + i2,
{
}

} // verus!
