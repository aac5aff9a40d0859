//! What the registry guarantees over any sequence of requests: every subscriber reads the
//! broadcast results in order and without gaps, for as long as its stream lasts.

use crate::proto::BlockHashView;
use crate::service::{delivery_of, DeliveryView, PolledView, SharedView};
use vstd::prelude::*;

verus! {

/// One request to the registry.
pub enum Event {
    /// A client subscribes under a name.
    Subscribe(Seq<char>),
    /// The broadcaster offers one engine result to every row.
    Broadcast(Option<BlockHashView>),
    /// The stream with this ticket is read once.
    Poll(u64),
    /// The client with this ticket goes away.
    Cancel(u64),
    /// The service ends: no row is sent to any more.
    Shut,
}

impl SharedView {
    /// The registry after one request. A subscription is served while tickets are left.
    pub open spec fn step(self, e: Event) -> SharedView {
        match e {
            Event::Subscribe(name) => if self.issued < u64::MAX {
                self.register(name)
            } else {
                self
            },
            Event::Broadcast(msg) => self.broadcast(msg),
            Event::Poll(ticket) => self.after_poll(ticket),
            Event::Cancel(ticket) => self.cancel(ticket),
            Event::Shut => self.shut(),
        }
    }

    /// The registry after a sequence of requests, served in order.
    pub open spec fn run(self, events: Seq<Event>) -> SharedView
        decreases events.len(),
    {
        if events.len() == 0 {
            self
        } else {
            self.step(events[0]).run(events.drop_first())
        }
    }

    /// What is queued for `ticket`: nothing when the registry has no such row.
    pub open spec fn outbox_of(self, ticket: u64) -> Seq<DeliveryView> {
        if self.subs.contains_key(ticket) {
            self.subs[ticket].outbox
        } else {
            Seq::empty()
        }
    }

    /// Whether the registry still sends to `ticket`.
    pub open spec fn is_live(self, ticket: u64) -> bool {
        self.subs.contains_key(ticket) && self.subs[ticket].live
    }

    /// The deliveries that the reads with `ticket` among the requests return, in order.
    pub open spec fn received(self, events: Seq<Event>, ticket: u64) -> Seq<DeliveryView>
        decreases events.len(),
    {
        if events.len() == 0 {
            Seq::empty()
        } else {
            let head = if events[0] == Event::Poll(ticket) && self.outbox_of(ticket).len() > 0 {
                seq![self.outbox_of(ticket)[0]]
            } else {
                Seq::empty()
            };
            head + self.step(events[0]).received(events.drop_first(), ticket)
        }
    }
}

/// The deliveries that the broadcasts among the requests offer, in order.
pub open spec fn emitted(events: Seq<Event>) -> Seq<DeliveryView>
    decreases events.len(),
{
    if events.len() == 0 {
        Seq::empty()
    } else {
        let head = match events[0] {
            Event::Broadcast(msg) => seq![delivery_of(msg)],
            _ => Seq::empty(),
        };
        head + emitted(events.drop_first())
    }
}

/// Every request keeps the registry valid.
pub proof fn lemma_step_wf(s: SharedView, e: Event)
    requires
        s.wf(),
    ensures
        s.step(e).wf(),
        s.step(e).issued >= s.issued,
{
    match e {
        Event::Subscribe(name) => {},
        Event::Broadcast(msg) => {},
        Event::Poll(ticket) => {},
        Event::Cancel(ticket) => {},
        Event::Shut => {},
    }
}

/// Every sequence of requests keeps the registry valid.
pub proof fn lemma_run_wf(s: SharedView, events: Seq<Event>)
    requires
        s.wf(),
    ensures
        s.run(events).wf(),
        s.run(events).issued >= s.issued,
    decreases events.len(),
{
    if events.len() > 0 {
        lemma_step_wf(s, events[0]);
        lemma_run_wf(s.step(events[0]), events.drop_first());
    }
}

proof fn lemma_prefix_extend<A>(a: Seq<A>, q: Seq<A>, r: Seq<A>)
    requires
        a.is_prefix_of(q),
    ensures
        a.is_prefix_of(q + r),
{
    assert(a =~= (q + r).subrange(0, a.len() as int));
}

proof fn lemma_prefix_cons<A>(x: A, a: Seq<A>, b: Seq<A>)
    requires
        a.is_prefix_of(b),
    ensures
        (seq![x] + a).is_prefix_of(seq![x] + b),
{
    assert((seq![x] + a) =~= (seq![x] + b).subrange(0, (seq![x] + a).len() as int));
}

/// What a stream has read plus what is still queued for it, after the requests.
pub open spec fn taken_or_queued(s: SharedView, events: Seq<Event>, ticket: u64) -> Seq<
    DeliveryView,
> {
    s.received(events, ticket) + s.run(events).outbox_of(ticket)
}

/// The general form of the ordering law, for a row in any state: what the stream reads
/// and still holds is a prefix of what it held before followed by the broadcasts; it is
/// all of that while the row stays live; and a row that was given up gets nothing more.
pub proof fn lemma_order_from(s: SharedView, events: Seq<Event>, ticket: u64)
    requires
        s.wf(),
        ticket < s.issued,
    ensures
        taken_or_queued(s, events, ticket).is_prefix_of(s.outbox_of(ticket) + emitted(events)),
        s.run(events).is_live(ticket) ==> s.is_live(ticket) && taken_or_queued(s, events, ticket)
            == s.outbox_of(ticket) + emitted(events),
        !s.is_live(ticket) ==> taken_or_queued(s, events, ticket).is_prefix_of(
            s.outbox_of(ticket),
        ),
    decreases events.len(),
{
    let q = s.outbox_of(ticket);
    if events.len() == 0 {
        assert(taken_or_queued(s, events, ticket) =~= q);
        assert(q + emitted(events) =~= q);
        assert(q =~= q.subrange(0, q.len() as int));
    } else {
        let e = events[0];
        let rest = events.drop_first();
        let s1 = s.step(e);
        let q1 = s1.outbox_of(ticket);
        lemma_step_wf(s, e);
        lemma_order_from(s1, rest, ticket);
        let total1 = taken_or_queued(s1, rest, ticket);
        let total = taken_or_queued(s, events, ticket);
        let head = if e == Event::Poll(ticket) && q.len() > 0 {
            seq![q[0]]
        } else {
            Seq::empty()
        };
        assert(total =~= head + total1);
        match e {
            Event::Subscribe(name) => {
                assert(q1 == q);
                assert(emitted(events) =~= emitted(rest));
                assert(total =~= total1);
            },
            Event::Broadcast(msg) => {
                let d = delivery_of(msg);
                assert(emitted(events) =~= seq![d] + emitted(rest));
                assert(total =~= total1);
                if s.is_live(ticket) && q.len() < s.capacity {
                    assert(q1 == q.push(d));
                    assert(q1 + emitted(rest) =~= q + emitted(events));
                } else {
                    assert(q1 == q);
                    assert(!s1.is_live(ticket));
                    lemma_prefix_extend(total1, q, emitted(events));
                }
            },
            Event::Poll(t) => {
                assert(emitted(events) =~= emitted(rest));
                if t == ticket && q.len() > 0 {
                    assert(q1 == q.drop_first());
                    assert(q =~= seq![q[0]] + q1);
                    lemma_prefix_cons(q[0], total1, q1 + emitted(rest));
                    assert(seq![q[0]] + (q1 + emitted(rest)) =~= q + emitted(events));
                    if !s.is_live(ticket) {
                        lemma_prefix_cons(q[0], total1, q1);
                    }
                } else if t == ticket {
                    assert(total =~= total1);
                    if s.is_live(ticket) {
                        assert(s1 == s);
                    } else {
                        assert(q1 =~= Seq::<DeliveryView>::empty());
                        assert(q =~= Seq::<DeliveryView>::empty());
                    }
                } else {
                    assert(total =~= total1);
                    assert(q1 == q);
                }
            },
            Event::Shut => {
                assert(q1 == q);
                assert(emitted(events) =~= emitted(rest));
                assert(total =~= total1);
                assert(!s1.is_live(ticket));
                lemma_prefix_extend(total1, q, emitted(events));
            },
            Event::Cancel(t) => {
                assert(emitted(events) =~= emitted(rest));
                assert(total =~= total1);
                if t == ticket {
                    assert(q1 =~= Seq::<DeliveryView>::empty());
                    assert(!s1.is_live(ticket));
                    assert(total1 =~= Seq::<DeliveryView>::empty());
                    assert(total1 =~= (q + emitted(events)).subrange(0, 0));
                    assert(total1 =~= q.subrange(0, 0));
                } else {
                    assert(q1 == q);
                }
            },
        }
    }
}

/// A subscriber whose outbox is empty reads, over any sequence of requests, a prefix of
/// the results broadcast during them, in broadcast order, an exhausted search standing at
/// its own position; and while its row is live, what it has read and what is queued for
/// it are together exactly those results.
pub proof fn lemma_subscriber_reads_prefix(s: SharedView, events: Seq<Event>, ticket: u64)
    requires
        s.wf(),
        s.subs.contains_key(ticket),
        s.subs[ticket].outbox.len() == 0,
    ensures
        s.received(events, ticket).is_prefix_of(emitted(events)),
        s.run(events).is_live(ticket) ==> s.received(events, ticket) + s.run(events).outbox_of(
            ticket,
        ) == emitted(events),
{
    lemma_order_from(s, events, ticket);
    let total = taken_or_queued(s, events, ticket);
    let r = s.received(events, ticket);
    assert(s.outbox_of(ticket) + emitted(events) =~= emitted(events));
    assert(r =~= total.subrange(0, r.len() as int));
    assert(r =~= emitted(events).subrange(0, r.len() as int));
}

/// After two subscriptions under one name in succession, the stream of the first has
/// ended and the stream of the second is live.
pub proof fn lemma_resubscription_displaces(s: SharedView, name: Seq<char>)
    requires
        s.wf(),
        s.issued + 1 < u64::MAX,
    ensures
        ({
            let first = s.issued as u64;
            let second = (s.issued + 1) as u64;
            let after = s.register(name).register(name);
            &&& after.wf()
            &&& first != second
            &&& !after.is_live(first)
            &&& after.polled(first) == PolledView::Ended
            &&& after.is_live(second)
            &&& after.polled(second) == PolledView::Pending
        }),
{
}

} // verus!
