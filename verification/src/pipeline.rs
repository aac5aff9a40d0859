//! What the whole service guarantees over any sequence of steps: blocks are worked on in
//! the order in which they were accepted, results are broadcast in the order in which
//! they were found, and every subscriber reads a prefix of them.

use crate::dispatch::{is_outcome, PowServiceView};
use crate::fanout::{emitted, lemma_subscriber_reads_prefix, Event};
use crate::proto::BlockHashView;
use crate::service::{delivery_of, DeliveryView};
use vstd::prelude::*;

verus! {

/// One step of the service.
pub enum Step {
    /// A client subscribes under a name.
    Subscribe(Seq<char>),
    /// A client submits a payload.
    Submit(Seq<u8>),
    /// The bridge takes the oldest waiting block and queues this outcome of the engine.
    Work(Option<BlockHashView>),
    /// The broadcaster takes the oldest result and offers it to every subscriber.
    Relay,
    /// The stream with this ticket is read once.
    Poll(u64),
    /// The client with this ticket goes away.
    Cancel(u64),
    /// The bridge has closed: the streams end once the service is done.
    WindDown,
}

/// A block together with what the engine found for it.
pub type Worked = (Seq<u8>, Option<BlockHashView>);

impl PowServiceView {
    /// What a step means to the registry, if anything.
    pub open spec fn event_of(self, step: Step) -> Option<Event> {
        match step {
            Step::Subscribe(name) => Some(Event::Subscribe(name)),
            Step::Submit(_) => None,
            Step::Work(_) => None,
            Step::Relay => if self.results.len() > 0 {
                Some(Event::Broadcast(self.results[0]))
            } else {
                None
            },
            Step::Poll(ticket) => Some(Event::Poll(ticket)),
            Step::Cancel(ticket) => Some(Event::Cancel(ticket)),
            Step::WindDown => if self.is_done() {
                Some(Event::Shut)
            } else {
                None
            },
        }
    }

    /// The service after one step.
    pub open spec fn step(self, step: Step) -> PowServiceView {
        match step {
            Step::Submit(payload) => self.submit(payload),
            Step::Work(outcome) => self.work(outcome),
            Step::Relay => self.relay(),
            Step::WindDown => self.wind_down(),
            _ => PowServiceView { shared: self.shared.step(self.event_of(step)->0), ..self },
        }
    }

    /// The service after a sequence of steps.
    pub open spec fn run(self, steps: Seq<Step>) -> PowServiceView
        decreases steps.len(),
    {
        if steps.len() == 0 {
            self
        } else {
            self.step(steps[0]).run(steps.drop_first())
        }
    }

    /// What the steps mean to the registry, in order.
    pub open spec fn events_of(self, steps: Seq<Step>) -> Seq<Event>
        decreases steps.len(),
    {
        if steps.len() == 0 {
            Seq::empty()
        } else {
            let head = match self.event_of(steps[0]) {
                Some(e) => seq![e],
                None => Seq::empty(),
            };
            head + self.step(steps[0]).events_of(steps.drop_first())
        }
    }

    /// The payloads that the submissions among the steps got queued, in order.
    pub open spec fn accepted(self, steps: Seq<Step>) -> Seq<Seq<u8>>
        decreases steps.len(),
    {
        if steps.len() == 0 {
            Seq::empty()
        } else {
            let head = match steps[0] {
                Step::Submit(payload) => if self.has_room() {
                    seq![payload]
                } else {
                    Seq::empty()
                },
                _ => Seq::empty(),
            };
            head + self.step(steps[0]).accepted(steps.drop_first())
        }
    }

    /// The blocks that the bridge took among the steps, each with its outcome, in order.
    pub open spec fn worked(self, steps: Seq<Step>) -> Seq<Worked>
        decreases steps.len(),
    {
        if steps.len() == 0 {
            Seq::empty()
        } else {
            let head = match steps[0] {
                Step::Work(outcome) => if self.can_work() {
                    seq![(self.submissions[0], outcome)]
                } else {
                    Seq::empty()
                },
                _ => Seq::empty(),
            };
            head + self.step(steps[0]).worked(steps.drop_first())
        }
    }

    /// The results that the broadcaster took among the steps, in order.
    pub open spec fn relayed(self, steps: Seq<Step>) -> Seq<Option<BlockHashView>>
        decreases steps.len(),
    {
        if steps.len() == 0 {
            Seq::empty()
        } else {
            let head = match steps[0] {
                Step::Relay => if self.results.len() > 0 {
                    seq![self.results[0]]
                } else {
                    Seq::empty()
                },
                _ => Seq::empty(),
            };
            head + self.step(steps[0]).relayed(steps.drop_first())
        }
    }

    /// Whether every outcome that the bridge queues among the steps is one that the
    /// engine may return for the block it took.
    pub open spec fn engine_is_right(self, steps: Seq<Step>) -> bool
        decreases steps.len(),
    {
        if steps.len() == 0 {
            true
        } else {
            &&& steps[0] matches Step::Work(outcome) ==> (self.can_work() ==> is_outcome(
                self.submissions[0],
                outcome,
            ))
            &&& self.step(steps[0]).engine_is_right(steps.drop_first())
        }
    }
}

/// The payloads of the blocks.
pub open spec fn payloads(worked: Seq<Worked>) -> Seq<Seq<u8>> {
    Seq::new(worked.len(), |i: int| worked[i].0)
}

/// The outcomes for the blocks.
pub open spec fn outcomes(worked: Seq<Worked>) -> Seq<Option<BlockHashView>> {
    Seq::new(worked.len(), |i: int| worked[i].1)
}

/// The deliveries that stand for the results.
pub open spec fn deliveries(results: Seq<Option<BlockHashView>>) -> Seq<DeliveryView> {
    Seq::new(results.len(), |i: int| delivery_of(results[i]))
}

/// Every step keeps the service valid.
pub proof fn lemma_step_wf(s: PowServiceView, step: Step)
    requires
        s.wf(),
    ensures
        s.step(step).wf(),
{
    match s.event_of(step) {
        Some(e) => {
            crate::fanout::lemma_step_wf(s.shared, e);
        },
        None => {},
    }
}

/// The queues lose nothing and keep the order: what waited and what was accepted is what
/// was worked on followed by what still waits, and what was queued as a result and what
/// the engine found is what was broadcast followed by what is still queued.
pub proof fn lemma_queues_keep_order(s: PowServiceView, steps: Seq<Step>)
    ensures
        s.submissions + s.accepted(steps) == payloads(s.worked(steps)) + s.run(steps).submissions,
        s.results + outcomes(s.worked(steps)) == s.relayed(steps) + s.run(steps).results,
    decreases steps.len(),
{
    if steps.len() == 0 {
        assert(s.submissions + s.accepted(steps) =~= payloads(s.worked(steps)) + s.submissions);
        assert(s.results + outcomes(s.worked(steps)) =~= s.relayed(steps) + s.results);
    } else {
        let s1 = s.step(steps[0]);
        let rest = steps.drop_first();
        lemma_queues_keep_order(s1, rest);
        let w1 = s1.worked(rest);
        let w = s.worked(steps);
        match steps[0] {
            Step::Submit(payload) => {
                assert(w == w1);
                if s.has_room() {
                    assert(s.submissions + s.accepted(steps) =~= s1.submissions + s1.accepted(
                        rest,
                    ));
                } else {
                    assert(s.accepted(steps) =~= s1.accepted(rest));
                }
                assert(s.relayed(steps) =~= s1.relayed(rest));
            },
            Step::Work(outcome) => {
                assert(s.accepted(steps) =~= s1.accepted(rest));
                assert(s.relayed(steps) =~= s1.relayed(rest));
                if s.can_work() {
                    assert(w =~= seq![(s.submissions[0], outcome)] + w1);
                    assert(payloads(w) =~= seq![s.submissions[0]] + payloads(w1));
                    assert(outcomes(w) =~= seq![outcome] + outcomes(w1));
                    assert(s.submissions =~= seq![s.submissions[0]] + s1.submissions);
                    assert(s.submissions + s.accepted(steps) =~= seq![s.submissions[0]] + (
                    s1.submissions + s1.accepted(rest)));
                    assert(payloads(w) + s.run(steps).submissions =~= seq![s.submissions[0]] + (
                    payloads(w1) + s1.run(rest).submissions));
                    assert(s.results + outcomes(w) =~= s1.results + outcomes(w1));
                } else {
                    assert(w =~= w1);
                }
            },
            Step::Relay => {
                assert(w =~= w1);
                assert(s.accepted(steps) =~= s1.accepted(rest));
                if s.results.len() > 0 {
                    assert(s.results =~= seq![s.results[0]] + s1.results);
                    assert(s.results + outcomes(w) =~= seq![s.results[0]] + (s1.results
                        + outcomes(w1)));
                    assert(s.relayed(steps) + s.run(steps).results =~= seq![s.results[0]] + (
                    s1.relayed(rest) + s1.run(rest).results));
                } else {
                    assert(s.relayed(steps) =~= s1.relayed(rest));
                }
            },
            _ => {
                assert(w =~= w1);
                assert(s.accepted(steps) =~= s1.accepted(rest));
                assert(s.relayed(steps) =~= s1.relayed(rest));
            },
        }
    }
}

/// The registry sees the steps as its own requests, and what it broadcasts is what the
/// broadcaster took.
pub proof fn lemma_registry_follows(s: PowServiceView, steps: Seq<Step>)
    ensures
        s.run(steps).shared == s.shared.run(s.events_of(steps)),
        emitted(s.events_of(steps)) == deliveries(s.relayed(steps)),
    decreases steps.len(),
{
    if steps.len() == 0 {
        assert(emitted(s.events_of(steps)) =~= deliveries(s.relayed(steps)));
    } else {
        let s1 = s.step(steps[0]);
        let rest = steps.drop_first();
        lemma_registry_follows(s1, rest);
        let events = s.events_of(steps);
        let events1 = s1.events_of(rest);
        match s.event_of(steps[0]) {
            Some(e) => {
                assert(events =~= seq![e] + events1);
                assert(events.drop_first() =~= events1);
                assert(s1.shared == s.shared.step(e));
                match e {
                    Event::Broadcast(msg) => {
                        assert(s.relayed(steps) =~= seq![msg] + s1.relayed(rest));
                        assert(deliveries(s.relayed(steps)) =~= seq![delivery_of(msg)]
                            + deliveries(s1.relayed(rest)));
                    },
                    _ => {
                        assert(s.relayed(steps) =~= s1.relayed(rest));
                        assert(emitted(events) =~= emitted(events1));
                    },
                }
            },
            None => {
                assert(events =~= events1);
                assert(s1.shared == s.shared);
                assert(s.relayed(steps) =~= s1.relayed(rest));
            },
        }
    }
}

/// Where the engine is right at every turn of the bridge, every block that was worked on
/// has an outcome that the engine may return for it.
pub proof fn lemma_outcomes_are_right(s: PowServiceView, steps: Seq<Step>)
    requires
        s.engine_is_right(steps),
    ensures
        forall|i: int|
            0 <= i < s.worked(steps).len() ==> is_outcome(
                (#[trigger] s.worked(steps)[i]).0,
                s.worked(steps)[i].1,
            ),
    decreases steps.len(),
{
    if steps.len() > 0 {
        let s1 = s.step(steps[0]);
        let rest = steps.drop_first();
        lemma_outcomes_are_right(s1, rest);
        let w = s.worked(steps);
        let w1 = s1.worked(rest);
        assert forall|i: int| 0 <= i < w.len() implies is_outcome((#[trigger] w[i]).0, w[i].1) by {
            if w.len() == w1.len() {
                assert(w =~= w1);
            } else {
                assert(w =~= seq![w[0]] + w1);
                if i > 0 {
                    assert(w[i] == w1[i - 1]);
                }
            }
        }
    }
}

/// The order of the whole service. From a state with empty queues, over any sequence of
/// steps, a subscriber with an empty outbox reads a prefix of the outcomes for the blocks
/// that were worked on, in their order, an exhausted search standing at its own position
/// as the surrogate; those blocks are a prefix of the accepted submissions, in their
/// order; and where the engine is right at every turn, each outcome is one that the
/// engine may return for its block.
pub proof fn lemma_service_keeps_order(s: PowServiceView, steps: Seq<Step>, ticket: u64)
    requires
        s.wf(),
        s.submissions.len() == 0,
        s.results.len() == 0,
        s.shared.subs.contains_key(ticket),
        s.shared.subs[ticket].outbox.len() == 0,
    ensures
        s.shared.received(s.events_of(steps), ticket).is_prefix_of(
            deliveries(outcomes(s.worked(steps))),
        ),
        payloads(s.worked(steps)).is_prefix_of(s.accepted(steps)),
        s.engine_is_right(steps) ==> forall|i: int|
            0 <= i < s.worked(steps).len() ==> is_outcome(
                (#[trigger] s.worked(steps)[i]).0,
                s.worked(steps)[i].1,
            ),
{
    let events = s.events_of(steps);
    let got = s.shared.received(events, ticket);
    let found = outcomes(s.worked(steps));
    let sent = s.relayed(steps);
    lemma_subscriber_reads_prefix(s.shared, events, ticket);
    lemma_registry_follows(s, steps);
    lemma_queues_keep_order(s, steps);
    assert(s.results + found =~= found);
    assert(s.submissions + s.accepted(steps) =~= s.accepted(steps));
    assert(sent =~= found.subrange(0, sent.len() as int));
    assert(deliveries(sent) =~= deliveries(found).subrange(0, sent.len() as int));
    assert(got =~= deliveries(found).subrange(0, got.len() as int));
    assert(payloads(s.worked(steps)) =~= s.accepted(steps).subrange(
        0,
        payloads(s.worked(steps)).len() as int,
    ));
    if s.engine_is_right(steps) {
        lemma_outcomes_are_right(s, steps);
    }
}

} // verus!
