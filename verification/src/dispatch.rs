//! The dispatcher: submissions go in at one end, the worker bridge runs the engine on one
//! block at a time, and every result is fanned out to the subscribers.

use crate::engine::{pow_in, solvable, PREFIX_ZERO_NUM};
use crate::mailbox::Mailbox;
use crate::proto::{Block, BlockHash, BlockHashView, BlockStatus, ClientInfo};
use crate::service::{names_of, Polled, Shared, SharedView, ACCEPTED, BUFFER_SIZE, REJECTED};
use vstd::prelude::*;

verus! {

/// The dispatcher as a mathematical value.
pub struct PowServiceView {
    /// Payloads waiting for the engine, oldest first.
    pub submissions: Seq<Seq<u8>>,
    /// Whether the bridge still takes submissions.
    pub accepting: bool,
    /// Engine results waiting to be broadcast, oldest first.
    pub results: Seq<Option<BlockHashView>>,
    pub shared: SharedView,
}

impl PowServiceView {
    /// Neither queue exceeds the capacity and the registry is valid.
    pub open spec fn wf(self) -> bool {
        &&& self.submissions.len() <= self.shared.capacity
        &&& self.results.len() <= self.shared.capacity
        &&& self.shared.wf()
    }

    /// Whether a submission made now is queued.
    pub open spec fn has_room(self) -> bool {
        self.accepting && self.submissions.len() < self.shared.capacity
    }

    /// The status code that a submission made now gets.
    pub open spec fn status(self) -> i32 {
        if self.has_room() {
            ACCEPTED
        } else {
            REJECTED
        }
    }

    /// The dispatcher after a submission: queued behind the others where there is room,
    /// dropped otherwise.
    pub open spec fn submit(self, payload: Seq<u8>) -> PowServiceView {
        if self.has_room() {
            PowServiceView { submissions: self.submissions.push(payload), ..self }
        } else {
            self
        }
    }

    /// Whether the bridge can take a block: one waits and its result will find room.
    pub open spec fn can_work(self) -> bool {
        self.submissions.len() > 0 && self.results.len() < self.shared.capacity
    }

    /// The service after a turn of the bridge with the given outcome of the engine.
    pub open spec fn work(self, outcome: Option<BlockHashView>) -> PowServiceView {
        if self.can_work() {
            PowServiceView {
                submissions: self.submissions.drop_first(),
                results: self.results.push(outcome),
                ..self
            }
        } else {
            self
        }
    }

    /// The service after a turn of the broadcaster.
    pub open spec fn relay(self) -> PowServiceView {
        if self.results.len() > 0 {
            PowServiceView {
                results: self.results.drop_first(),
                shared: self.shared.broadcast(self.results[0]),
                ..self
            }
        } else {
            self
        }
    }

    /// The status codes that the given submissions get, with nothing drained in between.
    pub open spec fn codes(self, payloads: Seq<Seq<u8>>) -> Seq<i32>
        decreases payloads.len(),
    {
        if payloads.len() == 0 {
            Seq::empty()
        } else {
            seq![self.status()] + self.submit(payloads[0]).codes(payloads.drop_first())
        }
    }

    /// Whether the service has ended: submissions are closed and everything is worked off
    /// and broadcast.
    pub open spec fn is_done(self) -> bool {
        !self.accepting && self.submissions.len() == 0 && self.results.len() == 0
    }

    /// The service after the bridge has closed: once it is done, every stream ends behind
    /// what is queued for it.
    pub open spec fn wind_down(self) -> PowServiceView {
        if self.is_done() {
            PowServiceView { shared: self.shared.shut(), ..self }
        } else {
            self
        }
    }

    /// The dispatcher after the given submissions, with nothing drained in between.
    pub open spec fn submit_all(self, payloads: Seq<Seq<u8>>) -> PowServiceView
        decreases payloads.len(),
    {
        if payloads.len() == 0 {
            self
        } else {
            self.submit(payloads[0]).submit_all(payloads.drop_first())
        }
    }
}

/// The build service: the two queues of the worker bridge and the subscriber registry.
#[derive(Debug)]
pub struct PowService {
    submissions: Mailbox<Block>,
    results: Mailbox<Option<BlockHash>>,
    shared: Shared,
}

impl View for PowService {
    type V = PowServiceView;

    closed spec fn view(&self) -> PowServiceView {
        PowServiceView {
            submissions: self.submissions.contents(),
            accepting: self.submissions.is_open(),
            results: self.results.contents(),
            shared: self.shared@,
        }
    }
}

impl PowService {
    /// The invariant of the dispatcher: both queues have the capacity of the service and the registry
    /// is valid.
    pub closed spec fn wf(&self) -> bool {
        &&& self.submissions.wf()
        &&& self.submissions.limit() == self.shared@.capacity
        &&& self.results.wf()
        &&& self.results.limit() == self.shared@.capacity
        &&& self.results.is_open()
        &&& self.shared.wf()
    }

    /// A valid dispatcher has a valid value.
    pub proof fn lemma_view_wf(&self)
        requires
            self.wf(),
        ensures
            self@.wf(),
    {
        self.shared.lemma_view_wf();
    }

    /// A service with empty queues of the standard size and no subscriber.
    pub fn new() -> (service: Self)
        ensures
            service.wf(),
            service@.submissions == Seq::<Seq<u8>>::empty(),
            service@.results == Seq::<Option<BlockHashView>>::empty(),
            service@.accepting,
            service@.shared.subs == Map::<u64, crate::service::SubscriberView>::empty(),
            service@.shared.issued == 0,
            service@.shared.capacity == BUFFER_SIZE,
    {
        PowService::with_buffer(BUFFER_SIZE)
    }

    /// A service without a subscriber whose queues, the two of the bridge and the one of
    /// every subscriber, are empty and hold `capacity` items each.
    pub fn with_buffer(capacity: usize) -> (service: Self)
        ensures
            service.wf(),
            service@.submissions == Seq::<Seq<u8>>::empty(),
            service@.results == Seq::<Option<BlockHashView>>::empty(),
            service@.accepting,
            service@.shared.subs == Map::<u64, crate::service::SubscriberView>::empty(),
            service@.shared.issued == 0,
            service@.shared.capacity == capacity,
    {
        PowService {
            submissions: Mailbox::new(capacity),
            results: Mailbox::new(capacity),
            shared: Shared::with_buffer(capacity),
        }
    }

    /// How many items each queue of the service holds.
    pub fn capacity(&self) -> (n: usize)
        ensures
            n == self@.shared.capacity,
    {
        self.shared.capacity()
    }

    /// Whether another subscription can be served.
    pub fn has_tickets(&self) -> (b: bool)
        requires
            self.wf(),
        ensures
            b == (self@.shared.issued < u64::MAX),
    {
        self.shared.has_tickets_left()
    }

    /// Registers the client under its name and returns the ticket its stream reads with.
    pub fn subscribe(&mut self, request: ClientInfo) -> (ticket: u64)
        requires
            old(self).wf(),
            old(self)@.shared.issued < u64::MAX,
        ensures
            final(self).wf(),
            ticket == old(self)@.shared.issued,
            final(self)@ == (PowServiceView {
                shared: old(self)@.shared.register(request@),
                ..old(self)@
            }),
    {
        self.shared.register(request.name)
    }

    /// Hands the block to the bridge without waiting for the engine: code `0` when it was
    /// queued, code `500` when the queue is full or the bridge has closed it.
    pub fn submit(&mut self, block: Block) -> (status: BlockStatus)
        requires
            old(self).wf(),
        ensures
            final(self).wf(),
            status.code == old(self)@.status(),
            final(self)@ == old(self)@.submit(block@),
    {
        match self.submissions.try_send(block) {
            Ok(()) => BlockStatus { code: ACCEPTED },
            Err(_) => BlockStatus { code: REJECTED },
        }
    }

    /// Closes the submission queue: every later submission is rejected. What is queued
    /// is still worked off.
    pub fn shutdown(&mut self)
        requires
            old(self).wf(),
        ensures
            final(self).wf(),
            final(self)@ == (PowServiceView { accepting: false, ..old(self)@ }),
    {
        self.submissions.close();
    }

    /// How many blocks wait for the engine.
    pub fn waiting(&self) -> (n: usize)
        ensures
            n == self@.submissions.len(),
    {
        self.submissions.len()
    }

    /// Whether submissions are still taken.
    pub fn is_accepting(&self) -> (b: bool)
        ensures
            b == self@.accepting,
    {
        !self.submissions.is_closed()
    }

    /// Whether the bridge can take a block now: one is waiting and its result will find
    /// room.
    pub fn has_work(&self) -> (b: bool)
        requires
            self.wf(),
        ensures
            b == self@.can_work(),
    {
        !self.submissions.is_empty() && !self.results.is_full()
    }

    /// Takes the oldest waiting block for the engine.
    pub fn take_submission(&mut self) -> (block: Option<Block>)
        requires
            old(self).wf(),
        ensures
            final(self).wf(),
            old(self)@.submissions.len() == 0 ==> block is None && final(self)@ == old(self)@,
            old(self)@.submissions.len() > 0 ==> (block matches Some(b) && b@ == old(self)@.submissions[0]),
            old(self)@.submissions.len() > 0 ==> final(self)@ == (PowServiceView {
                submissions: old(self)@.submissions.drop_first(),
                ..old(self)@
            }),
    {
        self.submissions.try_recv()
    }

    /// Queues an engine result for the broadcaster. When the queue is full the result
    /// comes back and nothing changes.
    pub fn post_result(&mut self, result: Option<BlockHash>) -> (refused: Option<Option<BlockHash>>)
        requires
            old(self).wf(),
        ensures
            final(self).wf(),
            old(self)@.results.len() < old(self)@.shared.capacity ==> refused is None && final(self)@ == (
            PowServiceView {
                results: old(self)@.results.push(result.deep_view()),
                ..old(self)@
            }),
            old(self)@.results.len() >= old(self)@.shared.capacity ==> refused == Some(result) && final(self)@
                == old(self)@,
    {
        if self.results.is_full() {
            return Some(result);
        }
        let _ = self.results.try_send(result);
        None
    }

    /// One turn of the worker bridge: takes the oldest waiting block, runs the engine on
    /// it and queues the outcome for the broadcaster. Nothing happens, and `false` comes
    /// back, when no block waits or the result queue is full.
    pub fn bridge_step(&mut self) -> (worked: bool)
        requires
            old(self).wf(),
        ensures
            final(self).wf(),
            worked == old(self)@.can_work(),
            !worked ==> final(self)@ == old(self)@,
            worked ==> final(self)@.results.len() > 0 && final(self)@ == old(self)@.work(
                final(self)@.results.last(),
            ) && is_outcome(old(self)@.submissions[0], final(self)@.results.last()),
    {
        if !self.has_work() {
            return false;
        }
        let block = self.take_submission();
        match block {
            Some(b) => {
                let found = pow_in(&b, PREFIX_ZERO_NUM, 0, u32::MAX);
                let _ = self.post_result(found);
                true
            },
            None => false,
        }
    }

    /// One turn of the broadcaster: takes the oldest engine result and offers it to every
    /// subscriber. `None` when no result waits; otherwise the names of the subscribers
    /// that were given up because their queue was full, each once.
    pub fn relay(&mut self) -> (refused: Option<Vec<String>>)
        requires
            old(self).wf(),
        ensures
            final(self).wf(),
            refused is Some <==> old(self)@.results.len() > 0,
            final(self)@ == old(self)@.relay(),
            refused matches Some(names) ==> names_of(names@).to_set() == old(self)@.shared.refused() && names_of(names@).no_duplicates(),
    {
        match self.results.try_recv() {
            None => None,
            Some(msg) => Some(self.shared.broadcast(msg)),
        }
    }

    /// Ends the streams once the service is done: submissions are closed, no block waits
    /// and no result is left to broadcast. Says whether it is.
    pub fn wind_down(&mut self) -> (done: bool)
        requires
            old(self).wf(),
        ensures
            final(self).wf(),
            done == old(self)@.is_done(),
            final(self)@ == old(self)@.wind_down(),
    {
        if self.submissions.is_closed() && self.submissions.is_empty() && self.results.is_empty() {
            self.shared.close_all();
            true
        } else {
            false
        }
    }

    /// Reads the stream of `ticket` once.
    pub fn poll(&mut self, ticket: u64) -> (polled: Polled)
        requires
            old(self).wf(),
        ensures
            final(self).wf(),
            polled@ == old(self)@.shared.polled(ticket),
            final(self)@ == (PowServiceView {
                shared: old(self)@.shared.after_poll(ticket),
                ..old(self)@
            }),
    {
        self.shared.poll(ticket)
    }

    /// Forgets the stream of `ticket`: its client went away.
    pub fn cancel(&mut self, ticket: u64)
        requires
            old(self).wf(),
        ensures
            final(self).wf(),
            final(self)@ == (PowServiceView {
                shared: old(self)@.shared.cancel(ticket),
                ..old(self)@
            }),
    {
        self.shared.cancel(ticket)
    }
}

/// Whether `outcome` is what the engine may return for the payload: a proof of work at
/// the standard difficulty, with an id and a hash of 32 bytes each, when one exists in
/// the nonce space, nothing otherwise.
pub open spec fn is_outcome(payload: Seq<u8>, outcome: Option<BlockHashView>) -> bool {
    &&& outcome is Some <==> solvable(payload, PREFIX_ZERO_NUM as nat, 0, u32::MAX)
    &&& outcome matches Some(h) ==> crate::engine::is_proof_of_work_value(
        payload,
        PREFIX_ZERO_NUM as nat,
        h,
    ) && h.id.len() == crate::engine::DIGEST_LEN && h.hash.len() == crate::engine::DIGEST_LEN
}

/// A submission is rejected exactly when the queue is full or closed.
pub proof fn lemma_status(s: PowServiceView)
    ensures
        s.status() == ACCEPTED <==> s.has_room(),
        s.status() == REJECTED <==> !s.has_room(),
{
}

/// With nothing drained, submissions are queued until the buffer is full and not after:
/// the queue grows to the capacity at most and keeps what it held.
pub proof fn lemma_submissions_fill(s: PowServiceView, payloads: Seq<Seq<u8>>)
    requires
        s.wf(),
        s.accepting,
    ensures
        s.submit_all(payloads).wf(),
        s.submit_all(payloads).accepting,
        s.submit_all(payloads).shared == s.shared,
        s.submit_all(payloads).submissions.len() == if s.submissions.len() + payloads.len()
            <= s.shared.capacity {
            s.submissions.len() + payloads.len()
        } else {
            s.shared.capacity
        },
        s.submissions.is_prefix_of(s.submit_all(payloads).submissions),
    decreases payloads.len(),
{
    if payloads.len() > 0 {
        let s1 = s.submit(payloads[0]);
        lemma_submissions_fill(s1, payloads.drop_first());
        let end = s1.submit_all(payloads.drop_first()).submissions;
        assert(s.submissions =~= end.subrange(0, s.submissions.len() as int));
    } else {
        assert(s.submissions =~= s.submissions.subrange(0, s.submissions.len() as int));
    }
}

/// Backpressure, code by code: with nothing drained, a submission is rejected with code
/// `500` exactly when as many submissions are outstanding as the buffer holds; every
/// other one is accepted with code `0`. With a buffer of two and four submissions the
/// codes are `0`, `0`, `500`, `500`.
pub proof fn lemma_backpressure_codes(s: PowServiceView, payloads: Seq<Seq<u8>>)
    requires
        s.wf(),
        s.accepting,
    ensures
        s.codes(payloads).len() == payloads.len(),
        forall|i: int|
            0 <= i < payloads.len() ==> #[trigger] s.codes(payloads)[i] == if s.submissions.len()
                + i < s.shared.capacity {
                ACCEPTED
            } else {
                REJECTED
            },
    decreases payloads.len(),
{
    if payloads.len() > 0 {
        let s1 = s.submit(payloads[0]);
        let rest = payloads.drop_first();
        lemma_backpressure_codes(s1, rest);
        let all = s.codes(payloads);
        assert forall|i: int| 0 <= i < payloads.len() implies #[trigger] all[i] == if s.submissions.len()
            + i < s.shared.capacity {
            ACCEPTED
        } else {
            REJECTED
        } by {
            if i > 0 {
                assert(all[i] == s1.codes(rest)[i - 1]);
            }
        }
    }
}

/// Backpressure: once as many submissions are outstanding as the buffer holds, with none
/// drained, the next one observes code `500`.
pub proof fn lemma_backpressure(s: PowServiceView, payloads: Seq<Seq<u8>>)
    requires
        s.wf(),
        s.accepting,
        s.submissions.len() + payloads.len() >= s.shared.capacity,
    ensures
        s.submit_all(payloads).status() == REJECTED,
{
    lemma_submissions_fill(s, payloads);
}

} // verus!
