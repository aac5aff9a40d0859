//! The subscriber registry and the dispatcher of the build service, as a state machine:
//! every request and every step of the worker bridge is one call that moves the state.

use crate::mailbox::Mailbox;
use crate::proto::{BlockHash, BlockHashView};
use vstd::prelude::*;

verus! {

/// Capacity of every queue of the service, unless another one is asked for.
pub const BUFFER_SIZE: usize = 8;

/// Status code of a submission that was queued.
pub const ACCEPTED: i32 = 0;

/// Status code of a submission that the bridge did not take.
pub const REJECTED: i32 = 500;

/// What a subscriber finds on its stream for one submission.
#[derive(Debug, PartialEq, Eq)]
pub enum Delivery {
    /// The proof of work that the engine found.
    Found(BlockHash),
    /// The engine went through the whole nonce space without a match.
    Exhausted,
}

/// Mathematical value of a [`Delivery`].
pub enum DeliveryView {
    Found(BlockHashView),
    Exhausted,
}

impl View for Delivery {
    type V = DeliveryView;

    open spec fn view(&self) -> DeliveryView {
        match self {
            Delivery::Found(h) => DeliveryView::Found(h@),
            Delivery::Exhausted => DeliveryView::Exhausted,
        }
    }
}

impl DeepView for Delivery {
    type V = DeliveryView;

    open spec fn deep_view(&self) -> DeliveryView {
        self@
    }
}

/// The delivery that stands for an engine result.
pub open spec fn delivery_of(msg: Option<BlockHashView>) -> DeliveryView {
    match msg {
        Some(h) => DeliveryView::Found(h),
        None => DeliveryView::Exhausted,
    }
}

/// Builds the delivery for one subscriber: a copy of the result, or the surrogate for an
/// exhausted search.
pub fn surrogate(msg: &Option<BlockHash>) -> (d: Delivery)
    ensures
        d@ == delivery_of(msg.deep_view()),
{
    match msg {
        Some(h) => Delivery::Found(h.clone()),
        None => Delivery::Exhausted,
    }
}

/// What one read of a subscriber's stream gives.
#[derive(Debug, PartialEq, Eq)]
pub enum Polled {
    /// The next delivery, in broadcast order.
    Item(Delivery),
    /// Nothing is queued and the stream is still live.
    Pending,
    /// The stream has ended.
    Ended,
}

/// Mathematical value of a [`Polled`].
pub enum PolledView {
    Item(DeliveryView),
    Pending,
    Ended,
}

impl View for Polled {
    type V = PolledView;

    open spec fn view(&self) -> PolledView {
        match self {
            Polled::Item(d) => PolledView::Item(d@),
            Polled::Pending => PolledView::Pending,
            Polled::Ended => PolledView::Ended,
        }
    }
}

/// One row of the registry as a mathematical value.
pub struct SubscriberView {
    pub name: Seq<char>,
    /// Deliveries queued for the client, oldest first.
    pub outbox: Seq<DeliveryView>,
    /// Whether the registry still sends to this row.
    pub live: bool,
}

/// The registry as a mathematical value: its rows by ticket, and the number of tickets
/// handed out so far.
pub struct SharedView {
    pub subs: Map<u64, SubscriberView>,
    pub issued: nat,
    /// How many deliveries the queue of a row holds.
    pub capacity: nat,
}

impl SubscriberView {
    /// The row after one broadcast: a live row with room queues the delivery, a live row
    /// without room is given up, a row given up earlier stays as it is.
    pub open spec fn offered(self, d: DeliveryView, capacity: nat) -> SubscriberView {
        if !self.live {
            self
        } else if self.outbox.len() < capacity {
            SubscriberView { outbox: self.outbox.push(d), ..self }
        } else {
            SubscriberView { live: false, ..self }
        }
    }

    /// Whether a broadcast gives the row up: it is live and its queue is full.
    pub open spec fn is_refused(self, capacity: nat) -> bool {
        self.live && self.outbox.len() >= capacity
    }

    /// The row once the registry has stopped sending to it.
    pub open spec fn given_up(self) -> SubscriberView {
        SubscriberView { live: false, ..self }
    }

    /// The row after a registration under `name`: a live row of that name is displaced.
    pub open spec fn displaced_by(self, name: Seq<char>) -> SubscriberView {
        if self.live && self.name == name {
            SubscriberView { live: false, ..self }
        } else {
            self
        }
    }
}

impl SharedView {
    /// Tickets are below the counter, no outbox exceeds the capacity, and no two live
    /// rows share a name.
    pub open spec fn wf(self) -> bool {
        &&& forall|t: u64| #[trigger]
            self.subs.contains_key(t) ==> t < self.issued && self.subs[t].outbox.len()
                <= self.capacity
        &&& forall|t1: u64, t2: u64|
            #![trigger self.subs[t1], self.subs[t2]]
            self.subs.contains_key(t1) && self.subs.contains_key(t2) && self.subs[t1].live
                && self.subs[t2].live && self.subs[t1].name == self.subs[t2].name ==> t1 == t2
    }

    /// The registry after `name` subscribed: the new row has the next ticket and an empty
    /// outbox, and an older live row of the same name is displaced.
    pub open spec fn register(self, name: Seq<char>) -> SharedView {
        let ticket = self.issued as u64;
        SharedView {
            subs: Map::new(
                |t: u64| t == ticket || self.subs.contains_key(t),
                |t: u64|
                    if t == ticket {
                        SubscriberView { name, outbox: Seq::empty(), live: true }
                    } else {
                        self.subs[t].displaced_by(name)
                    },
            ),
            issued: self.issued + 1,
            capacity: self.capacity,
        }
    }

    /// Whether the row of `ticket` goes by `name` and is given up by a broadcast.
    pub open spec fn names_refused(self, ticket: u64, name: Seq<char>) -> bool {
        self.subs.contains_key(ticket) && self.subs[ticket].is_refused(self.capacity)
            && self.subs[ticket].name
            == name
    }

    /// The names of the rows that a broadcast gives up.
    pub open spec fn refused(self) -> Set<Seq<char>> {
        Set::new(|name: Seq<char>| exists|t: u64| self.names_refused(t, name))
    }

    /// The registry after one engine result was offered to every row.
    pub open spec fn broadcast(self, msg: Option<BlockHashView>) -> SharedView {
        SharedView {
            subs: Map::new(
                |t: u64| self.subs.contains_key(t),
                |t: u64| self.subs[t].offered(delivery_of(msg), self.capacity),
            ),
            issued: self.issued,
            capacity: self.capacity,
        }
    }

    /// What a read with `ticket` gives: the oldest queued delivery, else `Pending` on a
    /// live row, else `Ended`.
    pub open spec fn polled(self, ticket: u64) -> PolledView {
        if !self.subs.contains_key(ticket) {
            PolledView::Ended
        } else if self.subs[ticket].outbox.len() > 0 {
            PolledView::Item(self.subs[ticket].outbox[0])
        } else if self.subs[ticket].live {
            PolledView::Pending
        } else {
            PolledView::Ended
        }
    }

    /// The registry after a read with `ticket`: a delivery leaves the outbox; a row that
    /// was given up and is drained leaves the registry.
    pub open spec fn after_poll(self, ticket: u64) -> SharedView {
        if !self.subs.contains_key(ticket) {
            self
        } else if self.subs[ticket].outbox.len() > 0 {
            SharedView {
                subs: self.subs.insert(
                    ticket,
                    SubscriberView {
                        outbox: self.subs[ticket].outbox.drop_first(),
                        ..self.subs[ticket]
                    },
                ),
                ..self
            }
        } else if self.subs[ticket].live {
            self
        } else {
            SharedView { subs: self.subs.remove(ticket), ..self }
        }
    }

    /// The registry after the service has ended: no row is sent to any more, and every
    /// stream ends once it is drained.
    pub open spec fn shut(self) -> SharedView {
        SharedView {
            subs: Map::new(|t: u64| self.subs.contains_key(t), |t: u64| self.subs[t].given_up()),
            issued: self.issued,
            capacity: self.capacity,
        }
    }

    /// The registry after the client with `ticket` went away.
    pub open spec fn cancel(self, ticket: u64) -> SharedView {
        SharedView { subs: self.subs.remove(ticket), ..self }
    }
}

/// The names as sequences of characters.
pub open spec fn names_of(names: Seq<String>) -> Seq<Seq<char>> {
    Seq::new(names.len(), |i: int| names[i]@)
}

/// One row of the registry: the client's name, the ticket its stream reads with, and the
/// queue between the broadcaster and that stream.
#[derive(Debug)]
pub struct Subscriber {
    name: String,
    ticket: u64,
    outbox: Mailbox<Delivery>,
}

impl View for Subscriber {
    type V = SubscriberView;

    closed spec fn view(&self) -> SubscriberView {
        SubscriberView {
            name: self.name@,
            outbox: self.outbox.contents(),
            live: self.outbox.is_open(),
        }
    }
}

/// Table of all clients subscribed to the service.
#[derive(Debug)]
pub struct Shared {
    clients: Vec<Subscriber>,
    issued: u64,
    capacity: usize,
}

impl View for Shared {
    type V = SharedView;

    closed spec fn view(&self) -> SharedView {
        SharedView {
            subs: Map::new(
                |t: u64| self.has(t),
                |t: u64| self.clients[self.index_of(t)]@,
            ),
            issued: self.issued as nat,
            capacity: self.capacity as nat,
        }
    }
}

impl Shared {
    spec fn has(&self, ticket: u64) -> bool {
        exists|i: int| 0 <= i < self.clients.len() && #[trigger] self.clients[i].ticket == ticket
    }

    spec fn index_of(&self, ticket: u64) -> int {
        choose|i: int| 0 <= i < self.clients.len() && #[trigger] self.clients[i].ticket == ticket
    }

    spec fn rows_wf(&self) -> bool {
        &&& forall|i: int|
            0 <= i < self.clients.len() ==> (#[trigger] self.clients[i]).outbox.wf()
                && self.clients[i].outbox.limit() == self.capacity && self.clients[i].ticket
                < self.issued
        &&& forall|i: int, j: int|
            0 <= i < self.clients.len() && 0 <= j < self.clients.len() && (
            #[trigger] self.clients[i]).ticket == (#[trigger] self.clients[j]).ticket ==> i == j
    }

    /// The invariant of the registry: what [`SharedView::wf`] says of its value, and that
    /// every row has a ticket of its own and a queue of the registry's capacity.
    pub closed spec fn wf(&self) -> bool {
        &&& self.rows_wf()
        &&& self@.wf()
    }

    /// Whether another ticket can be handed out.
    pub open spec fn has_tickets(&self) -> bool {
        self@.issued < u64::MAX
    }

    /// Whether another ticket can be handed out.
    pub fn has_tickets_left(&self) -> (b: bool)
        ensures
            b == self.has_tickets(),
    {
        self.issued < u64::MAX
    }

    proof fn lemma_row(&self, i: int)
        requires
            self.rows_wf(),
            0 <= i < self.clients.len(),
        ensures
            self.has(self.clients[i].ticket),
            self.index_of(self.clients[i].ticket) == i,
            self@.subs.contains_key(self.clients[i].ticket),
            self@.subs[self.clients[i].ticket] == self.clients[i]@,
    {
    }

    /// A registry that has a valid value is valid.
    pub proof fn lemma_view_wf(&self)
        requires
            self.wf(),
        ensures
            self@.wf(),
    {
    }

    /// An empty registry whose rows get queues of the standard size.
    pub fn new() -> (shared: Self)
        ensures
            shared.wf(),
            shared@.subs == Map::<u64, SubscriberView>::empty(),
            shared@.issued == 0,
            shared@.capacity == BUFFER_SIZE,
    {
        Shared::with_buffer(BUFFER_SIZE)
    }

    /// An empty registry whose rows get queues for `capacity` deliveries.
    pub fn with_buffer(capacity: usize) -> (shared: Self)
        ensures
            shared.wf(),
            shared@.subs == Map::<u64, SubscriberView>::empty(),
            shared@.issued == 0,
            shared@.capacity == capacity,
    {
        let shared = Shared { clients: Vec::new(), issued: 0, capacity };
        assert(shared@.subs =~= Map::<u64, SubscriberView>::empty());
        shared
    }

    /// How many deliveries the queue of a row holds.
    pub fn capacity(&self) -> (n: usize)
        ensures
            n == self@.capacity,
    {
        self.capacity
    }

    /// Number of rows, those given up and not yet drained included.
    pub fn len(&self) -> (n: usize)
        requires
            self.wf(),
        ensures
            n == self@.subs.dom().len(),
            self@.subs.dom().finite(),
    {
        proof {
            self.lemma_dom_len(self.clients.len() as int);
            assert(self.prefix_dom(self.clients.len() as int) =~= self@.subs.dom());
        }
        self.clients.len()
    }

    spec fn prefix_dom(&self, n: int) -> Set<u64> {
        Set::new(|t: u64| exists|i: int| 0 <= i < n && #[trigger] self.clients[i].ticket == t)
    }

    proof fn lemma_dom_len(&self, n: int)
        requires
            self.rows_wf(),
            0 <= n <= self.clients.len(),
        ensures
            self.prefix_dom(n).finite(),
            self.prefix_dom(n).len() == n,
        decreases n,
    {
        if n == 0 {
            assert(self.prefix_dom(0) =~= Set::<u64>::empty());
        } else {
            self.lemma_dom_len(n - 1);
            assert(self.prefix_dom(n) =~= self.prefix_dom(n - 1).insert(
                self.clients[n - 1].ticket,
            ));
        }
    }

    fn position(&self, ticket: u64) -> (at: Option<usize>)
        requires
            self.rows_wf(),
        ensures
            at matches Some(i) ==> i < self.clients.len() && self.clients[i as int].ticket
                == ticket,
            at is None ==> !self.has(ticket),
    {
        let mut i: usize = 0;
        while i < self.clients.len()
            invariant
                i <= self.clients.len(),
                forall|k: int| 0 <= k < i ==> (#[trigger] self.clients[k]).ticket != ticket,
            decreases self.clients.len() - i,
        {
            if self.clients[i].ticket == ticket {
                return Some(i);
            }
            i += 1;
        }
        None
    }

    /// Registers `name` and returns the ticket of its stream. An older live row of the
    /// same name is displaced: its stream ends once it is drained.
    pub fn register(&mut self, name: String) -> (ticket: u64)
        requires
            old(self).wf(),
            old(self).has_tickets(),
        ensures
            final(self).wf(),
            ticket == old(self)@.issued,
            final(self)@ == old(self)@.register(name@),
    {
        let n = self.clients.len();
        let mut i: usize = 0;
        while i < n
            invariant
                i <= n,
                n == self.clients.len(),
                n == old(self).clients.len(),
                self.issued == old(self).issued,
                self.capacity == old(self).capacity,
                old(self).rows_wf(),
                self.rows_wf(),
                forall|k: int|
                    0 <= k < n ==> (#[trigger] self.clients[k]).ticket == old(self).clients[k].ticket,
                forall|k: int|
                    0 <= k < i ==> (#[trigger] self.clients[k])@ == old(self).clients[k]@.displaced_by(name@),
                forall|k: int| i <= k < n ==> (#[trigger] self.clients[k])@ == old(self).clients[k]@,
            decreases n - i,
        {
            let same = self.clients[i].name == name;
            if same && !self.clients[i].outbox.is_closed() {
                self.clients[i].outbox.close();
            }
            i += 1;
        }
        let ticket = self.issued;
        let ghost before = *self;
        self.clients.push(Subscriber { name, ticket, outbox: Mailbox::new(self.capacity) });
        self.issued = self.issued + 1;
        proof {
            assert(self.rows_wf());
            let goal = old(self)@.register(name@);
            assert forall|t: u64| self@.subs.contains_key(t) == goal.subs.contains_key(t) by {
                if t == ticket {
                    self.lemma_row(n as int);
                } else if old(self).has(t) {
                    let k = old(self).index_of(t);
                    self.lemma_row(k);
                } else if self.has(t) {
                    let k = self.index_of(t);
                    if k < n {
                        old(self).lemma_row(k);
                    }
                }
            }
            assert forall|t: u64| self@.subs.contains_key(t) implies self@.subs[t]
                == goal.subs[t] by {
                let k = self.index_of(t);
                self.lemma_row(k);
                if k < n {
                    old(self).lemma_row(k);
                }
            }
            assert(self@.subs =~= goal.subs);
            old(self).lemma_view_wf();
            assert(self@.wf()) by {
                assert(goal.wf());
            }
        }
        ticket
    }

    /// Offers one engine result to every live row without waiting: a copy of the result, or
    /// the exhausted surrogate where the engine found nothing. A row whose queue is full is
    /// given up; the others are not affected by that. The names of the rows given up come
    /// back, each once, for the caller to report.
    pub fn broadcast(&mut self, msg: Option<BlockHash>) -> (refused: Vec<String>)
        requires
            old(self).wf(),
        ensures
            final(self).wf(),
            final(self)@ == old(self)@.broadcast(msg.deep_view()),
            names_of(refused@).to_set() == old(self)@.refused(),
            names_of(refused@).no_duplicates(),
    {
        let n = self.clients.len();
        let ghost d = delivery_of(msg.deep_view());
        let mut refused: Vec<String> = Vec::new();
        let ghost mut from: Seq<int> = Seq::empty();
        let mut i: usize = 0;
        while i < n
            invariant
                i <= n,
                n == self.clients.len(),
                n == old(self).clients.len(),
                self.issued == old(self).issued,
                self.capacity == old(self).capacity,
                old(self).rows_wf(),
                self.rows_wf(),
                d == delivery_of(msg.deep_view()),
                forall|k: int|
                    0 <= k < n ==> (#[trigger] self.clients[k]).ticket == old(self).clients[k].ticket,
                forall|k: int|
                    0 <= k < i ==> (#[trigger] self.clients[k])@ == old(self).clients[k]@.offered(
                        d,
                        self.capacity as nat,
                    ),
                forall|k: int| i <= k < n ==> (#[trigger] self.clients[k])@ == old(self).clients[k]@,
                from.len() == refused@.len(),
                forall|x: int|
                    0 <= x < from.len() ==> 0 <= (#[trigger] from[x]) < i && old(self).clients[from[x]]@.is_refused(self.capacity as nat)
                        && refused@[x]@ == old(self).clients[from[x]]@.name,
                forall|x: int, y: int| 0 <= x < y < from.len() ==> from[x] < from[y],
                forall|k: int|
                    0 <= k < i && (#[trigger] old(self).clients[k])@.is_refused(self.capacity as nat) ==> from.contains(
                        k,
                    ),
            decreases n - i,
        {
            if !self.clients[i].outbox.is_closed() {
                let item = surrogate(&msg);
                let sent = self.clients[i].outbox.try_send(item);
                if sent.is_err() {
                    self.clients[i].outbox.close();
                    let name = self.clients[i].name.clone();
                    refused.push(name);
                    proof {
                        let held = from;
                        from = from.push(i as int);
                        assert forall|k: int|
                            0 <= k < i + 1 && (#[trigger] old(self).clients[k])@.is_refused(self.capacity as nat) implies from.contains(
                            k,
                        ) by {
                            if k < i {
                                let x = choose|x: int| 0 <= x < held.len() && held[x] == k;
                                assert(from[x] == k);
                            } else {
                                assert(from[held.len() as int] == k);
                            }
                        }
                    }
                }
            }
            proof {
                assert forall|k: int|
                    0 <= k < i + 1 && (#[trigger] old(self).clients[k])@.is_refused(self.capacity as nat) implies from.contains(
                    k,
                ) by {
                    if k < i {
                        assert(from.contains(k));
                    }
                }
            }
            i += 1;
        }
        proof {
            let goal = old(self)@.broadcast(msg.deep_view());
            assert forall|t: u64| self@.subs.contains_key(t) == goal.subs.contains_key(t) by {
                if old(self).has(t) {
                    self.lemma_row(old(self).index_of(t));
                } else if self.has(t) {
                    old(self).lemma_row(self.index_of(t));
                }
            }
            assert forall|t: u64| self@.subs.contains_key(t) implies self@.subs[t]
                == goal.subs[t] by {
                let k = self.index_of(t);
                self.lemma_row(k);
                old(self).lemma_row(k);
            }
            assert(self@.subs =~= goal.subs);
            old(self).lemma_view_wf();
            assert(goal.wf());
            let names = names_of(refused@);
            assert forall|x: int, y: int| 0 <= x < names.len() && 0 <= y < names.len() && x
                != y implies names[x] != names[y] by {
                old(self).lemma_row(from[x]);
                old(self).lemma_row(from[y]);
                if x < y {
                    assert(from[x] < from[y]);
                } else {
                    assert(from[y] < from[x]);
                }
            }
            assert forall|name: Seq<char>| names.to_set().contains(name) == old(self)@.refused().contains(name) by {
                if names.to_set().contains(name) {
                    let x = choose|x: int| 0 <= x < names.len() && names[x] == name;
                    old(self).lemma_row(from[x]);
                    assert(old(self)@.names_refused(old(self).clients[from[x]].ticket, name));
                }
                if old(self)@.refused().contains(name) {
                    let t = choose|t: u64| old(self)@.names_refused(t, name);
                    let k = old(self).index_of(t);
                    old(self).lemma_row(k);
                    assert(from.contains(k));
                    let x = choose|x: int| 0 <= x < from.len() && from[x] == k;
                    assert(names[x] == name);
                }
            }
            assert(names.to_set() =~= old(self)@.refused());
        }
        refused
    }

    /// Stops sending to every row: the service has ended. What is queued can still be
    /// read, and every stream ends behind it.
    pub fn close_all(&mut self)
        requires
            old(self).wf(),
        ensures
            final(self).wf(),
            final(self)@ == old(self)@.shut(),
    {
        let n = self.clients.len();
        let mut i: usize = 0;
        while i < n
            invariant
                i <= n,
                n == self.clients.len(),
                n == old(self).clients.len(),
                self.issued == old(self).issued,
                self.capacity == old(self).capacity,
                old(self).rows_wf(),
                self.rows_wf(),
                forall|k: int|
                    0 <= k < n ==> (#[trigger] self.clients[k]).ticket == old(self).clients[k].ticket,
                forall|k: int|
                    0 <= k < i ==> (#[trigger] self.clients[k])@ == old(self).clients[k]@.given_up(),
                forall|k: int| i <= k < n ==> (#[trigger] self.clients[k])@ == old(self).clients[k]@,
            decreases n - i,
        {
            self.clients[i].outbox.close();
            i += 1;
        }
        proof {
            let goal = old(self)@.shut();
            assert forall|t: u64| self@.subs.contains_key(t) == goal.subs.contains_key(t) by {
                if old(self).has(t) {
                    self.lemma_row(old(self).index_of(t));
                } else if self.has(t) {
                    old(self).lemma_row(self.index_of(t));
                }
            }
            assert forall|t: u64| self@.subs.contains_key(t) implies self@.subs[t]
                == goal.subs[t] by {
                let k = self.index_of(t);
                self.lemma_row(k);
                old(self).lemma_row(k);
            }
            assert(self@.subs =~= goal.subs);
            old(self).lemma_view_wf();
            assert(goal.wf());
        }
    }

    /// Reads the stream of `ticket` once: the oldest queued delivery if there is one;
    /// otherwise `Pending` while the row is live, and `Ended` when it was given up or is
    /// not in the registry. A row found given up and drained is removed.
    pub fn poll(&mut self, ticket: u64) -> (polled: Polled)
        requires
            old(self).wf(),
        ensures
            final(self).wf(),
            polled@ == old(self)@.polled(ticket),
            final(self)@ == old(self)@.after_poll(ticket),
    {
        let at = self.position(ticket);
        match at {
            None => Polled::Ended,
            Some(i) => {
                proof {
                    self.lemma_row(i as int);
                }
                let item = self.clients[i].outbox.try_recv();
                match item {
                    Some(d) => {
                        proof {
                            self.lemma_same_tickets(old(self), ticket, i as int);
                        }
                        Polled::Item(d)
                    },
                    None => {
                        proof {
                            self.lemma_same_tickets(old(self), ticket, i as int);
                            old(self).lemma_row(i as int);
                            assert(self.clients[i as int]@ == old(self).clients[i as int]@);
                            assert(self@.subs =~= old(self)@.subs);
                        }
                        if self.clients[i].outbox.is_closed() {
                            self.remove_row(i);
                            Polled::Ended
                        } else {
                            Polled::Pending
                        }
                    },
                }
            },
        }
    }

    /// After a change to row `i` alone that kept every ticket, the value is the old one
    /// with that row replaced.
    proof fn lemma_same_tickets(&self, before: &Shared, ticket: u64, i: int)
        requires
            before.wf(),
            0 <= i < before.clients.len(),
            before.clients[i].ticket == ticket,
            self.clients.len() == before.clients.len(),
            self.issued == before.issued,
            self.capacity == before.capacity,
            forall|k: int|
                0 <= k < self.clients.len() ==> (#[trigger] self.clients[k]).ticket
                    == before.clients[k].ticket,
            forall|k: int|
                0 <= k < self.clients.len() && k != i ==> (#[trigger] self.clients[k])
                    == before.clients[k],
            self.clients[i].outbox.wf(),
            self.clients[i].outbox.limit() == self.capacity,
            self.clients[i]@.name == before.clients[i]@.name,
            self.clients[i]@.live == before.clients[i]@.live,
            self.clients[i]@.outbox.len() <= before.clients[i]@.outbox.len(),
        ensures
            self.wf(),
            self@.subs == before@.subs.insert(ticket, self.clients[i]@),
    {
        assert(self.rows_wf());
        let goal = before@.subs.insert(ticket, self.clients[i]@);
        assert forall|t: u64| self@.subs.contains_key(t) == goal.contains_key(t) by {
            if before.has(t) {
                self.lemma_row(before.index_of(t));
            } else if self.has(t) {
                before.lemma_row(self.index_of(t));
            }
        }
        assert forall|t: u64| self@.subs.contains_key(t) implies self@.subs[t] == goal[t] by {
            let k = self.index_of(t);
            self.lemma_row(k);
            before.lemma_row(k);
        }
        assert(self@.subs =~= goal);
        before.lemma_row(i);
        assert forall|t: u64| #[trigger] self@.subs.contains_key(t) implies t < self@.issued
            && self@.subs[t].outbox.len() <= self@.capacity by {
            let k = self.index_of(t);
            self.lemma_row(k);
        }
        assert forall|t1: u64, t2: u64|
            #![trigger self@.subs[t1], self@.subs[t2]]
            self@.subs.contains_key(t1) && self@.subs.contains_key(t2) && self@.subs[t1].live
                && self@.subs[t2].live && self@.subs[t1].name == self@.subs[t2].name implies t1
            == t2 by {
            assert(before@.subs.contains_key(t1) && before@.subs.contains_key(t2));
            assert(before@.subs[t1].live == self@.subs[t1].live);
            assert(before@.subs[t2].live == self@.subs[t2].live);
            assert(before@.subs[t1].name == self@.subs[t1].name);
            assert(before@.subs[t2].name == self@.subs[t2].name);
        }
    }

    fn remove_row(&mut self, i: usize)
        requires
            old(self).wf(),
            i < old(self).clients.len(),
        ensures
            final(self).wf(),
            final(self)@ == old(self)@.cancel(old(self).clients[i as int].ticket),
    {
        let ghost ticket = self.clients[i as int].ticket;
        let _ = self.clients.remove(i);
        proof {
            assert(self.rows_wf()) by {
                assert forall|a: int, b: int|
                    0 <= a < self.clients.len() && 0 <= b < self.clients.len() && (
                    #[trigger] self.clients[a]).ticket == (#[trigger] self.clients[b]).ticket implies a
                    == b by {
                    let a0 = if a < i { a } else { a + 1 };
                    let b0 = if b < i { b } else { b + 1 };
                    assert(old(self).clients[a0] == self.clients[a]);
                    assert(old(self).clients[b0] == self.clients[b]);
                }
            }
            let goal = old(self)@.subs.remove(ticket);
            assert forall|t: u64| self@.subs.contains_key(t) == goal.contains_key(t) by {
                if self.has(t) {
                    let k = self.index_of(t);
                    let k0 = if k < i { k } else { k + 1 };
                    assert(old(self).clients[k0] == self.clients[k]);
                    old(self).lemma_row(k0);
                    old(self).lemma_row(i as int);
                }
                if old(self).has(t) && t != ticket {
                    let k0 = old(self).index_of(t);
                    let k = if k0 < i { k0 } else { k0 - 1 };
                    assert(old(self).clients[k0] == self.clients[k]);
                    self.lemma_row(k);
                }
            }
            assert forall|t: u64| self@.subs.contains_key(t) implies self@.subs[t] == goal[t] by {
                let k = self.index_of(t);
                let k0 = if k < i { k } else { k + 1 };
                assert(old(self).clients[k0] == self.clients[k]);
                self.lemma_row(k);
                old(self).lemma_row(k0);
            }
            assert(self@.subs =~= goal);
            old(self).lemma_view_wf();
            assert(old(self)@.cancel(ticket).wf());
        }
    }

    /// Forgets the row of `ticket`: the client went away and its stream is dropped with
    /// whatever was queued on it.
    pub fn cancel(&mut self, ticket: u64)
        requires
            old(self).wf(),
        ensures
            final(self).wf(),
            final(self)@ == old(self)@.cancel(ticket),
    {
        let at = self.position(ticket);
        match at {
            None => {
                assert(old(self)@.subs.remove(ticket) =~= old(self)@.subs);
            },
            Some(i) => {
                self.remove_row(i);
            },
        }
    }
}

} // verus!
