//! A bounded first-in first-out mailbox: the two queues of the worker bridge and the
//! outbound queue of every subscriber are instances of it.

use vstd::prelude::*;

verus! {

/// Why a mailbox refused an item.
#[derive(Debug, Clone, Copy, PartialEq, Eq, Structural)]
pub enum SendError {
    /// The mailbox holds as many items as its capacity allows.
    Full,
    /// The mailbox was closed.
    Closed,
}

/// A queue that holds at most `capacity` items and can be closed for sending.
#[derive(Debug)]
pub struct Mailbox<T> {
    items: Vec<T>,
    capacity: usize,
    open: bool,
}

impl<T: DeepView> Mailbox<T> {
    /// The queued items, oldest first.
    pub closed spec fn contents(&self) -> Seq<T::V> {
        self.items.deep_view()
    }

    /// The largest number of items the mailbox holds.
    pub closed spec fn limit(&self) -> nat {
        self.capacity as nat
    }

    /// Whether the mailbox still accepts items.
    pub closed spec fn is_open(&self) -> bool {
        self.open
    }

    /// A mailbox never holds more than its capacity.
    pub open spec fn wf(&self) -> bool {
        self.contents().len() <= self.limit()
    }

    /// An open, empty mailbox.
    pub fn new(capacity: usize) -> (mailbox: Self)
        ensures
            mailbox.wf(),
            mailbox.contents() == Seq::<T::V>::empty(),
            mailbox.limit() == capacity,
            mailbox.is_open(),
    {
        let mailbox = Mailbox { items: Vec::new(), capacity, open: true };
        assert(mailbox.items.deep_view() =~= Seq::<T::V>::empty());
        mailbox
    }

    pub fn len(&self) -> (n: usize)
        ensures
            n == self.contents().len(),
    {
        self.items.len()
    }

    pub fn capacity(&self) -> (n: usize)
        ensures
            n == self.limit(),
    {
        self.capacity
    }

    pub fn is_empty(&self) -> (b: bool)
        ensures
            b == (self.contents().len() == 0),
    {
        self.items.len() == 0
    }

    pub fn is_full(&self) -> (b: bool)
        ensures
            b == (self.contents().len() >= self.limit()),
    {
        self.items.len() >= self.capacity
    }

    pub fn is_closed(&self) -> (b: bool)
        ensures
            b == !self.is_open(),
    {
        !self.open
    }

    /// Queues the item behind the others without waiting: refused when the mailbox is
    /// closed or full, and then nothing changes.
    pub fn try_send(&mut self, item: T) -> (sent: Result<(), SendError>)
        requires
            old(self).wf(),
        ensures
            final(self).wf(),
            final(self).limit() == old(self).limit(),
            final(self).is_open() == old(self).is_open(),
            !old(self).is_open() ==> sent == Err::<(), SendError>(SendError::Closed),
            old(self).is_open() && old(self).contents().len() >= old(self).limit() ==> sent == Err::<
                (),
                SendError,
            >(SendError::Full),
            old(self).is_open() && old(self).contents().len() < old(self).limit() ==> sent is Ok,
            sent is Ok ==> final(self).contents() == old(self).contents().push(item.deep_view()),
            sent is Err ==> final(self).contents() == old(self).contents(),
    {
        if !self.open {
            return Err(SendError::Closed);
        }
        if self.items.len() >= self.capacity {
            return Err(SendError::Full);
        }
        self.items.push(item);
        assert(self.items.deep_view() =~= old(self).items.deep_view().push(item.deep_view()));
        Ok(())
    }

    /// Takes the oldest item, if there is one.
    pub fn try_recv(&mut self) -> (item: Option<T>)
        requires
            old(self).wf(),
        ensures
            final(self).wf(),
            final(self).limit() == old(self).limit(),
            final(self).is_open() == old(self).is_open(),
            old(self).contents().len() == 0 ==> item is None && final(self).contents() == old(self).contents(),
            old(self).contents().len() > 0 ==> (item matches Some(x) && x.deep_view() == old(self).contents()[0]),
            old(self).contents().len() > 0 ==> final(self).contents() == old(self).contents().drop_first(),
    {
        if self.items.len() == 0 {
            return None;
        }
        let x = self.items.remove(0);
        assert(self.items.deep_view() =~= old(self).items.deep_view().drop_first());
        Some(x)
    }

    /// Closes the mailbox for sending. What is queued stays to be taken.
    pub fn close(&mut self)
        requires
            old(self).wf(),
        ensures
            final(self).wf(),
            final(self).limit() == old(self).limit(),
            final(self).contents() == old(self).contents(),
            !final(self).is_open(),
    {
        self.open = false;
    }
}

} // verus!
