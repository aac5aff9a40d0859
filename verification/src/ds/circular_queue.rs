//! A bounded queue over a vector with a head and a tail position.

use vstd::prelude::*;

verus! {

#[derive(Debug)]
pub struct CircularQueue<T> {
    data: Vec<T>,
    capacity: usize,
    head: usize,
    tail: usize,
}

/// Mathematical value of a [`CircularQueue`].
pub struct CircularQueueView<T> {
    pub data: Seq<T>,
    pub capacity: nat,
    pub head: nat,
    pub tail: nat,
}

impl<T> CircularQueueView<T> {
    /// The next position after `at`, wrapping at the capacity.
    pub open spec fn advance(self, at: nat) -> nat {
        (((at + 1) as int) % (self.capacity as int)) as nat
    }

    /// Where in the vector the item stands that comes at position `at` in descending
    /// order: the items before the head from the last to the first, then the others
    /// from the last to the first.
    pub open spec fn descending_index(self, at: int) -> int {
        if at < self.head {
            self.head - 1 - at
        } else {
            self.data.len() - 1 - (at - self.head)
        }
    }

    /// Where in the vector the item stands that comes at position `at` in ascending
    /// order: the items from the head on, then those before it.
    pub open spec fn ascending_index(self, at: int) -> int {
        if at < self.data.len() - self.head {
            self.head + at
        } else {
            at - (self.data.len() - self.head)
        }
    }

    /// The position before the tail, wrapping at the capacity.
    pub open spec fn last_position(self) -> nat {
        if self.tail == 0 {
            (self.capacity - 1) as nat
        } else {
            (self.tail - 1) as nat
        }
    }
}

impl<T> View for CircularQueue<T> {
    type V = CircularQueueView<T>;

    closed spec fn view(&self) -> CircularQueueView<T> {
        CircularQueueView {
            data: self.data@,
            capacity: self.capacity as nat,
            head: self.head as nat,
            tail: self.tail as nat,
        }
    }
}

impl<T: Copy> CircularQueue<T> {
    /// The invariant: no more items than the capacity, and both positions below the
    /// capacity, or at zero where the capacity is zero.
    pub closed spec fn wf(&self) -> bool {
        &&& self.data@.len() <= self.capacity
        &&& self.capacity == 0 ==> self.head == 0 && self.tail == 0
        &&& self.capacity > 0 ==> self.head < self.capacity && self.tail < self.capacity
    }

    /// What the invariant says of the value.
    pub proof fn lemma_wf(&self)
        requires
            self.wf(),
        ensures
            self@.data.len() <= self@.capacity,
            self@.capacity == 0 ==> self@.head == 0 && self@.tail == 0,
            self@.capacity > 0 ==> self@.head < self@.capacity && self@.tail < self@.capacity,
    {
    }

    /// An empty queue for `capacity` items.
    #[inline]
    pub fn new(capacity: usize) -> (queue: Self)
        ensures
            queue.wf(),
            queue@ == (CircularQueueView {
                data: Seq::<T>::empty(),
                capacity: capacity as nat,
                head: 0,
                tail: 0,
            }),
    {
        Self { data: Vec::with_capacity(capacity), capacity, head: 0, tail: 0 }
    }

    #[inline]
    pub fn len(&self) -> (n: usize)
        ensures
            n == self@.data.len(),
    {
        self.data.len()
    }

    #[inline]
    pub fn capacity(&self) -> (n: usize)
        ensures
            n == self@.capacity,
    {
        self.capacity
    }

    #[inline]
    pub fn is_empty(&self) -> (b: bool)
        ensures
            b == (self@.data.len() == 0),
    {
        self.data.len() == 0
    }

    #[inline]
    pub fn is_full(&self) -> (b: bool)
        ensures
            b == (self@.data.len() == self@.capacity),
    {
        self.len() == self.capacity()
    }

    /// Puts `val` at the tail position and advances the tail. Refused, with nothing
    /// changed, on a full queue or one of capacity zero.
    #[inline]
    pub fn push(&mut self, val: T) -> (pushed: bool)
        requires
            old(self).wf(),
            old(self)@.data.len() < old(self)@.capacity ==> old(self)@.tail <= old(self)@.data.len(),
        ensures
            final(self).wf(),
            pushed == (old(self)@.data.len() < old(self)@.capacity),
            !pushed ==> final(self)@ == old(self)@,
            pushed ==> final(self)@ == (CircularQueueView {
                data: old(self)@.data.insert(old(self)@.tail as int, val),
                tail: old(self)@.advance(old(self)@.tail),
                ..old(self)@
            }),
    {
        if self.capacity() == 0 || self.is_full() {
            return false;
        }
        self.data.insert(self.tail, val);
        self.tail = (self.tail + 1) % self.capacity();
        true
    }

    /// Takes the item at the head position out and advances the head. Refused on an empty
    /// queue.
    #[inline]
    pub fn pop(&mut self) -> (popped: bool)
        requires
            old(self).wf(),
            old(self)@.data.len() > 0 ==> old(self)@.head < old(self)@.data.len(),
        ensures
            final(self).wf(),
            popped == (old(self)@.data.len() > 0),
            !popped ==> final(self)@ == old(self)@,
            popped ==> final(self)@ == (CircularQueueView {
                data: old(self)@.data.remove(old(self)@.head as int),
                head: old(self)@.advance(old(self)@.head),
                ..old(self)@
            }),
    {
        if self.is_empty() {
            return false;
        }
        let _ = self.data.remove(self.head);
        self.head = (self.head + 1) % self.capacity();
        true
    }

    /// The item at the head position, if the queue holds one there.
    #[inline]
    pub fn front(&self) -> (item: Option<T>)
        ensures
            item == if self@.head < self@.data.len() {
                Some(self@.data[self@.head as int])
            } else {
                None
            },
    {
        if self.is_empty() {
            return None;
        }
        if self.head < self.data.len() {
            Some(self.data[self.head])
        } else {
            None
        }
    }

    /// The item at the position before the tail, if the queue holds one there.
    #[inline]
    pub fn back(&self) -> (item: Option<T>)
        requires
            self.wf(),
            self@.capacity > 0,
        ensures
            item == if self@.last_position() < self@.data.len() {
                Some(self@.data[self@.last_position() as int])
            } else {
                None
            },
    {
        let at = if self.tail == 0 {
            self.capacity - 1
        } else {
            self.tail - 1
        };
        if at < self.data.len() {
            Some(self.data[at])
        } else {
            None
        }
    }

    /// The items in descending order: those before the head position from the last to the
    /// first, then those from the head position on, again from the last to the first.
    #[inline]
    pub fn iter(&self) -> (items: Vec<T>)
        requires
            self@.head <= self@.data.len(),
        ensures
            items@ == self@.data.subrange(0, self@.head as int).reverse() + self@.data.subrange(
                self@.head as int,
                self@.data.len() as int,
            ).reverse(),
    {
        let n = self.data.len();
        let head = self.head;
        let ghost a = self@.data.subrange(0, head as int);
        let ghost b = self@.data.subrange(head as int, n as int);
        let mut items: Vec<T> = Vec::with_capacity(n);
        let mut i: usize = head;
        while i > 0
            invariant
                i <= head <= n,
                n == self.data@.len(),
                a == self.data@.subrange(0, head as int),
                items@ == a.reverse().subrange(0, head - i),
            decreases i,
        {
            i -= 1;
            items.push(self.data[i]);
            assert(items@ =~= a.reverse().subrange(0, head - i));
        }
        assert(items@ =~= a.reverse());
        let mut j: usize = n;
        while j > head
            invariant
                head <= j <= n,
                n == self.data@.len(),
                b == self.data@.subrange(head as int, n as int),
                items@ == a.reverse() + b.reverse().subrange(0, n - j),
            decreases j,
        {
            j -= 1;
            items.push(self.data[j]);
            assert(items@ =~= a.reverse() + b.reverse().subrange(0, n - j));
        }
        assert(items@ =~= a.reverse() + b.reverse());
        items
    }

    /// The item at position `at` of the descending order, to be changed in place; `None`
    /// behind the last item.
    #[inline]
    pub fn iter_mut(&mut self, at: usize) -> (item: Option<&mut T>)
        requires
            old(self)@.head <= old(self)@.data.len(),
        ensures
            old(self).wf() ==> final(self).wf(),
            item is Some <==> at < old(self)@.data.len(),
            item matches Some(r) ==> *r == old(self)@.data[old(self)@.descending_index(at as int)],
            final(self)@.capacity == old(self)@.capacity,
            final(self)@.head == old(self)@.head,
            final(self)@.tail == old(self)@.tail,
            item is None ==> final(self)@.data == old(self)@.data,
            item matches Some(r) ==> final(self)@.data == old(self)@.data.update(
                old(self)@.descending_index(at as int),
                *final(r),
            ),
    {
        let n = self.data.len();
        if at >= n {
            return None;
        }
        let index = if at < self.head {
            self.head - 1 - at
        } else {
            n - 1 - (at - self.head)
        };
        Some(&mut self.data[index])
    }

    /// The item at position `at` of the ascending order, to be changed in place; `None`
    /// behind the last item.
    #[inline]
    pub fn asc_iter_mut(&mut self, at: usize) -> (item: Option<&mut T>)
        requires
            old(self)@.head <= old(self)@.data.len(),
        ensures
            old(self).wf() ==> final(self).wf(),
            item is Some <==> at < old(self)@.data.len(),
            item matches Some(r) ==> *r == old(self)@.data[old(self)@.ascending_index(at as int)],
            final(self)@.capacity == old(self)@.capacity,
            final(self)@.head == old(self)@.head,
            final(self)@.tail == old(self)@.tail,
            item is None ==> final(self)@.data == old(self)@.data,
            item matches Some(r) ==> final(self)@.data == old(self)@.data.update(
                old(self)@.ascending_index(at as int),
                *final(r),
            ),
    {
        let n = self.data.len();
        if at >= n {
            return None;
        }
        let index = if at < n - self.head {
            self.head + at
        } else {
            at - (n - self.head)
        };
        Some(&mut self.data[index])
    }

    /// The items in ascending order: those from the head position on, then those before it.
    #[inline]
    pub fn asc_iter(&self) -> (items: Vec<T>)
        requires
            self@.head <= self@.data.len(),
        ensures
            items@ == self@.data.subrange(self@.head as int, self@.data.len() as int)
                + self@.data.subrange(0, self@.head as int),
    {
        let n = self.data.len();
        let head = self.head;
        let ghost a = self@.data.subrange(0, head as int);
        let ghost b = self@.data.subrange(head as int, n as int);
        let mut items: Vec<T> = Vec::with_capacity(n);
        let mut j: usize = head;
        while j < n
            invariant
                head <= j <= n,
                n == self.data@.len(),
                b == self.data@.subrange(head as int, n as int),
                items@ == b.subrange(0, j - head),
            decreases n - j,
        {
            items.push(self.data[j]);
            j += 1;
            assert(items@ =~= b.subrange(0, j - head));
        }
        assert(items@ =~= b);
        let mut i: usize = 0;
        while i < head
            invariant
                i <= head <= n,
                n == self.data@.len(),
                a == self.data@.subrange(0, head as int),
                items@ == b + a.subrange(0, i as int),
            decreases head - i,
        {
            items.push(self.data[i]);
            i += 1;
            assert(items@ =~= b + a.subrange(0, i as int));
        }
        assert(items@ =~= b + a);
        items
    }
}

impl<T: Copy> Clone for CircularQueue<T> {
    fn clone(&self) -> (copy: Self)
        ensures
            copy@ == self@,
    {
        let mut data: Vec<T> = Vec::with_capacity(self.capacity);
        let mut i: usize = 0;
        while i < self.data.len()
            invariant
                i <= self.data@.len(),
                data@ == self.data@.subrange(0, i as int),
            decreases self.data@.len() - i,
        {
            data.push(self.data[i]);
            i += 1;
            assert(data@ =~= self.data@.subrange(0, i as int));
        }
        assert(self.data@.subrange(0, self.data@.len() as int) =~= self.data@);
        Self { data, capacity: self.capacity, head: self.head, tail: self.tail }
    }
}

} // verus!
