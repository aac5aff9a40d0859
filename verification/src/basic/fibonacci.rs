//! The Fibonacci numbers, one at a time.

use vstd::prelude::*;

verus! {

/// The `n`-th Fibonacci number: 0, 1, 1, 2, 3, 5 and so on.
pub open spec fn fib(n: nat) -> nat
    decreases n,
{
    if n == 0 {
        0
    } else if n == 1 {
        1
    } else {
        fib((n - 1) as nat) + fib((n - 2) as nat)
    }
}

/// Later Fibonacci numbers are not smaller, and all but the first are positive.
pub proof fn lemma_fib_grows(n: nat)
    ensures
        fib(n) <= fib(n + 1),
        n >= 1 ==> fib(n) >= 1,
    decreases n,
{
    if n >= 2 {
        lemma_fib_grows((n - 1) as nat);
        lemma_fib_grows((n - 2) as nat);
    }
}

pub struct Fibonacci {
    a: u64,
    b: u64,
    curr: u8,
    total: u8,
}

impl Fibonacci {
    /// How many numbers were handed out.
    pub closed spec fn position(&self) -> nat {
        self.curr as nat
    }

    /// How many numbers are handed out in all.
    pub closed spec fn total(&self) -> nat {
        self.total as nat
    }

    /// The invariant: before the first number both fields are zero, afterwards they hold
    /// the number handed out last and the one after it.
    pub closed spec fn wf(&self) -> bool {
        &&& self.curr <= self.total
        &&& self.curr == 0 ==> self.a == 0 && self.b == 0
        &&& self.curr > 0 ==> self.a == fib(self.curr as nat) && self.b == fib(
            (self.curr + 1) as nat,
        )
    }

    /// A sequence of the first `total` Fibonacci numbers.
    pub fn new(total: u8) -> (fibonacci: Self)
        ensures
            fibonacci.wf(),
            fibonacci.position() == 0,
            fibonacci.total() == total,
    {
        Self { a: 0, b: 0, curr: 0, total }
    }

    /// The next number of the sequence, `None` after the last. The number after the next
    /// has to fit in 64 bits.
    pub fn next(&mut self) -> (item: Option<u64>)
        requires
            old(self).wf(),
            0 < old(self).position() < old(self).total() ==> fib(old(self).position() + 2)
                <= u64::MAX,
        ensures
            final(self).wf(),
            final(self).total() == old(self).total(),
            old(self).position() == old(self).total() ==> item is None && final(self).position()
                == old(self).position(),
            old(self).position() < old(self).total() ==> item == Some(
                fib(old(self).position() + 1) as u64,
            ) && final(self).position() == old(self).position() + 1,
    {
        if self.curr == self.total {
            return None;
        }
        proof {
            lemma_fib_grows(self.curr as nat);
            reveal_with_fuel(fib, 3);
        }
        if self.a == 0 {
            self.a = 1;
            self.b = 1;
        } else {
            let c = self.a + self.b;
            self.a = self.b;
            self.b = c;
        }
        self.curr += 1;
        Some(self.a)
    }
}

} // verus!
