//! The counter behind the `zmq_atomic_counter_*` utility API.
use vstd::prelude::*;

verus! {

/// Value of a counter holding `v` after one increment (wrapping at 2^32).
pub open spec fn counter_after_inc(v: u32) -> u32 {
    if v == u32::MAX {
        0
    } else {
        (v + 1) as u32
    }
}

/// Value of a counter holding `v` after one decrement (wrapping at zero).
pub open spec fn counter_after_dec(v: u32) -> u32 {
    if v == 0 {
        u32::MAX
    } else {
        (v - 1) as u32
    }
}

/// A 32-bit counter with the semantics of the ZeroMQ utility counter:
/// increments report the previous value, decrements report whether the
/// counter is still non-zero afterwards.
pub struct AtomicCounter {
    value: u32,
}

impl View for AtomicCounter {
    type V = u32;

    closed spec fn view(&self) -> u32 {
        self.value
    }
}

impl AtomicCounter {
    pub fn new(value: u32) -> (counter: Self)
        ensures
            counter@ == value,
    {
        AtomicCounter { value }
    }

    pub fn set(&mut self, value: u32)
        ensures
            final(self)@ == value,
    {
        self.value = value;
    }

    /// Adds one and returns the value held before.
    pub fn inc(&mut self) -> (previous: u32)
        ensures
            previous == old(self)@,
            final(self)@ == counter_after_inc(old(self)@),
    {
        let previous = self.value;
        self.value = previous.wrapping_add(1);
        previous
    }

    /// Subtracts one and tells whether the counter is still non-zero.
    pub fn dec(&mut self) -> (live: bool)
        ensures
            final(self)@ == counter_after_dec(old(self)@),
            live == (final(self)@ != 0),
            live == (old(self)@ != 1),
    {
        let previous = self.value;
        self.value = previous.wrapping_sub(1);
        self.value != 0
    }

    pub fn value(&self) -> (v: u32)
        ensures
            v == self@,
    {
        self.value
    }
}

/// A decrement undoes an increment, and an increment undoes a decrement.
pub proof fn lemma_inc_dec_inverse(v: u32)
    ensures
        counter_after_dec(counter_after_inc(v)) == v,
        counter_after_inc(counter_after_dec(v)) == v,
{
}

/// From a count of `n`, the decrements that report a live counter are
/// exactly the first `n - 1`: after `k < n` decrements the counter holds
/// `n - k`.
pub proof fn lemma_dec_counts_down(n: u32, k: u32)
    requires
        k <= n,
    ensures
        counter_after_dec_n(n, k as nat) == n - k,
    decreases k,
{
    if k > 0 {
        lemma_dec_counts_down(n, (k - 1) as u32);
    }
}

/// Value of a counter holding `v` after `k` decrements.
pub open spec fn counter_after_dec_n(v: u32, k: nat) -> u32
    decreases k,
{
    if k == 0 {
        v
    } else {
        counter_after_dec(counter_after_dec_n(v, (k - 1) as nat))
    }
}

} // verus!
