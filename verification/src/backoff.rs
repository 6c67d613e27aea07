use vstd::prelude::*;

verus! {

/// Exponential reconnect backoff. Delays in seconds run 1, 2, 4, 8, 16, 30,
/// 30, ... and `reset` returns to the start of that sequence.
pub struct Backoff {
    current: u64,
}

/// The delay that follows `c` in the backoff sequence: doubled, capped at 30.
pub open spec fn next_current(c: u64) -> u64 {
    if 2 * c <= 30 {
        (2 * c) as u64
    } else {
        30u64
    }
}

/// The delay handed out by the `n`-th call to `next_delay` after `new` or
/// `reset` (counting from 0), with no intervening `reset`.
pub open spec fn delay_at(n: nat) -> u64
    decreases n,
{
    if n == 0 {
        1u64
    } else {
        next_current(delay_at((n - 1) as nat))
    }
}

/// The backoff sequence is 1, 2, 4, 8, 16 and then 30 forever.
pub proof fn lemma_backoff_sequence(n: nat)
    ensures
        n == 0 ==> delay_at(n) == 1,
        n == 1 ==> delay_at(n) == 2,
        n == 2 ==> delay_at(n) == 4,
        n == 3 ==> delay_at(n) == 8,
        n == 4 ==> delay_at(n) == 16,
        n >= 5 ==> delay_at(n) == 30,
    decreases n,
{
    if n >= 1 {
        lemma_backoff_sequence((n - 1) as nat);
    }
}

impl Backoff {
    /// The delay, in seconds, that the next call to `next_delay` will return.
    pub closed spec fn current(self) -> u64 {
        self.current
    }

    /// The pending delay always lies in the sequence's range.
    pub closed spec fn wf(self) -> bool {
        1 <= self.current <= 30
    }

    pub fn new() -> (r: Self)
        ensures
            r.wf(),
            r.current() == 1,
    {
        Backoff { current: 1 }
    }

    pub fn reset(&mut self)
        ensures
            final (self).wf(),
            final (self).current() == 1,
    {
        self.current = 1;
    }

    /// Returns the pending delay and advances to the next one: doubled,
    /// capped at 30 seconds.
    pub fn next_delay(&mut self) -> (delay: u64)
        requires
            old(self).wf(),
        ensures
            delay == old(self).current(),
            final (self).wf(),
            final (self).current() == next_current(old(self).current()),
    {
        let delay = self.current;
        let doubled = self.current * 2;
        self.current = if doubled <= 30 {
            doubled
        } else {
            30
        };
        delay
    }
}

} // verus!
