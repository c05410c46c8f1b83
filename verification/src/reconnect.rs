//! Reconnect policy for the live session: exponential backoff and the rule to drop the resumption
//! handle after a number of consecutive failures.
use vstd::prelude::*;

verus! {

/// A backoff: the delay that comes next, the first one and the ceiling.
pub struct Delays {
    pub current_ms: int,
    pub base_ms: int,
    pub max_ms: int,
}

impl Delays {
    /// After a delay the next one is twice as long, at most the ceiling.
    pub open spec fn advanced(self) -> Delays {
        Delays {
            current_ms: if 2 * self.current_ms < self.max_ms {
                2 * self.current_ms
            } else {
                self.max_ms
            },
            ..self
        }
    }

    pub open spec fn restarted(self) -> Delays {
        Delays { current_ms: self.base_ms, ..self }
    }

    /// The state after `n` delays.
    pub open spec fn after(self, n: nat) -> Delays
        decreases n,
    {
        if n == 0 {
            self
        } else {
            self.after((n - 1) as nat).advanced()
        }
    }
}

/// Exponential backoff.
pub struct Backoff {
    current_ms: u64,
    base_ms: u64,
    max_ms: u64,
}

impl View for Backoff {
    type V = Delays;

    closed spec fn view(&self) -> Delays {
        Delays {
            current_ms: self.current_ms as int,
            base_ms: self.base_ms as int,
            max_ms: self.max_ms as int,
        }
    }
}

impl Backoff {
    pub fn new(base_ms: u64, max_ms: u64) -> (r: Self)
        ensures
            r@ == (Delays {
                current_ms: base_ms as int,
                base_ms: base_ms as int,
                max_ms: max_ms as int,
            }),
    {
        Backoff { current_ms: base_ms, base_ms, max_ms }
    }

    /// The next delay, in milliseconds.
    pub fn next_delay(&mut self) -> (r: u64)
        requires
            2 * old(self)@.current_ms <= u64::MAX,
        ensures
            r == old(self)@.current_ms,
            final(self)@ == old(self)@.advanced(),
    {
        let d: u64 = self.current_ms;
        let doubled: u64 = self.current_ms * 2;
        self.current_ms = if doubled < self.max_ms {
            doubled
        } else {
            self.max_ms
        };
        d
    }

    pub fn reset(&mut self)
        ensures
            final(self)@ == old(self)@.restarted(),
    {
        self.current_ms = self.base_ms;
    }
}

/// No delay is longer than the ceiling, no delay is shorter than the one before, and a reset
/// starts over from the first.
pub proof fn delays_grow_up_to_the_ceiling(d: Delays, n: nat)
    requires
        0 < d.base_ms <= d.max_ms,
        d.current_ms == d.base_ms,
    ensures
        d.base_ms <= d.after(n).current_ms <= d.max_ms,
        d.after(n).current_ms <= d.after(n + 1).current_ms,
        d.after(n).restarted() == d,
    decreases n,
{
    if n > 0 {
        delays_grow_up_to_the_ceiling(d, (n - 1) as nat);
    }
    assert(d.after(n + 1) == d.after(n).advanced());
}

/// Below the ceiling every delay is twice the one before.
pub proof fn delays_double(d: Delays, n: nat)
    requires
        2 * d.after(n).current_ms <= d.max_ms,
    ensures
        d.after(n + 1).current_ms == 2 * d.after(n).current_ms,
{
    lemma_after_keeps_ceiling(d, n);
    assert(d.after(n + 1) == d.after(n).advanced());
}

/// Where twice a delay would pass the ceiling, the next one is the ceiling itself, and every one
/// after it too.
pub proof fn delays_reach_the_ceiling(d: Delays, n: nat, m: nat)
    requires
        0 < d.max_ms,
        2 * d.after(n).current_ms >= d.max_ms,
        n < m,
    ensures
        d.after(m).current_ms == d.max_ms,
    decreases m,
{
    lemma_after_keeps_ceiling(d, (m - 1) as nat);
    if m > n + 1 {
        delays_reach_the_ceiling(d, n, (m - 1) as nat);
    }
    assert(d.after(m) == d.after((m - 1) as nat).advanced());
}

proof fn lemma_after_keeps_ceiling(d: Delays, n: nat)
    ensures
        d.after(n).max_ms == d.max_ms,
    decreases n,
{
    if n > 0 {
        lemma_after_keeps_ceiling(d, (n - 1) as nat);
    }
}

/// Counts consecutive failures.
pub struct ReconnectState {
    fails: u32,
    reset_handle_after: u32,
}

impl ReconnectState {
    /// Failures since the last success.
    pub closed spec fn fails(&self) -> int {
        self.fails as int
    }

    /// After how many the handle is dropped; 0 is never.
    pub closed spec fn limit(&self) -> int {
        self.reset_handle_after as int
    }

    pub fn new(reset_handle_after: u32) -> (r: Self)
        ensures
            r.fails() == 0,
            r.limit() == reset_handle_after,
    {
        ReconnectState { fails: 0, reset_handle_after }
    }

    pub fn on_success(&mut self)
        ensures
            final(self).fails() == 0,
            final(self).limit() == old(self).limit(),
    {
        self.fails = 0;
    }

    /// Record a failed connect or session. Returns true when the caller should drop the (likely
    /// stale) resumption handle and start a fresh session.
    pub fn on_failure(&mut self) -> (r: bool)
        requires
            old(self).fails() < u32::MAX,
        ensures
            final(self).fails() == old(self).fails() + 1,
            final(self).limit() == old(self).limit(),
            r == (old(self).limit() != 0 && old(self).fails() + 1 >= old(self).limit()),
    {
        self.fails = self.fails + 1;
        self.reset_handle_after != 0 && self.fails >= self.reset_handle_after
    }
}

} // verus!
