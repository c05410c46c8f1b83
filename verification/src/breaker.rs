//! Circuit breaker for the shared session leg. Repeated preflight failures trip it and hold the
//! whole dispatch queue for a cooldown; on expiry it admits a single half-open probe whose outcome
//! closes or re-trips it.
use vstd::prelude::*;

verus! {

/// What the dispatcher should do with the next eligible entry.
#[derive(Clone, Copy, Debug, PartialEq, Eq, Structural)]
pub enum Decision {
    /// Channel healthy: dispatch normally.
    Dispatch,
    /// Cooldown elapsed: dispatch exactly one probe, then mark it.
    Probe,
    /// Holding: do not dispatch before this time (ms), or a wake.
    Hold(u64),
}

/// The breaker's state: `open_until_ms` is 0 while it is closed.
pub struct Circuit {
    pub threshold: int,
    pub cooldown_ms: int,
    pub failures: int,
    pub open_until_ms: u64,
    pub probing: bool,
    pub probe_deadline_ms: u64,
}

/// `a + b`, at most the greatest time.
pub open spec fn later(a: int, b: int) -> u64 {
    if a + b > u64::MAX {
        u64::MAX
    } else {
        (a + b) as u64
    }
}

impl Circuit {
    pub open spec fn fresh(threshold: int, cooldown_ms: int) -> Circuit {
        Circuit {
            threshold,
            cooldown_ms,
            failures: 0,
            open_until_ms: 0,
            probing: false,
            probe_deadline_ms: 0,
        }
    }

    pub open spec fn decision(self, now: u64) -> Decision {
        if self.threshold == 0 || self.open_until_ms == 0 {
            Decision::Dispatch
        } else if now < self.open_until_ms {
            Decision::Hold(self.open_until_ms)
        } else if self.probing && now < self.probe_deadline_ms {
            Decision::Hold(self.probe_deadline_ms)
        } else {
            Decision::Probe
        }
    }

    /// A probe was dispatched. It may take twice the cooldown; after that another is admitted.
    pub open spec fn probed(self, now: u64) -> Circuit {
        Circuit { probing: true, probe_deadline_ms: later(now as int, 2 * self.cooldown_ms), ..self }
    }

    /// A preflight came out: success closes the breaker, and the failure that reaches the
    /// threshold opens it.
    pub open spec fn resulted(self, ok: bool, now: u64) -> Circuit {
        if self.threshold == 0 {
            self
        } else if ok {
            Circuit { probing: false, failures: 0, open_until_ms: 0, ..self }
        } else {
            let failures = if self.failures < u32::MAX {
                self.failures + 1
            } else {
                self.failures
            };
            Circuit {
                probing: false,
                failures,
                open_until_ms: if failures >= self.threshold {
                    later(now as int, self.cooldown_ms)
                } else {
                    self.open_until_ms
                },
                ..self
            }
        }
    }
}

/// The circuit breaker.
pub struct Breaker {
    threshold: u32,
    cooldown_ms: u64,
    consec_failures: u32,
    open_until_ms: u64,
    probe_in_flight: bool,
    probe_deadline_ms: u64,
}

impl View for Breaker {
    type V = Circuit;

    closed spec fn view(&self) -> Circuit {
        Circuit {
            threshold: self.threshold as int,
            cooldown_ms: self.cooldown_ms as int,
            failures: self.consec_failures as int,
            open_until_ms: self.open_until_ms,
            probing: self.probe_in_flight,
            probe_deadline_ms: self.probe_deadline_ms,
        }
    }
}

impl Breaker {
    /// `threshold == 0` disables the breaker (always [`Decision::Dispatch`]).
    pub fn new(threshold: u32, cooldown_ms: u64) -> (r: Self)
        ensures
            r@ == Circuit::fresh(threshold as int, cooldown_ms as int),
    {
        Breaker {
            threshold,
            cooldown_ms,
            consec_failures: 0,
            open_until_ms: 0,
            probe_in_flight: false,
            probe_deadline_ms: 0,
        }
    }

    /// The decision for the dispatcher at `now` (ms). Changes nothing.
    pub fn decision(&self, now: u64) -> (r: Decision)
        ensures
            r == self@.decision(now),
    {
        if self.threshold == 0 {
            return Decision::Dispatch;
        }
        if self.open_until_ms == 0 {
            return Decision::Dispatch;
        }
        if now < self.open_until_ms {
            return Decision::Hold(self.open_until_ms);
        }
        if self.probe_in_flight && now < self.probe_deadline_ms {
            return Decision::Hold(self.probe_deadline_ms);
        }
        Decision::Probe
    }

    /// Record that the half-open probe was spawned at `now`; sets a deadline so that a probe that
    /// never reports cannot block dispatch forever.
    pub fn mark_probe_dispatched(&mut self, now: u64)
        ensures
            final(self)@ == old(self)@.probed(now),
    {
        self.probe_in_flight = true;
        let twice: u64 = if self.cooldown_ms > u64::MAX / 2 {
            u64::MAX
        } else {
            self.cooldown_ms * 2
        };
        self.probe_deadline_ms = now.saturating_add(twice);
    }

    /// Report a preflight outcome at `now`. Success closes; failure trips (or re-trips) at the
    /// threshold. Returns whether the dispatcher should be woken to look again.
    pub fn on_result(&mut self, ok: bool, now: u64) -> (r: bool)
        ensures
            final(self)@ == old(self)@.resulted(ok, now),
            r == (old(self)@.threshold != 0),
    {
        if self.threshold == 0 {
            return false;
        }
        self.probe_in_flight = false;
        if ok {
            self.consec_failures = 0;
            self.open_until_ms = 0;
        } else {
            self.consec_failures = self.consec_failures.saturating_add(1);
            if self.consec_failures >= self.threshold {
                self.open_until_ms = now.saturating_add(self.cooldown_ms);
            }
        }
        true
    }
}

/// A disabled breaker always dispatches, whatever it is told.
pub proof fn threshold_zero_disables(c: Circuit, ok: bool, now: u64)
    requires
        c.threshold == 0,
    ensures
        c.decision(now) == Decision::Dispatch,
        c.resulted(ok, now) == c,
{
}

/// While the cooldown runs nothing is dispatched, not even a probe.
pub proof fn open_breaker_holds(c: Circuit, now: u64)
    requires
        c.threshold != 0,
        now < c.open_until_ms,
    ensures
        c.decision(now) == Decision::Hold(c.open_until_ms),
{
}

/// A half-open breaker admits one probe: once it is marked, no other goes out before its deadline.
pub proof fn one_probe_at_a_time(c: Circuit, now: u64, later_now: u64)
    requires
        c.decision(now) == Decision::Probe,
        now <= later_now < c.probed(now).probe_deadline_ms,
    ensures
        c.probed(now).decision(later_now) == Decision::Hold(c.probed(now).probe_deadline_ms),
{
}

/// A probe that never reports is replaced once its deadline has passed.
pub proof fn stale_probe_is_readmitted(c: Circuit, now: u64, later_now: u64)
    requires
        c.decision(now) == Decision::Probe,
        now <= later_now,
        c.probed(now).probe_deadline_ms <= later_now,
    ensures
        c.probed(now).decision(later_now) == Decision::Probe,
{
}

/// A success closes the breaker at once; a failed probe opens it again for a whole cooldown.
pub proof fn probe_closes_or_retrips(c: Circuit, now: u64)
    requires
        c.threshold != 0,
        0 < c.threshold <= c.failures,
        c.failures <= u32::MAX,
        c.cooldown_ms >= 0,
    ensures
        c.resulted(true, now).decision(now) == Decision::Dispatch,
        c.resulted(false, now).open_until_ms == later(now as int, c.cooldown_ms),
        c.cooldown_ms > 0 && now < u64::MAX ==> c.resulted(false, now).decision(now)
            == Decision::Hold(later(now as int, c.cooldown_ms)),
{
}

/// The state after a run of failures at `now`.
pub open spec fn failing(c: Circuit, now: u64, n: nat) -> Circuit
    decreases n,
{
    if n == 0 {
        c
    } else {
        failing(c, now, (n - 1) as nat).resulted(false, now)
    }
}

/// A closed breaker dispatches through the first `threshold - 1` failures and trips on the next.
pub proof fn trips_at_the_threshold(threshold: u32, cooldown_ms: u64, now: u64, n: nat)
    requires
        threshold > 0,
        cooldown_ms > 0,
        n <= threshold,
        now < u64::MAX,
    ensures
        ({
            let c = failing(Circuit::fresh(threshold as int, cooldown_ms as int), now, n);
            &&& c.failures == n
            &&& n < threshold ==> c.decision(now) == Decision::Dispatch
            &&& n == threshold ==> c.decision(now) == Decision::Hold(
                later(now as int, cooldown_ms as int),
            )
        }),
    decreases n,
{
    let start = Circuit::fresh(threshold as int, cooldown_ms as int);
    if n > 0 {
        trips_at_the_threshold(threshold, cooldown_ms, now, (n - 1) as nat);
        lemma_failing_keeps_settings(start, now, (n - 1) as nat);
        assert(failing(start, now, n) == failing(start, now, (n - 1) as nat).resulted(false, now));
    }
}

proof fn lemma_failing_keeps_settings(c: Circuit, now: u64, n: nat)
    ensures
        failing(c, now, n).threshold == c.threshold,
        failing(c, now, n).cooldown_ms == c.cooldown_ms,
        n < c.threshold && c.failures == 0 && c.open_until_ms == 0 ==> failing(
            c,
            now,
            n,
        ).open_until_ms == 0,
        c.failures == 0 && c.threshold > 0 && n <= u32::MAX ==> failing(c, now, n).failures == n,
    decreases n,
{
    if n > 0 {
        lemma_failing_keeps_settings(c, now, (n - 1) as nat);
    }
}

/// What the breaker is told: a preflight came out, or a probe went out.
pub enum Report {
    Result { ok: bool, now: u64 },
    Probe { now: u64 },
}

/// The state after the first `n` reports.
pub open spec fn told(c: Circuit, all: Seq<Report>, n: int) -> Circuit
    decreases n,
{
    if n <= 0 {
        c
    } else {
        match all[n - 1] {
            Report::Result { ok, now } => told(c, all, n - 1).resulted(ok, now),
            Report::Probe { now } => told(c, all, n - 1).probed(now),
        }
    }
}

/// How many preflights have failed within the first `n` reports since the last that did not.
pub open spec fn failed_in_a_row(all: Seq<Report>, n: int) -> int
    decreases n,
{
    if n <= 0 {
        0
    } else {
        match all[n - 1] {
            Report::Result { ok, now } => if ok {
                0
            } else {
                failed_in_a_row(all, n - 1) + 1
            },
            Report::Probe { .. } => failed_in_a_row(all, n - 1),
        }
    }
}

/// When a preflight last failed within the first `n` reports; 0 if none has.
pub open spec fn last_failure(all: Seq<Report>, n: int) -> u64
    decreases n,
{
    if n <= 0 {
        0
    } else {
        match all[n - 1] {
            Report::Result { ok: false, now } => now,
            _ => last_failure(all, n - 1),
        }
    }
}

/// When the probe that is out went out, if one is: the last within the first `n` reports, unless a
/// preflight came out since.
pub open spec fn probe_out(all: Seq<Report>, n: int) -> Option<u64>
    decreases n,
{
    if n <= 0 {
        None
    } else {
        match all[n - 1] {
            Report::Probe { now } => Some(now),
            Report::Result { .. } => None,
        }
    }
}

/// Over any reports, a breaker that is not disabled holds the queue exactly once as many preflights
/// as the threshold have failed in a row. It holds it for a whole cooldown from the last failure;
/// then one probe is let through, and while that is out nothing is for twice the cooldown.
pub proof fn breaker_goes_by_failures_in_a_row(
    threshold: u32,
    cooldown_ms: u64,
    all: Seq<Report>,
    n: int,
    now: u64,
)
    requires
        threshold > 0,
        cooldown_ms > 0,
        0 <= n <= all.len(),
        n <= u32::MAX,
    ensures
        ({
            let c = told(Circuit::fresh(threshold as int, cooldown_ms as int), all, n);
            let tripped = failed_in_a_row(all, n) >= threshold;
            let held = last_failure(all, n) + cooldown_ms;
            &&& c.failures == failed_in_a_row(all, n)
            &&& c.threshold == threshold && c.cooldown_ms == cooldown_ms
            &&& c.decision(now) == Decision::Dispatch <==> !tripped
            &&& tripped && now < held && now < u64::MAX ==> c.decision(now) is Hold
            &&& tripped && now >= held && probe_out(all, n) is None ==> c.decision(now)
                == Decision::Probe
            &&& tripped && now >= held && probe_out(all, n) is Some && now < u64::MAX ==> {
                let back = probe_out(all, n)->Some_0 + 2 * cooldown_ms;
                &&& now < back ==> c.decision(now) is Hold
                &&& now >= back ==> c.decision(now) == Decision::Probe
            }
            &&& c.decision(now) is Hold ==> now < c.decision(now)->Hold_0
        }),
{
    lemma_told(threshold, cooldown_ms, all, n);
}

proof fn lemma_told(threshold: u32, cooldown_ms: u64, all: Seq<Report>, n: int)
    requires
        threshold > 0,
        cooldown_ms > 0,
        0 <= n <= all.len(),
        n <= u32::MAX,
    ensures
        ({
            let c = told(Circuit::fresh(threshold as int, cooldown_ms as int), all, n);
            &&& 0 <= failed_in_a_row(all, n) <= n
            &&& c.failures == failed_in_a_row(all, n)
            &&& c.threshold == threshold && c.cooldown_ms == cooldown_ms
            &&& c.open_until_ms == (if failed_in_a_row(all, n) >= threshold {
                later(last_failure(all, n) as int, cooldown_ms as int)
            } else {
                0
            })
            &&& c.probing <==> probe_out(all, n) is Some
            &&& c.probing ==> c.probe_deadline_ms == later(
                probe_out(all, n)->Some_0 as int,
                2 * cooldown_ms,
            )
        }),
    decreases n,
{
    if n > 0 {
        lemma_told(threshold, cooldown_ms, all, n - 1);
    }
}

} // verus!
