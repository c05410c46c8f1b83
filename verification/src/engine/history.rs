//! What holds over any interleaving of the engine's operations: calls placed, cancelled, dialed
//! again, dispatched and finished in whatever order.
use vstd::prelude::*;

use super::ledger::{
    dispatching_keeps_consistency, ending_keeps_consistency, lemma_change, lemma_next_id_is_fresh,
    placing_keeps_consistency, requeuing_keeps_consistency,
};
use super::{
    dispatch_takes_one_channel, lemma_live, live_from, nth_id, pending_entry, placed_record,
    rolled, without, Counters, Load,
};
use crate::config::ScenarioConfig;
use crate::queue::{enqueued, in_order, lemma_rank, lemma_spot, rank, same_key, spot, PendingEntry};
use crate::state::{
    change_touches_one_record, changed, holds, lookup, place, stored, CallRecord, CallState,
};

verus! {

/// One operation.
pub enum Step {
    /// A call is placed.
    Place {
        number: Seq<char>,
        scenario: ScenarioConfig,
        eligible_at_ms: u64,
        attempt: u32,
        now_ms: u64,
    },
    /// A call that is being run is queued again.
    Requeue {
        id: Seq<char>,
        number: Seq<char>,
        scenario: ScenarioConfig,
        eligible_at_ms: u64,
        attempt: u32,
    },
    /// The earliest call is dispatched.
    Dispatch { now_ms: u64 },
    /// A call is asked to end.
    End { id: Seq<char>, now_ms: u64 },
    /// A dispatched call's task is over, whether it returned or died.
    Release { id: Seq<char> },
    /// A preflight came out.
    Preflight { ok: bool, now_ms: u64 },
    /// A record, and the totals, change as a call goes on or ends.
    Record { with: CallRecord, counters: Counters },
}

/// Whether the operation leads from `a` to `b`.
pub open spec fn leads(a: Load, step: Step, b: Load) -> bool {
    match step {
        Step::Place { number, scenario, eligible_at_ms, attempt, now_ms } => a.placed(
            b,
            number,
            scenario,
            eligible_at_ms,
            attempt,
            now_ms,
        ),
        Step::Requeue { id, number, scenario, eligible_at_ms, attempt } => {
            &&& holds(a.records, id)
            &&& spot(a.pending, id) == a.pending.len()
            &&& a.requeued(b, id, number, scenario, eligible_at_ms, attempt)
        },
        Step::Dispatch { now_ms } => a.can_dispatch(now_ms) && b == a.dispatched(now_ms),
        Step::End { id, now_ms } => b == a.end_requested(id, now_ms),
        Step::Release { id } => b == a.released(id),
        Step::Preflight { ok, now_ms } => b == a.preflighted(ok, now_ms),
        Step::Record { with, counters } => b == (Load {
            records: changed(a.records, with.call_id@, with),
            counters,
            ..a
        }),
    }
}

/// An engine that has done nothing yet.
pub open spec fn idle(s: Load) -> bool {
    &&& s.records.len() == 0
    &&& s.pending.len() == 0
    &&& s.live.len() == 0
    &&& s.holding.len() == 0
    &&& s.seq == 0
    &&& s.cap >= 0
}

/// A history: the states that some operations lead through, from an idle engine on.
pub open spec fn history(states: Seq<Load>, steps: Seq<Step>) -> bool {
    &&& states.len() == steps.len() + 1
    &&& idle(states[0])
    &&& forall|i: int|
        0 <= i < steps.len() ==> #[trigger] leads(states[i], steps[i], states[i + 1])
}

/// Every operation keeps the engine consistent, and its cap.
proof fn lemma_step(a: Load, step: Step, b: Load)
    requires
        a.consistent(),
        leads(a, step, b),
    ensures
        b.consistent(),
        b.cap == a.cap,
{
    match step {
        Step::Place { number, scenario, eligible_at_ms, attempt, now_ms } => {
            placing_keeps_consistency(a, b, number, scenario, eligible_at_ms, attempt, now_ms);
        },
        Step::Requeue { id, number, scenario, eligible_at_ms, attempt } => {
            requeuing_keeps_consistency(a, b, id, number, scenario, eligible_at_ms, attempt);
        },
        Step::Dispatch { now_ms } => {
            dispatching_keeps_consistency(a, now_ms);
        },
        Step::End { id, now_ms } => {
            ending_keeps_consistency(a, id, now_ms);
        },
        Step::Release { id } => {
            lemma_live(a.holding, id, 0);
        },
        Step::Preflight { ok, now_ms } => {},
        Step::Record { with, counters } => {
            let id = with.call_id@;
            change_touches_one_record(a.records, id, with, id);
            assert forall|i: int| 0 <= i < b.pending.len() implies a.pending.contains(
                #[trigger] b.pending[i],
            ) by {
                assert(a.pending[i] == b.pending[i]);
            }
            lemma_change(a, b, id, with);
        },
    }
}

/// At every moment of any history the queue and the records agree and no more channels are taken
/// than there are. A call is dispatched only when it is due, a channel is free and the breaker does
/// not hold the queue; it then rings, holds a channel and waits in the queue no longer. With no
/// channel at all none is ever dispatched.
pub proof fn dispatching_respects_cap_and_eligibility(
    states: Seq<Load>,
    steps: Seq<Step>,
    n: int,
)
    requires
        history(states, steps),
        0 <= n <= steps.len(),
    ensures
        states[n].consistent(),
        states[n].cap == states[0].cap,
        0 <= states[n].running() <= states[0].cap,
        n < steps.len() && steps[n] is Dispatch ==> {
            let e = states[n].pending[0];
            let now_ms = steps[n]->Dispatch_now_ms;
            &&& states[0].cap > 0
            &&& e.eligible_at_ms <= now_ms
            &&& !(states[n].breaker.decision(now_ms) is Hold)
            &&& states[n].running() < states[0].cap
            &&& states[n + 1].running() == states[n].running() + 1
            &&& spot(states[n + 1].pending, e.call_id@) == states[n + 1].pending.len()
            &&& lookup(states[n + 1].records, e.call_id@) is Some
            &&& lookup(states[n + 1].records, e.call_id@)->Some_0.state == CallState::Ringing
        },
    decreases n,
{
    if n > 0 {
        dispatching_respects_cap_and_eligibility(states, steps, n - 1);
        assert(leads(states[n - 1], steps[n - 1], states[n - 1 + 1]));
        lemma_step(states[n - 1], steps[n - 1], states[n]);
    }
    if n < steps.len() && steps[n] is Dispatch {
        let s = states[n];
        let now_ms = steps[n]->Dispatch_now_ms;
        let id = s.pending[0].call_id@;
        assert(leads(states[n], steps[n], states[n + 1]));
        dispatching_keeps_consistency(s, now_ms);
        dispatch_takes_one_channel(s, now_ms);
        assert(holds(s.records, s.pending[0].call_id@));
        crate::state::lemma_place(s.records, id, 0);
        change_touches_one_record(
            s.records,
            id,
            CallRecord { state: CallState::Ringing, ..s.records[place(s.records, id)] },
            id,
        );
    }
}

/// How many channels a call holds.
pub open spec fn held(s: Load, id: Seq<char>) -> int {
    s.holding.to_multiset().count(id) as int
}

/// How often a call was dispatched in the first `n` operations.
pub open spec fn taken(states: Seq<Load>, steps: Seq<Step>, id: Seq<char>, n: int) -> int
    decreases n,
{
    if n <= 0 {
        0
    } else {
        taken(states, steps, id, n - 1) + (if steps[n - 1] is Dispatch
            && states[n - 1].pending[0].call_id@ == id {
            1int
        } else {
            0
        })
    }
}

/// How often a call that held a channel was released in the first `n` operations.
pub open spec fn returned(states: Seq<Load>, steps: Seq<Step>, id: Seq<char>, n: int) -> int
    decreases n,
{
    if n <= 0 {
        0
    } else {
        returned(states, steps, id, n - 1) + (if steps[n - 1] is Release
            && steps[n - 1]->Release_id == id && held(states[n - 1], id) > 0 {
            1int
        } else {
            0
        })
    }
}

proof fn lemma_without(s: Seq<Seq<char>>, id: Seq<char>, other: Seq<char>)
    ensures
        without(s, id).to_multiset().count(other) == s.to_multiset().count(other) - (if other == id
            && s.to_multiset().count(id) > 0 {
            1int
        } else {
            0
        }),
{
    lemma_live(s, id, 0);
    s.to_multiset_ensures();
    let i = live_from(s, id, 0);
    if i < s.len() {
        assert(s.contains(s[i]));
        assert(s.remove(i).to_multiset() =~= s.to_multiset().remove(s[i]));
    } else if s.to_multiset().count(id) > 0 {
        assert(s.contains(id));
        let j = choose|j: int| 0 <= j < s.len() && s[j] == id;
        assert(s[j] != id);
    }
}

/// A channel comes back once for each time that it was taken, and never otherwise: at every moment
/// a call holds as many channels as it was dispatched more often than released.
pub proof fn channels_come_back_once(
    states: Seq<Load>,
    steps: Seq<Step>,
    id: Seq<char>,
    n: int,
)
    requires
        history(states, steps),
        0 <= n <= steps.len(),
    ensures
        held(states[n], id) == taken(states, steps, id, n) - returned(states, steps, id, n),
        held(states[n], id) >= 0,
    decreases n,
{
    let s = states[n].holding;
    s.to_multiset_ensures();
    if n == 0 {
        assert(s =~= Seq::empty());
    } else {
        channels_come_back_once(states, steps, id, n - 1);
        assert(leads(states[n - 1], steps[n - 1], states[n - 1 + 1]));
        let a = states[n - 1];
        let b = states[n];
        a.holding.to_multiset_ensures();
        match steps[n - 1] {
            Step::Dispatch { now_ms } => {
                assert(b.holding == a.holding.push(a.pending[0].call_id@));
            },
            Step::Release { id: gone } => {
                lemma_without(a.holding, gone, id);
            },
            _ => {
                assert(b.holding == a.holding);
            },
        }
    }
}

/// Whether an operation takes an entry out of the queue: it dispatches it, or the call is asked to
/// end.
pub open spec fn takes_out(a: Load, step: Step, e: PendingEntry) -> bool {
    match step {
        Step::Dispatch { .. } => a.pending[0] == e,
        Step::End { id, .. } => id == e.call_id@,
        _ => false,
    }
}

/// What is queued stays so when another call is.
proof fn lemma_still_queued(s: Seq<PendingEntry>, x: PendingEntry, e: PendingEntry)
    requires
        in_order(s),
        spot(s, x.call_id@) == s.len(),
        s.contains(e),
    ensures
        enqueued(s, x).contains(e),
{
    lemma_rank(s, x);
    lemma_spot(s, x.call_id@, 0);
    let r = rank(s, x);
    if r < s.len() && same_key(s[r], x) {
        assert(s[r].call_id@ == x.call_id@);
    }
    let i = choose|i: int| 0 <= i < s.len() && s[i] == e;
    if i < r {
        assert(enqueued(s, x)[i] == e);
    } else {
        assert(enqueued(s, x)[i + 1] == e);
    }
}

proof fn lemma_kept(a: Load, step: Step, b: Load, e: PendingEntry)
    requires
        a.consistent(),
        leads(a, step, b),
        a.pending.contains(e),
        !takes_out(a, step, e),
    ensures
        b.pending.contains(e),
{
    let s = a.pending;
    let i = choose|i: int| 0 <= i < s.len() && s[i] == e;
    match step {
        Step::Place { number, scenario, eligible_at_ms, attempt, now_ms } => {
            let id = nth_id(a.seq);
            let (rec, x) = choose|rec: CallRecord, x: PendingEntry| #[trigger]
                placed_record(rec, id, number, attempt, now_ms) && #[trigger] pending_entry(
                    x,
                    id,
                    number,
                    scenario,
                    eligible_at_ms,
                    attempt,
                ) && b == (Load {
                    records: stored(a.records, rec),
                    pending: enqueued(a.pending, x),
                    counters: Counters { placed: rolled(a.counters.placed, 1), ..a.counters },
                    seq: a.seq + 1,
                    ..a
                });
            lemma_next_id_is_fresh(a);
            lemma_spot(s, id, 0);
            if spot(s, id) < s.len() {
                assert(holds(a.records, s[spot(s, id)].call_id@));
            }
            lemma_still_queued(s, x, e);
        },
        Step::Requeue { id, number, scenario, eligible_at_ms, attempt } => {
            let x = choose|x: PendingEntry| #[trigger]
                pending_entry(x, id, number, scenario, eligible_at_ms, attempt) && b == (Load {
                    records: changed(
                        a.records,
                        id,
                        CallRecord {
                            state: CallState::Queued,
                            attempt,
                            ..a.records[place(a.records, id)]
                        },
                    ),
                    pending: enqueued(a.pending, x),
                    counters: Counters { placed: rolled(a.counters.placed, 1), ..a.counters },
                    ..a
                });
            lemma_still_queued(s, x, e);
        },
        Step::Dispatch { now_ms } => {
            assert(b.pending[i - 1] == e);
        },
        Step::End { id, now_ms } => {
            lemma_spot(s, id, 0);
            let p = spot(s, id);
            if p < s.len() {
                if i < p {
                    assert(b.pending[i] == e);
                } else {
                    assert(b.pending[i - 1] == e);
                }
            } else {
                assert(b.pending[i] == e);
            }
        },
        _ => {
            assert(b.pending[i] == e);
        },
    }
}

/// No placed call is lost: what was queued once is queued still, unless it was dispatched or asked
/// to end since.
pub proof fn no_call_is_lost(
    states: Seq<Load>,
    steps: Seq<Step>,
    from: int,
    to: int,
    e: PendingEntry,
)
    requires
        history(states, steps),
        0 <= from <= to <= steps.len(),
        states[from].pending.contains(e),
    ensures
        states[to].pending.contains(e) || exists|k: int|
            from <= k < to && #[trigger] takes_out(states[k], steps[k], e),
    decreases to,
{
    if from < to {
        no_call_is_lost(states, steps, from, to - 1, e);
        if states[to - 1].pending.contains(e) {
            dispatching_respects_cap_and_eligibility(states, steps, to - 1);
            assert(leads(states[to - 1], steps[to - 1], states[to - 1 + 1]));
            if !takes_out(states[to - 1], steps[to - 1], e) {
                lemma_kept(states[to - 1], steps[to - 1], states[to], e);
            }
        }
    }
}

/// While the breaker holds the queue, nothing is dispatched.
pub proof fn open_breaker_holds_the_queue(s: Load, now_ms: u64)
    requires
        s.breaker.decision(now_ms) is Hold,
    ensures
        !s.can_dispatch(now_ms),
{
}

} // verus!
