//! What the engine's operations change, and what they leave alone.
use serde_json::Value;
use vstd::prelude::*;

use super::{
    lemma_live, live_from, names, nth_id, pending_entry, placed_record, rolled, with, without,
    Counters, EndCall, Ending, Engine, Load,
};
use crate::breaker::Decision;
use crate::config::ScenarioConfig;
use crate::queue::{enqueue_adds_one_entry, enqueued, lemma_spot, spot, PendingEntry};
use crate::state::{
    change_touches_one_record, changed, holds, lookup, place, stored, stored_record_is_found,
    CallQuality, CallRecord, CallState, Disposition,
};

verus! {

/// A total is a sum, for as long as the sum fits.
pub proof fn totals_add_up(a: u64, b: u64)
    ensures
        a + b <= u64::MAX ==> rolled(a, b) == a + b,
        a + b > u64::MAX ==> rolled(a, b) + u64::MAX + 1 == a + b,
{
}

/// Each disposition has a total of its own, and only that one goes up.
pub proof fn each_disposition_has_its_total(c: Counters, d: Disposition)
    ensures
        ({
            let t = c.bumped(d);
            let one = |a: u64, mine: bool|
                if mine {
                    rolled(a, 1)
                } else {
                    a
                };
            &&& t.completed == one(c.completed, d == Disposition::Completed)
            &&& t.voicemail == one(c.voicemail, d == Disposition::Voicemail)
            &&& t.announcement == one(c.announcement, d == Disposition::Announcement)
            &&& t.ivr == one(c.ivr, d == Disposition::Ivr)
            &&& t.hold == one(c.hold, d == Disposition::Hold)
            &&& t.busy == one(c.busy, d == Disposition::Busy)
            &&& t.no_answer == one(c.no_answer, d == Disposition::NoAnswer)
            &&& t.rejected == one(c.rejected, d == Disposition::Rejected)
            &&& t.not_found == one(c.not_found, d == Disposition::NotFound)
            &&& t.unavailable == one(c.unavailable, d == Disposition::Unavailable)
            &&& t.failed == one(c.failed, d == Disposition::Failed)
            &&& t.cancelled == one(c.cancelled, d == Disposition::Cancelled)
            &&& t.placed == c.placed
            &&& t.underruns == c.underruns
            &&& t.starved_ms == c.starved_ms
            &&& t.quality_aborted == c.quality_aborted
            &&& t.uplink_received == c.uplink_received
            &&& t.uplink_lost == c.uplink_lost
        }),
{
}

/// A call's quality adds to the totals of the same name, and to no others.
pub proof fn quality_adds_to_its_totals(c: Counters, q: CallQuality, d: Disposition)
    ensures
        c.with_quality(q).underruns == rolled(c.underruns, q.underruns),
        c.with_quality(q).starved_ms == rolled(c.starved_ms, q.starved_ms),
        c.with_quality(q).uplink_received == rolled(c.uplink_received, q.uplink_received),
        c.with_quality(q).uplink_lost == rolled(c.uplink_lost, q.uplink_lost),
        c.with_quality(q).of(d) == c.of(d),
        c.with_quality(q).placed == c.placed,
        c.with_quality(q).quality_aborted == c.quality_aborted,
{
}

/// The suggested poll interval is the base for a call that is not queued or for which a channel is
/// free; each further place in the queue adds the base once more, up to the maximum. A call further
/// back is never polled more often.
pub proof fn poll_interval_grows_with_the_queue(s: Load, id: Seq<char>, behind: Seq<char>)
    requires
        s.wf(),
        s.poll_ms >= 0,
    ensures
        ({
            let free = s.cap - s.running();
            let position = spot(s.pending, id) + 1;
            let queued = position <= s.pending.len();
            let want = s.poll_ms * (1 + position - free);
            &&& s.poll_ms <= s.poll_interval(id)
            &&& s.poll_interval(id) <= s.poll_ms || s.poll_interval(id) <= s.poll_max_ms
            &&& !queued || position <= free ==> s.poll_interval(id) == s.poll_ms
            &&& queued && position > free && want <= s.poll_max_ms ==> s.poll_interval(id) == want
            &&& queued && position > free && want > s.poll_max_ms && s.poll_max_ms >= s.poll_ms
                ==> s.poll_interval(id) == s.poll_max_ms
            &&& spot(s.pending, id) <= spot(s.pending, behind) < s.pending.len()
                ==> s.poll_interval(id) <= s.poll_interval(behind)
        }),
{
    let a = s.slots_ahead(id);
    let b = s.slots_ahead(behind);
    let base = s.poll_ms;
    lemma_spot(s.pending, id, 0);
    lemma_spot(s.pending, behind, 0);
    assert(base <= base * (1 + a)) by (nonlinear_arith)
        requires
            base >= 0,
            a >= 0,
    ;
    assert(base * (1 + 0) == base) by (nonlinear_arith);
    if a <= b {
        assert(base * (1 + a) <= base * (1 + b)) by (nonlinear_arith)
            requires
                base >= 0,
                a <= b,
        ;
    }
}

/// A placed call has a fresh record and an entry in the queue with what was asked for, and counts as
/// placed. No other record changes, and every other entry stays.
pub proof fn placing_adds_one_call(
    before: Load,
    after: Load,
    number: Seq<char>,
    scenario: ScenarioConfig,
    eligible_at_ms: u64,
    attempt: u32,
    now_ms: u64,
    other: Seq<char>,
    x: PendingEntry,
)
    requires
        before.wf(),
        before.placed(after, number, scenario, eligible_at_ms, attempt, now_ms),
    ensures
        ({
            let id = nth_id(before.seq);
            let rec = lookup(after.records, id)->Some_0;
            &&& rec.attempt == attempt
            &&& rec.started_ms == now_ms
            &&& rec.ended_ms is None
            &&& rec.disposition is None
            &&& rec.goal is None
            &&& rec.error is None
            &&& rec.transcript@.len() == 0
            &&& rec.affect@.len() == 0
            &&& exists|e: PendingEntry| #[trigger]
                after.pending.contains(e) && e.call_id@ == id && e.number@ == number && e.scenario
                    == scenario && e.eligible_at_ms == eligible_at_ms && e.attempt == attempt
            &&& before.pending.contains(x) && x.call_id@ != id ==> after.pending.contains(x)
            &&& after.pending.contains(x) && x.call_id@ != id ==> before.pending.contains(x)
            &&& other != id ==> lookup(after.records, other) == lookup(before.records, other)
            &&& after.counters == (Counters {
                placed: rolled(before.counters.placed, 1),
                ..before.counters
            })
            &&& after.seq == before.seq + 1
        }),
{
    let id = nth_id(before.seq);
    let (rec, e) = choose|rec: CallRecord, e: PendingEntry| #[trigger]
        placed_record(rec, id, number, attempt, now_ms) && #[trigger] pending_entry(
            e,
            id,
            number,
            scenario,
            eligible_at_ms,
            attempt,
        ) && after == (Load {
            records: stored(before.records, rec),
            pending: enqueued(before.pending, e),
            counters: Counters { placed: rolled(before.counters.placed, 1), ..before.counters },
            seq: before.seq + 1,
            ..before
        });
    stored_record_is_found(before.records, rec, id);
    stored_record_is_found(before.records, rec, other);
    enqueue_adds_one_entry(before.pending, e, e);
    enqueue_adds_one_entry(before.pending, e, x);
    assert(after.pending.contains(e));
}

/// A call that is queued again keeps its record but for its state and attempt, is in the queue with
/// what was asked for, and counts as placed once more. No other call changes.
pub proof fn requeueing_touches_one_call(
    before: Load,
    after: Load,
    id: Seq<char>,
    number: Seq<char>,
    scenario: ScenarioConfig,
    eligible_at_ms: u64,
    attempt: u32,
    other: Seq<char>,
    x: PendingEntry,
)
    requires
        before.wf(),
        holds(before.records, id),
        before.requeued(after, id, number, scenario, eligible_at_ms, attempt),
    ensures
        ({
            let old_rec = lookup(before.records, id)->Some_0;
            &&& lookup(after.records, id) == Some(
                CallRecord { state: CallState::Queued, attempt, ..old_rec },
            )
            &&& exists|e: PendingEntry| #[trigger]
                after.pending.contains(e) && e.call_id@ == id && e.number@ == number && e.scenario
                    == scenario && e.eligible_at_ms == eligible_at_ms && e.attempt == attempt
            &&& before.pending.contains(x) && x.call_id@ != id ==> after.pending.contains(x)
            &&& after.pending.contains(x) && x.call_id@ != id ==> before.pending.contains(x)
            &&& other != id ==> lookup(after.records, other) == lookup(before.records, other)
            &&& after.counters == (Counters {
                placed: rolled(before.counters.placed, 1),
                ..before.counters
            })
            &&& after.live == before.live
            &&& after.holding == before.holding
        }),
{
    let e = choose|e: PendingEntry| #[trigger]
        pending_entry(e, id, number, scenario, eligible_at_ms, attempt) && after == (Load {
            records: changed(
                before.records,
                id,
                CallRecord {
                    state: CallState::Queued,
                    attempt,
                    ..before.records[place(before.records, id)]
                },
            ),
            pending: enqueued(before.pending, e),
            counters: Counters { placed: rolled(before.counters.placed, 1), ..before.counters },
            ..before
        });
    crate::state::lemma_place(before.records, id, 0);
    let new_rec = CallRecord {
        state: CallState::Queued,
        attempt,
        ..before.records[place(before.records, id)]
    };
    change_touches_one_record(before.records, id, new_rec, other);
    enqueue_adds_one_entry(before.pending, e, e);
    enqueue_adds_one_entry(before.pending, e, x);
    assert(after.pending.contains(e));
}

/// The next call is dispatched exactly where a channel is free, one is due, and the breaker does not
/// hold the queue.
pub proof fn due_call_is_dispatched(s: Load, now_ms: u64)
    ensures
        s.can_dispatch(now_ms) <==> s.holding.len() < s.cap && s.pending.len() > 0
            && s.pending[0].eligible_at_ms <= now_ms && (s.breaker.decision(now_ms)
            == Decision::Dispatch || s.breaker.decision(now_ms) == Decision::Probe),
{
}

proof fn lemma_without(live: Seq<Seq<char>>, id: Seq<char>, other: Seq<char>)
    ensures
        other != id ==> (names(without(live, id), other) <==> names(live, other)),
        names(live, id) ==> without(live, id).len() == live.len() - 1,
        !names(live, id) ==> without(live, id) == live,
        names(live, id) <==> live_from(live, id, 0) < live.len(),
{
    lemma_live(live, id, 0);
    let k = live_from(live, id, 0);
    let t = without(live, id);
    if k < live.len() {
        assert(live[k] == id);
    }
    if other != id {
        if names(live, other) {
            let i = choose|i: int| 0 <= i < live.len() && live[i] == other;
            if k >= live.len() {
                assert(t[i] == other);
            } else if i < k {
                assert(t[i] == other);
            } else {
                assert(t[i - 1] == other);
            }
        }
        if names(t, other) {
            let i = choose|i: int| 0 <= i < t.len() && t[i] == other;
            if k >= live.len() || i < k {
                assert(live[i] == other);
            } else {
                assert(live[i + 1] == other);
            }
        }
    }
}

proof fn lemma_with(live: Seq<Seq<char>>, id: Seq<char>, other: Seq<char>)
    ensures
        names(with(live, id), id),
        other != id ==> (names(with(live, id), other) <==> names(live, other)),
{
    lemma_live(live, id, 0);
    let k = live_from(live, id, 0);
    let t = with(live, id);
    if k < live.len() {
        assert(t[k] == id);
    } else {
        assert(t[live.len() as int] == id);
        if names(live, other) {
            let i = choose|i: int| 0 <= i < live.len() && live[i] == other;
            assert(t[i] == other);
        }
        if names(t, other) && other != id {
            let i = choose|i: int| 0 <= i < t.len() && t[i] == other;
            assert(live[i] == other);
        }
    }
}

/// A dispatched call leaves the queue's front, rings and can be told to end. No other call changes:
/// neither its record, nor its place in line, nor whether it can be told to end.
pub proof fn dispatch_touches_one_call(s: Load, now_ms: u64, other: Seq<char>)
    requires
        s.wf(),
        s.can_dispatch(now_ms),
        holds(s.records, s.pending[0].call_id@),
    ensures
        ({
            let t = s.dispatched(now_ms);
            let id = s.pending[0].call_id@;
            let old_rec = lookup(s.records, id)->Some_0;
            let new_rec = lookup(t.records, id)->Some_0;
            &&& new_rec == (CallRecord { state: CallState::Ringing, ..old_rec })
            &&& names(t.live, id)
            &&& t.holding == s.holding.push(id)
            &&& t.pending.len() == s.pending.len() - 1
            &&& forall|i: int| 0 <= i < t.pending.len() ==> #[trigger] t.pending[i] == s.pending[i
                + 1]
            &&& other != id ==> lookup(t.records, other) == lookup(s.records, other)
            &&& other != id ==> (names(t.live, other) <==> names(s.live, other))
            &&& t.counters == s.counters
            &&& t.seq == s.seq
            &&& t.cap == s.cap
            &&& s.breaker.decision(now_ms) != Decision::Probe ==> t.breaker == s.breaker
        }),
{
    let id = s.pending[0].call_id@;
    crate::state::lemma_place(s.records, id, 0);
    change_touches_one_record(
        s.records,
        id,
        CallRecord { state: CallState::Ringing, ..s.records[place(s.records, id)] },
        other,
    );
    lemma_with(s.live, id, other);
}

/// A call that is over gives back the channel that it held, and no other's.
pub proof fn release_frees_one_channel(s: Load, id: Seq<char>, other: Seq<char>)
    ensures
        ({
            let t = s.released(id);
            &&& t.running() == (if names(s.holding, id) {
                s.running() - 1
            } else {
                s.running()
            })
            &&& other != id ==> (names(t.holding, other) <==> names(s.holding, other))
            &&& other != id ==> (names(t.live, other) <==> names(s.live, other))
            &&& t.records == s.records
            &&& t.pending == s.pending
            &&& t.counters == s.counters
        }),
{
    lemma_without(s.holding, id, other);
    lemma_without(s.live, id, other);
}

/// A call that ends keeps its number, its transcript and when it was placed; the goal, the error
/// and the time are those of the end. No other record changes, and no channel or queue place does.
pub proof fn end_is_recorded(
    s: Load,
    id: Seq<char>,
    d: Disposition,
    goal: Option<Value>,
    error: Option<String>,
    now_ms: u64,
    other: Seq<char>,
)
    requires
        s.wf(),
        holds(s.records, id),
    ensures
        ({
            let t = s.concluded(id, d, goal, error, now_ms);
            let a = lookup(s.records, id)->Some_0;
            let b = lookup(t.records, id)->Some_0;
            &&& lookup(t.records, id) is Some
            &&& b.state == CallState::Ended
            &&& b.disposition == Some(d)
            &&& b.goal == goal
            &&& b.error == error
            &&& b.ended_ms == Some(now_ms)
            &&& b.call_id@ == id
            &&& b.number == a.number
            &&& b.transcript == a.transcript
            &&& b.affect == a.affect
            &&& b.started_ms == a.started_ms
            &&& b.quality == a.quality
            &&& b.attempt == a.attempt
            &&& other != id ==> lookup(t.records, other) == lookup(s.records, other)
            &&& t.pending == s.pending
            &&& t.live == s.live
            &&& t.holding == s.holding
        }),
{
    crate::state::lemma_place(s.records, id, 0);
    change_touches_one_record(
        s.records,
        id,
        CallRecord {
            state: CallState::Ended,
            disposition: Some(d),
            goal,
            error,
            ended_ms: Some(now_ms),
            ..s.records[place(s.records, id)]
        },
        other,
    );
}

/// Asking for the end of a call: a queued one leaves the queue and is cancelled at once, a running
/// one is told once, and there is nothing to end otherwise. No other call's record, place in line
/// or channel changes, and no call loses its channel before its task is over.
pub proof fn ending_touches_one_call(s: Load, id: Seq<char>, now_ms: u64, other: Seq<char>)
    requires
        s.wf(),
    ensures
        ({
            let t = s.end_requested(id, now_ms);
            let queued = exists|i: int|
                0 <= i < s.pending.len() && (#[trigger] s.pending[i]).call_id@ == id;
            &&& s.end_outcome(id) == EndCall::Cancelled <==> queued
            &&& s.end_outcome(id) == EndCall::Signal <==> !queued && names(s.live, id)
            &&& s.end_outcome(id) == EndCall::Unknown ==> t == s
            &&& queued ==> t.pending.len() == s.pending.len() - 1 && t.live == s.live
            &&& queued && holds(s.records, id) ==> {
                &&& lookup(t.records, id)->Some_0.state == CallState::Ended
                &&& lookup(t.records, id)->Some_0.disposition == Some(Disposition::Cancelled)
                &&& lookup(t.records, id)->Some_0.ended_ms == Some(now_ms)
            }
            &&& queued ==> t.counters.cancelled == rolled(s.counters.cancelled, 1)
            &&& !queued ==> t.counters == s.counters && t.records == s.records && t.pending
                == s.pending
            &&& !queued && names(s.live, id) ==> t.live.len() == s.live.len() - 1
            &&& t.holding == s.holding
            &&& other != id ==> {
                &&& lookup(t.records, other) == lookup(s.records, other)
                &&& names(t.live, other) <==> names(s.live, other)
                &&& forall|e: PendingEntry| #[trigger]
                    s.pending.contains(e) && e.call_id@ == other ==> t.pending.contains(e)
            }
            &&& forall|e: PendingEntry| #[trigger] t.pending.contains(e) ==> s.pending.contains(e)
        }),
{
    let t = s.end_requested(id, now_ms);
    let k = spot(s.pending, id);
    lemma_spot(s.pending, id, 0);
    lemma_without(s.live, id, other);
    crate::state::lemma_place(s.records, id, 0);
    if k < s.pending.len() {
        assert(s.pending[k].call_id@ == id);
        let one = Load { pending: s.pending.remove(k), ..s };
        if holds(s.records, id) {
            end_is_recorded(one, id, Disposition::Cancelled, None, None, now_ms, other);
        }
        assert(t.counters == s.counters.bumped(Disposition::Cancelled));
        assert forall|e: PendingEntry| #[trigger] t.pending.contains(e) implies s.pending.contains(
            e,
        ) by {
            let i = choose|i: int| 0 <= i < t.pending.len() && t.pending[i] == e;
            if i < k {
                assert(s.pending[i] == e);
            } else {
                assert(s.pending[i + 1] == e);
            }
        }
        assert forall|e: PendingEntry| #[trigger]
            s.pending.contains(e) && e.call_id@ == other && other
                != id implies t.pending.contains(e) by {
            let i = choose|i: int| 0 <= i < s.pending.len() && s.pending[i] == e;
            if i < k {
                assert(t.pending[i] == e);
            } else {
                assert(t.pending[i - 1] == e);
            }
        }
    }
}

/// The time to look again is neither too early nor too late: where nothing else changes, no call can
/// be dispatched before it, and at it the earliest call is due and whatever held the queue has run
/// out. Without such a time no call can be dispatched at all.
pub proof fn next_wake_is_the_next_chance(
    e: Engine,
    now_ms: u64,
    wake: Option<u64>,
    then_ms: u64,
)
    requires
        call_ensures(Engine::next_wake, (&e, now_ms), wake),
        now_ms <= then_ms,
    ensures
        wake is None ==> !e@.can_dispatch(then_ms),
        wake is Some && then_ms < wake->Some_0 ==> !e@.can_dispatch(then_ms),
        wake is Some ==> e@.pending[0].eligible_at_ms <= wake->Some_0,
        wake is Some && e@.breaker.decision(now_ms) is Hold ==> wake->Some_0
            >= e@.breaker.decision(now_ms)->Hold_0,
        wake is Some && wake->Some_0 > now_ms ==> wake->Some_0 == e@.pending[0].eligible_at_ms
            || e@.breaker.decision(now_ms) == Decision::Hold(wake->Some_0),
        wake is Some && wake->Some_0 <= then_ms && !(e@.breaker.decision(then_ms) is Hold)
            ==> e@.can_dispatch(then_ms),
{
}

/// The one way in which a call ends records how it turned out, with its goal and error, and counts it
/// once under that; a quality abort is counted besides, and nothing else of the engine changes.
pub proof fn finalizing_records_and_counts(
    s: Load,
    id: Seq<char>,
    e: Ending,
    now_ms: u64,
    other: Disposition,
)
    requires
        s.wf(),
        holds(s.records, id),
    ensures
        ({
            let t = s.finalized(id, e, now_ms);
            let rec = lookup(t.records, id)->Some_0;
            let d = e.disposition();
            &&& rec.state == CallState::Ended
            &&& rec.disposition == Some(d)
            &&& rec.goal == e.goal
            &&& rec.error == e.error
            &&& rec.ended_ms == Some(now_ms)
            &&& t.counters.of(d) == rolled(s.counters.of(d), 1)
            &&& other != d ==> t.counters.of(other) == s.counters.of(other)
            &&& t.counters.quality_aborted == (if e.quality_aborted {
                rolled(s.counters.quality_aborted, 1)
            } else {
                s.counters.quality_aborted
            })
            &&& t.counters.placed == s.counters.placed
            &&& t.pending == s.pending && t.live == s.live && t.holding == s.holding
        }),
{
    end_is_recorded(s, id, e.disposition(), e.goal, e.error, now_ms, id);
    super::bump_counts_one_kind(s.counters, e.disposition(), other);
}

/// A preflight of a call tells the whole engine about the network: the failure that reaches the
/// threshold holds every dispatch for the cooldown, an earlier one holds none that was not held, and
/// a success holds nothing and starts the count over. No call is touched by it.
pub proof fn preflights_decide_for_every_call(s: Load, now_ms: u64)
    requires
        s.breaker.threshold > 0,
        0 <= s.breaker.failures < u32::MAX,
        0 < s.breaker.cooldown_ms <= u64::MAX - now_ms,
    ensures
        ({
            let bad = s.preflighted(false, now_ms);
            let good = s.preflighted(true, now_ms);
            &&& bad.breaker.failures == s.breaker.failures + 1
            &&& s.breaker.failures + 1 >= s.breaker.threshold ==> bad.breaker.decision(now_ms)
                == Decision::Hold((now_ms + s.breaker.cooldown_ms) as u64)
            &&& s.breaker.failures + 1 < s.breaker.threshold && s.breaker.open_until_ms == 0
                ==> bad.breaker.decision(now_ms) == Decision::Dispatch
            &&& good.breaker.failures == 0
            &&& good.breaker.decision(now_ms) == Decision::Dispatch
            &&& bad.records == s.records && bad.pending == s.pending && bad.live == s.live
            &&& good.records == s.records && good.pending == s.pending && good.live == s.live
            &&& bad.counters == s.counters && good.counters == s.counters
        }),
{
}

} // verus!
