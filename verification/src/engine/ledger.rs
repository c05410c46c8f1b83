//! What every operation of the engine keeps: the queue and the records agree.
use vstd::prelude::*;

use super::{ids_are_distinct, nth_id, pending_entry, placed_record, record_ids, rolled};
use super::{Counters, EndCall, Load};
use crate::config::ScenarioConfig;
use crate::queue::{enqueue_keeps_order, enqueued, in_order, lemma_rank, lemma_spot, rank};
use crate::queue::{same_key, spot, PendingEntry};
use crate::state::{change_touches_one_record, changed, distinct, holds, lemma_place, lookup, place};
use crate::state::{stored, stored_record_is_found, CallRecord, CallState, Disposition};

verus! {

/// No two entries are of the same call.
pub open spec fn once_each(s: Seq<PendingEntry>) -> bool {
    forall|i: int, j: int|
        0 <= i < j < s.len() ==> (#[trigger] s[i]).call_id@ != (#[trigger] s[j]).call_id@
}

/// Every entry's call is on record.
pub open spec fn on_record(s: Seq<PendingEntry>, records: Seq<CallRecord>) -> bool {
    forall|i: int| 0 <= i < s.len() ==> holds(records, (#[trigger] s[i]).call_id@)
}

/// Every record's id was given out already.
pub open spec fn given_out(records: Seq<CallRecord>, seq: int) -> bool {
    forall|i: int|
        0 <= i < records.len() ==> exists|k: int|
            0 <= k < seq && (#[trigger] records[i]).call_id@ == #[trigger] nth_id(k)
}

impl Load {
    /// Records have distinct ids that were given out, and every queued call is queued once and on
    /// record.
    pub open spec fn consistent(self) -> bool {
        &&& self.wf()
        &&& 0 <= self.seq
        &&& once_each(self.pending)
        &&& on_record(self.pending, self.records)
        &&& given_out(self.records, self.seq)
    }
}

/// The id that comes next is on no record.
pub(crate) proof fn lemma_next_id_is_fresh(s: Load)
    requires
        s.consistent(),
    ensures
        !holds(s.records, nth_id(s.seq)),
{
    let id = nth_id(s.seq);
    lemma_place(s.records, id, 0);
    let p = place(s.records, id);
    if p < s.records.len() {
        assert(s.records[p].call_id@ == id);
        let k = choose|k: int|
            0 <= k < s.seq && s.records[p].call_id@ == #[trigger] nth_id(k);
        ids_are_distinct(k, s.seq);
    }
}

/// A change of one record keeps every id where it is.
proof fn lemma_changed_ids(s: Seq<CallRecord>, id: Seq<char>, with: CallRecord, other: Seq<char>)
    requires
        distinct(s),
        with.call_id@ == id,
    ensures
        record_ids(changed(s, id, with)) == record_ids(s),
        holds(changed(s, id, with), other) == holds(s, other),
{
    lemma_place(s, id, 0);
    lemma_place(s, other, 0);
    lemma_place(changed(s, id, with), other, 0);
    change_touches_one_record(s, id, with, other);
    assert(record_ids(changed(s, id, with)) =~= record_ids(s));
    if other == id {
        assert(holds(changed(s, id, with), other) == (lookup(changed(s, id, with), id) is Some));
    } else {
        assert(lookup(changed(s, id, with), other) == lookup(s, other));
    }
}

/// What `enqueued` adds: the entry, and nothing else.
proof fn lemma_enqueued(s: Seq<PendingEntry>, e: PendingEntry)
    requires
        in_order(s),
        once_each(s),
        spot(s, e.call_id@) == s.len(),
    ensures
        once_each(enqueued(s, e)),
        forall|i: int|
            0 <= i < enqueued(s, e).len() ==> (#[trigger] enqueued(s, e)[i]) == e || s.contains(
                enqueued(s, e)[i],
            ),
{
    lemma_rank(s, e);
    lemma_spot(s, e.call_id@, 0);
    let r = rank(s, e);
    let t = enqueued(s, e);
    if r < s.len() && same_key(s[r], e) {
        assert(s[r].call_id@ == e.call_id@);
    }
    assert forall|i: int| 0 <= i < t.len() implies (#[trigger] t[i]) == e || s.contains(t[i]) by {
        if i < r {
            assert(t[i] == s[i]);
        } else if i > r {
            assert(t[i] == s[i - 1]);
        }
    }
    assert forall|i: int, j: int| 0 <= i < j < t.len() implies (#[trigger] t[i]).call_id@ != (
    #[trigger] t[j]).call_id@ by {
        let a = if i < r {
            i
        } else {
            i - 1
        };
        let b = if j < r {
            j
        } else {
            j - 1
        };
        if i == r {
            assert(t[j] == s[b]);
            assert(s[b].call_id@ != e.call_id@);
        } else if j == r {
            assert(t[i] == s[a]);
            assert(s[a].call_id@ != e.call_id@);
        } else {
            assert(t[i] == s[a] && t[j] == s[b]);
            assert(s[a].call_id@ != s[b].call_id@);
        }
    }
}

/// Placing a call keeps the engine consistent.
pub proof fn placing_keeps_consistency(
    before: Load,
    after: Load,
    number: Seq<char>,
    scenario: ScenarioConfig,
    eligible_at_ms: u64,
    attempt: u32,
    now_ms: u64,
)
    requires
        before.consistent(),
        before.placed(after, number, scenario, eligible_at_ms, attempt, now_ms),
    ensures
        after.consistent(),
{
    let id = nth_id(before.seq);
    let (rec, e) = choose|rec: CallRecord, e: PendingEntry| #[trigger]
        placed_record(rec, id, number, attempt, now_ms) && #[trigger] pending_entry(
            e,
            id,
            number,
            scenario,
            eligible_at_ms,
            attempt,
        ) && after == (Load {
            records: stored(before.records, rec),
            pending: enqueued(before.pending, e),
            counters: Counters { placed: rolled(before.counters.placed, 1), ..before.counters },
            seq: before.seq + 1,
            ..before
        });
    lemma_next_id_is_fresh(before);
    lemma_spot(before.pending, id, 0);
    if spot(before.pending, id) < before.pending.len() {
        assert(holds(before.records, before.pending[spot(before.pending, id)].call_id@));
    }
    lemma_enqueued(before.pending, e);
    enqueue_keeps_order(before.pending, e);
    stored_record_is_found(before.records, rec, id);
    let s = before.pending;
    let t = after.pending;
    assert forall|i: int| 0 <= i < t.len() implies holds(
        after.records,
        (#[trigger] t[i]).call_id@,
    ) by {
        assert(lookup(after.records, id) == Some(rec));
        if t[i] != e {
            let j = choose|j: int| 0 <= j < s.len() && s[j] == t[i];
            assert(holds(before.records, s[j].call_id@));
            stored_record_is_found(before.records, rec, s[j].call_id@);
            assert(lookup(before.records, s[j].call_id@) is Some);
        }
    }
    assert forall|i: int| 0 <= i < after.records.len() implies exists|k: int|
        0 <= k < after.seq && (#[trigger] after.records[i]).call_id@ == #[trigger] nth_id(k) by {
        if i < before.records.len() {
            assert(after.records[i] == before.records[i]);
            let k = choose|k: int|
                0 <= k < before.seq && before.records[i].call_id@ == #[trigger] nth_id(k);
            assert(after.records[i].call_id@ == nth_id(k));
        } else {
            assert(after.records[i].call_id@ == nth_id(before.seq));
        }
    }
}

/// A change of one record and the loss of some entries keep the engine consistent.
pub(crate) proof fn lemma_change(s: Load, t: Load, id: Seq<char>, with: CallRecord)
    requires
        s.consistent(),
        t.wf(),
        t.seq == s.seq,
        with.call_id@ == id,
        t.records == changed(s.records, id, with),
        once_each(t.pending),
        forall|i: int| 0 <= i < t.pending.len() ==> s.pending.contains(#[trigger] t.pending[i]),
    ensures
        t.consistent(),
        record_ids(t.records) == record_ids(s.records),
{
    lemma_changed_ids(s.records, id, with, id);
    assert forall|i: int| 0 <= i < t.pending.len() implies holds(
        t.records,
        (#[trigger] t.pending[i]).call_id@,
    ) by {
        assert(s.pending.contains(t.pending[i]));
        let j = choose|j: int| 0 <= j < s.pending.len() && s.pending[j] == t.pending[i];
        assert(holds(s.records, s.pending[j].call_id@));
        lemma_changed_ids(s.records, id, with, s.pending[j].call_id@);
    }
    lemma_place(s.records, id, 0);
    assert forall|i: int| 0 <= i < t.records.len() implies exists|k: int|
        0 <= k < t.seq && (#[trigger] t.records[i]).call_id@ == #[trigger] nth_id(k) by {
        assert(t.records[i].call_id@ == record_ids(t.records)[i]);
        assert(s.records[i].call_id@ == record_ids(s.records)[i]);
        let k = choose|k: int| 0 <= k < s.seq && s.records[i].call_id@ == #[trigger] nth_id(k);
        assert(t.records[i].call_id@ == nth_id(k));
    }
}

/// Queuing a call again keeps the engine consistent, where it is on record and not queued already.
pub proof fn requeuing_keeps_consistency(
    before: Load,
    after: Load,
    id: Seq<char>,
    number: Seq<char>,
    scenario: ScenarioConfig,
    eligible_at_ms: u64,
    attempt: u32,
)
    requires
        before.consistent(),
        holds(before.records, id),
        spot(before.pending, id) == before.pending.len(),
        before.requeued(after, id, number, scenario, eligible_at_ms, attempt),
    ensures
        after.consistent(),
{
    let with = CallRecord {
        state: CallState::Queued,
        attempt,
        ..before.records[place(before.records, id)]
    };
    let e = choose|e: PendingEntry| #[trigger]
        pending_entry(e, id, number, scenario, eligible_at_ms, attempt) && after == (Load {
            records: changed(before.records, id, with),
            pending: enqueued(before.pending, e),
            counters: Counters { placed: rolled(before.counters.placed, 1), ..before.counters },
            ..before
        });
    lemma_place(before.records, id, 0);
    lemma_enqueued(before.pending, e);
    enqueue_keeps_order(before.pending, e);
    change_touches_one_record(before.records, id, with, id);
    let middle = Load { records: after.records, ..before };
    assert forall|i: int| 0 <= i < middle.pending.len() implies before.pending.contains(
        #[trigger] middle.pending[i],
    ) by {
        assert(middle.pending[i] == before.pending[i]);
    }
    lemma_change(before, middle, id, with);
    let s = before.pending;
    let t = after.pending;
    assert forall|i: int| 0 <= i < t.len() implies holds(
        after.records,
        (#[trigger] t[i]).call_id@,
    ) by {
        lemma_changed_ids(before.records, id, with, id);
        if t[i] != e {
            assert(s.contains(t[i]));
            let j = choose|j: int| 0 <= j < s.len() && s[j] == t[i];
            assert(holds(middle.records, middle.pending[j].call_id@));
        }
    }
}

/// Dispatching a call keeps the engine consistent.
pub proof fn dispatching_keeps_consistency(s: Load, now_ms: u64)
    requires
        s.consistent(),
        s.can_dispatch(now_ms),
    ensures
        s.dispatched(now_ms).consistent(),
        spot(s.dispatched(now_ms).pending, s.pending[0].call_id@) == s.dispatched(
            now_ms,
        ).pending.len(),
{
    let t = s.dispatched(now_ms);
    let id = s.pending[0].call_id@;
    let with = CallRecord { state: CallState::Ringing, ..s.records[place(s.records, id)] };
    assert(holds(s.records, s.pending[0].call_id@));
    lemma_place(s.records, id, 0);
    lemma_changed_ids(s.records, id, with, id);
    change_touches_one_record(s.records, id, with, id);
    assert forall|i: int, j: int| 0 <= i < j < t.pending.len() implies (
    #[trigger] t.pending[i]).call_id@ != (#[trigger] t.pending[j]).call_id@ by {
        assert(s.pending[i + 1].call_id@ != s.pending[j + 1].call_id@);
    }
    assert forall|i: int, j: int| 0 <= i < j < t.pending.len() implies crate::queue::sooner(
        #[trigger] t.pending[i],
        #[trigger] t.pending[j],
    ) by {
        assert(crate::queue::sooner(s.pending[i + 1], s.pending[j + 1]));
    }
    assert forall|i: int| 0 <= i < t.pending.len() implies s.pending.contains(
        #[trigger] t.pending[i],
    ) by {
        assert(t.pending[i] == s.pending[i + 1]);
    }
    lemma_change(s, t, id, with);
    lemma_spot(t.pending, id, 0);
    let p = spot(t.pending, id);
    if p < t.pending.len() {
        assert(s.pending[0].call_id@ != s.pending[p + 1].call_id@);
    }
}

/// Asking a call to end keeps the engine consistent and every record under its id; the call is
/// queued no longer, and one that was queued is on record as ended and cancelled.
pub proof fn ending_keeps_consistency(s: Load, id: Seq<char>, now_ms: u64)
    requires
        s.consistent(),
    ensures
        s.end_requested(id, now_ms).consistent(),
        record_ids(s.end_requested(id, now_ms).records) == record_ids(s.records),
        spot(s.end_requested(id, now_ms).pending, id) == s.end_requested(id, now_ms).pending.len(),
        forall|i: int|
            0 <= i < s.end_requested(id, now_ms).pending.len() ==> s.pending.contains(
                #[trigger] s.end_requested(id, now_ms).pending[i],
            ),
        s.end_outcome(id) == EndCall::Cancelled ==> cancelled(
            s.end_requested(id, now_ms).records,
            id,
        ),
{
    let t = s.end_requested(id, now_ms);
    let i = spot(s.pending, id);
    lemma_spot(s.pending, id, 0);
    lemma_spot(t.pending, id, 0);
    lemma_place(s.records, id, 0);
    if i < s.pending.len() {
        assert(holds(s.records, s.pending[i].call_id@));
        let with = CallRecord {
            state: CallState::Ended,
            disposition: Some(Disposition::Cancelled),
            goal: None,
            error: None,
            ended_ms: Some(now_ms),
            ..s.records[place(s.records, id)]
        };
        assert(t.records == changed(s.records, id, with));
        lemma_changed_ids(s.records, id, with, id);
        change_touches_one_record(s.records, id, with, id);
        assert(t.pending == s.pending.remove(i));
        assert forall|a: int| 0 <= a < t.pending.len() implies (#[trigger] t.pending[a])
            == s.pending[if a < i {
            a
        } else {
            a + 1
        }] by {}
        assert forall|a: int, b: int| 0 <= a < b < t.pending.len() implies (
        #[trigger] t.pending[a]).call_id@ != (#[trigger] t.pending[b]).call_id@ by {
            let x = if a < i {
                a
            } else {
                a + 1
            };
            let y = if b < i {
                b
            } else {
                b + 1
            };
            assert(s.pending[x].call_id@ != s.pending[y].call_id@);
        }
        assert forall|a: int, b: int| 0 <= a < b < t.pending.len() implies crate::queue::sooner(
            #[trigger] t.pending[a],
            #[trigger] t.pending[b],
        ) by {
            let x = if a < i {
                a
            } else {
                a + 1
            };
            let y = if b < i {
                b
            } else {
                b + 1
            };
            assert(crate::queue::sooner(s.pending[x], s.pending[y]));
        }
        lemma_change(s, t, id, with);
        let p = spot(t.pending, id);
        if p < t.pending.len() {
            let x = if p < i {
                p
            } else {
                p + 1
            };
            assert(t.pending[p] == s.pending[x]);
            if x < i {
                assert(s.pending[x].call_id@ != s.pending[i].call_id@);
            } else {
                assert(s.pending[i].call_id@ != s.pending[x].call_id@);
            }
        }
    } else {
        assert forall|a: int| 0 <= a < t.pending.len() implies s.pending.contains(
            #[trigger] t.pending[a],
        ) by {
            assert(t.pending[a] == s.pending[a]);
        }
    }
}

/// Whether the call is on record as ended and cancelled.
pub open spec fn cancelled(records: Seq<CallRecord>, id: Seq<char>) -> bool {
    lookup(records, id) is Some && lookup(records, id)->Some_0.state == CallState::Ended && lookup(
        records,
        id,
    )->Some_0.disposition == Some(Disposition::Cancelled)
}

/// A cancelled call stays cancelled when another, or it again, is asked to end.
proof fn lemma_stays_cancelled(s: Load, id: Seq<char>, other: Seq<char>, now_ms: u64)
    requires
        s.consistent(),
        cancelled(s.records, other),
    ensures
        cancelled(s.end_requested(id, now_ms).records, other),
{
    let i = spot(s.pending, id);
    lemma_spot(s.pending, id, 0);
    lemma_place(s.records, id, 0);
    ending_keeps_consistency(s, id, now_ms);
    if i < s.pending.len() && other != id {
        assert(holds(s.records, s.pending[i].call_id@));
        change_touches_one_record(
            s.records,
            id,
            CallRecord {
                state: CallState::Ended,
                disposition: Some(Disposition::Cancelled),
                goal: None,
                error: None,
                ended_ms: Some(now_ms),
                ..s.records[place(s.records, id)]
            },
            other,
        );
    }
}

proof fn lemma_ended_so_far(s: Load, ids: Seq<Seq<char>>, n: int, now_ms: u64)
    requires
        s.consistent(),
        0 <= n <= ids.len(),
    ensures
        ({
            let t = s.ends_requested(ids, n, now_ms);
            &&& t.consistent()
            &&& record_ids(t.records) == record_ids(s.records)
            &&& forall|i: int|
                0 <= i < t.pending.len() ==> s.pending.contains(#[trigger] t.pending[i])
            &&& forall|i: int, k: int|
                0 <= i < t.pending.len() && 0 <= k < n ==> (#[trigger] t.pending[i]).call_id@
                    != #[trigger] ids[k]
            &&& forall|j: int|
                0 <= j < s.pending.len() ==> t.pending.contains(#[trigger] s.pending[j])
                    || cancelled(t.records, s.pending[j].call_id@)
        }),
    decreases n,
{
    let t = s.ends_requested(ids, n, now_ms);
    if n > 0 {
        lemma_ended_so_far(s, ids, n - 1, now_ms);
        let u = s.ends_requested(ids, n - 1, now_ms);
        let id = ids[n - 1];
        ending_keeps_consistency(u, id, now_ms);
        lemma_spot(t.pending, id, 0);
        lemma_spot(u.pending, id, 0);
        assert forall|i: int| 0 <= i < t.pending.len() implies s.pending.contains(
            #[trigger] t.pending[i],
        ) by {
            assert(u.pending.contains(t.pending[i]));
            let j = choose|j: int| 0 <= j < u.pending.len() && u.pending[j] == t.pending[i];
            assert(s.pending.contains(u.pending[j]));
        }
        assert forall|i: int, k: int| 0 <= i < t.pending.len() && 0 <= k < n implies (
        #[trigger] t.pending[i]).call_id@ != #[trigger] ids[k] by {
            assert(u.pending.contains(t.pending[i]));
            let j = choose|j: int| 0 <= j < u.pending.len() && u.pending[j] == t.pending[i];
            if k < n - 1 {
                assert(u.pending[j].call_id@ != ids[k]);
            }
        }
        assert forall|j: int| 0 <= j < s.pending.len() implies t.pending.contains(
            #[trigger] s.pending[j],
        ) || cancelled(t.records, s.pending[j].call_id@) by {
            let e = s.pending[j];
            if cancelled(u.records, e.call_id@) {
                lemma_stays_cancelled(u, id, e.call_id@, now_ms);
            } else {
                assert(u.pending.contains(e));
                let a = choose|a: int| 0 <= a < u.pending.len() && u.pending[a] == e;
                let p = spot(u.pending, id);
                if p < u.pending.len() {
                    if a < p {
                        assert(t.pending[a] == e);
                    } else if a > p {
                        assert(t.pending[a - 1] == e);
                    } else {
                        assert(u.pending[p].call_id@ == id);
                    }
                } else {
                    assert(t.pending[a] == e);
                }
            }
        }
    } else {
        assert forall|i: int| 0 <= i < t.pending.len() implies s.pending.contains(
            #[trigger] t.pending[i],
        ) by {
            assert(t.pending[i] == s.pending[i]);
        }
        assert forall|j: int| 0 <= j < s.pending.len() implies t.pending.contains(
            #[trigger] s.pending[j],
        ) by {
            assert(t.pending[j] == s.pending[j]);
        }
    }
}

/// Asking every call on record to end leaves nothing queued: each queued call is on record as
/// ended and cancelled.
pub proof fn ending_all_empties_the_queue(s: Load, now_ms: u64, j: int)
    requires
        s.consistent(),
    ensures
        ({
            let ids = record_ids(s.records);
            let t = s.ends_requested(ids, ids.len() as int, now_ms);
            &&& t.consistent()
            &&& t.pending.len() == 0
            &&& 0 <= j < s.pending.len() ==> cancelled(t.records, s.pending[j].call_id@)
        }),
{
    let ids = record_ids(s.records);
    let n = ids.len() as int;
    let t = s.ends_requested(ids, n, now_ms);
    lemma_ended_so_far(s, ids, n, now_ms);
    if t.pending.len() > 0 {
        let e = t.pending[0];
        assert(s.pending.contains(e));
        let i = choose|i: int| 0 <= i < s.pending.len() && s.pending[i] == e;
        assert(holds(s.records, s.pending[i].call_id@));
        lemma_place(s.records, e.call_id@, 0);
        let k = place(s.records, e.call_id@);
        assert(ids[k] == e.call_id@);
        assert(t.pending[0].call_id@ != ids[k]);
    }
    if 0 <= j < s.pending.len() {
        assert(t.pending.contains(s.pending[j]) || cancelled(t.records, s.pending[j].call_id@));
    }
}

} // verus!
