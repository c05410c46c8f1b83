//! Pending calls, in the order in which they become due.
use vstd::prelude::*;

use crate::config::ScenarioConfig;
use crate::text::{before, precedes, same, string_order};

verus! {

/// A call that waits to be dispatched.
#[derive(Clone, Debug)]
pub struct PendingEntry {
    pub call_id: String,
    pub number: String,
    pub scenario: ScenarioConfig,
    pub eligible_at_ms: u64,
    pub attempt: u32,
    pub retry_of: Option<String>,
}

/// Whether `a` is dispatched before `b`: the sooner eligible first, then by id.
pub open spec fn sooner(a: PendingEntry, b: PendingEntry) -> bool {
    a.eligible_at_ms < b.eligible_at_ms || (a.eligible_at_ms == b.eligible_at_ms && precedes(
        a.call_id@,
        b.call_id@,
    ))
}

/// Whether two entries have the same place in the order.
pub open spec fn same_key(a: PendingEntry, b: PendingEntry) -> bool {
    a.eligible_at_ms == b.eligible_at_ms && a.call_id@ == b.call_id@
}

/// Whether the entries are in dispatch order, with no two at the same place in it.
pub open spec fn in_order(s: Seq<PendingEntry>) -> bool {
    forall|i: int, j: int| 0 <= i < j < s.len() ==> sooner(#[trigger] s[i], #[trigger] s[j])
}

/// The number of leading entries that come before `e`.
pub open spec fn rank(s: Seq<PendingEntry>, e: PendingEntry) -> int
    decreases s.len(),
{
    if s.len() == 0 || !sooner(s[0], e) {
        0
    } else {
        1 + rank(s.drop_first(), e)
    }
}

/// The entries with `e` at its place; an entry with the same time and id gives way to it.
pub open spec fn enqueued(s: Seq<PendingEntry>, e: PendingEntry) -> Seq<PendingEntry> {
    let i = rank(s, e);
    if i < s.len() && same_key(s[i], e) {
        s.update(i, e)
    } else {
        s.insert(i, e)
    }
}

/// The place of the first entry of `id` from place `i` on; the number of entries where there is
/// none.
pub open spec fn spot_from(s: Seq<PendingEntry>, id: Seq<char>, i: int) -> int
    decreases s.len() - i,
{
    if i < 0 || i >= s.len() {
        s.len() as int
    } else if s[i].call_id@ == id {
        i
    } else {
        spot_from(s, id, i + 1)
    }
}

/// The place of the first entry of `id`; the number of entries where there is none.
pub open spec fn spot(s: Seq<PendingEntry>, id: Seq<char>) -> int {
    spot_from(s, id, 0)
}

/// A store of pending calls.
pub trait QueueStore {
    /// The pending entries, in dispatch order.
    spec fn entries(&self) -> Seq<PendingEntry>;

    /// Enqueue an entry.
    fn push(&mut self, entry: PendingEntry)
        requires
            in_order(old(self).entries()),
        ensures
            final(self).entries() == enqueued(old(self).entries(), entry),
            in_order(final(self).entries()),
    ;

    /// Remove and return the earliest entry whose time has come. `None` if nothing is eligible.
    fn pop_eligible(&mut self, now_ms: u64) -> (r: Option<PendingEntry>)
        requires
            in_order(old(self).entries()),
        ensures
            ({
                let s = old(self).entries();
                if s.len() > 0 && s[0].eligible_at_ms <= now_ms {
                    r == Some(s[0]) && final(self).entries() == s.drop_first()
                } else {
                    r is None && final(self).entries() == s
                }
            }),
            in_order(final(self).entries()),
    ;

    /// The soonest eligibility of any pending entry.
    fn peek_next_eligible_at(&self) -> (r: Option<u64>)
        ensures
            r == (if self.entries().len() > 0 {
                Some(self.entries()[0].eligible_at_ms)
            } else {
                None
            }),
    ;

    /// Remove a pending entry by call id. Returns it if present.
    fn remove(&mut self, call_id: &str) -> (r: Option<PendingEntry>)
        requires
            in_order(old(self).entries()),
        ensures
            ({
                let s = old(self).entries();
                let i = spot(s, call_id@);
                if i < s.len() {
                    r == Some(s[i]) && final(self).entries() == s.remove(i)
                } else {
                    r is None && final(self).entries() == s
                }
            }),
            in_order(final(self).entries()),
    ;

    /// Count of pending entries.
    fn len(&self) -> (r: usize)
        ensures
            r == self.entries().len(),
    ;

    /// 1-based position of a call in dispatch order among pending entries.
    fn position(&self, call_id: &str) -> (r: Option<usize>)
        ensures
            match r {
                Some(n) => spot(self.entries(), call_id@) < self.entries().len() && n == spot(
                    self.entries(),
                    call_id@,
                ) + 1,
                None => spot(self.entries(), call_id@) == self.entries().len(),
            },
    ;
}

/// The order of entries is irreflexive, transitive and total up to the key.
proof fn lemma_sooner(a: PendingEntry, b: PendingEntry, c: PendingEntry)
    ensures
        !sooner(a, a),
        sooner(a, b) && sooner(b, c) ==> sooner(a, c),
        sooner(a, b) || sooner(b, a) || same_key(a, b),
        same_key(a, b) && sooner(b, c) ==> sooner(a, c),
        sooner(a, b) && same_key(b, c) ==> sooner(a, c),
{
    string_order(a.call_id@, b.call_id@, c.call_id@);
}

pub(crate) proof fn lemma_rank(s: Seq<PendingEntry>, e: PendingEntry)
    requires
        in_order(s),
    ensures
        0 <= rank(s, e) <= s.len(),
        forall|i: int| 0 <= i < rank(s, e) ==> sooner(#[trigger] s[i], e),
        rank(s, e) < s.len() ==> !sooner(s[rank(s, e)], e),
    decreases s.len(),
{
    if s.len() > 0 && sooner(s[0], e) {
        let t = s.drop_first();
        assert forall|i: int, j: int| 0 <= i < j < t.len() implies sooner(
            #[trigger] t[i],
            #[trigger] t[j],
        ) by {
            assert(sooner(s[i + 1], s[j + 1]));
        }
        lemma_rank(t, e);
        assert forall|i: int| 0 <= i < rank(s, e) implies sooner(#[trigger] s[i], e) by {
            if i > 0 {
                assert(sooner(t[i - 1], e));
            }
        }
    }
}

/// Enqueuing keeps the dispatch order.
pub proof fn enqueue_keeps_order(s: Seq<PendingEntry>, e: PendingEntry)
    requires
        in_order(s),
    ensures
        in_order(enqueued(s, e)),
        enqueued(s, e).contains(e),
{
    lemma_rank(s, e);
    let r = rank(s, e);
    let t = enqueued(s, e);
    assert(t[r] == e);
    assert forall|i: int, j: int| 0 <= i < j < t.len() implies sooner(
        #[trigger] t[i],
        #[trigger] t[j],
    ) by {
        if r < s.len() && same_key(s[r], e) {
            if i == r {
                assert(sooner(s[r], s[j]));
                lemma_sooner(e, s[r], s[j]);
            } else if j == r {
                assert(sooner(s[i], s[r]));
            } else {
                assert(sooner(s[i], s[j]));
            }
        } else {
            if j < r {
                assert(sooner(s[i], s[j]));
            } else if j == r {
                assert(sooner(s[i], e));
            } else if i < r {
                assert(sooner(s[i], s[j - 1]));
            } else if i == r {
                // What follows comes after e: it is not before it and has another key.
                lemma_sooner(s[r], e, e);
                if j - 1 > r {
                    assert(sooner(s[r], s[j - 1]));
                    lemma_sooner(e, s[r], s[j - 1]);
                }
            } else {
                assert(sooner(s[i - 1], s[j - 1]));
            }
        }
    }
}

/// Nothing that stays behind is due before the entry that a pop returns, and an entry is never
/// popped before its time.
pub proof fn pop_takes_the_earliest(s: Seq<PendingEntry>, now_ms: u64, i: int)
    requires
        in_order(s),
        s.len() > 0,
        0 < i < s.len(),
    ensures
        sooner(s[0], s[i]),
        s[i].eligible_at_ms <= now_ms ==> s[0].eligible_at_ms <= now_ms,
{
    assert(sooner(s[0], s[i]));
}

pub(crate) proof fn lemma_spot(s: Seq<PendingEntry>, id: Seq<char>, i: int)
    requires
        0 <= i <= s.len(),
    ensures
        i <= spot_from(s, id, i) <= s.len(),
        spot_from(s, id, i) < s.len() ==> s[spot_from(s, id, i)].call_id@ == id,
        forall|j: int| i <= j < spot_from(s, id, i) ==> (#[trigger] s[j]).call_id@ != id,
    decreases s.len() - i,
{
    if i < s.len() && s[i].call_id@ != id {
        lemma_spot(s, id, i + 1);
    }
}

/// An enqueued call is among the pending ones.
pub proof fn enqueued_call_is_pending(s: Seq<PendingEntry>, e: PendingEntry)
    requires
        in_order(s),
    ensures
        spot(enqueued(s, e), e.call_id@) < enqueued(s, e).len(),
{
    enqueue_keeps_order(s, e);
    let t = enqueued(s, e);
    lemma_spot(t, e.call_id@, 0);
    let i = choose|i: int| 0 <= i < t.len() && t[i] == e;
    assert(t[i].call_id@ == e.call_id@);
}

/// The queue is in the order in which calls are due; calls that are due at the same time are in the
/// order of their ids.
pub proof fn first_due_is_first(s: Seq<PendingEntry>, i: int, j: int)
    requires
        in_order(s),
        0 <= i < j < s.len(),
    ensures
        s[i].eligible_at_ms <= s[j].eligible_at_ms,
        s[i].eligible_at_ms == s[j].eligible_at_ms ==> precedes(s[i].call_id@, s[j].call_id@),
{
    assert(sooner(s[i], s[j]));
}

/// Enqueuing adds the one entry and drops none, except that an entry of the same call for the same
/// time gives way to it.
pub proof fn enqueue_adds_one_entry(s: Seq<PendingEntry>, e: PendingEntry, x: PendingEntry)
    requires
        in_order(s),
    ensures
        enqueued(s, e).contains(x) <==> x == e || (s.contains(x) && !(x.eligible_at_ms
            == e.eligible_at_ms && x.call_id@ == e.call_id@)),
{
    lemma_rank(s, e);
    let r = rank(s, e);
    let t = enqueued(s, e);
    let gives_way = r < s.len() && same_key(s[r], e);
    assert(t[r] == e);
    if t.contains(x) && x != e {
        let i = choose|i: int| 0 <= i < t.len() && t[i] == x;
        if gives_way {
            assert(s[i] == x);
            if i < r {
                assert(sooner(s[i], s[r]));
            } else {
                assert(sooner(s[r], s[i]));
            }
            lemma_sooner(x, e, e);
            lemma_sooner(e, x, x);
        } else if i < r {
            assert(s[i] == x);
            lemma_sooner(x, e, e);
        } else {
            assert(s[i - 1] == x);
            if i - 1 > r {
                assert(sooner(s[r], s[i - 1]));
                lemma_sooner(s[r], s[i - 1], e);
            }
            lemma_sooner(s[r], x, e);
        }
        lemma_sooner(s[r], e, x);
        lemma_sooner(x, x, e);
        lemma_sooner(e, e, x);
    }
    if s.contains(x) && !same_key(x, e) {
        let i = choose|i: int| 0 <= i < s.len() && s[i] == x;
        if gives_way || i < r {
            assert(t[i] == x);
        } else {
            assert(t[i + 1] == x);
        }
    }
}

/// Pending calls in memory.
pub struct MemQueue {
    list: Vec<PendingEntry>,
}

impl Default for MemQueue {
    fn default() -> (r: Self)
        ensures
            r.entries() == Seq::<PendingEntry>::empty(),
    {
        MemQueue { list: Vec::new() }
    }
}

impl MemQueue {
    pub fn new() -> (r: Self)
        ensures
            r.entries() == Seq::<PendingEntry>::empty(),
            in_order(r.entries()),
    {
        MemQueue { list: Vec::new() }
    }

    fn find(&self, call_id: &str) -> (r: usize)
        ensures
            r == spot(self.entries(), call_id@),
            r <= self.entries().len() <= usize::MAX,
    {
        let mut i: usize = 0;
        while i < self.list.len()
            invariant
                i <= self.list@.len(),
                spot(self.entries(), call_id@) == spot_from(self.entries(), call_id@, i as int),
            decreases self.list@.len() - i,
        {
            if same(self.list[i].call_id.as_str(), call_id) {
                return i;
            }
            i = i + 1;
        }
        i
    }
}

fn comes_before(a: &PendingEntry, b: &PendingEntry) -> (r: bool)
    ensures
        r == sooner(*a, *b),
{
    a.eligible_at_ms < b.eligible_at_ms || (a.eligible_at_ms == b.eligible_at_ms && before(
        a.call_id.as_str(),
        b.call_id.as_str(),
    ))
}

impl QueueStore for MemQueue {
    closed spec fn entries(&self) -> Seq<PendingEntry> {
        self.list@
    }

    fn push(&mut self, entry: PendingEntry) {
        let mut i: usize = 0;
        proof {
            enqueue_keeps_order(self.list@, entry);
            assert(self.list@.subrange(0, self.list@.len() as int) =~= self.list@);
        }
        while i < self.list.len() && comes_before(&self.list[i], &entry)
            invariant
                i <= self.list@.len(),
                self.list@ == old(self).list@,
                rank(self.list@, entry) == i + rank(
                    self.list@.subrange(i as int, self.list@.len() as int),
                    entry,
                ),
            decreases self.list@.len() - i,
        {
            assert(self.list@.subrange(i as int, self.list@.len() as int).drop_first()
                =~= self.list@.subrange(i + 1, self.list@.len() as int));
            i = i + 1;
        }
        if i < self.list.len() && self.list[i].eligible_at_ms == entry.eligible_at_ms && same(
            self.list[i].call_id.as_str(),
            entry.call_id.as_str(),
        ) {
            self.list[i] = entry;
        } else {
            self.list.insert(i, entry);
        }
    }

    fn pop_eligible(&mut self, now_ms: u64) -> (r: Option<PendingEntry>) {
        if self.list.len() > 0 && self.list[0].eligible_at_ms <= now_ms {
            let e: PendingEntry = self.list.remove(0);
            assert(self.list@ =~= old(self).list@.drop_first());
            assert forall|i: int, j: int| 0 <= i < j < self.list@.len() implies sooner(
                #[trigger] self.list@[i],
                #[trigger] self.list@[j],
            ) by {
                assert(sooner(old(self).list@[i + 1], old(self).list@[j + 1]));
            }
            Some(e)
        } else {
            None
        }
    }

    fn peek_next_eligible_at(&self) -> (r: Option<u64>) {
        if self.list.len() > 0 {
            Some(self.list[0].eligible_at_ms)
        } else {
            None
        }
    }

    fn remove(&mut self, call_id: &str) -> (r: Option<PendingEntry>) {
        let i: usize = self.find(call_id);
        if i < self.list.len() {
            let e: PendingEntry = self.list.remove(i);
            assert forall|a: int, b: int| 0 <= a < b < self.list@.len() implies sooner(
                #[trigger] self.list@[a],
                #[trigger] self.list@[b],
            ) by {
                let s = old(self).list@;
                let x = if a < i {
                    a
                } else {
                    a + 1
                };
                let y = if b < i {
                    b
                } else {
                    b + 1
                };
                assert(sooner(s[x], s[y]));
            }
            Some(e)
        } else {
            None
        }
    }

    fn len(&self) -> (r: usize) {
        self.list.len()
    }

    fn position(&self, call_id: &str) -> (r: Option<usize>) {
        let i: usize = self.find(call_id);
        if i < self.list.len() {
            Some(i + 1)
        } else {
            None
        }
    }
}

} // verus!
