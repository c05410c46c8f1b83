//! Call records: each outbound call's lifecycle state, running transcript and outcome, by call id.
use serde_json::Value;
use vstd::prelude::*;

use crate::gemini_live::{AffectEntry, EndedBy, TranscriptEntry};
use crate::single::Single;
use crate::sip::CallOutcome;
use crate::text::same;

verus! {

/// Lifecycle state of a call.
#[derive(Clone, Copy, Debug, PartialEq, Eq, Structural)]
pub enum CallState {
    Queued,
    Ringing,
    InProgress,
    Completed,
    Failed,
    HungUp,
    Cancelled,
    /// Over; the disposition says how.
    Ended,
}

impl CallState {
    /// The state's name.
    pub open spec fn name(self) -> Seq<char> {
        match self {
            CallState::Queued => "queued"@,
            CallState::Ringing => "ringing"@,
            CallState::InProgress => "in_progress"@,
            CallState::Completed => "completed"@,
            CallState::Failed => "failed"@,
            CallState::HungUp => "hung_up"@,
            CallState::Cancelled => "cancelled"@,
            CallState::Ended => "ended"@,
        }
    }

    /// The state's name.
    pub fn as_str(&self) -> (r: &'static str)
        ensures
            r@ == self.name(),
    {
        match self {
            CallState::Queued => "queued",
            CallState::Ringing => "ringing",
            CallState::InProgress => "in_progress",
            CallState::Completed => "completed",
            CallState::Failed => "failed",
            CallState::HungUp => "hung_up",
            CallState::Cancelled => "cancelled",
            CallState::Ended => "ended",
        }
    }

    /// Whether the call is on the line.
    pub open spec fn is_active(self) -> bool {
        self == CallState::Ringing || self == CallState::InProgress
    }
}

/// How a call turned out.
#[derive(Clone, Copy, Debug, PartialEq, Eq, Structural)]
pub enum Disposition {
    Completed,
    Voicemail,
    Announcement,
    Ivr,
    Hold,
    Busy,
    NoAnswer,
    Rejected,
    NotFound,
    Unavailable,
    Failed,
    Cancelled,
}

impl Disposition {
    /// The disposition's name.
    pub open spec fn name(self) -> Seq<char> {
        match self {
            Disposition::Completed => "completed"@,
            Disposition::Voicemail => "voicemail"@,
            Disposition::Announcement => "announcement"@,
            Disposition::Ivr => "ivr"@,
            Disposition::Hold => "hold"@,
            Disposition::Busy => "busy"@,
            Disposition::NoAnswer => "no_answer"@,
            Disposition::Rejected => "rejected"@,
            Disposition::NotFound => "not_found"@,
            Disposition::Unavailable => "unavailable"@,
            Disposition::Failed => "failed"@,
            Disposition::Cancelled => "cancelled"@,
        }
    }

    /// The disposition's name.
    pub fn as_str(&self) -> (r: &'static str)
        ensures
            r@ == self.name(),
    {
        match self {
            Disposition::Completed => "completed",
            Disposition::Voicemail => "voicemail",
            Disposition::Announcement => "announcement",
            Disposition::Ivr => "ivr",
            Disposition::Hold => "hold",
            Disposition::Busy => "busy",
            Disposition::NoAnswer => "no_answer",
            Disposition::Rejected => "rejected",
            Disposition::NotFound => "not_found",
            Disposition::Unavailable => "unavailable",
            Disposition::Failed => "failed",
            Disposition::Cancelled => "cancelled",
        }
    }
}

/// What a call looked like from outside.
#[derive(Clone, Copy, Debug, PartialEq, Eq, Structural)]
pub struct CallShape {
    pub answered: bool,
    pub duration_ms: u64,
    pub transcript_len: usize,
    pub ended_by: EndedBy,
}

/// The disposition that the model's own report of the far end stands for.
pub open spec fn reported(amd: Seq<char>) -> Option<Disposition> {
    if amd == "voicemail"@ {
        Some(Disposition::Voicemail)
    } else if amd == "announcement"@ {
        Some(Disposition::Announcement)
    } else if amd == "ivr"@ {
        Some(Disposition::Ivr)
    } else if amd == "hold"@ {
        Some(Disposition::Hold)
    } else if amd == "live"@ {
        Some(Disposition::Completed)
    } else {
        None
    }
}

/// The disposition of a call that was never answered: the dial outcome, a technical failure where
/// there is none.
pub open spec fn unanswered(sip: Option<CallOutcome>) -> Disposition {
    match sip {
        Some(CallOutcome::Completed) => Disposition::Completed,
        Some(CallOutcome::Busy) => Disposition::Busy,
        Some(CallOutcome::NoAnswer) => Disposition::NoAnswer,
        Some(CallOutcome::Rejected) => Disposition::Rejected,
        Some(CallOutcome::NotFound) => Disposition::NotFound,
        Some(CallOutcome::Unavailable) => Disposition::Unavailable,
        Some(CallOutcome::Failed) => Disposition::Failed,
        None => Disposition::Failed,
    }
}

/// How a call turned out. A cancelled call is cancelled. One that was not answered goes by the
/// dial outcome. One that was goes by what the model reported of the far end; without a report it
/// is completed where the model ended it or anything was said, and failed where there is nothing
/// to go on.
pub open spec fn disposition_of(
    cancelled: bool,
    amd: Option<Seq<char>>,
    sip: Option<CallOutcome>,
    shape: CallShape,
) -> Disposition {
    if cancelled {
        Disposition::Cancelled
    } else if !shape.answered {
        unanswered(sip)
    } else if amd is Some && reported(amd->Some_0) is Some {
        reported(amd->Some_0)->Some_0
    } else if shape.ended_by == EndedBy::ModelEndCall || shape.transcript_len > 0 {
        Disposition::Completed
    } else {
        Disposition::Failed
    }
}

/// The contents of an optional text.
pub open spec fn text_of(s: Option<&str>) -> Option<Seq<char>> {
    match s {
        Some(t) => Some(t@),
        None => None,
    }
}

/// How a call turned out.
pub fn resolve_disposition(
    cancelled: bool,
    amd: Option<&str>,
    sip: Option<CallOutcome>,
    shape: CallShape,
) -> (r: Disposition)
    ensures
        r == disposition_of(cancelled, text_of(amd), sip, shape),
{
    if cancelled {
        return Disposition::Cancelled;
    }
    if !shape.answered {
        return match sip {
            Some(CallOutcome::Completed) => Disposition::Completed,
            Some(CallOutcome::Busy) => Disposition::Busy,
            Some(CallOutcome::NoAnswer) => Disposition::NoAnswer,
            Some(CallOutcome::Rejected) => Disposition::Rejected,
            Some(CallOutcome::NotFound) => Disposition::NotFound,
            Some(CallOutcome::Unavailable) => Disposition::Unavailable,
            Some(CallOutcome::Failed) => Disposition::Failed,
            None => Disposition::Failed,
        };
    }
    if let Some(a) = amd {
        if same(a, "voicemail") {
            return Disposition::Voicemail;
        }
        if same(a, "announcement") {
            return Disposition::Announcement;
        }
        if same(a, "ivr") {
            return Disposition::Ivr;
        }
        if same(a, "hold") {
            return Disposition::Hold;
        }
        if same(a, "live") {
            return Disposition::Completed;
        }
    }
    if shape.ended_by == EndedBy::ModelEndCall || shape.transcript_len > 0 {
        Disposition::Completed
    } else {
        Disposition::Failed
    }
}

/// Cancelling decides the disposition whatever else is known, and how an unanswered call ended
/// does not matter.
pub proof fn cancelled_and_unanswered_calls(
    amd: Option<Seq<char>>,
    sip: Option<CallOutcome>,
    shape: CallShape,
    other: EndedBy,
)
    ensures
        disposition_of(true, amd, sip, shape) == Disposition::Cancelled,
        !shape.answered ==> disposition_of(false, amd, sip, shape) == disposition_of(
            false,
            None,
            sip,
            CallShape { ended_by: other, ..shape },
        ),
{
}

/// A call that was not answered is told by its dial outcome alone, under the same name, whatever
/// else is known: each outcome has a disposition of its own, and none is taken for an answer.
pub proof fn unanswered_goes_by_the_dial_outcome(
    amd: Option<Seq<char>>,
    o: CallOutcome,
    shape: CallShape,
    other_amd: Option<Seq<char>>,
    other: CallOutcome,
    other_shape: CallShape,
)
    requires
        !shape.answered,
        !other_shape.answered,
    ensures
        ({
            let d = disposition_of(false, amd, Some(o), shape);
            let e = disposition_of(false, other_amd, Some(other), other_shape);
            &&& d.name() == o.name()
            &&& d == e <==> o == other
            &&& d == Disposition::Completed <==> o == CallOutcome::Completed
            &&& d == Disposition::Busy <==> o == CallOutcome::Busy
            &&& d == Disposition::NoAnswer <==> o == CallOutcome::NoAnswer
            &&& d == Disposition::Rejected <==> o == CallOutcome::Rejected
            &&& d == Disposition::NotFound <==> o == CallOutcome::NotFound
            &&& d == Disposition::Unavailable <==> o == CallOutcome::Unavailable
            &&& d == Disposition::Failed <==> o == CallOutcome::Failed
        }),
        disposition_of(false, amd, None, shape) == Disposition::Failed,
{
}

/// What only an answered call can be: a machine answered only where the call was answered and the
/// model reported that very machine, and a conversation was completed only where the call was
/// answered (or the dial itself says that it completed). Only a cancelled call is cancelled, and no
/// answered one has a dial failure's name.
pub proof fn only_an_answered_call_has_a_result(
    cancelled: bool,
    amd: Option<Seq<char>>,
    sip: Option<CallOutcome>,
    shape: CallShape,
)
    ensures
        ({
            let d = disposition_of(cancelled, amd, sip, shape);
            let met = !cancelled && shape.answered;
            &&& d == Disposition::Cancelled <==> cancelled
            &&& d == Disposition::Voicemail <==> met && amd == Some("voicemail"@)
            &&& d == Disposition::Announcement <==> met && amd == Some("announcement"@)
            &&& d == Disposition::Ivr <==> met && amd == Some("ivr"@)
            &&& d == Disposition::Hold <==> met && amd == Some("hold"@)
            &&& d == Disposition::Completed ==> shape.answered || sip == Some(
                CallOutcome::Completed,
            )
            &&& met ==> d != Disposition::Busy && d != Disposition::NoAnswer && d
                != Disposition::Rejected && d != Disposition::NotFound && d
                != Disposition::Unavailable
        }),
{
    reveal_strlit("voicemail");
    reveal_strlit("announcement");
    reveal_strlit("ivr");
    reveal_strlit("hold");
    reveal_strlit("live");
    assert("voicemail"@.len() == 9 && "announcement"@.len() == 12 && "ivr"@.len() == 3);
    assert("hold"@.len() == 4 && "live"@.len() == 4 && "hold"@[0] != "live"@[0]);
}

/// An answered call that the model reported nothing of is completed where the model ended it or
/// anything was said, and failed otherwise; a report of a live person completes it. What the dial
/// said before the answer does not matter.
pub proof fn answered_call_goes_by_what_was_said(
    sip: Option<CallOutcome>,
    other: Option<CallOutcome>,
    amd: Option<Seq<char>>,
    shape: CallShape,
)
    requires
        shape.answered,
    ensures
        disposition_of(false, amd, sip, shape) == disposition_of(false, amd, other, shape),
        disposition_of(false, Some("live"@), sip, shape) == Disposition::Completed,
        disposition_of(false, None, sip, shape) == Disposition::Completed <==> shape.ended_by
            == EndedBy::ModelEndCall || shape.transcript_len > 0,
        disposition_of(false, None, sip, shape) == Disposition::Completed || disposition_of(
            false,
            None,
            sip,
            shape,
        ) == Disposition::Failed,
{
    reveal_strlit("voicemail");
    reveal_strlit("announcement");
    reveal_strlit("ivr");
    reveal_strlit("hold");
    reveal_strlit("live");
    assert("voicemail"@.len() == 9 && "announcement"@.len() == 12 && "ivr"@.len() == 3);
    assert("hold"@.len() == 4 && "live"@.len() == 4 && "hold"@[0] != "live"@[0]);
}

/// Audio quality metrics of a call.
#[derive(Clone, Copy, Debug, PartialEq, Eq, Structural)]
pub struct CallQuality {
    pub underruns: u64,
    pub starved_ms: u64,
    pub max_gap_ms: u64,
    /// Uplink (phone to us) packets received.
    pub uplink_received: u64,
    /// Uplink packets lost.
    pub uplink_lost: u64,
    /// Uplink packets that arrived late.
    pub uplink_reordered: u64,
    /// Uplink audio level: RMS amplitude of the decoded phone audio over the call.
    pub uplink_rms: u64,
    /// Downlink loss %, as the callee reports. Zero without a report.
    pub downlink_loss_pct: Single,
    /// Downlink jitter (ms), as the callee reports.
    pub downlink_jitter_ms: u32,
    /// Estimated round-trip time (ms); `0` if unknown.
    pub downlink_rtt_ms: u32,
}

impl CallQuality {
    /// Nothing measured.
    pub open spec fn none() -> CallQuality {
        CallQuality {
            underruns: 0,
            starved_ms: 0,
            max_gap_ms: 0,
            uplink_received: 0,
            uplink_lost: 0,
            uplink_reordered: 0,
            uplink_rms: 0,
            downlink_loss_pct: Single { bits: 0 },
            downlink_jitter_ms: 0,
            downlink_rtt_ms: 0,
        }
    }
}

impl Default for CallQuality {
    fn default() -> (r: Self)
        ensures
            r == CallQuality::none(),
    {
        CallQuality {
            underruns: 0,
            starved_ms: 0,
            max_gap_ms: 0,
            uplink_received: 0,
            uplink_lost: 0,
            uplink_reordered: 0,
            uplink_rms: 0,
            downlink_loss_pct: Single { bits: 0 },
            downlink_jitter_ms: 0,
            downlink_rtt_ms: 0,
        }
    }
}

/// One call's record.
#[derive(Clone, Debug)]
pub struct CallRecord {
    pub call_id: String,
    pub number: String,
    pub state: CallState,
    pub transcript: Vec<TranscriptEntry>,
    /// Emotions detected during the call, in order.
    pub affect: Vec<AffectEntry>,
    pub goal: Option<Value>,
    pub error: Option<String>,
    pub started_ms: u64,
    pub ended_ms: Option<u64>,
    pub quality: CallQuality,
    /// Structured dial result; `None` while in flight.
    pub outcome: Option<CallOutcome>,
    /// How the call turned out; `None` until it has ended.
    pub disposition: Option<Disposition>,
    /// 1 for the first dial; incremented per busy retry.
    pub attempt: u32,
    /// The prior call id this attempt continues.
    pub retry_of: Option<String>,
}

/// Live counts of in-flight calls.
#[derive(Clone, Copy, Debug, PartialEq, Eq, Structural)]
pub struct StateCounts {
    pub active: usize,
    pub queued: usize,
}

/// The place of the record of `id`, from place `i` on; the number of records where there is none.
pub open spec fn place_from(s: Seq<CallRecord>, id: Seq<char>, i: int) -> int
    decreases s.len() - i,
{
    if i < 0 || i >= s.len() {
        s.len() as int
    } else if s[i].call_id@ == id {
        i
    } else {
        place_from(s, id, i + 1)
    }
}

/// The place of the record of `id`; the number of records where there is none.
pub open spec fn place(s: Seq<CallRecord>, id: Seq<char>) -> int {
    place_from(s, id, 0)
}

/// Whether there is a record of `id`.
pub open spec fn holds(s: Seq<CallRecord>, id: Seq<char>) -> bool {
    place(s, id) < s.len()
}

/// The record of `id`.
pub open spec fn lookup(s: Seq<CallRecord>, id: Seq<char>) -> Option<CallRecord> {
    if holds(s, id) {
        Some(s[place(s, id)])
    } else {
        None
    }
}

/// No two records have the same id.
pub open spec fn distinct(s: Seq<CallRecord>) -> bool {
    forall|i: int, j: int|
        0 <= i < j < s.len() ==> (#[trigger] s[i]).call_id@ != (#[trigger] s[j]).call_id@
}

/// The records with `rec`: in place of the one of the same id, at the end where there is none.
pub open spec fn stored(s: Seq<CallRecord>, rec: CallRecord) -> Seq<CallRecord> {
    if holds(s, rec.call_id@) {
        s.update(place(s, rec.call_id@), rec)
    } else {
        s.push(rec)
    }
}

/// How many of the first `n` records are active.
pub open spec fn active_count(s: Seq<CallRecord>, n: int) -> int
    decreases n,
{
    if n <= 0 {
        0
    } else {
        active_count(s, n - 1) + (if s[n - 1].state.is_active() {
            1int
        } else {
            0
        })
    }
}

/// How many of the first `n` records are queued.
pub open spec fn queued_count(s: Seq<CallRecord>, n: int) -> int
    decreases n,
{
    if n <= 0 {
        0
    } else {
        queued_count(s, n - 1) + (if s[n - 1].state == CallState::Queued {
            1int
        } else {
            0
        })
    }
}

/// `s` with the record of `id`, if there is one, changed to `with`.
pub open spec fn changed(s: Seq<CallRecord>, id: Seq<char>, with: CallRecord) -> Seq<CallRecord> {
    if holds(s, id) {
        s.update(place(s, id), with)
    } else {
        s
    }
}

pub(crate) proof fn lemma_place(s: Seq<CallRecord>, id: Seq<char>, i: int)
    requires
        0 <= i <= s.len(),
    ensures
        i <= place_from(s, id, i) <= s.len(),
        place_from(s, id, i) < s.len() ==> s[place_from(s, id, i)].call_id@ == id,
        forall|j: int| i <= j < place_from(s, id, i) ==> (#[trigger] s[j]).call_id@ != id,
    decreases s.len() - i,
{
    if i < s.len() && s[i].call_id@ != id {
        lemma_place(s, id, i + 1);
    }
}

/// A place that holds `id` is its place, where ids are distinct.
proof fn lemma_place_unique(s: Seq<CallRecord>, id: Seq<char>, i: int)
    requires
        distinct(s),
        0 <= i < s.len(),
        s[i].call_id@ == id,
    ensures
        place(s, id) == i,
{
    lemma_place(s, id, 0);
    let p = place(s, id);
    if p < i {
        assert(s[p].call_id@ != s[i].call_id@);
    }
}

/// Keeping every id in its place keeps the place of each.
proof fn lemma_place_same_ids(s: Seq<CallRecord>, t: Seq<CallRecord>, id: Seq<char>, i: int)
    requires
        s.len() == t.len(),
        0 <= i <= s.len(),
        forall|j: int| 0 <= j < s.len() ==> (#[trigger] s[j]).call_id@ == t[j].call_id@,
    ensures
        place_from(s, id, i) == place_from(t, id, i),
    decreases s.len() - i,
{
    if i < s.len() {
        assert(s[i].call_id@ == t[i].call_id@);
        lemma_place_same_ids(s, t, id, i + 1);
    }
}

/// What is stored is found under its id, and every other record stays as it was.
pub proof fn stored_record_is_found(s: Seq<CallRecord>, rec: CallRecord, id: Seq<char>)
    requires
        distinct(s),
    ensures
        distinct(stored(s, rec)),
        lookup(stored(s, rec), rec.call_id@) == Some(rec),
        id != rec.call_id@ ==> lookup(stored(s, rec), id) == lookup(s, id),
{
    let t = stored(s, rec);
    let key = rec.call_id@;
    lemma_place(s, key, 0);
    let p = place(s, key);
    if holds(s, key) {
        assert forall|i: int, j: int| 0 <= i < j < t.len() implies (#[trigger] t[i]).call_id@ != (
        #[trigger] t[j]).call_id@ by {
            assert(s[i].call_id@ != s[j].call_id@);
        }
        assert(t[p].call_id@ == key);
        lemma_place_unique(t, key, p);
        assert forall|j: int| 0 <= j < s.len() implies (#[trigger] s[j]).call_id@
            == t[j].call_id@ by {}
        lemma_place_same_ids(s, t, id, 0);
        lemma_place(s, id, 0);
    } else {
        assert forall|i: int, j: int| 0 <= i < j < t.len() implies (#[trigger] t[i]).call_id@ != (
        #[trigger] t[j]).call_id@ by {
            if j < s.len() {
                assert(s[i].call_id@ != s[j].call_id@);
            } else {
                assert(s[i].call_id@ != key);
            }
        }
        lemma_place_unique(t, key, s.len() as int);
        lemma_place(s, id, 0);
        lemma_place(t, id, 0);
        if id != key {
            if holds(s, id) {
                assert(t[place(s, id)].call_id@ == id);
                lemma_place_unique(t, id, place(s, id));
            } else if holds(t, id) {
                let q = place(t, id);
                assert(t[q].call_id@ == id);
                assert(q < s.len());
                assert(s[q].call_id@ == id);
            }
        }
    }
}

/// A change to one record, which keeps its id, leaves the ids distinct and every other record as
/// it was; a change to an unknown id changes nothing.
pub proof fn change_touches_one_record(
    s: Seq<CallRecord>,
    id: Seq<char>,
    with: CallRecord,
    other: Seq<char>,
)
    requires
        distinct(s),
        with.call_id@ == id,
    ensures
        distinct(changed(s, id, with)),
        changed(s, id, with).len() == s.len(),
        lookup(changed(s, id, with), id) == (if holds(s, id) {
            Some(with)
        } else {
            None
        }),
        other != id ==> lookup(changed(s, id, with), other) == lookup(s, other),
{
    lemma_place(s, id, 0);
    if holds(s, id) {
        let t = changed(s, id, with);
        assert forall|i: int, j: int| 0 <= i < j < t.len() implies (#[trigger] t[i]).call_id@ != (
        #[trigger] t[j]).call_id@ by {
            assert(s[i].call_id@ != s[j].call_id@);
        }
        lemma_place_unique(t, id, place(s, id));
        assert forall|j: int| 0 <= j < s.len() implies (#[trigger] s[j]).call_id@
            == t[j].call_id@ by {}
        lemma_place_same_ids(s, t, other, 0);
        lemma_place(s, other, 0);
    }
}

/// Call records, by call id.
pub struct CallStore {
    records: Vec<CallRecord>,
}

impl View for CallStore {
    type V = Seq<CallRecord>;

    closed spec fn view(&self) -> Seq<CallRecord> {
        self.records@
    }
}

impl Default for CallStore {
    fn default() -> (r: Self)
        ensures
            r@ == Seq::<CallRecord>::empty(),
    {
        CallStore { records: Vec::new() }
    }
}

impl CallStore {
    pub fn new() -> (r: Self)
        ensures
            r@ == Seq::<CallRecord>::empty(),
            distinct(r@),
    {
        CallStore { records: Vec::new() }
    }

    fn find(&self, call_id: &str) -> (r: usize)
        ensures
            r == place(self@, call_id@),
            r <= self@.len(),
            self@.len() <= usize::MAX,
    {
        let mut i: usize = 0;
        while i < self.records.len()
            invariant
                i <= self.records@.len(),
                place(self@, call_id@) == place_from(self@, call_id@, i as int),
            decreases self.records@.len() - i,
        {
            if same(self.records[i].call_id.as_str(), call_id) {
                return i;
            }
            i = i + 1;
        }
        i
    }

    /// Stores a record under its id.
    pub fn insert(&mut self, rec: CallRecord)
        ensures
            final(self)@ == stored(old(self)@, rec),
            distinct(old(self)@) ==> distinct(final(self)@),
    {
        proof {
            if distinct(self@) {
                stored_record_is_found(self@, rec, rec.call_id@);
            }
        }
        let i: usize = self.find(rec.call_id.as_str());
        if i < self.records.len() {
            self.records[i] = rec;
        } else {
            self.records.push(rec);
        }
    }

    pub fn set_state(&mut self, call_id: &str, state: CallState)
        ensures
            final(self)@ == changed(
                old(self)@,
                call_id@,
                CallRecord { state, ..old(self)@[place(old(self)@, call_id@)] },
            ),
    {
        let i: usize = self.find(call_id);
        if i < self.records.len() {
            self.records[i].state = state;
        }
    }

    /// The call waits to be dialed again, for the `attempt`th time.
    pub fn requeue(&mut self, call_id: &str, attempt: u32)
        ensures
            final(self)@ == changed(
                old(self)@,
                call_id@,
                CallRecord {
                    state: CallState::Queued,
                    attempt,
                    ..old(self)@[place(old(self)@, call_id@)]
                },
            ),
    {
        let i: usize = self.find(call_id);
        if i < self.records.len() {
            self.records[i].state = CallState::Queued;
            self.records[i].attempt = attempt;
        }
    }

    pub fn append_transcript(&mut self, call_id: &str, entry: TranscriptEntry)
        ensures
            ({
                let s = old(self)@;
                let i = place(s, call_id@);
                let t = final(self)@;
                if holds(s, call_id@) {
                    &&& t == s.update(i, t[i])
                    &&& t[i].transcript@ == s[i].transcript@.push(entry)
                    &&& t[i] == (CallRecord { transcript: t[i].transcript, ..s[i] })
                } else {
                    t == s
                }
            }),
    {
        let i: usize = self.find(call_id);
        if i < self.records.len() {
            self.records[i].transcript.push(entry);
        }
    }

    /// Append one detected emotion to the call's record.
    pub fn append_affect(&mut self, call_id: &str, entry: AffectEntry)
        ensures
            ({
                let s = old(self)@;
                let i = place(s, call_id@);
                let t = final(self)@;
                if holds(s, call_id@) {
                    &&& t == s.update(i, t[i])
                    &&& t[i].affect@ == s[i].affect@.push(entry)
                    &&& t[i] == (CallRecord { affect: t[i].affect, ..s[i] })
                } else {
                    t == s
                }
            }),
    {
        let i: usize = self.find(call_id);
        if i < self.records.len() {
            self.records[i].affect.push(entry);
        }
    }

    /// Replace the running transcript with the authoritative one from the session.
    pub fn set_transcript(&mut self, call_id: &str, transcript: Vec<TranscriptEntry>)
        ensures
            final(self)@ == changed(
                old(self)@,
                call_id@,
                CallRecord { transcript, ..old(self)@[place(old(self)@, call_id@)] },
            ),
    {
        let i: usize = self.find(call_id);
        if i < self.records.len() {
            self.records[i].transcript = transcript;
        }
    }

    pub fn finalize(
        &mut self,
        call_id: &str,
        state: CallState,
        goal: Option<Value>,
        error: Option<String>,
        outcome: Option<CallOutcome>,
        ended_ms: u64,
    )
        ensures
            final(self)@ == changed(
                old(self)@,
                call_id@,
                CallRecord {
                    state,
                    goal,
                    error,
                    outcome,
                    ended_ms: Some(ended_ms),
                    ..old(self)@[place(old(self)@, call_id@)]
                },
            ),
    {
        let i: usize = self.find(call_id);
        if i < self.records.len() {
            self.records[i].state = state;
            self.records[i].goal = goal;
            self.records[i].error = error;
            self.records[i].outcome = outcome;
            self.records[i].ended_ms = Some(ended_ms);
        }
    }

    /// Records how the call turned out.
    pub fn conclude(
        &mut self,
        call_id: &str,
        disposition: Disposition,
        goal: Option<Value>,
        error: Option<String>,
        ended_ms: u64,
    )
        ensures
            final(self)@ == changed(
                old(self)@,
                call_id@,
                CallRecord {
                    state: CallState::Ended,
                    disposition: Some(disposition),
                    goal,
                    error,
                    ended_ms: Some(ended_ms),
                    ..old(self)@[place(old(self)@, call_id@)]
                },
            ),
    {
        let i: usize = self.find(call_id);
        if i < self.records.len() {
            self.records[i].state = CallState::Ended;
            self.records[i].disposition = Some(disposition);
            self.records[i].goal = goal;
            self.records[i].error = error;
            self.records[i].ended_ms = Some(ended_ms);
        }
    }

    pub fn set_quality(&mut self, call_id: &str, q: CallQuality)
        ensures
            final(self)@ == changed(
                old(self)@,
                call_id@,
                CallRecord { quality: q, ..old(self)@[place(old(self)@, call_id@)] },
            ),
    {
        let i: usize = self.find(call_id);
        if i < self.records.len() {
            self.records[i].quality = q;
        }
    }

    /// The record of a call.
    pub fn get(&self, call_id: &str) -> (r: Option<&CallRecord>)
        ensures
            match r {
                Some(rec) => lookup(self@, call_id@) == Some(*rec),
                None => lookup(self@, call_id@) is None,
            },
    {
        let i: usize = self.find(call_id);
        if i < self.records.len() {
            Some(&self.records[i])
        } else {
            None
        }
    }

    /// All records.
    pub fn list(&self) -> (r: &Vec<CallRecord>)
        ensures
            r@ == self@,
    {
        &self.records
    }

    /// Counts of active (ringing or in progress) and queued calls.
    pub fn counts(&self) -> (r: StateCounts)
        ensures
            r.active == active_count(self@, self@.len() as int),
            r.queued == queued_count(self@, self@.len() as int),
    {
        let mut c: StateCounts = StateCounts { active: 0, queued: 0 };
        let mut i: usize = 0;
        while i < self.records.len()
            invariant
                i <= self.records@.len(),
                c.active == active_count(self@, i as int),
                c.queued == queued_count(self@, i as int),
                c.active <= i,
                c.queued <= i,
            decreases self.records@.len() - i,
        {
            match self.records[i].state {
                CallState::Ringing | CallState::InProgress => {
                    c.active = c.active + 1;
                },
                CallState::Queued => {
                    c.queued = c.queued + 1;
                },
                _ => {},
            }
            i = i + 1;
        }
        c
    }
}

/// The live counts go over every record once: the active ones ring or are in progress, the queued
/// ones wait.
pub proof fn records_are_counted_once(s: Seq<CallRecord>, n: int)
    requires
        0 <= n <= s.len(),
    ensures
        active_count(s, n) == s.take(n).filter(
            |r: CallRecord| r.state == CallState::Ringing || r.state == CallState::InProgress,
        ).len(),
        queued_count(s, n) == s.take(n).filter(|r: CallRecord| r.state == CallState::Queued).len(),
    decreases n,
{
    reveal(Seq::filter);
    if n > 0 {
        records_are_counted_once(s, n - 1);
        let r = s[n - 1];
        assert(s.take(n) =~= s.take(n - 1).push(r));
        s.take(n - 1).lemma_filter_push(
            r,
            |r: CallRecord| r.state == CallState::Ringing || r.state == CallState::InProgress,
        );
        s.take(n - 1).lemma_filter_push(r, |r: CallRecord| r.state == CallState::Queued);
    } else {
        assert(s.take(0) =~= Seq::empty());
    }
}

} // verus!
