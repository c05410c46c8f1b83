//! Call engine: the pending queue, the call records, the concurrency cap and the lifetime totals.
//!
//! [`Engine`] holds the state and takes every decision; [`call::RunCall`] drives one dispatched
//! call from the preflight to its end.
use serde_json::Value;
use vstd::prelude::*;
use vstd::string::StringExecFns;

use crate::breaker::{Breaker, Circuit, Decision};
use crate::config::{QualityConfig, RetryConfig, ScenarioConfig, ServerConfig};
use crate::gemini_live::{AffectEntry, EndedBy, TranscriptEntry};
use crate::queue::{
    enqueued, enqueued_call_is_pending, in_order, spot, MemQueue, PendingEntry, QueueStore,
};
use crate::nearest::{percent, percent_bits};
use crate::single::Single;
use crate::sip::{CallOutcome, DownlinkQuality, SipError, UplinkQuality};
use crate::state::{
    change_touches_one_record, changed, disposition_of, distinct, holds, lookup, place,
    resolve_disposition, stored, stored_record_is_found, text_of, CallQuality, CallRecord,
    CallShape, CallState, CallStore, Disposition,
};
use crate::text::{decimal, decimal_reads_back, same, to_decimal};

pub mod account;
pub mod call;
pub mod history;
pub mod ledger;
pub mod watch;

verus! {

/// Whether a call in progress is to be aborted for degraded audio.
/// `abort_underruns == 0` disables this.
pub fn should_abort(cfg: &QualityConfig, underruns: u64) -> (r: bool)
    ensures
        r == (cfg.abort_underruns > 0 && underruns >= cfg.abort_underruns),
{
    cfg.abort_underruns > 0 && underruns >= cfg.abort_underruns as u64
}

/// Number of 1 s quality ticks in the rolling uplink-loss window.
pub const UPLINK_WINDOW_TICKS: usize = 8;

/// Packets that the window must hold before it is judged.
pub const UPLINK_WINDOW_PACKETS: u64 = 200;

/// What a counter grew by.
pub open spec fn grown(from: u64, to: u64) -> int {
    if to > from {
        to - from
    } else {
        0
    }
}

/// The loss (%) over a window, from the cumulative `(received, lost)` at its start and now; none
/// until the window holds enough packets.
pub open spec fn window_loss(oldest: (u64, u64), current: (u64, u64)) -> Option<Single> {
    let lost = grown(oldest.1, current.1);
    let total = grown(oldest.0, current.0) + lost;
    if total < UPLINK_WINDOW_PACKETS {
        None
    } else {
        Some(Single { bits: percent_bits(lost, total) as u32 })
    }
}

/// Rolling-window uplink loss %, from the cumulative `(received, lost)` at the window start and
/// now. `None` until the window holds enough packets to judge. Rolling, so a late burst on a long
/// call is not diluted away.
pub fn window_loss_pct(oldest: (u64, u64), current: (u64, u64)) -> (r: Option<Single>)
    requires
        grown(oldest.0, current.0) + grown(oldest.1, current.1) <= u64::MAX,
    ensures
        r == window_loss(oldest, current),
{
    let recv: u64 = current.0.saturating_sub(oldest.0);
    let lost: u64 = current.1.saturating_sub(oldest.1);
    let total: u64 = recv + lost;
    if total < UPLINK_WINDOW_PACKETS {
        None
    } else {
        Some(percent(lost, total))
    }
}

/// A call's quality with both media directions in it. A downlink that was never reported stays
/// as it was.
pub open spec fn merged(q: CallQuality, u: UplinkQuality, d: DownlinkQuality) -> CallQuality {
    let up = CallQuality {
        uplink_received: u.received,
        uplink_lost: u.lost,
        uplink_reordered: u.reordered,
        ..q
    };
    if d.present {
        CallQuality {
            downlink_loss_pct: d.loss_pct,
            downlink_jitter_ms: d.jitter_ms,
            downlink_rtt_ms: d.rtt_ms,
            ..up
        }
    } else {
        up
    }
}

/// Merge the pacer's snapshot with the uplink and downlink snapshots.
pub fn merge_quality(q: CallQuality, u: UplinkQuality, d: DownlinkQuality) -> (r: CallQuality)
    ensures
        r == merged(q, u, d),
{
    let mut out: CallQuality = q;
    out.uplink_received = u.received;
    out.uplink_lost = u.lost;
    out.uplink_reordered = u.reordered;
    if d.present {
        out.downlink_loss_pct = d.loss_pct;
        out.downlink_jitter_ms = d.jitter_ms;
        out.downlink_rtt_ms = d.rtt_ms;
    }
    out
}

/// Consecutive quality ticks with a downlink breach that abort a call.
pub const DOWNLINK_BREACH_TICKS: u32 = 5;

/// Does this downlink snapshot breach the abort threshold? Only a reported sample can.
pub fn downlink_breach(d: DownlinkQuality, abort_pct: Single) -> (r: bool)
    ensures
        r == (d.present && d.loss_pct.above(abort_pct)),
{
    d.present && d.loss_pct.exceeds(abort_pct)
}

/// Should a busy dial attempt be retried? `attempt` is 1-based.
pub fn should_retry_busy(attempt: u32, cfg: &RetryConfig) -> (r: bool)
    ensures
        r == (attempt < cfg.busy_max_attempts),
{
    attempt < cfg.busy_max_attempts
}

/// What the dead-air watchdog wants.
#[derive(Debug, Clone, Copy, PartialEq, Eq, Structural)]
pub enum WrapPhase {
    /// Nothing: recent activity, or nudged and still within the grace period.
    Idle,
    /// Silence just lasted long enough: mute the downlink and send the end-call cue. Comes exactly
    /// once per stretch of silence.
    Nudge,
    /// The grace period after the nudge is over: finalize the call.
    Finalize,
}

/// The dead-air watchdog: how long a call has been silent.
pub struct Silence {
    pub nudge_ms: u64,
    pub grace_ms: u64,
    pub last_activity_ms: u64,
    pub nudged_at_ms: Option<u64>,
}

impl Silence {
    /// What is due at `now_ms`.
    pub open spec fn phase(self, now_ms: u64) -> WrapPhase {
        match self.nudged_at_ms {
            None => if grown(self.last_activity_ms, now_ms) >= self.nudge_ms {
                WrapPhase::Nudge
            } else {
                WrapPhase::Idle
            },
            Some(t) => if grown(t, now_ms) >= self.grace_ms {
                WrapPhase::Finalize
            } else {
                WrapPhase::Idle
            },
        }
    }

    /// A nudge is remembered.
    pub open spec fn watched(self, now_ms: u64) -> Silence {
        if self.phase(now_ms) == WrapPhase::Nudge {
            Silence { nudged_at_ms: Some(now_ms), ..self }
        } else {
            self
        }
    }

    pub open spec fn active(self, now_ms: u64) -> Silence {
        Silence { last_activity_ms: now_ms, nudged_at_ms: None, ..self }
    }
}

/// Dead-air watchdog: decides when to nudge the model toward `end_call`, then when to give up.
pub struct WrapUpState {
    nudge_ms: u64,
    grace_ms: u64,
    last_activity_ms: u64,
    nudged_at_ms: Option<u64>,
}

impl View for WrapUpState {
    type V = Silence;

    closed spec fn view(&self) -> Silence {
        Silence {
            nudge_ms: self.nudge_ms,
            grace_ms: self.grace_ms,
            last_activity_ms: self.last_activity_ms,
            nudged_at_ms: self.nudged_at_ms,
        }
    }
}

impl WrapUpState {
    pub fn new(nudge_ms: u64, grace_ms: u64) -> (r: Self)
        ensures
            r@ == (Silence { nudge_ms, grace_ms, last_activity_ms: 0, nudged_at_ms: None }),
    {
        WrapUpState { nudge_ms, grace_ms, last_activity_ms: 0, nudged_at_ms: None }
    }

    /// Record activity, clearing any pending wrap-up so a resumed conversation is not finalized.
    /// Returns whether it cleared a nudge; the caller then un-mutes.
    pub fn on_activity(&mut self, now_ms: u64) -> (r: bool)
        ensures
            final(self)@ == old(self)@.active(now_ms),
            r == (old(self)@.nudged_at_ms is Some),
    {
        self.last_activity_ms = now_ms;
        let nudged: bool = self.nudged_at_ms.is_some();
        self.nudged_at_ms = None;
        nudged
    }

    /// What should happen at `now_ms`?
    pub fn phase(&mut self, now_ms: u64) -> (r: WrapPhase)
        ensures
            r == old(self)@.phase(now_ms),
            final(self)@ == old(self)@.watched(now_ms),
    {
        match self.nudged_at_ms {
            None => {
                if now_ms.saturating_sub(self.last_activity_ms) >= self.nudge_ms {
                    self.nudged_at_ms = Some(now_ms);
                    WrapPhase::Nudge
                } else {
                    WrapPhase::Idle
                }
            },
            Some(nudged_at) => {
                if now_ms.saturating_sub(nudged_at) >= self.grace_ms {
                    WrapPhase::Finalize
                } else {
                    WrapPhase::Idle
                }
            },
        }
    }
}

/// Once nudged, a stretch of silence is not nudged again: it stays idle through the grace period
/// and is then finalized. Activity starts over.
pub proof fn nudges_once_per_silence(s: Silence, now_ms: u64, later_ms: u64)
    requires
        s.phase(now_ms) == WrapPhase::Nudge,
    ensures
        s.watched(now_ms).phase(later_ms) != WrapPhase::Nudge,
        s.watched(now_ms).watched(later_ms) == s.watched(now_ms),
        s.watched(now_ms).phase(later_ms) == WrapPhase::Finalize <==> grown(now_ms, later_ms)
            >= s.grace_ms,
        s.watched(now_ms).active(later_ms).nudged_at_ms is None,
        s.nudge_ms > 0 ==> s.watched(now_ms).active(later_ms).phase(later_ms) == WrapPhase::Idle,
{
}

/// Errors from placing a call.
#[derive(Debug)]
pub enum EngineError {
    Sip(SipError),
}

impl EngineError {
    /// The error's message.
    pub fn to_string(&self) -> (r: String)
        ensures
            r@ == self->Sip_0.message(),
    {
        match self {
            EngineError::Sip(e) => e.to_string(),
        }
    }
}

impl From<SipError> for EngineError {
    fn from(e: SipError) -> (r: Self) {
        EngineError::Sip(e)
    }
}

impl vstd::std_specs::convert::FromSpecImpl<SipError> for EngineError {
    open spec fn obeys_from_spec() -> bool {
        true
    }

    open spec fn from_spec(e: SipError) -> Self {
        EngineError::Sip(e)
    }
}

/// Cumulative totals, for the life of the process. A total that reaches its greatest value starts
/// over from zero.
#[derive(Clone, Copy, Debug, PartialEq, Eq, Structural)]
pub struct Counters {
    pub placed: u64,
    pub completed: u64,
    pub failed: u64,
    pub cancelled: u64,
    pub busy: u64,
    pub no_answer: u64,
    pub rejected: u64,
    pub not_found: u64,
    pub unavailable: u64,
    pub voicemail: u64,
    pub announcement: u64,
    pub ivr: u64,
    pub hold: u64,
    pub underruns: u64,
    pub starved_ms: u64,
    pub quality_aborted: u64,
    pub uplink_received: u64,
    pub uplink_lost: u64,
}

/// `a + b`, starting over from zero past the greatest value.
pub open spec fn rolled(a: u64, b: u64) -> u64 {
    if a + b > u64::MAX {
        (a + b - u64::MAX - 1) as u64
    } else {
        (a + b) as u64
    }
}

fn roll(a: u64, b: u64) -> (r: u64)
    ensures
        r == rolled(a, b),
{
    a.wrapping_add(b)
}

impl Counters {
    pub open spec fn zero() -> Counters {
        Counters {
            placed: 0,
            completed: 0,
            failed: 0,
            cancelled: 0,
            busy: 0,
            no_answer: 0,
            rejected: 0,
            not_found: 0,
            unavailable: 0,
            voicemail: 0,
            announcement: 0,
            ivr: 0,
            hold: 0,
            underruns: 0,
            starved_ms: 0,
            quality_aborted: 0,
            uplink_received: 0,
            uplink_lost: 0,
        }
    }

    /// The total of a disposition.
    pub open spec fn of(self, d: Disposition) -> u64 {
        match d {
            Disposition::Completed => self.completed,
            Disposition::Voicemail => self.voicemail,
            Disposition::Announcement => self.announcement,
            Disposition::Ivr => self.ivr,
            Disposition::Hold => self.hold,
            Disposition::Busy => self.busy,
            Disposition::NoAnswer => self.no_answer,
            Disposition::Rejected => self.rejected,
            Disposition::NotFound => self.not_found,
            Disposition::Unavailable => self.unavailable,
            Disposition::Failed => self.failed,
            Disposition::Cancelled => self.cancelled,
        }
    }

    /// One more call of a disposition.
    pub open spec fn bumped(self, d: Disposition) -> Counters {
        match d {
            Disposition::Completed => Counters { completed: rolled(self.completed, 1), ..self },
            Disposition::Voicemail => Counters { voicemail: rolled(self.voicemail, 1), ..self },
            Disposition::Announcement => Counters {
                announcement: rolled(self.announcement, 1),
                ..self
            },
            Disposition::Ivr => Counters { ivr: rolled(self.ivr, 1), ..self },
            Disposition::Hold => Counters { hold: rolled(self.hold, 1), ..self },
            Disposition::Busy => Counters { busy: rolled(self.busy, 1), ..self },
            Disposition::NoAnswer => Counters { no_answer: rolled(self.no_answer, 1), ..self },
            Disposition::Rejected => Counters { rejected: rolled(self.rejected, 1), ..self },
            Disposition::NotFound => Counters { not_found: rolled(self.not_found, 1), ..self },
            Disposition::Unavailable => Counters {
                unavailable: rolled(self.unavailable, 1),
                ..self
            },
            Disposition::Failed => Counters { failed: rolled(self.failed, 1), ..self },
            Disposition::Cancelled => Counters { cancelled: rolled(self.cancelled, 1), ..self },
        }
    }

    /// A call's audio quality, added once it is over.
    pub open spec fn with_quality(self, q: CallQuality) -> Counters {
        Counters {
            underruns: rolled(self.underruns, q.underruns),
            starved_ms: rolled(self.starved_ms, q.starved_ms),
            uplink_received: rolled(self.uplink_received, q.uplink_received),
            uplink_lost: rolled(self.uplink_lost, q.uplink_lost),
            ..self
        }
    }
}

impl Default for Counters {
    fn default() -> (r: Self)
        ensures
            r == Counters::zero(),
    {
        Counters {
            placed: 0,
            completed: 0,
            failed: 0,
            cancelled: 0,
            busy: 0,
            no_answer: 0,
            rejected: 0,
            not_found: 0,
            unavailable: 0,
            voicemail: 0,
            announcement: 0,
            ivr: 0,
            hold: 0,
            underruns: 0,
            starved_ms: 0,
            quality_aborted: 0,
            uplink_received: 0,
            uplink_lost: 0,
        }
    }
}

/// Bump the total of a disposition.
pub fn bump_disposition(c: &mut Counters, d: Disposition)
    ensures
        *final(c) == old(c).bumped(d),
{
    match d {
        Disposition::Completed => c.completed = roll(c.completed, 1),
        Disposition::Voicemail => c.voicemail = roll(c.voicemail, 1),
        Disposition::Announcement => c.announcement = roll(c.announcement, 1),
        Disposition::Ivr => c.ivr = roll(c.ivr, 1),
        Disposition::Hold => c.hold = roll(c.hold, 1),
        Disposition::Busy => c.busy = roll(c.busy, 1),
        Disposition::NoAnswer => c.no_answer = roll(c.no_answer, 1),
        Disposition::Rejected => c.rejected = roll(c.rejected, 1),
        Disposition::NotFound => c.not_found = roll(c.not_found, 1),
        Disposition::Unavailable => c.unavailable = roll(c.unavailable, 1),
        Disposition::Failed => c.failed = roll(c.failed, 1),
        Disposition::Cancelled => c.cancelled = roll(c.cancelled, 1),
    }
}

/// A bump counts one call under its own disposition and no other.
pub proof fn bump_counts_one_kind(c: Counters, d: Disposition, other: Disposition)
    ensures
        c.bumped(d).of(d) == rolled(c.of(d), 1),
        other != d ==> c.bumped(d).of(other) == c.of(other),
        c.bumped(d).placed == c.placed,
{
}

/// A point-in-time view of engine load and lifetime totals.
#[derive(Debug, Clone, Copy, PartialEq, Eq, Structural)]
pub struct MetricsSnapshot {
    pub active: usize,
    pub queued: usize,
    pub placed_total: u64,
    pub completed_total: u64,
    pub failed_total: u64,
    pub cancelled_total: u64,
    pub channels_cap: usize,
    pub underruns_total: u64,
    pub starved_ms_total: u64,
    pub quality_aborted_total: u64,
    pub uplink_received_total: u64,
    pub uplink_lost_total: u64,
    pub busy_total: u64,
    pub no_answer_total: u64,
    pub rejected_total: u64,
    pub not_found_total: u64,
    pub unavailable_total: u64,
    pub voicemail_total: u64,
    pub announcement_total: u64,
    pub ivr_total: u64,
    pub hold_total: u64,
}

/// The shape of a call that was never answered.
pub open spec fn no_shape() -> CallShape {
    CallShape { answered: false, duration_ms: 0, transcript_len: 0, ended_by: EndedBy::Error }
}

/// The shape of every call that ends before it is answered.
pub fn unanswered_shape() -> (r: CallShape)
    ensures
        r == no_shape(),
{
    CallShape { answered: false, duration_ms: 0, transcript_len: 0, ended_by: EndedBy::Error }
}

/// What is known of a call that is over.
#[derive(Debug)]
pub struct Ending {
    pub cancelled: bool,
    /// What the model reported of the far end.
    pub amd: Option<String>,
    pub sip: Option<CallOutcome>,
    pub shape: CallShape,
    pub goal: Option<Value>,
    pub error: Option<String>,
    /// A quality limit aborted the call, and nothing else came of it.
    pub quality_aborted: bool,
}

/// The contents of an optional text.
pub open spec fn opt_text(s: Option<String>) -> Option<Seq<char>> {
    match s {
        Some(t) => Some(t@),
        None => None,
    }
}

impl Ending {
    /// How the call turned out.
    pub open spec fn disposition(self) -> Disposition {
        disposition_of(self.cancelled, opt_text(self.amd), self.sip, self.shape)
    }
}

/// What becomes of a request to end a call.
#[derive(Clone, Copy, Debug, PartialEq, Eq, Structural)]
pub enum EndCall {
    /// It was still queued and is now cancelled.
    Cancelled,
    /// It is running: its task is to be told.
    Signal,
    /// There is nothing to end.
    Unknown,
}

/// The engine's state.
pub struct Load {
    pub records: Seq<CallRecord>,
    pub pending: Seq<PendingEntry>,
    /// Dispatched calls that can still be told to end.
    pub live: Seq<Seq<char>>,
    pub counters: Counters,
    /// Dispatched calls that hold a channel, in the order in which they were dispatched.
    pub holding: Seq<Seq<char>>,
    pub cap: int,
    /// Holds the queue while the session leg is down.
    pub breaker: Circuit,
    /// Calls placed so far.
    pub seq: int,
    pub poll_ms: int,
    pub poll_max_ms: int,
    pub max_call_secs: u64,
}

/// Whether `live` names `id`.
pub open spec fn names(live: Seq<Seq<char>>, id: Seq<char>) -> bool {
    exists|i: int| 0 <= i < live.len() && live[i] == id
}

/// The place of `id` from place `i` on; the length where it does not occur.
pub open spec fn live_from(live: Seq<Seq<char>>, id: Seq<char>, i: int) -> int
    decreases live.len() - i,
{
    if i < 0 || i >= live.len() {
        live.len() as int
    } else if live[i] == id {
        i
    } else {
        live_from(live, id, i + 1)
    }
}

/// `live` without `id`.
pub open spec fn without(live: Seq<Seq<char>>, id: Seq<char>) -> Seq<Seq<char>> {
    let i = live_from(live, id, 0);
    if i < live.len() {
        live.remove(i)
    } else {
        live
    }
}

/// `live` with `id`, once.
pub open spec fn with(live: Seq<Seq<char>>, id: Seq<char>) -> Seq<Seq<char>> {
    if live_from(live, id, 0) < live.len() {
        live
    } else {
        live.push(id)
    }
}

/// The id of the `n`th call, from zero.
pub open spec fn nth_id(n: int) -> Seq<char> {
    "call-"@ + decimal(n)
}

/// The record of a call that was just placed.
pub open spec fn placed_record(
    rec: CallRecord,
    id: Seq<char>,
    number: Seq<char>,
    attempt: u32,
    now_ms: u64,
) -> bool {
    &&& rec.call_id@ == id
    &&& rec.number@ == number
    &&& rec.state == CallState::Queued
    &&& rec.transcript@.len() == 0
    &&& rec.affect@.len() == 0
    &&& rec.goal is None
    &&& rec.error is None
    &&& rec.started_ms == now_ms
    &&& rec.ended_ms is None
    &&& rec.quality == CallQuality::none()
    &&& rec.outcome is None
    &&& rec.disposition is None
    &&& rec.attempt == attempt
    &&& rec.retry_of is None
}

/// The queue entry of a call.
pub open spec fn pending_entry(
    e: PendingEntry,
    id: Seq<char>,
    number: Seq<char>,
    scenario: ScenarioConfig,
    eligible_at_ms: u64,
    attempt: u32,
) -> bool {
    &&& e.call_id@ == id
    &&& e.number@ == number
    &&& e.scenario == scenario
    &&& e.eligible_at_ms == eligible_at_ms
    &&& e.attempt == attempt
    &&& e.retry_of is None
}

impl Load {
    /// Records have distinct ids, the queue is in order, and the cap holds.
    pub open spec fn wf(self) -> bool {
        &&& distinct(self.records)
        &&& in_order(self.pending)
        &&& self.running() <= self.cap
    }

    /// How many channels are taken.
    pub open spec fn running(self) -> int {
        self.holding.len() as int
    }

    /// Whether the next call can be dispatched now: a channel is free, the call is due, and the
    /// breaker does not hold the queue.
    pub open spec fn can_dispatch(self, now_ms: u64) -> bool {
        &&& self.running() < self.cap
        &&& self.pending.len() > 0
        &&& self.pending[0].eligible_at_ms <= now_ms
        &&& !(self.breaker.decision(now_ms) is Hold)
    }

    /// The earliest entry leaves the queue and takes a channel. Where the breaker admits a probe,
    /// it is that probe.
    pub open spec fn dispatched(self, now_ms: u64) -> Load {
        let id = self.pending[0].call_id@;
        Load {
            records: changed(
                self.records,
                id,
                CallRecord { state: CallState::Ringing, ..self.records[place(self.records, id)] },
            ),
            pending: self.pending.drop_first(),
            live: with(self.live, id),
            holding: self.holding.push(id),
            breaker: if self.breaker.decision(now_ms) is Probe {
                self.breaker.probed(now_ms)
            } else {
                self.breaker
            },
            ..self
        }
    }

    /// The earliest `n` entries dispatched, one after the other.
    pub open spec fn dispatched_times(self, n: nat, now_ms: u64) -> Load
        decreases n,
    {
        if n == 0 {
            self
        } else {
            self.dispatched_times((n - 1) as nat, now_ms).dispatched(now_ms)
        }
    }

    /// The call's channel is free again, and it can no longer be told to end. One that holds no
    /// channel gives none back.
    pub open spec fn released(self, id: Seq<char>) -> Load {
        Load { live: without(self.live, id), holding: without(self.holding, id), ..self }
    }

    /// A preflight came out.
    pub open spec fn preflighted(self, ok: bool, now_ms: u64) -> Load {
        Load { breaker: self.breaker.resulted(ok, now_ms), ..self }
    }

    /// The record of a call that is over, and its count.
    pub open spec fn concluded(
        self,
        id: Seq<char>,
        d: Disposition,
        goal: Option<Value>,
        error: Option<String>,
        now_ms: u64,
    ) -> Load {
        Load {
            records: changed(
                self.records,
                id,
                CallRecord {
                    state: CallState::Ended,
                    disposition: Some(d),
                    goal,
                    error,
                    ended_ms: Some(now_ms),
                    ..self.records[place(self.records, id)]
                },
            ),
            counters: self.counters.bumped(d),
            ..self
        }
    }

    /// The record of a call that ended so, and its counts.
    pub open spec fn finalized(self, id: Seq<char>, e: Ending, now_ms: u64) -> Load {
        let done = self.concluded(id, e.disposition(), e.goal, e.error, now_ms);
        if e.quality_aborted {
            Load {
                counters: Counters {
                    quality_aborted: rolled(done.counters.quality_aborted, 1),
                    ..done.counters
                },
                ..done
            }
        } else {
            done
        }
    }

    /// What a request to end a call does: a queued call is cancelled, a running one is to be
    /// told, and there is nothing to end otherwise.
    pub open spec fn end_outcome(self, id: Seq<char>) -> EndCall {
        if spot(self.pending, id) < self.pending.len() {
            EndCall::Cancelled
        } else if live_from(self.live, id, 0) < self.live.len() {
            EndCall::Signal
        } else {
            EndCall::Unknown
        }
    }

    /// The state after a request to end a call: a queued one leaves the queue and its record ends
    /// as cancelled, a running one can no longer be told to end.
    pub open spec fn end_requested(self, id: Seq<char>, now_ms: u64) -> Load {
        let i = spot(self.pending, id);
        match self.end_outcome(id) {
            EndCall::Cancelled => (Load {
                pending: self.pending.remove(i),
                ..self
            }).concluded(id, Disposition::Cancelled, None, None, now_ms),
            EndCall::Signal => Load { live: without(self.live, id), ..self },
            EndCall::Unknown => self,
        }
    }

    /// The state after a request to end each of the first `n` of `ids`, in order.
    pub open spec fn ends_requested(self, ids: Seq<Seq<char>>, n: int, now_ms: u64) -> Load
        decreases n,
    {
        if n <= 0 {
            self
        } else {
            self.ends_requested(ids, n - 1, now_ms).end_requested(ids[n - 1], now_ms)
        }
    }

    /// Which of the first `n` of `ids` are running calls to be told, when each is asked to end in
    /// order.
    pub open spec fn to_tell(self, ids: Seq<Seq<char>>, n: int, now_ms: u64) -> Seq<Seq<char>>
        decreases n,
    {
        if n <= 0 {
            Seq::empty()
        } else if self.ends_requested(ids, n - 1, now_ms).end_outcome(ids[n - 1])
            == EndCall::Signal {
            self.to_tell(ids, n - 1, now_ms).push(ids[n - 1])
        } else {
            self.to_tell(ids, n - 1, now_ms)
        }
    }

    /// How many channel slots a call must wait for; none for one that is not queued.
    pub open spec fn slots_ahead(self, id: Seq<char>) -> int {
        let i = spot(self.pending, id);
        let free = self.cap - self.running();
        if i < self.pending.len() && i + 1 > free {
            i + 1 - free
        } else {
            0
        }
    }

    /// The suggested poll interval: the base, times one more than the slots ahead, within the
    /// maximum (which is never below the base).
    pub open spec fn poll_interval(self, id: Seq<char>) -> int {
        let max = if self.poll_max_ms > self.poll_ms {
            self.poll_max_ms
        } else {
            self.poll_ms
        };
        let want = self.poll_ms * (1 + self.slots_ahead(id));
        if want < max {
            want
        } else {
            max
        }
    }
}

/// The call engine.
pub struct Engine {
    store: CallStore,
    queue: MemQueue,
    live: Vec<String>,
    counters: Counters,
    holding: Vec<String>,
    cap: usize,
    breaker: Breaker,
    seq: usize,
    poll_ms: u64,
    poll_max_ms: u64,
    max_call_secs: u64,
}

/// The ids of the records, in order.
pub open spec fn record_ids(s: Seq<CallRecord>) -> Seq<Seq<char>> {
    s.map_values(|r: CallRecord| r.call_id@)
}

/// The contents of a list of ids.
pub open spec fn ids_of(s: Seq<String>) -> Seq<Seq<char>> {
    s.map_values(|t: String| t@)
}

impl View for Engine {
    type V = Load;

    closed spec fn view(&self) -> Load {
        Load {
            records: self.store@,
            pending: self.queue.entries(),
            live: ids_of(self.live@),
            counters: self.counters,
            holding: ids_of(self.holding@),
            cap: self.cap as int,
            breaker: self.breaker@,
            seq: self.seq as int,
            poll_ms: self.poll_ms as int,
            poll_max_ms: self.poll_max_ms as int,
            max_call_secs: self.max_call_secs,
        }
    }
}

impl Engine {
    /// An idle engine with the server's limits.
    pub fn new(server: &ServerConfig) -> (r: Self)
        ensures
            r@ == (Load {
                records: Seq::empty(),
                pending: Seq::empty(),
                live: Seq::empty(),
                counters: Counters::zero(),
                holding: Seq::empty(),
                cap: server.max_concurrent_channels as int,
                breaker: Circuit::fresh(
                    server.net_check.breaker_threshold as int,
                    server.net_check.cooldown_ms as int,
                ),
                seq: 0,
                poll_ms: server.mcp_poll_interval_ms as int,
                poll_max_ms: server.mcp_poll_interval_max_ms as int,
                max_call_secs: server.max_call_secs,
            }),
            r@.wf(),
    {
        let r = Engine {
            store: CallStore::new(),
            queue: MemQueue::new(),
            live: Vec::new(),
            counters: Counters::default(),
            holding: Vec::new(),
            cap: server.max_concurrent_channels,
            breaker: Breaker::new(server.net_check.breaker_threshold, server.net_check.cooldown_ms),
            seq: 0,
            poll_ms: server.mcp_poll_interval_ms,
            poll_max_ms: server.mcp_poll_interval_max_ms,
            max_call_secs: server.max_call_secs,
        };
        assert(r@.live =~= Seq::empty());
        assert(r@.holding =~= Seq::empty());
        r
    }

    /// The call records.
    pub fn store(&self) -> (r: &CallStore)
        ensures
            r@ == self@.records,
    {
        &self.store
    }

    /// Live load plus lifetime totals.
    pub fn metrics_snapshot(&self) -> (r: MetricsSnapshot)
        ensures
            ({
                let c = self@.counters;
                r == (MetricsSnapshot {
                    active: self@.running() as usize,
                    queued: self@.pending.len() as usize,
                    placed_total: c.placed,
                    completed_total: c.completed,
                    failed_total: c.failed,
                    cancelled_total: c.cancelled,
                    channels_cap: self@.cap as usize,
                    underruns_total: c.underruns,
                    starved_ms_total: c.starved_ms,
                    quality_aborted_total: c.quality_aborted,
                    uplink_received_total: c.uplink_received,
                    uplink_lost_total: c.uplink_lost,
                    busy_total: c.busy,
                    no_answer_total: c.no_answer,
                    rejected_total: c.rejected,
                    not_found_total: c.not_found,
                    unavailable_total: c.unavailable,
                    voicemail_total: c.voicemail,
                    announcement_total: c.announcement,
                    ivr_total: c.ivr,
                    hold_total: c.hold,
                })
            }),
            r.active == self@.running(),
            r.queued == self@.pending.len(),
            r.channels_cap == self@.cap,
    {
        let c: &Counters = &self.counters;
        MetricsSnapshot {
            active: self.holding.len(),
            queued: self.queue.len(),
            placed_total: c.placed,
            completed_total: c.completed,
            failed_total: c.failed,
            cancelled_total: c.cancelled,
            channels_cap: self.cap,
            underruns_total: c.underruns,
            starved_ms_total: c.starved_ms,
            quality_aborted_total: c.quality_aborted,
            uplink_received_total: c.uplink_received,
            uplink_lost_total: c.uplink_lost,
            busy_total: c.busy,
            no_answer_total: c.no_answer,
            rejected_total: c.rejected,
            not_found_total: c.not_found,
            unavailable_total: c.unavailable,
            voicemail_total: c.voicemail,
            announcement_total: c.announcement,
            ivr_total: c.ivr,
            hold_total: c.hold,
        }
    }

    /// Maximum duration of a single call, in seconds.
    pub fn max_call_secs(&self) -> (r: u64)
        ensures
            r == self@.max_call_secs,
    {
        self.max_call_secs
    }

    /// Suggested poll interval for a call's task. A call that will be dispatched right away gets
    /// the base interval; one queued behind busy channels gets a longer one.
    pub fn suggested_poll_interval_ms(&self, call_id: &str) -> (r: u64)
        requires
            self@.wf(),
        ensures
            r == self@.poll_interval(call_id@),
    {
        let base: u64 = self.poll_ms;
        let max: u64 = if self.poll_max_ms > base {
            self.poll_max_ms
        } else {
            base
        };
        let free: usize = self.cap - self.holding.len();
        let slots: usize = match self.queued_position(call_id) {
            Some(pos) => pos.saturating_sub(free),
            None => 0,
        };
        assert(slots == self@.slots_ahead(call_id@));
        assert(base * (1 + slots) <= u64::MAX * (1 + u64::MAX)) by (nonlinear_arith)
            requires
                base <= u64::MAX,
                slots <= u64::MAX,
        ;
        let want: u128 = base as u128 * (1 + slots as u128);
        if want < max as u128 {
            want as u64
        } else {
            max
        }
    }

    /// Place an outbound call now.
    pub fn place_call(&mut self, number: String, scenario: ScenarioConfig, now_ms: u64) -> (r:
        String)
        requires
            old(self)@.wf(),
            old(self)@.seq < usize::MAX,
        ensures
            old(self)@.placed(final(self)@, number@, scenario, now_ms, 1, now_ms),
            r@ == nth_id(old(self)@.seq),
            final(self)@.wf(),
    {
        self.place_call_at(number, scenario, now_ms, 1, now_ms)
    }

    /// Enqueue an outbound call eligible for dispatch at `eligible_at_ms`. `attempt` is 1 for a
    /// first dial. Returns the new call id.
    pub fn place_call_at(
        &mut self,
        number: String,
        scenario: ScenarioConfig,
        eligible_at_ms: u64,
        attempt: u32,
        now_ms: u64,
    ) -> (r: String)
        requires
            old(self)@.wf(),
            old(self)@.seq < usize::MAX,
        ensures
            old(self)@.placed(final(self)@, number@, scenario, eligible_at_ms, attempt, now_ms),
            r@ == nth_id(old(self)@.seq),
            final(self)@.wf(),
    {
        let n: usize = self.seq;
        self.seq = n + 1;
        let mut call_id: String = "call-".to_owned();
        call_id.append(to_decimal(n as u64).as_str());
        assert(call_id@ == nth_id(old(self)@.seq));
        let ghost id = call_id@;
        let rec = CallRecord {
            call_id: call_id.clone(),
            number: number.clone(),
            state: CallState::Queued,
            transcript: Vec::new(),
            affect: Vec::new(),
            goal: None,
            error: None,
            started_ms: now_ms,
            ended_ms: None,
            quality: CallQuality::default(),
            outcome: None,
            disposition: None,
            attempt,
            retry_of: None,
        };
        let ghost told = number@;
        let ghost added = rec;
        assert(placed_record(rec, id, told, attempt, now_ms));
        self.store.insert(rec);
        self.counters.placed = roll(self.counters.placed, 1);
        let entry = PendingEntry {
            call_id: call_id.clone(),
            number,
            scenario,
            eligible_at_ms,
            attempt,
            retry_of: None,
        };
        let ghost waiting = entry;
        assert(pending_entry(entry, id, told, scenario, eligible_at_ms, attempt));
        self.queue.push(entry);
        assert(self@ == (Load {
            records: stored(old(self)@.records, added),
            pending: enqueued(old(self)@.pending, waiting),
            counters: Counters {
                placed: rolled(old(self)@.counters.placed, 1),
                ..old(self)@.counters
            },
            seq: old(self)@.seq + 1,
            ..old(self)@
        }));
        call_id
    }

    /// Requeue an existing call under the same id for another attempt. The record goes back to
    /// queued with the new attempt; no new record is made, so that who polls the id follows the
    /// retry.
    pub fn requeue(
        &mut self,
        call_id: String,
        number: String,
        scenario: ScenarioConfig,
        eligible_at_ms: u64,
        attempt: u32,
    )
        requires
            old(self)@.wf(),
        ensures
            old(self)@.requeued(
                final(self)@,
                call_id@,
                number@,
                scenario,
                eligible_at_ms,
                attempt,
            ),
            final(self)@.wf(),
    {
        proof {
            let s = self@.records;
            lemma_change_keeps_distinct(
                s,
                call_id@,
                CallRecord { state: CallState::Queued, attempt, ..s[place(s, call_id@)] },
            );
        }
        self.store.requeue(call_id.as_str(), attempt);
        self.counters.placed = roll(self.counters.placed, 1);
        let entry = PendingEntry {
            call_id,
            number,
            scenario,
            eligible_at_ms,
            attempt,
            retry_of: None,
        };
        assert(pending_entry(entry, call_id@, number@, scenario, eligible_at_ms, attempt));
        self.queue.push(entry);
    }

    /// 1-based position of a pending call in dispatch order. `None` once it has been dispatched or
    /// was never queued.
    pub fn queued_position(&self, call_id: &str) -> (r: Option<usize>)
        ensures
            match r {
                Some(n) => spot(self@.pending, call_id@) < self@.pending.len() && n == spot(
                    self@.pending,
                    call_id@,
                ) + 1,
                None => spot(self@.pending, call_id@) == self@.pending.len(),
            },
    {
        self.queue.position(call_id)
    }

    /// Cancel a call. A queued call is removed from the queue and finalized at once; a dispatched
    /// one is to be signalled.
    pub fn end_call(&mut self, call_id: &str, now_ms: u64) -> (r: EndCall)
        requires
            old(self)@.wf(),
        ensures
            r == old(self)@.end_outcome(call_id@),
            final(self)@ == old(self)@.end_requested(call_id@, now_ms),
            final(self)@.wf(),
    {
        if self.queue.remove(call_id).is_some() {
            let ending = Ending {
                cancelled: true,
                amd: None,
                sip: None,
                shape: CallShape {
                    answered: false,
                    duration_ms: 0,
                    transcript_len: 0,
                    ended_by: EndedBy::CallerHangup,
                },
                goal: None,
                error: None,
                quality_aborted: false,
            };
            self.finalize_call(call_id, ending, now_ms);
            return EndCall::Cancelled;
        }
        if self.unregister(call_id) {
            EndCall::Signal
        } else {
            EndCall::Unknown
        }
    }

    /// Ask every call on record to end. Returns the running ones, whose tasks are to be told.
    pub fn end_all(&mut self, now_ms: u64) -> (r: Vec<String>)
        requires
            old(self)@.wf(),
        ensures
            ({
                let ids = record_ids(old(self)@.records);
                let n = ids.len() as int;
                &&& final(self)@ == old(self)@.ends_requested(ids, n, now_ms)
                &&& ids_of(r@) == old(self)@.to_tell(ids, n, now_ms)
            }),
            final(self)@.wf(),
    {
        let ghost ids = record_ids(self@.records);
        let mut calls: Vec<String> = Vec::new();
        let mut k: usize = 0;
        let total: usize = self.store.list().len();
        while k < total
            invariant
                k <= total,
                total == self@.records.len(),
                ids == record_ids(self@.records),
                ids_of(calls@) == ids.subrange(0, k as int),
                self@ == old(self)@,
            decreases total - k,
        {
            let ghost before = calls@;
            let id: String = self.store.list()[k].call_id.clone();
            assert(id@ == ids[k as int]);
            calls.push(id);
            assert(ids_of(calls@) =~= ids_of(before).push(ids[k as int]));
            k = k + 1;
            assert(ids.subrange(0, k as int) =~= ids.subrange(0, k - 1).push(ids[k - 1]));
        }
        assert(ids.subrange(0, total as int) =~= ids);
        let mut told: Vec<String> = Vec::new();
        let mut i: usize = 0;
        assert(ids_of(told@) =~= Seq::empty());
        while i < calls.len()
            invariant
                i <= calls@.len(),
                ids == ids_of(calls@),
                self@.wf(),
                self@ == old(self)@.ends_requested(ids, i as int, now_ms),
                ids_of(told@) == old(self)@.to_tell(ids, i as int, now_ms),
            decreases calls@.len() - i,
        {
            assert(ids[i as int] == calls@[i as int]@);
            let ghost before = told@;
            if self.end_call(calls[i].as_str(), now_ms) == EndCall::Signal {
                told.push(calls[i].clone());
                assert(ids_of(told@) =~= ids_of(before).push(ids[i as int]));
            }
            i = i + 1;
        }
        told
    }

    /// Forget that a dispatched call can be told to end. Returns whether it could.
    fn unregister(&mut self, call_id: &str) -> (r: bool)
        ensures
            r == (live_from(old(self)@.live, call_id@, 0) < old(self)@.live.len()),
            final(self)@ == (Load { live: without(old(self)@.live, call_id@), ..old(self)@ }),
    {
        let i: usize = find_id(&self.live, call_id);
        if i < self.live.len() {
            let ghost before = self.live@;
            self.live.remove(i);
            assert(ids_of(self.live@) =~= ids_of(before).remove(i as int));
            true
        } else {
            false
        }
    }

    /// Dispatch the next call, if a channel is free, one is due and the breaker does not hold the
    /// queue: it leaves the queue, takes the channel and rings.
    pub fn dispatch_next(&mut self, now_ms: u64) -> (r: Option<PendingEntry>)
        requires
            old(self)@.wf(),
        ensures
            if old(self)@.can_dispatch(now_ms) {
                r == Some(old(self)@.pending[0]) && final(self)@ == old(self)@.dispatched(now_ms)
            } else {
                r is None && final(self)@ == old(self)@
            },
            final(self)@.wf(),
    {
        if self.holding.len() >= self.cap {
            return None;
        }
        let decision: Decision = self.breaker.decision(now_ms);
        if let Decision::Hold(_) = decision {
            return None;
        }
        match self.queue.pop_eligible(now_ms) {
            Some(entry) => {
                proof {
                    let s = self@.records;
                    let id = entry.call_id@;
                    lemma_change_keeps_distinct(
                        s,
                        id,
                        CallRecord { state: CallState::Ringing, ..s[place(s, id)] },
                    );
                }
                let i: usize = find_id(&self.live, entry.call_id.as_str());
                if i == self.live.len() {
                    let ghost before = self.live@;
                    let id: String = entry.call_id.clone();
                    self.live.push(id);
                    assert(ids_of(self.live@) =~= ids_of(before).push(entry.call_id@));
                }
                let ghost held = self.holding@;
                let id: String = entry.call_id.clone();
                self.holding.push(id);
                assert(ids_of(self.holding@) =~= ids_of(held).push(entry.call_id@));
                if decision == Decision::Probe {
                    self.breaker.mark_probe_dispatched(now_ms);
                }
                self.store.set_state(entry.call_id.as_str(), CallState::Ringing);
                Some(entry)
            },
            None => None,
        }
    }

    /// Dispatch every call that is due until the channels are taken or nothing is due.
    pub fn dispatch_due(&mut self, now_ms: u64) -> (r: Vec<PendingEntry>)
        requires
            old(self)@.wf(),
        ensures
            final(self)@ == old(self)@.dispatched_times(r@.len(), now_ms),
            !final(self)@.can_dispatch(now_ms),
            forall|i: nat|
                i < r@.len() ==> (#[trigger] old(self)@.dispatched_times(i, now_ms)).can_dispatch(
                    now_ms,
                ) && r@[i as int] == old(self)@.dispatched_times(i, now_ms).pending[0],
            final(self)@.wf(),
    {
        let mut out: Vec<PendingEntry> = Vec::new();
        loop
            invariant
                self@.wf(),
                self@ == old(self)@.dispatched_times(out@.len(), now_ms),
                forall|i: nat|
                    i < out@.len() ==> (#[trigger] old(self)@.dispatched_times(
                        i,
                        now_ms,
                    )).can_dispatch(now_ms) && out@[i as int] == old(self)@.dispatched_times(
                        i,
                        now_ms,
                    ).pending[0],
            ensures
                !self@.can_dispatch(now_ms),
            decreases self@.pending.len(),
        {
            match self.dispatch_next(now_ms) {
                Some(entry) => {
                    out.push(entry);
                },
                None => {
                    break;
                },
            }
        }
        out
    }

    /// When to look for a due call again, if a channel is free and a call waits: once the earliest
    /// is due and the breaker holds the queue no longer. Otherwise only a wake helps.
    pub fn next_wake(&self, now_ms: u64) -> (r: Option<u64>)
        ensures
            r == (if self@.running() < self@.cap && self@.pending.len() > 0 {
                let due = self@.pending[0].eligible_at_ms;
                match self@.breaker.decision(now_ms) {
                    Decision::Hold(until) => Some(
                        if until > due {
                            until
                        } else {
                            due
                        },
                    ),
                    _ => Some(due),
                }
            } else {
                None
            }),
    {
        if self.holding.len() >= self.cap {
            return None;
        }
        match self.queue.peek_next_eligible_at() {
            Some(due) => match self.breaker.decision(now_ms) {
                Decision::Hold(until) => Some(
                    if until > due {
                        until
                    } else {
                        due
                    },
                ),
                _ => Some(due),
            },
            None => None,
        }
    }

    /// A preflight came out: success closes the breaker, repeated failure holds the queue.
    /// Returns whether to look for due calls again.
    pub fn on_preflight(&mut self, ok: bool, now_ms: u64) -> (r: bool)
        requires
            old(self)@.wf(),
        ensures
            final(self)@ == old(self)@.preflighted(ok, now_ms),
            final(self)@.wf(),
            r == (old(self)@.breaker.threshold != 0),
    {
        self.breaker.on_result(ok, now_ms)
    }

    /// A dispatched call's task is over, however it ended: its channel is free again. Returns
    /// whether it held one.
    pub fn release(&mut self, call_id: &str) -> (r: bool)
        requires
            old(self)@.wf(),
        ensures
            final(self)@ == old(self)@.released(call_id@),
            r == (live_from(old(self)@.holding, call_id@, 0) < old(self)@.holding.len()),
            final(self)@.wf(),
    {
        self.unregister(call_id);
        let i: usize = find_id(&self.holding, call_id);
        if i < self.holding.len() {
            let ghost before = self.holding@;
            self.holding.remove(i);
            assert(ids_of(self.holding@) =~= ids_of(before).remove(i as int));
            true
        } else {
            false
        }
    }

    /// The one way in which a call ends: resolves its disposition, records it and counts it.
    pub fn finalize_call(&mut self, call_id: &str, ending: Ending, now_ms: u64) -> (r: Disposition)
        requires
            old(self)@.wf(),
        ensures
            r == ending.disposition(),
            ({
                let done = old(self)@.concluded(call_id@, r, ending.goal, ending.error, now_ms);
                final(self)@ == (Load {
                    counters: if ending.quality_aborted {
                        Counters {
                            quality_aborted: rolled(done.counters.quality_aborted, 1),
                            ..done.counters
                        }
                    } else {
                        done.counters
                    },
                    ..done
                })
            }),
            final(self)@ == old(self)@.finalized(call_id@, ending, now_ms),
            final(self)@.wf(),
    {
        let amd: Option<&str> = match &ending.amd {
            Some(a) => Some(a.as_str()),
            None => None,
        };
        let d: Disposition = resolve_disposition(ending.cancelled, amd, ending.sip, ending.shape);
        assert(text_of(amd) == opt_text(ending.amd));
        proof {
            let s = self@.records;
            lemma_change_keeps_distinct(
                s,
                call_id@,
                CallRecord {
                    state: CallState::Ended,
                    disposition: Some(d),
                    goal: ending.goal,
                    error: ending.error,
                    ended_ms: Some(now_ms),
                    ..s[place(s, call_id@)]
                },
            );
        }
        self.store.conclude(call_id, d, ending.goal, ending.error, now_ms);
        bump_disposition(&mut self.counters, d);
        if ending.quality_aborted {
            self.counters.quality_aborted = roll(self.counters.quality_aborted, 1);
        }
        d
    }
}

/// The place of an id in a list of them; its length where it does not occur.
fn find_id(ids: &Vec<String>, id: &str) -> (r: usize)
    ensures
        r == live_from(ids_of(ids@), id@, 0),
        r <= ids@.len(),
        ids_of(ids@).len() == ids@.len(),
{
    let ghost all = ids_of(ids@);
    let mut i: usize = 0;
    while i < ids.len()
        invariant
            i <= ids@.len(),
            all == ids_of(ids@),
            live_from(all, id@, 0) == live_from(all, id@, i as int),
        decreases ids@.len() - i,
    {
        assert(all[i as int] == ids@[i as int]@);
        if same(ids[i].as_str(), id) {
            return i;
        }
        i = i + 1;
    }
    i
}

/// Changing a record to one of the same id keeps the ids distinct.
proof fn lemma_change_keeps_distinct(s: Seq<CallRecord>, id: Seq<char>, with: CallRecord)
    requires
        distinct(s),
        holds(s, id) ==> with.call_id == s[place(s, id)].call_id,
    ensures
        distinct(changed(s, id, with)),
{
    crate::state::lemma_place(s, id, 0);
    if holds(s, id) {
        let t = changed(s, id, with);
        assert forall|i: int, j: int| 0 <= i < j < t.len() implies (#[trigger] t[i]).call_id@ != (
        #[trigger] t[j]).call_id@ by {
            assert(s[i].call_id@ != s[j].call_id@);
        }
    }
}

impl Load {
    /// Whether `after` is this state with one more call placed.
    pub open spec fn placed(
        self,
        after: Load,
        number: Seq<char>,
        scenario: ScenarioConfig,
        eligible_at_ms: u64,
        attempt: u32,
        now_ms: u64,
    ) -> bool {
        let id = nth_id(self.seq);
        exists|rec: CallRecord, e: PendingEntry| #[trigger]
            placed_record(rec, id, number, attempt, now_ms) && #[trigger] pending_entry(
                e,
                id,
                number,
                scenario,
                eligible_at_ms,
                attempt,
            ) && after == (Load {
                records: stored(self.records, rec),
                pending: enqueued(self.pending, e),
                counters: Counters { placed: rolled(self.counters.placed, 1), ..self.counters },
                seq: self.seq + 1,
                ..self
            })
    }

    /// Whether `after` is this state with the call queued again under its id.
    pub open spec fn requeued(
        self,
        after: Load,
        id: Seq<char>,
        number: Seq<char>,
        scenario: ScenarioConfig,
        eligible_at_ms: u64,
        attempt: u32,
    ) -> bool {
        exists|e: PendingEntry| #[trigger]
            pending_entry(e, id, number, scenario, eligible_at_ms, attempt) && after == (Load {
                records: changed(
                    self.records,
                    id,
                    CallRecord {
                        state: CallState::Queued,
                        attempt,
                        ..self.records[place(self.records, id)]
                    },
                ),
                pending: enqueued(self.pending, e),
                counters: Counters { placed: rolled(self.counters.placed, 1), ..self.counters },
                ..self
            })
    }
}

impl Engine {
    /// A call's lifecycle state changes.
    pub fn set_state(&mut self, call_id: &str, state: CallState)
        requires
            old(self)@.wf(),
        ensures
            final(self)@ == (Load {
                records: changed(
                    old(self)@.records,
                    call_id@,
                    CallRecord {
                        state,
                        ..old(self)@.records[place(old(self)@.records, call_id@)]
                    },
                ),
                ..old(self)@
            }),
            final(self)@.wf(),
    {
        proof {
            let s = self@.records;
            lemma_change_keeps_distinct(
                s,
                call_id@,
                CallRecord { state, ..s[place(s, call_id@)] },
            );
        }
        self.store.set_state(call_id, state);
    }

    /// A turn of the conversation is added to the running transcript.
    pub fn append_transcript(&mut self, call_id: &str, entry: TranscriptEntry)
        requires
            old(self)@.wf(),
        ensures
            ({
                let s = old(self)@.records;
                let i = place(s, call_id@);
                let t = final(self)@.records;
                &&& final(self)@ == (Load { records: t, ..old(self)@ })
                &&& if holds(s, call_id@) {
                    &&& t == s.update(i, t[i])
                    &&& t[i].transcript@ == s[i].transcript@.push(entry)
                    &&& t[i] == (CallRecord { transcript: t[i].transcript, ..s[i] })
                } else {
                    t == s
                }
            }),
            final(self)@.wf(),
    {
        let ghost s = self@.records;
        self.store.append_transcript(call_id, entry);
        proof {
            if holds(s, call_id@) {
                lemma_change_keeps_distinct(s, call_id@, self@.records[place(s, call_id@)]);
            }
        }
    }

    /// A detected emotion is added to the record.
    pub fn append_affect(&mut self, call_id: &str, entry: AffectEntry)
        requires
            old(self)@.wf(),
        ensures
            ({
                let s = old(self)@.records;
                let i = place(s, call_id@);
                let t = final(self)@.records;
                &&& final(self)@ == (Load { records: t, ..old(self)@ })
                &&& if holds(s, call_id@) {
                    &&& t == s.update(i, t[i])
                    &&& t[i].affect@ == s[i].affect@.push(entry)
                    &&& t[i] == (CallRecord { affect: t[i].affect, ..s[i] })
                } else {
                    t == s
                }
            }),
            final(self)@.wf(),
    {
        let ghost s = self@.records;
        self.store.append_affect(call_id, entry);
        proof {
            if holds(s, call_id@) {
                lemma_change_keeps_distinct(s, call_id@, self@.records[place(s, call_id@)]);
            }
        }
    }

    /// The session's own transcript replaces the running one.
    pub fn set_transcript(&mut self, call_id: &str, transcript: Vec<TranscriptEntry>)
        requires
            old(self)@.wf(),
        ensures
            final(self)@ == (Load {
                records: changed(
                    old(self)@.records,
                    call_id@,
                    CallRecord {
                        transcript,
                        ..old(self)@.records[place(old(self)@.records, call_id@)]
                    },
                ),
                ..old(self)@
            }),
            final(self)@.wf(),
    {
        proof {
            let s = self@.records;
            lemma_change_keeps_distinct(
                s,
                call_id@,
                CallRecord { transcript, ..s[place(s, call_id@)] },
            );
        }
        self.store.set_transcript(call_id, transcript);
    }

    /// The quality measured so far; `over` adds it to the lifetime totals.
    pub fn set_quality(&mut self, call_id: &str, q: CallQuality, over: bool)
        requires
            old(self)@.wf(),
        ensures
            final(self)@ == (Load {
                records: changed(
                    old(self)@.records,
                    call_id@,
                    CallRecord {
                        quality: q,
                        ..old(self)@.records[place(old(self)@.records, call_id@)]
                    },
                ),
                counters: if over {
                    old(self)@.counters.with_quality(q)
                } else {
                    old(self)@.counters
                },
                ..old(self)@
            }),
            final(self)@.wf(),
    {
        proof {
            let s = self@.records;
            lemma_change_keeps_distinct(
                s,
                call_id@,
                CallRecord { quality: q, ..s[place(s, call_id@)] },
            );
        }
        self.store.set_quality(call_id, q);
        if over {
            self.counters.underruns = roll(self.counters.underruns, q.underruns);
            self.counters.starved_ms = roll(self.counters.starved_ms, q.starved_ms);
            self.counters.uplink_received = roll(self.counters.uplink_received, q.uplink_received);
            self.counters.uplink_lost = roll(self.counters.uplink_lost, q.uplink_lost);
        }
    }
}

/// Two calls never have the same id.
pub proof fn ids_are_distinct(m: int, n: int)
    requires
        0 <= m < n,
    ensures
        nth_id(m) != nth_id(n),
{
    if nth_id(m) == nth_id(n) {
        let k = "call-"@.len() as int;
        assert(nth_id(m).subrange(k, nth_id(m).len() as int) =~= decimal(m));
        assert(nth_id(n).subrange(k, nth_id(n).len() as int) =~= decimal(n));
        decimal_reads_back(m, n);
        decimal_reads_back(n, n);
    }
}

/// A placed call is queued and known under its id, and takes no channel yet.
pub proof fn placed_call_is_queued(
    before: Load,
    after: Load,
    number: Seq<char>,
    scenario: ScenarioConfig,
    eligible_at_ms: u64,
    attempt: u32,
    now_ms: u64,
)
    requires
        before.wf(),
        before.placed(after, number, scenario, eligible_at_ms, attempt, now_ms),
    ensures
        ({
            let id = nth_id(before.seq);
            &&& spot(after.pending, id) < after.pending.len()
            &&& lookup(after.records, id) is Some
            &&& lookup(after.records, id)->Some_0.state == CallState::Queued
            &&& lookup(after.records, id)->Some_0.number@ == number
            &&& after.holding == before.holding
            &&& after.live == before.live
        }),
{
    let id = nth_id(before.seq);
    let (rec, e) = choose|rec: CallRecord, e: PendingEntry| #[trigger]
        placed_record(rec, id, number, attempt, now_ms) && #[trigger] pending_entry(
            e,
            id,
            number,
            scenario,
            eligible_at_ms,
            attempt,
        ) && after == (Load {
            records: stored(before.records, rec),
            pending: enqueued(before.pending, e),
            counters: Counters { placed: rolled(before.counters.placed, 1), ..before.counters },
            seq: before.seq + 1,
            ..before
        });
    stored_record_is_found(before.records, rec, id);
    enqueued_call_is_pending(before.pending, e);
}

/// A busy retry keeps the call's id: it is queued again, no record is added, and no new id is
/// taken.
pub proof fn requeue_keeps_the_id(
    before: Load,
    after: Load,
    id: Seq<char>,
    number: Seq<char>,
    scenario: ScenarioConfig,
    eligible_at_ms: u64,
    attempt: u32,
)
    requires
        before.wf(),
        holds(before.records, id),
        before.requeued(after, id, number, scenario, eligible_at_ms, attempt),
    ensures
        after.seq == before.seq,
        after.records.len() == before.records.len(),
        lookup(after.records, id) is Some,
        lookup(after.records, id)->Some_0.state == CallState::Queued,
        lookup(after.records, id)->Some_0.attempt == attempt,
        spot(after.pending, id) < after.pending.len(),
{
    let e = choose|e: PendingEntry| #[trigger]
        pending_entry(e, id, number, scenario, eligible_at_ms, attempt) && after == (Load {
            records: changed(
                before.records,
                id,
                CallRecord {
                    state: CallState::Queued,
                    attempt,
                    ..before.records[place(before.records, id)]
                },
            ),
            pending: enqueued(before.pending, e),
            counters: Counters { placed: rolled(before.counters.placed, 1), ..before.counters },
            ..before
        });
    crate::state::lemma_place(before.records, id, 0);
    change_touches_one_record(
        before.records,
        id,
        CallRecord {
            state: CallState::Queued,
            attempt,
            ..before.records[place(before.records, id)]
        },
        id,
    );
    enqueued_call_is_pending(before.pending, e);
}

/// Dispatching takes a call out of the queue into a free channel, where it can be told to end, and
/// never takes more channels than there are.
pub proof fn dispatch_takes_one_channel(s: Load, now_ms: u64)
    requires
        s.wf(),
        s.can_dispatch(now_ms),
    ensures
        s.dispatched(now_ms).running() == s.running() + 1,
        s.dispatched(now_ms).running() <= s.cap,
        s.dispatched(now_ms).pending.len() == s.pending.len() - 1,
        names(s.dispatched(now_ms).live, s.pending[0].call_id@),
        s.pending[0].eligible_at_ms <= now_ms,
        holds(s.records, s.pending[0].call_id@) ==> lookup(
            s.dispatched(now_ms).records,
            s.pending[0].call_id@,
        )->Some_0.state == CallState::Ringing,
{
    let id = s.pending[0].call_id@;
    let live = s.dispatched(now_ms).live;
    lemma_live(s.live, id, 0);
    if live_from(s.live, id, 0) < s.live.len() {
        assert(live[live_from(s.live, id, 0)] == id);
    } else {
        assert(live[s.live.len() as int] == id);
    }
    crate::state::lemma_place(s.records, id, 0);
    if holds(s.records, id) {
        change_touches_one_record(
            s.records,
            id,
            CallRecord { state: CallState::Ringing, ..s.records[place(s.records, id)] },
            id,
        );
    }
}

pub(crate) proof fn lemma_live(live: Seq<Seq<char>>, id: Seq<char>, i: int)
    requires
        0 <= i <= live.len(),
    ensures
        i <= live_from(live, id, i) <= live.len(),
        live_from(live, id, i) < live.len() ==> live[live_from(live, id, i)] == id,
        forall|j: int| i <= j < live_from(live, id, i) ==> #[trigger] live[j] != id,
    decreases live.len() - i,
{
    if i < live.len() && live[i] != id {
        lemma_live(live, id, i + 1);
    }
}

/// A call that ends is recorded as ended with its disposition, and counted under it exactly once.
pub proof fn ended_call_is_counted_once(
    s: Load,
    id: Seq<char>,
    d: Disposition,
    goal: Option<Value>,
    error: Option<String>,
    now_ms: u64,
    other: Disposition,
)
    requires
        s.wf(),
        holds(s.records, id),
    ensures
        ({
            let t = s.concluded(id, d, goal, error, now_ms);
            &&& lookup(t.records, id) is Some
            &&& lookup(t.records, id)->Some_0.state == CallState::Ended
            &&& lookup(t.records, id)->Some_0.disposition == Some(d)
            &&& lookup(t.records, id)->Some_0.ended_ms == Some(now_ms)
            &&& t.counters.of(d) == rolled(s.counters.of(d), 1)
            &&& other != d ==> t.counters.of(other) == s.counters.of(other)
        }),
{
    bump_counts_one_kind(s.counters, d, other);
    crate::state::lemma_place(s.records, id, 0);
    change_touches_one_record(
        s.records,
        id,
        CallRecord {
            state: CallState::Ended,
            disposition: Some(d),
            goal,
            error,
            ended_ms: Some(now_ms),
            ..s.records[place(s.records, id)]
        },
        id,
    );
}

} // verus!
