//! One dispatched call, from the preflight to its end.
//!
//! [`RunCall`] takes what happened on the way (a preflight, an answer, an event of the session or
//! of the line, a quality tick, a deadline) and says what to do next. Dialing, the session and the
//! bridge themselves are elsewhere.
use std::collections::VecDeque;

use serde_json::Value;
use vstd::arithmetic::power2::{
    lemma2_to64, lemma_pow2_strictly_increases, lemma_pow2_unfold, pow2,
};
use vstd::prelude::*;
use vstd::string::StringExecFns;

use super::{
    downlink_breach, grown, merge_quality, merged, no_shape, opt_text, should_abort,
    should_retry_busy, unanswered_shape, window_loss, window_loss_pct, Ending, Silence,
    WrapPhase, WrapUpState, DOWNLINK_BREACH_TICKS, UPLINK_WINDOW_TICKS,
};
use crate::bridge::BridgeEnd;
use crate::config::{NetCheckConfig, QualityConfig, RetryConfig, ServerConfig};
use crate::error::joined;
use crate::gemini_live::{AffectEntry, EndedBy, Event, TranscriptEntry};
use crate::json::{as_text, contents, member, Json};
use crate::net_check::{passes, verdict, NetworkHealth, Verdict};
use crate::single::Single;
use crate::sip::{
    CallOutcome, DownlinkQuality, NegotiatedCodec, SipEvent, TermReason, UplinkQuality,
};
use crate::state::{
    disposition_of, resolve_disposition, text_of, CallQuality, CallShape, Disposition,
};
use crate::text::{decimal, to_decimal};

verus! {

/// The settings that a running call goes by.
#[derive(Clone, Copy, Debug, PartialEq, Eq, Structural)]
pub struct Limits {
    pub net_check: NetCheckConfig,
    pub quality: QualityConfig,
    pub retry: RetryConfig,
    pub dead_air_nudge_ms: u64,
    pub wrap_up_grace_ms: u64,
}

impl Limits {
    /// The settings of a server.
    pub open spec fn of(server: ServerConfig) -> Limits {
        Limits {
            net_check: server.net_check,
            quality: server.quality,
            retry: server.retry,
            dead_air_nudge_ms: server.dead_air_nudge_ms,
            wrap_up_grace_ms: server.wrap_up_grace_ms,
        }
    }

    /// Whether silence on the line is watched; either time of zero disables it.
    pub open spec fn wraps_up(self) -> bool {
        self.dead_air_nudge_ms > 0 && self.wrap_up_grace_ms > 0
    }
}

/// How far a call has come.
#[derive(Clone, Copy, Debug, PartialEq, Eq, Structural)]
pub enum Phase {
    /// The network is being probed.
    Preflight,
    /// The number is being dialed.
    Dialing,
    /// The callee's phone rings.
    Ringing,
    /// Answered; the session is being taken over.
    Answered,
    /// The two sides talk.
    Live,
    /// Over.
    Over,
}

/// Why the conversation stopped.
#[derive(Clone, Copy, Debug, PartialEq, Eq, Structural)]
pub enum LoopEnd {
    Completed,
    HungUp,
    Failed,
    Cancelled,
}

/// Which quality limit aborted a call.
#[derive(Clone, Copy, Debug, PartialEq, Eq, Structural)]
pub enum Abort {
    Underruns { underruns: u64, starved_ms: u64 },
    UplinkLoss(Single),
    DownlinkLoss(Single),
}

impl Abort {
    /// The abort's message; `pct` is the loss as text.
    pub open spec fn message(self, pct: Seq<char>) -> Seq<char> {
        match self {
            Abort::Underruns { underruns, starved_ms } => "aborted: audio quality degraded ("@
                + decimal(underruns as int) + " underruns, "@ + decimal(starved_ms as int)
                + " ms silence)"@,
            Abort::UplinkLoss(_) => "aborted: uplink RTP loss "@ + pct + "% over ~8s window"@,
            Abort::DownlinkLoss(_) => "aborted: downlink RTP loss "@ + pct
                + "% reported by callee over ~5s"@,
        }
    }

    /// The abort's message; `pct` is the loss as text.
    pub fn to_string(&self, pct: &str) -> (r: String)
        ensures
            r@ == self.message(pct@),
    {
        match self {
            Abort::Underruns { underruns, starved_ms } => {
                let mut s: String = "aborted: audio quality degraded (".to_owned();
                s.append(to_decimal(*underruns).as_str());
                s.append(" underruns, ");
                s.append(to_decimal(*starved_ms).as_str());
                s.append(" ms silence)");
                s
            },
            Abort::UplinkLoss(_) => {
                let mut s: String = joined("aborted: uplink RTP loss ", pct);
                s.append("% over ~8s window");
                s
            },
            Abort::DownlinkLoss(_) => {
                let mut s: String = joined("aborted: downlink RTP loss ", pct);
                s.append("% reported by callee over ~5s");
                s
            },
        }
    }

    /// The loss that the message is to name, for a limit on loss.
    pub fn loss(&self) -> (r: Option<Single>)
        ensures
            r == (match *self {
                Abort::Underruns { .. } => None,
                Abort::UplinkLoss(p) => Some(p),
                Abort::DownlinkLoss(p) => Some(p),
            }),
    {
        match self {
            Abort::Underruns { .. } => None,
            Abort::UplinkLoss(p) => Some(*p),
            Abort::DownlinkLoss(p) => Some(*p),
        }
    }
}

/// What came of the wait for an answer.
#[derive(Debug)]
pub enum RingOutcome {
    /// The call was answered, with this codec.
    Answered(NegotiatedCodec),
    /// It ended before an answer.
    Terminated(TermReason),
    /// The line went away before an answer.
    Closed,
}

/// What an event of a ringing line says; `None` is the end of the events.
pub fn ring_outcome(ev: Option<SipEvent>) -> (r: RingOutcome)
    ensures
        match ev {
            Some(SipEvent::Answered { codec }) => r == RingOutcome::Answered(codec),
            Some(SipEvent::Terminated(reason)) => r == RingOutcome::Terminated(reason),
            None => r == RingOutcome::Closed,
        },
{
    match ev {
        Some(SipEvent::Answered { codec }) => RingOutcome::Answered(codec),
        Some(SipEvent::Terminated(reason)) => RingOutcome::Terminated(reason),
        None => RingOutcome::Closed,
    }
}

/// What a session is fed every 20 ms while the line rings, so that it stays alive: 20 ms of silence
/// at 16 kHz.
pub fn keepalive_frame() -> (r: Vec<i16>)
    ensures
        r@ == Seq::new(320, |i: int| 0i16),
{
    let r: Vec<i16> = vec![0i16; 320];
    assert(r@ =~= Seq::new(320, |i: int| 0i16));
    r
}

/// What to do after the wait for an answer.
#[derive(Debug)]
pub enum RingStep {
    /// Bridge the call with this codec.
    Bridge(NegotiatedCodec),
    /// Queue the call again under its id.
    Retry { eligible_at_ms: u64, attempt: u32 },
    /// The call is over.
    End(Ending),
}

/// What to do after a preflight.
#[derive(Debug)]
pub enum PreflightStep {
    /// Dial.
    Dial,
    /// Probe again after this delay.
    Retry { delay_ms: u64 },
    /// The call is refused.
    End(Ending),
}

/// How long to wait before the next preflight after `attempt` of them failed; `None` once there
/// were as many as configured, which is at least one. The delay doubles from one attempt to the
/// next and is held to the greatest time.
pub open spec fn preflight_delay(cfg: NetCheckConfig, attempt: int) -> Option<u64> {
    if attempt < cfg.retry_max {
        let delay = cfg.retry_backoff_base_ms * pow2((attempt - 1) as nat);
        Some(
            if delay > u64::MAX {
                u64::MAX
            } else {
                delay as u64
            },
        )
    } else {
        None
    }
}

/// The delay before the next preflight after `attempt` of them failed.
pub fn preflight_backoff(attempt: u32, cfg: &NetCheckConfig) -> (r: Option<u64>)
    requires
        attempt >= 1,
    ensures
        r == preflight_delay(*cfg, attempt as int),
{
    if attempt >= cfg.retry_max {
        return None;
    }
    let base: u64 = cfg.retry_backoff_base_ms;
    if base == 0 {
        assert(0 * pow2((attempt - 1) as nat) == 0);
        return Some(0);
    }
    let mut delay: u64 = base;
    let mut i: u32 = 1;
    proof {
        lemma2_to64();
        assert(base * pow2(0) == base);
    }
    while i < attempt
        invariant
            1 <= i <= attempt,
            attempt < cfg.retry_max,
            base == cfg.retry_backoff_base_ms,
            base > 0,
            delay == base * pow2((i - 1) as nat),
        decreases attempt - i,
    {
        proof {
            let p = pow2((i - 1) as nat) as int;
            lemma_pow2_unfold(i as nat);
            assert(base * (2 * p) == 2 * (base * p)) by (nonlinear_arith);
        }
        if delay > u64::MAX / 2 {
            proof {
                if i < attempt - 1 {
                    lemma_pow2_strictly_increases(i as nat, (attempt - 1) as nat);
                }
                let p = pow2(i as nat) as int;
                let q = pow2((attempt - 1) as nat) as int;
                assert(base * p <= base * q) by (nonlinear_arith)
                    requires
                        p <= q,
                        base > 0,
                ;
            }
            return Some(u64::MAX);
        }
        delay = delay * 2;
        i = i + 1;
    }
    Some(delay)
}

/// What the conversation asks for, in order.
#[derive(Debug)]
pub enum CallAction {
    /// Stop the model's audio from reaching the phone.
    Mute,
    /// Let it through again.
    Unmute,
    /// Hand the model the cue to wrap up.
    SendEndCallCue,
    /// Hand the model the cue to submit what it has, as the callee is gone.
    SendHarvestCue,
    AppendTranscript(TranscriptEntry),
    AppendAffect(AffectEntry),
}

/// A quality tick: what the call measured, and what to do.
#[derive(Debug)]
pub struct Tick {
    pub quality: CallQuality,
    pub actions: Vec<CallAction>,
}

/// The course of a call.
pub struct Course {
    pub limits: Limits,
    pub attempt: u32,
    /// Preflights that came out so far.
    pub probes: int,
    pub phase: Phase,
    /// When the callee hung up, while the model may still submit its result.
    pub harvest: Option<u64>,
    pub answered_at_ms: u64,
    pub silence: Silence,
    /// Cumulative `(received, lost)` of the uplink at the last ticks, oldest first.
    pub window: Seq<(u64, u64)>,
    /// Consecutive ticks with a downlink breach.
    pub streak: int,
    pub abort: Option<Abort>,
    pub goal: Option<Json>,
    pub end: Option<LoopEnd>,
    /// Events of the session still come.
    pub listening: bool,
}

/// The last eight of a growing window.
pub open spec fn slid(window: Seq<(u64, u64)>, at: (u64, u64)) -> Seq<(u64, u64)> {
    let w = window.push(at);
    if w.len() > UPLINK_WINDOW_TICKS {
        w.drop_first()
    } else {
        w
    }
}

/// The loss over a full window.
pub open spec fn full_window_loss(window: Seq<(u64, u64)>) -> Option<Single> {
    if window.len() >= UPLINK_WINDOW_TICKS {
        window_loss(window[0], window.last())
    } else {
        None
    }
}

/// The dial outcome of a call that ended before an answer; hanging up counts as no answer.
pub open spec fn dial_outcome(reason: TermReason) -> CallOutcome {
    match reason {
        TermReason::Failed { outcome, detail } => outcome,
        _ => CallOutcome::NoAnswer,
    }
}

/// What is said of a call that ended before an answer.
pub open spec fn dial_detail(reason: TermReason) -> Seq<char> {
    match reason {
        TermReason::Failed { outcome, detail } => detail@,
        TermReason::RemoteHangup => "RemoteHangup"@,
        TermReason::LocalHangup => "LocalHangup"@,
    }
}

/// Whether `e` is the end of a call that was never answered.
pub open spec fn unanswered_end(e: Ending, sip: Option<CallOutcome>, error: Seq<char>) -> bool {
    &&& !e.cancelled
    &&& e.amd is None
    &&& e.sip == sip
    &&& e.shape == no_shape()
    &&& e.goal is None
    &&& e.error is Some
    &&& e.error->Some_0@ == error
    &&& !e.quality_aborted
}

/// What the model reported of the far end in the goal.
pub open spec fn amd_of(goal: Option<Json>) -> Option<Seq<char>> {
    match goal {
        Some(Json::Object(m)) => if m.contains_key("amd"@) && m["amd"@] is Text {
            Some(m["amd"@]->Text_0)
        } else {
            None
        },
        _ => None,
    }
}

/// The tree of an optional value.
pub open spec fn opt_json(v: Option<Value>) -> Option<Json> {
    match v {
        Some(x) => Some(contents(x)),
        None => None,
    }
}

impl Course {
    pub open spec fn wf(self) -> bool {
        &&& self.window.len() <= UPLINK_WINDOW_TICKS
        &&& 0 <= self.probes
        &&& 0 <= self.streak
        &&& self.end is None ==> self.streak < DOWNLINK_BREACH_TICKS
        &&& self.silence.nudge_ms == self.limits.dead_air_nudge_ms
        &&& self.silence.grace_ms == self.limits.wrap_up_grace_ms
    }

    pub open spec fn fresh(limits: Limits, attempt: u32) -> Course {
        Course {
            limits,
            attempt,
            probes: 0,
            phase: if limits.net_check.enabled {
                Phase::Preflight
            } else {
                Phase::Dialing
            },
            harvest: None,
            answered_at_ms: 0,
            silence: Silence {
                nudge_ms: limits.dead_air_nudge_ms,
                grace_ms: limits.wrap_up_grace_ms,
                last_activity_ms: 0,
                nudged_at_ms: None,
            },
            window: Seq::empty(),
            streak: 0,
            abort: None,
            goal: None,
            end: None,
            listening: true,
        }
    }

    pub open spec fn at(self, phase: Phase) -> Course {
        Course { phase, ..self }
    }

    /// Whether a busy line is dialed again.
    pub open spec fn retries(self, reason: TermReason) -> bool {
        dial_outcome(reason) == CallOutcome::Busy && self.attempt
            < self.limits.retry.busy_max_attempts
    }

    pub open spec fn ending(self, end: LoopEnd) -> Course {
        Course { end: Some(end), ..self }
    }

    /// Whether a hang-up leaves the model time to submit its result: there is a grace for it, and
    /// the session still reports.
    pub open spec fn harvests(self) -> bool {
        self.limits.wrap_up_grace_ms > 0 && self.listening
    }

    /// The callee hung up.
    pub open spec fn hung_up(self, now_ms: u64) -> Course {
        if self.harvest is Some {
            self
        } else if self.harvests() {
            Course { harvest: Some(now_ms), ..self }
        } else {
            self.ending(LoopEnd::HungUp)
        }
    }

    /// What the hang-up asks for: the first one hands the model its cue.
    pub open spec fn hang_up_actions(self) -> Seq<CallAction> {
        if self.harvest is None && self.harvests() {
            seq![CallAction::SendHarvestCue]
        } else {
            Seq::empty()
        }
    }

    /// The line reported something, or (`None`) ended.
    pub open spec fn after_sip(self, ev: Option<SipEvent>, now_ms: u64) -> Course {
        if ev is Some && ev->Some_0 is Answered {
            self
        } else {
            self.hung_up(now_ms)
        }
    }

    /// The bridge stopped, or (`None`) died.
    pub open spec fn after_bridge(self, end: Option<BridgeEnd>, now_ms: u64) -> Course {
        if end == Some(BridgeEnd::PhoneClosed) {
            self.hung_up(now_ms)
        } else if end == Some(BridgeEnd::Cancelled) || self.harvest is Some {
            self.ending(LoopEnd::HungUp)
        } else {
            self.ending(LoopEnd::Failed)
        }
    }

    /// A preflight came out, for better or worse: a call goes on over a good network, is refused once
    /// there were enough bad ones, and waits for the next one otherwise.
    pub open spec fn after_preflight(self, usable: bool) -> Course {
        let probed = Course { probes: self.probes + 1, ..self };
        if usable {
            probed.at(Phase::Dialing)
        } else if probed.probes < self.limits.net_check.retry_max {
            probed
        } else {
            probed.at(Phase::Over)
        }
    }

    /// The session was taken over, or could not be.
    pub open spec fn after_session(self, taken: bool, now_ms: u64) -> Course {
        if taken {
            self.at(Phase::Live).active(now_ms)
        } else {
            self.at(Phase::Over)
        }
    }

    /// The wait for an answer came out.
    pub open spec fn after_ring(self, outcome: RingOutcome, now_ms: u64) -> Course {
        match outcome {
            RingOutcome::Answered(_) => Course {
                answered_at_ms: now_ms,
                phase: Phase::Answered,
                ..self
            },
            _ => self.at(Phase::Over),
        }
    }

    /// Whether the model's closing words are to play out before the line is hung up.
    pub open spec fn plays_out(self, downlink_active: bool, waited_ms: u64) -> bool {
        self.goal is Some && self.harvest is None && downlink_active && waited_ms < 8000
    }

    pub open spec fn aborting(self, abort: Abort) -> Course {
        Course { abort: Some(abort), end: Some(LoopEnd::Failed), ..self }
    }

    /// Somebody spoke.
    pub open spec fn active(self, now_ms: u64) -> Course {
        Course { silence: self.silence.active(now_ms), ..self }
    }

    pub open spec fn after_event(self, ev: Option<Event>, now_ms: u64) -> Course {
        match ev {
            Some(Event::Transcript { role, text, final_ }) => self.active(now_ms),
            Some(Event::TurnComplete) => self.active(now_ms),
            Some(Event::EndCall { goal }) => Course {
                goal: Some(contents(goal)),
                end: Some(LoopEnd::Completed),
                ..self
            },
            Some(_) => self,
            None => if self.harvest is Some {
                (Course { listening: false, ..self }).ending(LoopEnd::HungUp)
            } else {
                Course { listening: false, ..self }
            },
        }
    }

    /// What lifts a nudge.
    pub open spec fn unmuting(self) -> Seq<CallAction> {
        if self.silence.nudged_at_ms is Some {
            seq![CallAction::Unmute]
        } else {
            Seq::empty()
        }
    }

    pub open spec fn event_actions(self, ev: Option<Event>, now_ms: u64) -> Seq<CallAction> {
        match ev {
            Some(Event::Transcript { role, text, final_ }) => if final_ {
                self.unmuting().push(
                    CallAction::AppendTranscript(TranscriptEntry { role, text, ts_ms: now_ms }),
                )
            } else {
                self.unmuting()
            },
            Some(Event::TurnComplete) => self.unmuting(),
            Some(Event::Affect { role, label }) => seq![
                CallAction::AppendAffect(AffectEntry { role, label, ts_ms: now_ms }),
            ],
            _ => Seq::empty(),
        }
    }

    /// After a quality tick: the limits are looked at in turn (underruns, uplink loss, downlink
    /// loss), then the silence on the line. Once the callee is gone only the grace counts.
    pub open spec fn ticked(self, q: CallQuality, d: DownlinkQuality, now_ms: u64) -> Course {
        if self.harvest is Some {
            if grown(self.harvest->Some_0, now_ms) >= self.limits.wrap_up_grace_ms {
                self.ending(LoopEnd::HungUp)
            } else {
                self
            }
        } else if self.limits.quality.abort_underruns > 0 && q.underruns
            >= self.limits.quality.abort_underruns {
            self.aborting(Abort::Underruns { underruns: q.underruns, starved_ms: q.starved_ms })
        } else {
            self.slid(q).after_losses(d, now_ms)
        }
    }

    pub open spec fn slid(self, q: CallQuality) -> Course {
        Course { window: slid(self.window, (q.uplink_received, q.uplink_lost)), ..self }
    }

    /// The loss over the window, where it is over the limit.
    pub open spec fn uplink_over(self) -> Option<Single> {
        match full_window_loss(self.window) {
            Some(p) => if p.above(self.limits.net_check.uplink_loss_abort_pct) {
                Some(p)
            } else {
                None
            },
            None => None,
        }
    }

    pub open spec fn breached(self, d: DownlinkQuality) -> bool {
        d.present && d.loss_pct.above(self.limits.net_check.downlink_loss_abort_pct)
    }

    pub open spec fn after_losses(self, d: DownlinkQuality, now_ms: u64) -> Course {
        if self.uplink_over() is Some {
            self.aborting(Abort::UplinkLoss(self.uplink_over()->Some_0))
        } else if self.breached(d) {
            let c = Course { streak: self.streak + 1, ..self };
            if c.streak >= DOWNLINK_BREACH_TICKS {
                c.aborting(Abort::DownlinkLoss(d.loss_pct))
            } else {
                c.watched(now_ms)
            }
        } else {
            (Course { streak: 0, ..self }).watched(now_ms)
        }
    }

    /// The silence on the line is looked at.
    pub open spec fn watched(self, now_ms: u64) -> Course {
        if self.limits.wraps_up() {
            let c = Course { silence: self.silence.watched(now_ms), ..self };
            if self.silence.phase(now_ms) == WrapPhase::Finalize {
                c.ending(LoopEnd::Completed)
            } else {
                c
            }
        } else {
            self
        }
    }

    /// A tick that does not end the call and finds the silence too long nudges the model.
    pub open spec fn tick_actions(self, q: CallQuality, d: DownlinkQuality, now_ms: u64) -> Seq<
        CallAction,
    > {
        if self.harvest is None && self.ticked(q, d, now_ms).end is None && self.limits.wraps_up() && self.silence.phase(
            now_ms,
        ) == WrapPhase::Nudge {
            seq![CallAction::Mute, CallAction::SendEndCallCue]
        } else {
            Seq::empty()
        }
    }

    /// The goal that counts: the one that came over the line, else the session's own.
    pub open spec fn final_goal(self, session: Option<Json>) -> Option<Json> {
        if self.goal is Some {
            self.goal
        } else {
            session
        }
    }

    /// What an answered call looked like.
    pub open spec fn shape(self, said: usize, by: EndedBy, now_ms: u64) -> CallShape {
        CallShape {
            answered: true,
            duration_ms: grown(self.answered_at_ms, now_ms) as u64,
            transcript_len: said,
            ended_by: by,
        }
    }

    /// How the conversation turned out.
    pub open spec fn outcome(
        self,
        session_goal: Option<Json>,
        said: usize,
        by: EndedBy,
        now_ms: u64,
    ) -> Disposition {
        disposition_of(
            self.end == Some(LoopEnd::Cancelled),
            amd_of(self.final_goal(session_goal)),
            None,
            self.shape(said, by, now_ms),
        )
    }
}

/// Drives one call.
pub struct RunCall {
    limits: Limits,
    attempt: u32,
    probes: u32,
    phase: Phase,
    harvest: Option<u64>,
    answered_at_ms: u64,
    wrap_up: WrapUpState,
    window: VecDeque<(u64, u64)>,
    streak: u32,
    abort: Option<Abort>,
    goal: Option<Value>,
    end: Option<LoopEnd>,
    listening: bool,
}

impl View for RunCall {
    type V = Course;

    closed spec fn view(&self) -> Course {
        Course {
            limits: self.limits,
            attempt: self.attempt,
            probes: self.probes as int,
            phase: self.phase,
            harvest: self.harvest,
            answered_at_ms: self.answered_at_ms,
            silence: self.wrap_up@,
            window: self.window@,
            streak: self.streak as int,
            abort: self.abort,
            goal: opt_json(self.goal),
            end: self.end,
            listening: self.listening,
        }
    }
}

fn failed_before_answer(sip: Option<CallOutcome>, error: String) -> (r: Ending)
    ensures
        unanswered_end(r, sip, error@),
{
    Ending {
        cancelled: false,
        amd: None,
        sip,
        shape: unanswered_shape(),
        goal: None,
        error: Some(error),
        quality_aborted: false,
    }
}

impl RunCall {
    /// A call that was just dispatched. It starts with the preflight, unless that is off.
    pub fn new(server: &ServerConfig, attempt: u32) -> (r: Self)
        ensures
            r@ == Course::fresh(Limits::of(*server), attempt),
            r@.wf(),
    {
        let limits = Limits {
            net_check: server.net_check,
            quality: server.quality,
            retry: server.retry,
            dead_air_nudge_ms: server.dead_air_nudge_ms,
            wrap_up_grace_ms: server.wrap_up_grace_ms,
        };
        let r = RunCall {
            limits,
            attempt,
            probes: 0,
            phase: if server.net_check.enabled {
                Phase::Preflight
            } else {
                Phase::Dialing
            },
            harvest: None,
            answered_at_ms: 0,
            wrap_up: WrapUpState::new(server.dead_air_nudge_ms, server.wrap_up_grace_ms),
            window: VecDeque::new(),
            streak: 0,
            abort: None,
            goal: None,
            end: None,
            listening: true,
        };
        assert(r@.window =~= Seq::empty());
        r
    }

    /// How far the call has come.
    pub fn phase(&self) -> (r: Phase)
        ensures
            r == self@.phase,
    {
        self.phase
    }

    /// Why the conversation stopped, once it has.
    pub fn ended(&self) -> (r: Option<LoopEnd>)
        ensures
            r == self@.end,
    {
        self.end
    }

    /// Whether events of the session still come.
    pub fn listening(&self) -> (r: bool)
        ensures
            r == self@.listening,
    {
        self.listening
    }

    /// Whether the callee hung up and the model may still submit its result.
    pub fn harvesting(&self) -> (r: bool)
        ensures
            r == (self@.harvest is Some),
    {
        self.harvest.is_some()
    }

    /// The quality limit that aborted the call.
    pub fn aborted(&self) -> (r: Option<Abort>)
        ensures
            r == self@.abort,
    {
        self.abort
    }

    /// A preflight came out. A bad network is probed again after a delay, as often as configured,
    /// and then refuses the call before a number is dialed. `loss` is the measured loss as text.
    pub fn on_preflight(
        &mut self,
        result: Result<NetworkHealth, String>,
        loss: &str,
    ) -> (r: PreflightStep)
        requires
            old(self)@.phase == Phase::Preflight,
            0 <= old(self)@.probes < u32::MAX,
        ensures
            ({
                let go = match result {
                    Ok(h) => passes(h, old(self)@.limits.net_check),
                    Err(_) => false,
                };
                let probed = Course { probes: old(self)@.probes + 1, ..old(self)@ };
                match preflight_delay(probed.limits.net_check, probed.probes) {
                    _ if go => r == PreflightStep::Dial && final(self)@ == probed.at(
                        Phase::Dialing,
                    ),
                    Some(delay_ms) => r == (PreflightStep::Retry { delay_ms }) && final(self)@
                        == probed,
                    None => r is End && unanswered_end(
                        r->End_0,
                        None,
                        match result {
                            Ok(h) => "network preflight unusable: "@ + summary_text(h, loss@),
                            Err(e) => "network preflight failed: "@ + e@,
                        },
                    ) && final(self)@ == probed.at(Phase::Over),
                }
            }),
            final(self)@ == old(self)@.after_preflight(
                result is Ok && passes(result->Ok_0, old(self)@.limits.net_check),
            ),
    {
        self.probes = self.probes + 1;
        let go: bool = match &result {
            Ok(h) => verdict(h, &self.limits.net_check) == Verdict::Usable,
            Err(_) => false,
        };
        if go {
            self.phase = Phase::Dialing;
            return PreflightStep::Dial;
        }
        if let Some(delay_ms) = preflight_backoff(self.probes, &self.limits.net_check) {
            return PreflightStep::Retry { delay_ms };
        }
        self.phase = Phase::Over;
        let error: String = match result {
            Ok(h) => {
                let summary: String = h.summary(loss);
                joined("network preflight unusable: ", summary.as_str())
            },
            Err(e) => joined("network preflight failed: ", e.as_str()),
        };
        PreflightStep::End(failed_before_answer(None, error))
    }

    /// Dialing came out: the line rings, or why it does not.
    pub fn on_invite(&mut self, result: Result<(), String>) -> (r: Option<Ending>)
        requires
            old(self)@.phase == Phase::Dialing,
        ensures
            match result {
                Ok(_) => r is None && final(self)@ == old(self)@.at(Phase::Ringing),
                Err(e) => r is Some && unanswered_end(r->Some_0, None, e@) && final(self)@
                    == old(self)@.at(Phase::Over),
            },
    {
        match result {
            Ok(_) => {
                self.phase = Phase::Ringing;
                None
            },
            Err(e) => {
                self.phase = Phase::Over;
                Some(failed_before_answer(None, e))
            },
        }
    }

    /// The wait for an answer came out. A busy line is dialed again later under the same id, as
    /// long as there are attempts left; anything else without an answer ends the call.
    pub fn on_ring(&mut self, outcome: RingOutcome, now_ms: u64) -> (r: RingStep)
        requires
            old(self)@.phase == Phase::Ringing,
            now_ms + old(self)@.limits.retry.busy_retry_interval_ms <= u64::MAX,
        ensures
            match outcome {
                RingOutcome::Answered(codec) => r == RingStep::Bridge(codec) && final(self)@ == (
                Course { answered_at_ms: now_ms, phase: Phase::Answered, ..old(self)@ }),
                RingOutcome::Terminated(reason) => final(self)@ == old(self)@.at(Phase::Over) && (
                if old(self)@.retries(reason) {
                    r == (RingStep::Retry {
                        eligible_at_ms: (now_ms
                            + old(self)@.limits.retry.busy_retry_interval_ms) as u64,
                        attempt: (old(self)@.attempt + 1) as u32,
                    })
                } else {
                    r is End && unanswered_end(
                        r->End_0,
                        Some(dial_outcome(reason)),
                        dial_detail(reason),
                    )
                }),
                RingOutcome::Closed => final(self)@ == old(self)@.at(Phase::Over) && r is End
                    && unanswered_end(r->End_0, None, "sip closed before answer"@),
            },
            final(self)@ == old(self)@.after_ring(outcome, now_ms),
    {
        match outcome {
            RingOutcome::Answered(codec) => {
                self.answered_at_ms = now_ms;
                self.phase = Phase::Answered;
                RingStep::Bridge(codec)
            },
            RingOutcome::Terminated(reason) => {
                self.phase = Phase::Over;
                let (outcome, detail): (CallOutcome, String) = match reason {
                    TermReason::Failed { outcome, detail } => (outcome, detail),
                    TermReason::RemoteHangup => (CallOutcome::NoAnswer, "RemoteHangup".to_owned()),
                    TermReason::LocalHangup => (CallOutcome::NoAnswer, "LocalHangup".to_owned()),
                };
                if outcome == CallOutcome::Busy && should_retry_busy(
                    self.attempt,
                    &self.limits.retry,
                ) {
                    RingStep::Retry {
                        eligible_at_ms: now_ms + self.limits.retry.busy_retry_interval_ms,
                        attempt: self.attempt + 1,
                    }
                } else {
                    RingStep::End(failed_before_answer(Some(outcome), detail))
                }
            },
            RingOutcome::Closed => {
                self.phase = Phase::Over;
                RingStep::End(failed_before_answer(None, "sip closed before answer".to_owned()))
            },
        }
    }

    /// The session was taken over, or could not be.
    pub fn on_session(&mut self, result: Result<(), String>, now_ms: u64) -> (r: Option<Ending>)
        requires
            old(self)@.phase == Phase::Answered,
        ensures
            match result {
                Ok(_) => r is None && final(self)@ == old(self)@.at(Phase::Live).active(now_ms),
                Err(e) => final(self)@ == old(self)@.at(Phase::Over) && r is Some && !r->Some_0.cancelled
                    && r->Some_0.amd is None && r->Some_0.sip is None && r->Some_0.shape
                    == old(self)@.shape(0, EndedBy::Error, now_ms) && r->Some_0.goal is None
                    && opt_text(r->Some_0.error) == Some("gemini connect: "@ + e@)
                    && !r->Some_0.quality_aborted,
            },
            final(self)@ == old(self)@.after_session(result is Ok, now_ms),
    {
        match result {
            Ok(_) => {
                self.phase = Phase::Live;
                self.wrap_up.on_activity(now_ms);
                None
            },
            Err(e) => {
                self.phase = Phase::Over;
                Some(
                    Ending {
                        cancelled: false,
                        amd: None,
                        sip: None,
                        shape: CallShape {
                            answered: true,
                            duration_ms: now_ms.saturating_sub(self.answered_at_ms),
                            transcript_len: 0,
                            ended_by: EndedBy::Error,
                        },
                        goal: None,
                        error: Some(joined("gemini connect: ", e.as_str())),
                        quality_aborted: false,
                    },
                )
            },
        }
    }

    /// An event of the session, or (`None`) the end of them.
    pub fn on_event(&mut self, ev: Option<Event>, now_ms: u64) -> (r: Vec<CallAction>)
        requires
            old(self)@.wf(),
            old(self)@.phase == Phase::Live,
            old(self)@.end is None,
        ensures
            r@ == old(self)@.event_actions(ev, now_ms),
            final(self)@ == old(self)@.after_event(ev, now_ms),
            final(self)@.wf(),
    {
        let mut out: Vec<CallAction> = Vec::new();
        match ev {
            Some(Event::Transcript { role, text, final_ }) => {
                if self.wrap_up.on_activity(now_ms) {
                    out.push(CallAction::Unmute);
                }
                assert(out@ =~= old(self)@.unmuting());
                if final_ {
                    out.push(
                        CallAction::AppendTranscript(TranscriptEntry { role, text, ts_ms: now_ms }),
                    );
                }
            },
            Some(Event::EndCall { goal }) => {
                self.goal = Some(goal);
                self.end = Some(LoopEnd::Completed);
            },
            Some(Event::TurnComplete) => {
                if self.wrap_up.on_activity(now_ms) {
                    out.push(CallAction::Unmute);
                }
                assert(out@ =~= old(self)@.unmuting());
            },
            Some(Event::Affect { role, label }) => {
                out.push(CallAction::AppendAffect(AffectEntry { role, label, ts_ms: now_ms }));
            },
            Some(Event::OutputAudio(_)) => {},
            Some(Event::Interrupted) => {},
            None => {
                self.listening = false;
                if self.harvest.is_some() {
                    self.end = Some(LoopEnd::HungUp);
                }
            },
        }
        assert(out@ =~= old(self)@.event_actions(ev, now_ms));
        out
    }

    /// The callee hung up.
    fn hang_up(&mut self, now_ms: u64) -> (r: Vec<CallAction>)
        ensures
            r@ == old(self)@.hang_up_actions(),
            final(self)@ == old(self)@.hung_up(now_ms),
    {
        let mut out: Vec<CallAction> = Vec::new();
        if self.harvest.is_none() {
            if self.limits.wrap_up_grace_ms > 0 && self.listening {
                self.harvest = Some(now_ms);
                out.push(CallAction::SendHarvestCue);
            } else {
                self.end = Some(LoopEnd::HungUp);
            }
        }
        assert(out@ =~= old(self)@.hang_up_actions());
        out
    }

    /// An event of the line, or (`None`) the end of them. When the line goes, the model gets a
    /// grace to submit its result, where one is configured; otherwise the call is over.
    pub fn on_sip(&mut self, ev: Option<SipEvent>, now_ms: u64) -> (r: Vec<CallAction>)
        requires
            old(self)@.phase == Phase::Live,
        ensures
            match ev {
                Some(SipEvent::Answered { codec }) => r@.len() == 0 && final(self)@ == old(self)@,
                _ => r@ == old(self)@.hang_up_actions() && final(self)@ == old(self)@.hung_up(
                    now_ms,
                ),
            },
            final(self)@ == old(self)@.after_sip(ev, now_ms),
    {
        match ev {
            Some(SipEvent::Answered { codec }) => Vec::new(),
            Some(SipEvent::Terminated(_)) => self.hang_up(now_ms),
            None => self.hang_up(now_ms),
        }
    }

    /// The bridge stopped, or (`None`) died. A phone side that closed is a hang-up; after one,
    /// nothing else of the bridge counts as a failure.
    pub fn on_bridge_end(&mut self, end: Option<BridgeEnd>, now_ms: u64) -> (r: Vec<CallAction>)
        requires
            old(self)@.phase == Phase::Live,
        ensures
            match end {
                Some(BridgeEnd::PhoneClosed) => r@ == old(self)@.hang_up_actions() && final(self)@
                    == old(self)@.hung_up(now_ms),
                Some(BridgeEnd::Cancelled) => r@.len() == 0 && final(self)@ == old(self)@.ending(
                    LoopEnd::HungUp,
                ),
                _ => r@.len() == 0 && final(self)@ == old(self)@.ending(
                    if old(self)@.harvest is Some {
                        LoopEnd::HungUp
                    } else {
                        LoopEnd::Failed
                    },
                ),
            },
            final(self)@ == old(self)@.after_bridge(end, now_ms),
    {
        match end {
            Some(BridgeEnd::PhoneClosed) => self.hang_up(now_ms),
            Some(BridgeEnd::Cancelled) => {
                self.end = Some(LoopEnd::HungUp);
                Vec::new()
            },
            _ => {
                self.end = Some(
                    if self.harvest.is_some() {
                        LoopEnd::HungUp
                    } else {
                        LoopEnd::Failed
                    },
                );
                Vec::new()
            },
        }
    }

    /// The cap on a call's duration was reached.
    pub fn on_deadline(&mut self)
        requires
            old(self)@.phase == Phase::Live,
        ensures
            final(self)@ == old(self)@.ending(LoopEnd::Completed),
    {
        self.end = Some(LoopEnd::Completed);
    }

    /// Somebody asked for the call to end.
    pub fn on_cancel(&mut self)
        requires
            old(self)@.phase == Phase::Live,
        ensures
            final(self)@ == old(self)@.ending(LoopEnd::Cancelled),
    {
        self.end = Some(LoopEnd::Cancelled);
    }

    /// The 1 s quality tick: looks at the quality limits and at the silence on the line.
    pub fn on_tick(
        &mut self,
        pacing: CallQuality,
        uplink: UplinkQuality,
        downlink: DownlinkQuality,
        now_ms: u64,
    ) -> (r: Tick)
        requires
            old(self)@.wf(),
            old(self)@.phase == Phase::Live,
            old(self)@.end is None,
            uplink.received + uplink.lost <= u64::MAX,
        ensures
            r.quality == merged(pacing, uplink, downlink),
            r.actions@ == old(self)@.tick_actions(r.quality, downlink, now_ms),
            final(self)@ == old(self)@.ticked(r.quality, downlink, now_ms),
            final(self)@.wf(),
    {
        let q: CallQuality = merge_quality(pacing, uplink, downlink);
        let mut actions: Vec<CallAction> = Vec::new();
        assert(actions@ =~= Seq::empty());
        if let Some(since) = self.harvest {
            if now_ms.saturating_sub(since) >= self.limits.wrap_up_grace_ms {
                self.end = Some(LoopEnd::HungUp);
            }
            return Tick { quality: q, actions };
        }
        if should_abort(&self.limits.quality, q.underruns) {
            self.abort = Some(
                Abort::Underruns { underruns: q.underruns, starved_ms: q.starved_ms },
            );
            self.end = Some(LoopEnd::Failed);
            return Tick { quality: q, actions };
        }
        self.window.push_back((q.uplink_received, q.uplink_lost));
        if self.window.len() > UPLINK_WINDOW_TICKS {
            self.window.pop_front();
        }
        assert(self.window@ =~= old(self)@.slid(q).window);
        if self.window.len() >= UPLINK_WINDOW_TICKS {
            let oldest: (u64, u64) = self.window[0];
            let current: (u64, u64) = self.window[self.window.len() - 1];
            if let Some(loss) = window_loss_pct(oldest, current) {
                if loss.exceeds(self.limits.net_check.uplink_loss_abort_pct) {
                    self.abort = Some(Abort::UplinkLoss(loss));
                    self.end = Some(LoopEnd::Failed);
                    return Tick { quality: q, actions };
                }
            }
        }
        assert(old(self)@.slid(q).uplink_over() is None);
        if downlink_breach(downlink, self.limits.net_check.downlink_loss_abort_pct) {
            self.streak = self.streak + 1;
            if self.streak >= DOWNLINK_BREACH_TICKS {
                self.abort = Some(Abort::DownlinkLoss(downlink.loss_pct));
                self.end = Some(LoopEnd::Failed);
                return Tick { quality: q, actions };
            }
        } else {
            self.streak = 0;
        }
        if self.limits.dead_air_nudge_ms > 0 && self.limits.wrap_up_grace_ms > 0 {
            match self.wrap_up.phase(now_ms) {
                WrapPhase::Nudge => {
                    actions.push(CallAction::Mute);
                    actions.push(CallAction::SendEndCallCue);
                    assert(actions@ =~= seq![CallAction::Mute, CallAction::SendEndCallCue]);
                },
                WrapPhase::Finalize => {
                    self.end = Some(LoopEnd::Completed);
                },
                WrapPhase::Idle => {},
            }
        }
        Tick { quality: q, actions }
    }

    /// Whether the model's closing words are to play out before the line is hung up. They are when
    /// the model ended the call and the callee is there to hear them, for as long as the downlink
    /// delivers, and eight seconds at most.
    pub fn drains(&self, downlink_active: bool, waited_ms: u64) -> (r: bool)
        ensures
            r == (self@.goal is Some && self@.harvest is None && downlink_active && waited_ms
                < 8000),
            r == self@.plays_out(downlink_active, waited_ms),
    {
        self.goal.is_some() && self.harvest.is_none() && downlink_active && waited_ms < 8000
    }

    /// The end of an answered call, from what the session left behind. Only cancelling is taken
    /// from how the conversation stopped; the rest goes by the goal and the transcript, so that a
    /// call that the model ended at the last moment still counts as completed. A quality limit's
    /// message is the error only where nothing else came of the call. `pct` is that loss as
    /// text.
    pub fn finish(
        self,
        session_goal: Option<Value>,
        said: usize,
        ended_by: EndedBy,
        pct: &str,
        now_ms: u64,
    ) -> (r: Ending)
        ensures
            ({
                let c = self@;
                let goal = opt_json(session_goal);
                let failed = c.abort is Some && c.outcome(goal, said, ended_by, now_ms)
                    == Disposition::Failed;
                &&& r.cancelled == (c.end == Some(LoopEnd::Cancelled))
                &&& opt_text(r.amd) == amd_of(c.final_goal(goal))
                &&& r.sip is None
                &&& r.shape == c.shape(said, ended_by, now_ms)
                &&& opt_json(r.goal) == c.final_goal(goal)
                &&& opt_text(r.error) == (if failed {
                    Some(c.abort->Some_0.message(pct@))
                } else {
                    None
                })
                &&& r.quality_aborted == failed
                &&& r.disposition() == c.outcome(goal, said, ended_by, now_ms)
            }),
    {
        let cancelled: bool = match self.end {
            Some(LoopEnd::Cancelled) => true,
            _ => false,
        };
        let goal: Option<Value> = match self.goal {
            Some(g) => Some(g),
            None => session_goal,
        };
        let amd: Option<String> = match &goal {
            Some(g) => match member(g, "amd") {
                Some(v) => match as_text(v) {
                    Some(t) => Some(t.to_owned()),
                    None => None,
                },
                None => None,
            },
            None => None,
        };
        let shape = CallShape {
            answered: true,
            duration_ms: now_ms.saturating_sub(self.answered_at_ms),
            transcript_len: said,
            ended_by,
        };
        let reported: Option<&str> = match &amd {
            Some(a) => Some(a.as_str()),
            None => None,
        };
        assert(text_of(reported) == opt_text(amd));
        let d: Disposition = resolve_disposition(cancelled, reported, None, shape);
        let mut error: Option<String> = None;
        let mut quality_aborted: bool = false;
        if let Some(abort) = self.abort {
            if d == Disposition::Failed {
                error = Some(abort.to_string(pct));
                quality_aborted = true;
            }
        }
        Ending { cancelled, amd, sip: None, shape, goal, error, quality_aborted }
    }
}

/// A measurement as text, with its loss written as `loss`.
pub open spec fn summary_text(h: NetworkHealth, loss: Seq<char>) -> Seq<char> {
    "rtt_p50="@ + decimal(h.rtt_p50_ms as int) + "ms rtt_p95="@ + decimal(h.rtt_p95_ms as int)
        + "ms jitter="@ + decimal(h.jitter_ms as int) + "ms loss="@ + loss + "%"@
}

/// With the limits disabled or not reached, a tick never ends a call: only the silence does, and
/// only after a nudge went unanswered for the whole grace period.
pub proof fn healthy_call_is_not_aborted(c: Course, q: CallQuality, d: DownlinkQuality, now_ms: u64)
    requires
        c.wf(),
        c.end is None,
        c.abort is None,
        c.limits.quality.abort_underruns == 0 || q.underruns < c.limits.quality.abort_underruns,
        c.slid(q).uplink_over() is None,
        !c.breached(d),
        c.harvest is None,
    ensures
        c.ticked(q, d, now_ms).abort is None,
        c.ticked(q, d, now_ms).end is Some ==> c.silence.nudged_at_ms is Some && grown(
            c.silence.nudged_at_ms->Some_0,
            now_ms,
        ) >= c.limits.wrap_up_grace_ms,
{
}

/// A callee that reports no loss never triggers the downlink limit: a tick without a breach starts
/// the count over.
pub proof fn absent_report_resets_the_streak(
    c: Course,
    q: CallQuality,
    d: DownlinkQuality,
    now_ms: u64,
)
    requires
        !d.present,
        c.abort is None,
        c.harvest is None,
    ensures
        !(c.ticked(q, d, now_ms).abort is Some && c.ticked(q, d, now_ms).abort->Some_0
            is DownlinkLoss),
        c.ticked(q, d, now_ms).abort is None ==> c.ticked(q, d, now_ms).streak == 0,
{
}

/// The callee's hang-up leaves the model the grace to submit its result: it is cued once, its
/// `end_call` completes the call with the goal, the end of the session or of the grace ends it as
/// hung up, and no quality limit aborts it meanwhile. A grace of zero ends the call at once.
pub proof fn hang_up_is_harvested(
    c: Course,
    goal: Value,
    q: CallQuality,
    d: DownlinkQuality,
    hung_up_ms: u64,
    now_ms: u64,
)
    requires
        c.end is None,
        c.harvest is None,
        c.listening,
    ensures
        c.limits.wrap_up_grace_ms == 0 ==> c.hung_up(hung_up_ms) == c.ending(LoopEnd::HungUp)
            && c.hang_up_actions().len() == 0,
        c.limits.wrap_up_grace_ms > 0 ==> {
            let h = c.hung_up(hung_up_ms);
            &&& h.end is None
            &&& c.hang_up_actions() == seq![CallAction::SendHarvestCue]
            &&& h.hung_up(now_ms) == h
            &&& h.hang_up_actions().len() == 0
            &&& h.after_event(Some(Event::EndCall { goal }), now_ms).end == Some(LoopEnd::Completed)
            &&& h.after_event(Some(Event::EndCall { goal }), now_ms).goal == Some(contents(goal))
            &&& h.after_event(None, now_ms).end == Some(LoopEnd::HungUp)
            &&& h.ticked(q, d, now_ms).abort == c.abort
            &&& h.ticked(q, d, now_ms).end == (if grown(hung_up_ms, now_ms)
                >= c.limits.wrap_up_grace_ms {
                Some(LoopEnd::HungUp)
            } else {
                None
            })
        },
{
}

/// What happens to a live call: an event of the session, or a quality tick.
pub enum Moment {
    Event { ev: Option<Event>, now_ms: u64 },
    Tick { quality: CallQuality, downlink: DownlinkQuality, now_ms: u64 },
}

impl Course {
    /// The state after a moment.
    pub open spec fn lived(self, m: Moment) -> Course {
        match m {
            Moment::Event { ev, now_ms } => self.after_event(ev, now_ms),
            Moment::Tick { quality, downlink, now_ms } => self.ticked(quality, downlink, now_ms),
        }
    }

    /// What a moment asks for.
    pub open spec fn asks(self, m: Moment) -> Seq<CallAction> {
        match m {
            Moment::Event { ev, now_ms } => self.event_actions(ev, now_ms),
            Moment::Tick { quality, downlink, now_ms } => self.tick_actions(
                quality,
                downlink,
                now_ms,
            ),
        }
    }
}

/// Whether somebody is heard in a moment: a transcript of either side, or the end of a turn.
pub open spec fn is_heard(m: Moment) -> bool {
    match m {
        Moment::Event { ev: Some(Event::Transcript { .. }), .. } => true,
        Moment::Event { ev: Some(Event::TurnComplete), .. } => true,
        _ => false,
    }
}

/// When a moment is.
pub open spec fn when(m: Moment) -> u64 {
    match m {
        Moment::Event { now_ms, .. } => now_ms,
        Moment::Tick { now_ms, .. } => now_ms,
    }
}

/// The state after the first `n` moments.
pub open spec fn lived_through(start: Course, all: Seq<Moment>, n: int) -> Course
    decreases n,
{
    if n <= 0 {
        start
    } else {
        lived_through(start, all, n - 1).lived(all[n - 1])
    }
}

/// When somebody was last heard within the first `n` moments; when the session was taken over, if
/// nobody was.
pub open spec fn last_heard(taken_over_ms: u64, all: Seq<Moment>, n: int) -> u64
    decreases n,
{
    if n <= 0 {
        taken_over_ms
    } else if is_heard(all[n - 1]) {
        when(all[n - 1])
    } else {
        last_heard(taken_over_ms, all, n - 1)
    }
}

/// Whether the model is muted after the first `n` moments, by what they asked for.
pub open spec fn muted(start: Course, all: Seq<Moment>, n: int) -> bool
    decreases n,
{
    if n <= 0 {
        false
    } else {
        let asked = lived_through(start, all, n - 1).asks(all[n - 1]);
        if asked.contains(CallAction::Mute) {
            true
        } else if asked.contains(CallAction::Unmute) {
            false
        } else {
            muted(start, all, n - 1)
        }
    }
}

/// The state of a call whose session was just taken over.
pub open spec fn taken_over(c: Course, now_ms: u64) -> Course {
    c.at(Phase::Live).active(now_ms)
}

/// What the state tells of the silence.
proof fn lemma_lived(c: Course, from_ms: u64, all: Seq<Moment>, n: int)
    requires
        c.wf(),
        c.harvest is None,
        c.end is None,
        0 <= n <= all.len(),
        forall|i: int|
            0 <= i < n ==> (#[trigger] lived_through(taken_over(c, from_ms), all, i)).end is None,
    ensures
        ({
            let start = taken_over(c, from_ms);
            let s = lived_through(start, all, n);
            let heard = last_heard(from_ms, all, n);
            &&& s.limits == c.limits
            &&& s.harvest is None
            &&& s.silence.nudge_ms == c.limits.dead_air_nudge_ms
            &&& s.silence.grace_ms == c.limits.wrap_up_grace_ms
            &&& s.silence.last_activity_ms == heard
            &&& s.silence.nudged_at_ms is Some ==> c.limits.wraps_up() && heard
                + c.limits.dead_air_nudge_ms <= s.silence.nudged_at_ms->Some_0
            &&& s.end is None ==> (muted(start, all, n) <==> s.silence.nudged_at_ms is Some)
        }),
    decreases n,
{
    if n > 0 {
        let start = taken_over(c, from_ms);
        lemma_lived(c, from_ms, all, n - 1);
        let before = lived_through(start, all, n - 1);
        let m = all[n - 1];
        let asked = before.asks(m);
        assert(before.end is None);
        match m {
            Moment::Event { ev, now_ms } => {
                lemma_event_asks(before, ev, now_ms);
            },
            Moment::Tick { quality, downlink, now_ms } => {
                if before.tick_actions(quality, downlink, now_ms).len() > 0 {
                    assert(asked[0] == CallAction::Mute);
                }
            },
        }
    }
}

proof fn lemma_event_asks(c: Course, ev: Option<Event>, now_ms: u64)
    ensures
        !c.event_actions(ev, now_ms).contains(CallAction::Mute),
        c.event_actions(ev, now_ms).contains(CallAction::Unmute) <==> is_heard(
            Moment::Event { ev, now_ms },
        ) && c.silence.nudged_at_ms is Some,
{
    let asked = c.event_actions(ev, now_ms);
    if is_heard(Moment::Event { ev, now_ms }) && c.silence.nudged_at_ms is Some {
        assert(asked[0] == CallAction::Unmute);
    }
}

/// Over any course of a live call, silence is counted from when somebody was last heard, by the
/// events themselves. A tick nudges the model only where at least the nudge time has passed since;
/// where the silence ends the call, the grace has passed as well; and neither comes at all where
/// wrapping up is off. What somebody says lifts a nudge: after it the model is never muted.
pub proof fn silence_is_counted_from_the_last_word(
    c: Course,
    from_ms: u64,
    all: Seq<Moment>,
    n: int,
)
    requires
        c.wf(),
        c.harvest is None,
        c.end is None,
        c.abort is None,
        0 <= n < all.len(),
        forall|i: int|
            0 <= i <= n ==> (#[trigger] lived_through(taken_over(c, from_ms), all, i)).end is None,
    ensures
        ({
            let start = taken_over(c, from_ms);
            let s = lived_through(start, all, n);
            let t = s.lived(all[n]);
            let asked = s.asks(all[n]);
            let heard = last_heard(from_ms, all, n);
            &&& asked.contains(CallAction::Mute) || asked.contains(CallAction::SendEndCallCue) ==> {
                &&& all[n] is Tick
                &&& c.limits.wraps_up()
                &&& heard + c.limits.dead_air_nudge_ms <= when(all[n])
                &&& !muted(start, all, n)
            }
            &&& all[n] is Tick && t.end is Some && t.abort == s.abort ==> {
                &&& c.limits.wraps_up()
                &&& heard + c.limits.dead_air_nudge_ms + c.limits.wrap_up_grace_ms <= when(all[n])
                &&& muted(start, all, n)
            }
            &&& is_heard(all[n]) ==> {
                &&& t.end is None
                &&& asked.contains(CallAction::Unmute) <==> muted(start, all, n)
                &&& !muted(start, all, n + 1)
                &&& last_heard(from_ms, all, n + 1) == when(all[n])
            }
            &&& all[n] is Tick && !muted(start, all, n) && c.limits.wraps_up() && t.end is None
                && heard + c.limits.dead_air_nudge_ms <= when(all[n]) ==> asked.contains(
                CallAction::SendEndCallCue,
            ) && asked.contains(CallAction::Mute) && muted(start, all, n + 1)
        }),
{
    let start = taken_over(c, from_ms);
    lemma_lived(c, from_ms, all, n);
    let s = lived_through(start, all, n);
    let asked = s.asks(all[n]);
    lemma_aborts(c, from_ms, all, n);
    assert(lived_through(start, all, n + 1) == s.lived(all[n]));
    match all[n] {
        Moment::Event { ev, now_ms } => {
            lemma_event_asks(s, ev, now_ms);
        },
        Moment::Tick { quality, downlink, now_ms } => {
            if asked.len() > 0 {
                assert(asked[0] == CallAction::Mute && asked[1] == CallAction::SendEndCallCue);
            }
        },
    }
}

/// A call that goes on was not aborted.
proof fn lemma_aborts(c: Course, from_ms: u64, all: Seq<Moment>, n: int)
    requires
        c.abort is None,
        c.harvest is None,
        0 <= n <= all.len(),
        forall|i: int|
            0 <= i <= n ==> (#[trigger] lived_through(taken_over(c, from_ms), all, i)).end is None,
    ensures
        lived_through(taken_over(c, from_ms), all, n).abort is None,
    decreases n,
{
    if n > 0 {
        lemma_aborts(c, from_ms, all, n - 1);
        assert(lived_through(taken_over(c, from_ms), all, n).end is None);
        assert(lived_through(taken_over(c, from_ms), all, n - 1).end is None);
    }
}

/// Preflights come as often as configured, at least once, with doubling delays between them.
pub proof fn preflights_back_off(cfg: NetCheckConfig, attempt: int)
    requires
        attempt >= 1,
    ensures
        preflight_delay(cfg, attempt) is Some <==> attempt < cfg.retry_max,
        attempt == 1 && cfg.retry_max > 1 ==> preflight_delay(cfg, attempt) == Some(
            cfg.retry_backoff_base_ms,
        ),
        attempt + 1 < cfg.retry_max && 2 * preflight_delay(cfg, attempt)->Some_0 <= u64::MAX
            ==> preflight_delay(cfg, attempt + 1)->Some_0 == 2 * preflight_delay(
            cfg,
            attempt,
        )->Some_0,
{
    lemma2_to64();
    let base = cfg.retry_backoff_base_ms as int;
    let p = pow2((attempt - 1) as nat) as int;
    lemma_pow2_unfold(attempt as nat);
    assert(base * (2 * p) == 2 * (base * p)) by (nonlinear_arith);
    let one = pow2(0) as int;
    assert(base * one == base) by (nonlinear_arith)
        requires
            one == 1,
    ;
}

/// A busy line is dialed at most as often as configured: the last attempt is not retried.
pub proof fn busy_retries_stop_at_the_maximum(c: Course, reason: TermReason)
    requires
        c.attempt >= c.limits.retry.busy_max_attempts,
    ensures
        !c.retries(reason),
{
}

/// Only a busy line is retried.
pub proof fn only_busy_is_retried(c: Course, reason: TermReason)
    requires
        c.retries(reason),
    ensures
        dial_outcome(reason) == CallOutcome::Busy,
{
}

/// A call that the model ended keeps that result even when a quality limit fired at the same time:
/// no abort is recorded.
pub proof fn model_end_call_outlives_an_abort(
    c: Course,
    session_goal: Option<Json>,
    said: usize,
    now_ms: u64,
)
    requires
        c.end != Some(LoopEnd::Cancelled),
        c.abort is Some,
        amd_of(c.final_goal(session_goal)) is None,
    ensures
        c.outcome(session_goal, said, EndedBy::ModelEndCall, now_ms) == Disposition::Completed,
{
}

} // verus!
