//! What a live call comes to over its whole course: which quality limit ends it, and what is kept
//! of the talk.
use vstd::prelude::*;

use super::call::{
    amd_of, lived_through, preflight_delay, taken_over, unanswered_end, Abort, CallAction, Course,
    LoopEnd, Moment, Phase, RingOutcome,
};
use super::{downlink_breach, merged, should_abort, should_retry_busy, window_loss, Ending};
use crate::bridge::BridgeEnd;
use crate::config::{NetCheckConfig, QualityConfig, RetryConfig};
use crate::gemini_live::{AffectEntry, EndedBy, Event, TranscriptEntry};
use crate::json::Json;
use crate::single::Single;
use crate::sip::{CallOutcome, DownlinkQuality, SipEvent, TermReason, UplinkQuality};
use crate::state::{CallQuality, Disposition};

verus! {

/// What the ticks among the first `n` moments read off the uplink: `(received, lost)`, oldest
/// first.
pub open spec fn readings(all: Seq<Moment>, n: int) -> Seq<(u64, u64)>
    decreases n,
{
    if n <= 0 {
        Seq::empty()
    } else {
        match all[n - 1] {
            Moment::Tick { quality, .. } => readings(all, n - 1).push(
                (quality.uplink_received, quality.uplink_lost),
            ),
            _ => readings(all, n - 1),
        }
    }
}

/// How many ticks in a row, up to the `n`th moment, had the callee report more loss than allowed.
pub open spec fn in_a_row(cfg: NetCheckConfig, all: Seq<Moment>, n: int) -> int
    decreases n,
{
    if n <= 0 {
        0
    } else {
        match all[n - 1] {
            Moment::Tick { downlink, .. } => if downlink.present && downlink.loss_pct.above(
                cfg.downlink_loss_abort_pct,
            ) {
                in_a_row(cfg, all, n - 1) + 1
            } else {
                0
            },
            _ => in_a_row(cfg, all, n - 1),
        }
    }
}

/// The last eight of `s`, or all of them.
pub open spec fn last_eight(s: Seq<(u64, u64)>) -> Seq<(u64, u64)> {
    if s.len() <= 8 {
        s
    } else {
        s.subrange(s.len() - 8, s.len() as int)
    }
}

/// What is known of the quality of a call that goes on.
proof fn lemma_quality(c: Course, from_ms: u64, all: Seq<Moment>, n: int)
    requires
        c.harvest is None,
        c.abort is None,
        c.window.len() == 0,
        c.streak == 0,
        0 <= n <= all.len(),
        forall|i: int|
            0 <= i <= n ==> (#[trigger] lived_through(taken_over(c, from_ms), all, i)).end is None,
    ensures
        ({
            let s = lived_through(taken_over(c, from_ms), all, n);
            &&& s.limits == c.limits
            &&& s.harvest is None
            &&& s.abort is None
            &&& s.window == last_eight(readings(all, n))
            &&& s.streak == in_a_row(c.limits.net_check, all, n)
        }),
    decreases n,
{
    let start = taken_over(c, from_ms);
    if n > 0 {
        lemma_quality(c, from_ms, all, n - 1);
        let s = lived_through(start, all, n - 1);
        assert(lived_through(start, all, n).end is None);
        if let Moment::Tick { quality, downlink, now_ms } = all[n - 1] {
            assert(s.slid(quality).window =~= last_eight(readings(all, n)));
        }
    } else {
        assert(start.window =~= last_eight(readings(all, 0)));
    }
}

/// A tick aborts a live call exactly where one of three limits is reached, by what the ticks so
/// far measured, and the first of them in this order is the one that is named: there were too many
/// underruns; over the last eight ticks the uplink lost more than allowed, of enough packets; or
/// the callee reported too much loss at five ticks in a row. An aborted call has failed.
pub proof fn quality_limits_end_the_call(c: Course, from_ms: u64, all: Seq<Moment>, n: int)
    requires
        c.harvest is None,
        c.abort is None,
        c.window.len() == 0,
        c.streak == 0,
        0 <= n < all.len(),
        all[n] is Tick,
        forall|i: int|
            0 <= i <= n ==> (#[trigger] lived_through(taken_over(c, from_ms), all, i)).end is None,
    ensures
        ({
            let s = lived_through(taken_over(c, from_ms), all, n).lived(all[n]);
            let q = all[n]->quality;
            let d = all[n]->downlink;
            let read = readings(all, n + 1);
            let loss = if read.len() >= 8 {
                window_loss(read[read.len() - 8], read.last())
            } else {
                None
            };
            let starved = c.limits.quality.abort_underruns > 0 && q.underruns
                >= c.limits.quality.abort_underruns;
            let lost_up = loss is Some && loss->Some_0.above(
                c.limits.net_check.uplink_loss_abort_pct,
            );
            let lost_down = in_a_row(c.limits.net_check, all, n + 1) >= 5;
            &&& s.abort is Some <==> starved || lost_up || lost_down
            &&& s.abort is Some ==> s.end == Some(LoopEnd::Failed)
            &&& starved ==> s.abort == Some(
                Abort::Underruns { underruns: q.underruns, starved_ms: q.starved_ms },
            )
            &&& !starved && lost_up ==> s.abort == Some(Abort::UplinkLoss(loss->Some_0))
            &&& !starved && !lost_up && lost_down ==> s.abort == Some(
                Abort::DownlinkLoss(d.loss_pct),
            )
        }),
{
    lemma_quality(c, from_ms, all, n);
    let s = lived_through(taken_over(c, from_ms), all, n);
    let q = all[n]->quality;
    assert(s.slid(q).window =~= last_eight(readings(all, n + 1)));
}

/// The loss over a window is judged from two hundred packets on, received and lost ones together,
/// as they were counted since its start; what came before the window does not matter.
pub proof fn window_counts_its_own_packets(
    before: (u64, u64),
    received: u64,
    lost: u64,
    other: (u64, u64),
)
    requires
        before.0 + received <= u64::MAX,
        before.1 + lost <= u64::MAX,
        other.0 + received <= u64::MAX,
        other.1 + lost <= u64::MAX,
    ensures
        ({
            let now = ((before.0 + received) as u64, (before.1 + lost) as u64);
            let then = ((other.0 + received) as u64, (other.1 + lost) as u64);
            &&& window_loss(before, now) is Some <==> received + lost >= 200
            &&& window_loss(before, now) == window_loss(other, then)
        }),
{
}

/// What is said for good within the first `n` moments.
pub open spec fn spoken(all: Seq<Moment>, n: int) -> Seq<TranscriptEntry>
    decreases n,
{
    if n <= 0 {
        Seq::empty()
    } else {
        match all[n - 1] {
            Moment::Event { ev: Some(Event::Transcript { role, text, final_ }), now_ms } => if final_ {
                spoken(all, n - 1).push(TranscriptEntry { role, text, ts_ms: now_ms })
            } else {
                spoken(all, n - 1)
            },
            _ => spoken(all, n - 1),
        }
    }
}

/// What is felt within the first `n` moments.
pub open spec fn felt(all: Seq<Moment>, n: int) -> Seq<AffectEntry>
    decreases n,
{
    if n <= 0 {
        Seq::empty()
    } else {
        match all[n - 1] {
            Moment::Event { ev: Some(Event::Affect { role, label }), now_ms } => felt(
                all,
                n - 1,
            ).push(AffectEntry { role, label, ts_ms: now_ms }),
            _ => felt(all, n - 1),
        }
    }
}

/// The transcript entries that `actions` append.
pub open spec fn appended(actions: Seq<CallAction>) -> Seq<TranscriptEntry>
    decreases actions.len(),
{
    if actions.len() == 0 {
        Seq::empty()
    } else {
        match actions.last() {
            CallAction::AppendTranscript(e) => appended(actions.drop_last()).push(e),
            _ => appended(actions.drop_last()),
        }
    }
}

/// The affect entries that `actions` append.
pub open spec fn noted(actions: Seq<CallAction>) -> Seq<AffectEntry>
    decreases actions.len(),
{
    if actions.len() == 0 {
        Seq::empty()
    } else {
        match actions.last() {
            CallAction::AppendAffect(e) => noted(actions.drop_last()).push(e),
            _ => noted(actions.drop_last()),
        }
    }
}

/// What the first `n` moments asked for, in order.
pub open spec fn asked(start: Course, all: Seq<Moment>, n: int) -> Seq<CallAction>
    decreases n,
{
    if n <= 0 {
        Seq::empty()
    } else {
        asked(start, all, n - 1) + lived_through(start, all, n - 1).asks(all[n - 1])
    }
}

proof fn lemma_kept_in_turn(a: Seq<CallAction>, b: Seq<CallAction>)
    ensures
        appended(a + b) == appended(a) + appended(b),
        noted(a + b) == noted(a) + noted(b),
    decreases b.len(),
{
    if b.len() == 0 {
        assert(a + b =~= a);
    } else {
        lemma_kept_in_turn(a, b.drop_last());
        assert((a + b).drop_last() =~= a + b.drop_last());
        assert(appended(a + b) =~= appended(a) + appended(b));
        assert(noted(a + b) =~= noted(a) + noted(b));
    }
}

/// A call's record keeps what was said for good, by either side, and what was felt: each once, in
/// order, with its time, whatever else happens on the line meanwhile.
pub proof fn talk_is_kept_in_order(start: Course, all: Seq<Moment>, n: int)
    requires
        0 <= n <= all.len(),
    ensures
        appended(asked(start, all, n)) == spoken(all, n),
        noted(asked(start, all, n)) == felt(all, n),
    decreases n,
{
    if n > 0 {
        talk_is_kept_in_order(start, all, n - 1);
        let c = lived_through(start, all, n - 1);
        let now = c.asks(all[n - 1]);
        lemma_kept_in_turn(asked(start, all, n - 1), now);
        reveal_with_fuel(appended, 4);
        reveal_with_fuel(noted, 4);
        assert(c.unmuting().len() <= 1);
        if c.unmuting().len() == 1 {
            assert(c.unmuting().drop_last() =~= Seq::empty());
        }
        if let Moment::Event { ev: Some(Event::Transcript { role, text, final_ }), now_ms } = all[n
            - 1] {
            if final_ {
                assert(now.drop_last() =~= c.unmuting());
            }
        }
        assert(appended(asked(start, all, n)) =~= spoken(all, n));
        assert(noted(asked(start, all, n)) =~= felt(all, n));
    }
}

/// Of the session's events only the model's `end_call` completes a call, with its goal; the end of
/// the events ends only a call whose callee is gone. Nothing that the session says aborts it.
pub proof fn session_completes_by_end_call_alone(c: Course, ev: Option<Event>, now_ms: u64)
    requires
        c.end is None,
    ensures
        ({
            let s = c.after_event(ev, now_ms);
            &&& s.end == Some(LoopEnd::Completed) <==> ev is Some && ev->Some_0 is EndCall
            &&& s.end == Some(LoopEnd::HungUp) <==> ev is None && c.harvest is Some
            &&& s.end is Some ==> s.end == Some(LoopEnd::Completed) || s.end == Some(
                LoopEnd::HungUp,
            )
            &&& s.goal != c.goal ==> ev is Some && ev->Some_0 is EndCall
            &&& ev is Some && ev->Some_0 is EndCall ==> s.goal == Some(
                crate::json::contents(ev->Some_0->goal),
            )
            &&& s.abort == c.abort
            &&& s.listening == (c.listening && ev is Some)
            &&& s.harvest == c.harvest
            &&& s.answered_at_ms == c.answered_at_ms
        }),
{
}

/// A line is dialed again exactly where the far end answered busy and an attempt is left. Hanging
/// up before the answer, on either side, counts as no answer.
pub proof fn busy_line_is_retried(c: Course, reason: TermReason)
    ensures
        c.retries(reason) <==> reason is Failed && reason->outcome == CallOutcome::Busy
            && c.attempt < c.limits.retry.busy_max_attempts,
        !(reason is Failed) ==> super::call::dial_outcome(reason) == CallOutcome::NoAnswer,
        reason is Failed ==> super::call::dial_outcome(reason) == reason->outcome,
{
}

/// No wait before another preflight is shorter than the one before it, and none is shorter than
/// the configured base.
pub proof fn preflight_waits_grow(cfg: NetCheckConfig, attempt: int)
    requires
        1 <= attempt,
        attempt + 1 < cfg.retry_max,
    ensures
        cfg.retry_backoff_base_ms <= preflight_delay(cfg, attempt)->Some_0 <= preflight_delay(
            cfg,
            attempt + 1,
        )->Some_0,
    decreases attempt,
{
    super::call::preflights_back_off(cfg, attempt);
    let base = cfg.retry_backoff_base_ms as int;
    let p = vstd::arithmetic::power2::pow2((attempt - 1) as nat) as int;
    let q = vstd::arithmetic::power2::pow2(attempt as nat) as int;
    vstd::arithmetic::power2::lemma_pow2_pos((attempt - 1) as nat);
    vstd::arithmetic::power2::lemma_pow2_unfold(attempt as nat);
    assert(base <= base * p <= base * q) by (nonlinear_arith)
        requires
            0 <= base,
            1 <= p,
            q == 2 * p,
    ;
}

/// A call's quality names each side's own figures: the pacer's, the uplink's, and the callee's
/// report where there is one.
pub proof fn quality_names_each_side(q: CallQuality, u: UplinkQuality, d: DownlinkQuality)
    ensures
        ({
            let m = merged(q, u, d);
            &&& m.underruns == q.underruns && m.starved_ms == q.starved_ms
            &&& m.uplink_received == u.received && m.uplink_lost == u.lost && m.uplink_reordered
                == u.reordered
            &&& m.downlink_loss_pct == (if d.present {
                d.loss_pct
            } else {
                q.downlink_loss_pct
            })
            &&& m.downlink_jitter_ms == (if d.present {
                d.jitter_ms
            } else {
                q.downlink_jitter_ms
            })
            &&& m.downlink_rtt_ms == (if d.present {
                d.rtt_ms
            } else {
                q.downlink_rtt_ms
            })
        }),
{
}

/// However the far end goes, it is one hang-up: the line's own report, the end of its events, or the
/// bridge's phone side closing leave the call in the same state. It is never a failure, and none of
/// them touches what was measured or said. A report of an answer changes nothing.
pub proof fn every_hang_up_is_the_same(c: Course, reason: TermReason, ev: SipEvent, now_ms: u64)
    requires
        c.end is None,
    ensures
        ({
            let s = c.after_sip(None, now_ms);
            &&& c.after_sip(Some(SipEvent::Terminated(reason)), now_ms) == s
            &&& c.after_bridge(Some(BridgeEnd::PhoneClosed), now_ms) == s
            &&& s.end is None || s.end == Some(LoopEnd::HungUp)
            &&& s.end is None <==> s.harvest is Some
            &&& c.harvest is Some ==> s.harvest == c.harvest
            &&& c.harvest is None && s.harvest is Some ==> s.harvest == Some(now_ms)
            &&& c.harvest is None ==> (s.harvest is Some <==> c.limits.wrap_up_grace_ms > 0
                && c.listening)
            &&& s.goal == c.goal && s.abort == c.abort && s.silence == c.silence
        }),
        ev is Answered ==> c.after_sip(Some(ev), now_ms) == c,
{
}

/// A bridge that stops fails the call only where the callee was still there and nobody stopped it.
pub proof fn broken_bridge_fails_a_live_call(c: Course, end: Option<BridgeEnd>, now_ms: u64)
    requires
        c.end is None,
    ensures
        c.after_bridge(end, now_ms).end == Some(LoopEnd::Failed) <==> c.harvest is None && (end
            is None || end == Some(BridgeEnd::GeminiClosed)),
        c.after_bridge(Some(BridgeEnd::Cancelled), now_ms).end == Some(LoopEnd::HungUp),
        c.after_bridge(end, now_ms).goal == c.goal,
        c.after_bridge(end, now_ms).abort == c.abort,
{
    if let Some(by) = end {
        match by {
            BridgeEnd::PhoneClosed => {},
            BridgeEnd::GeminiClosed => {},
            BridgeEnd::Cancelled => {},
        }
    }
}

/// Only an answer takes a ringing call on, from the moment it came; anything else is its end.
pub proof fn only_an_answer_goes_on(c: Course, outcome: RingOutcome, now_ms: u64)
    requires
        c.phase == Phase::Ringing,
    ensures
        c.after_ring(outcome, now_ms).phase == Phase::Answered <==> outcome is Answered,
        c.after_ring(outcome, now_ms).phase == Phase::Over <==> !(outcome is Answered),
        outcome is Answered ==> c.after_ring(outcome, now_ms).answered_at_ms == now_ms,
        c.after_ring(outcome, now_ms).attempt == c.attempt,
{
}

/// The closing words play out only where the model ended the call and somebody is there to hear
/// them, and for less than eight seconds however long the audio lasts.
pub proof fn closing_words_are_bounded(c: Course, active: bool, waited_ms: u64, less_ms: u64)
    requires
        less_ms <= waited_ms,
    ensures
        c.plays_out(active, waited_ms) ==> c.goal is Some && c.harvest is None && active,
        c.plays_out(active, waited_ms) ==> c.plays_out(active, less_ms),
        waited_ms >= 8000 ==> !c.plays_out(active, waited_ms),
        c.goal is Some && c.harvest is None ==> c.plays_out(true, 0) && c.plays_out(true, 7999),
{
}

/// What counts of an answered call: the goal that came over the line, or the session's where none
/// did; the time since the answer; how much was said, and who ended it.
pub proof fn answered_call_is_measured_from_the_answer(
    c: Course,
    session: Option<Json>,
    said: usize,
    by: EndedBy,
    now_ms: u64,
)
    ensures
        c.goal is Some ==> c.final_goal(session) == c.goal,
        c.goal is None ==> c.final_goal(session) == session,
        c.shape(said, by, now_ms).answered,
        now_ms >= c.answered_at_ms ==> c.answered_at_ms + c.shape(said, by, now_ms).duration_ms
            == now_ms,
        now_ms < c.answered_at_ms ==> c.shape(said, by, now_ms).duration_ms == 0,
        c.shape(said, by, now_ms).transcript_len == said,
        c.shape(said, by, now_ms).ended_by == by,
{
}

/// What the model reported of the far end is the text under `amd` in its goal, and nothing where the
/// goal holds no such text.
pub proof fn far_end_is_read_off_the_goal(m: Map<Seq<char>, Json>, kind: Seq<char>)
    ensures
        m.contains_pair("amd"@, Json::Text(kind)) ==> amd_of(Some(Json::Object(m))) == Some(kind),
        !m.contains_key("amd"@) ==> amd_of(Some(Json::Object(m))) is None,
        amd_of(None) is None,
        amd_of(Some(Json::Object(m))) is Some ==> m.contains_pair(
            "amd"@,
            Json::Text(amd_of(Some(Json::Object(m)))->Some_0),
        ),
{
}

/// The three tests that the limits rest on. A limit of zero underruns never aborts and more underruns
/// never make a call pass; a report that is absent is no breach; a busy line is retried while
/// attempts are left.
pub proof fn limits_are_tested_one_by_one(
    quality: QualityConfig,
    underruns: u64,
    aborts: bool,
    d: DownlinkQuality,
    pct: Single,
    breach: bool,
    attempt: u32,
    retry: RetryConfig,
    again: bool,
)
    requires
        call_ensures(should_abort, (&quality, underruns), aborts),
        call_ensures(downlink_breach, (d, pct), breach),
        call_ensures(should_retry_busy, (attempt, &retry), again),
    ensures
        aborts <==> quality.abort_underruns > 0 && underruns >= quality.abort_underruns,
        breach <==> d.present && d.loss_pct.above(pct),
        again <==> attempt < retry.busy_max_attempts,
{
}

/// The state after `n` preflights, of which the `i`th was usable or not.
pub open spec fn probed(c: Course, usable: Seq<bool>, n: int) -> Course
    decreases n,
{
    if n <= 0 {
        c
    } else {
        probed(c, usable, n - 1).after_preflight(usable[n - 1])
    }
}

/// A fresh call dials on the first usable network that a preflight finds, and only then. As long as
/// every one is bad it waits, for as many of them as configured (at least one), and is refused on
/// the last without having dialed.
pub proof fn call_dials_on_the_first_usable_network(c: Course, usable: Seq<bool>, n: int)
    requires
        c.phase == Phase::Preflight,
        c.probes == 0,
        0 < n <= usable.len(),
        forall|i: int| 0 <= i < n - 1 ==> !#[trigger] usable[i],
        n == 1 || n <= c.limits.net_check.retry_max,
    ensures
        ({
            let s = probed(c, usable, n);
            &&& s.probes == n
            &&& s.phase == Phase::Dialing <==> usable[n - 1]
            &&& s.phase == Phase::Over <==> !usable[n - 1] && n >= c.limits.net_check.retry_max
            &&& s.phase == Phase::Preflight <==> !usable[n - 1] && n
                < c.limits.net_check.retry_max
            &&& s.limits == c.limits
        }),
    decreases n,
{
    if n > 1 {
        assert(!usable[n - 2]);
        call_dials_on_the_first_usable_network(c, usable, n - 1);
    } else {
        assert(probed(c, usable, 0) == c);
    }
}

/// A session that was taken over starts the conversation, with the silence counted from then on; one
/// that could not be ends the call.
pub proof fn session_starts_the_conversation(c: Course, taken: bool, now_ms: u64)
    ensures
        c.after_session(taken, now_ms).phase == Phase::Live <==> taken,
        c.after_session(taken, now_ms).phase == Phase::Over <==> !taken,
        taken ==> c.after_session(taken, now_ms).silence.last_activity_ms == now_ms
            && c.after_session(taken, now_ms).silence.nudged_at_ms is None,
        c.after_session(taken, now_ms).answered_at_ms == c.answered_at_ms,
{
}

/// A call that ends before it is answered is counted as the dial came out, and as failed where it
/// never came to a dial: never as completed or cancelled, with no goal, and as no quality abort.
pub proof fn unanswered_call_is_counted_by_its_dial(
    e: Ending,
    sip: Option<CallOutcome>,
    error: Seq<char>,
)
    requires
        unanswered_end(e, sip, error),
    ensures
        sip is Some ==> e.disposition().name() == sip->Some_0.name(),
        sip is None ==> e.disposition() == Disposition::Failed,
        e.disposition() != Disposition::Cancelled,
        e.goal is None,
        e.error is Some && e.error->Some_0@ == error,
        !e.quality_aborted,
{
    if sip is Some {
        crate::state::unanswered_goes_by_the_dial_outcome(
            None,
            sip->Some_0,
            e.shape,
            None,
            sip->Some_0,
            e.shape,
        );
    }
}

} // verus!
