//! The conversation's session and the network preflight.
use kutsu::config::{NetCheckConfig, VadConfig};
use kutsu::error::Error;
use kutsu::gemini_live::{
    Action, Cue, Driver, EndedBy, Event, Role, SessionEvent, TranscriptAccumulator,
};
use kutsu::net_check::{
    on_setup_frame, summarize, verdict, Frame, NetworkHealth, Preflight, SetupProbe, Verdict,
};
use kutsu::single::Single;
use serde_json::Value;

fn single(x: f32) -> Single {
    Single { bits: x.to_bits() }
}

#[test]
fn transcript_accumulator_concatenates_deltas_and_flushes_per_turn() {
    let mut acc = TranscriptAccumulator::default();
    acc.on_delta(Role::User, "Да");
    acc.on_delta(Role::User, ", удобно");
    acc.on_delta(Role::Model, "Здравствуй");
    acc.on_delta(Role::Model, "те!");
    let t1 = acc.flush(100);
    assert_eq!(t1.len(), 2);
    assert_eq!(t1[0].role, Role::User);
    assert_eq!(t1[0].text, "Да, удобно");
    assert_eq!(t1[1].role, Role::Model);
    assert_eq!(t1[1].text, "Здравствуйте!");
    assert!(acc.flush(200).is_empty());
    acc.on_delta(Role::Model, "До свидания");
    let t2 = acc.flush(300);
    assert_eq!(t2.len(), 1);
    assert_eq!(t2[0].role, Role::Model);
    assert_eq!(t2[0].text, "До свидания");
}

#[test]
fn transcript_and_end_call_flow() {
    let mut d = Driver::new(VadConfig::default(), 0, true, 0);
    let first = d.on_session_event(
        Some(SessionEvent::Opened {
            is_reconnect: false,
            resumed: false,
        }),
        1,
    );
    assert!(first.is_empty());
    let said = d.on_session_event(
        Some(SessionEvent::Transcript {
            role: Role::Model,
            text: "Hi there".into(),
            final_: true,
        }),
        2,
    );
    assert!(said.iter().any(|a| matches!(
        a,
        Action::Emit(Event::Transcript { role: Role::Model, text, .. }) if text == "Hi there"
    )));
    let ended = d.on_session_event(
        Some(SessionEvent::ToolCall {
            name: "end_call".into(),
            id: "c1".into(),
            args: serde_json::from_str(r#"{"disposition":"done"}"#).unwrap(),
        }),
        3,
    );
    assert!(ended
        .iter()
        .any(|a| matches!(a, Action::Emit(Event::EndCall { goal }) if goal["disposition"] == "done")));
    assert!(
        ended.iter().any(|a| matches!(a, Action::ToolResponse(id) if id == "c1")),
        "the end_call tool ack must be written before teardown"
    );
    assert_eq!(d.ended(), Some(EndedBy::ModelEndCall));
    let outcome = d.finish(4);
    assert!(matches!(outcome.ended_by, EndedBy::ModelEndCall));
    assert_eq!(outcome.goal.as_ref().unwrap()["disposition"], "done");
    assert!(outcome
        .transcript
        .iter()
        .any(|e| e.role == Role::Model && e.text == "Hi there"));
}

#[test]
fn no_greeting_before_answered() {
    let mut d = Driver::new(VadConfig::default(), 50, false, 0);
    assert!(d.awaits_answer());
    assert_eq!(d.greet_at(), None);
    assert!(
        d.on_greet_timer(u64::MAX).is_empty(),
        "no greeting must be sent while answered is false"
    );
}

fn greets(actions: &[Action]) -> usize {
    actions.iter().filter(|a| matches!(a, Action::Say(Cue::Greet))).count()
}

fn resumes(actions: &[Action]) -> usize {
    actions.iter().filter(|a| matches!(a, Action::Say(Cue::Resume))).count()
}

fn flushes(actions: &[Action]) -> usize {
    actions
        .iter()
        .filter(|a| matches!(a, Action::Emit(Event::Interrupted)))
        .count()
}

#[test]
fn greets_after_answered_when_callee_silent() {
    let mut d = Driver::new(VadConfig::default(), 50, false, 0);
    d.on_answered(Some(true), 10);
    assert_eq!(d.greet_at(), Some(60));
    assert!(d.on_greet_timer(59).is_empty(), "the whole delay must pass");
    let n = greets(&d.on_greet_timer(60)) + greets(&d.on_greet_timer(61));
    assert_eq!(n, 1, "exactly one greeting must be sent after answered");
    assert_eq!(d.greet_at(), None);
}

#[test]
fn greeting_suppressed_when_callee_speaks() {
    let mut d = Driver::new(VadConfig::default(), 50, false, 0);
    d.on_answered(Some(true), 10);
    for k in 0..8 {
        let level = if k < 2 { 0i16 } else { 6000 };
        let sent = d.on_audio(Some(vec![level; 320]));
        assert!(matches!(sent[..], [Action::SendAudio(_)]));
        assert_eq!(d.vad().onset(), k >= 4);
    }
    assert_eq!(d.greet_at(), None);
    assert_eq!(
        greets(&d.on_greet_timer(1000)),
        0,
        "no greeting must be sent once the callee has spoken"
    );
}

fn user_turn() -> Option<SessionEvent> {
    Some(SessionEvent::Transcript {
        role: Role::User,
        text: "hi".into(),
        final_: false,
    })
}

fn reopened(resumed: bool) -> Option<SessionEvent> {
    Some(SessionEvent::Opened {
        is_reconnect: true,
        resumed,
    })
}

#[test]
fn reconnect_lost_context_sends_resume_cue() {
    let mut d = Driver::new(VadConfig::default(), 0, true, 0);
    let _ = d.on_session_event(user_turn(), 1);
    let a = d.on_session_event(reopened(false), 2);
    assert_eq!(flushes(&a), 1, "exactly one Interrupted flush on reconnect");
    assert_eq!(resumes(&a), 1, "the resume cue must be sent on lost context");
    assert_eq!(greets(&a), 0, "no greeting on reconnect");
}

#[test]
fn reconnect_with_handle_sends_no_cue() {
    let mut d = Driver::new(VadConfig::default(), 0, true, 0);
    let _ = d.on_session_event(user_turn(), 1);
    let a = d.on_session_event(reopened(true), 2);
    assert_eq!(flushes(&a), 1, "the reconnect still flushes the pacer once");
    assert_eq!(resumes(&a), 0, "no cue when the reopen resumed");
    assert_eq!(greets(&a), 0, "no greeting on reconnect");
}

#[test]
fn reconnect_without_pending_turn_sends_no_cue() {
    let mut d = Driver::new(VadConfig::default(), 0, true, 0);
    let a = d.on_session_event(reopened(false), 2);
    assert_eq!(flushes(&a), 1, "the reconnect still flushes the pacer once");
    assert_eq!(resumes(&a), 0, "no cue without a pending turn");
}

#[test]
fn reconnect_drains_stale_uplink() {
    let mut d = Driver::new(VadConfig::default(), 0, true, 0);
    let a = d.on_session_event(reopened(false), 2);
    assert_eq!(flushes(&a), 1, "exactly one Interrupted flush on reconnect");
    assert!(
        matches!(a[0], Action::DrainUplink),
        "stale uplink frames must be drained"
    );
}

#[test]
fn a_session_ends_for_each_reason() {
    let mut d = Driver::new(VadConfig::default(), 0, true, 0);
    d.on_hangup();
    assert_eq!(d.ended(), Some(EndedBy::CallerHangup));
    let mut d = Driver::new(VadConfig::default(), 0, true, 0);
    d.on_send_failed();
    assert_eq!(d.ended(), Some(EndedBy::RemoteClose));
    let mut d = Driver::new(VadConfig::default(), 0, true, 0);
    assert!(d.on_audio(None).is_empty());
    assert_eq!(d.ended(), Some(EndedBy::CallerHangup));
    let mut d = Driver::new(VadConfig::default(), 0, true, 0);
    let _ = d.on_session_event(Some(SessionEvent::Closed), 1);
    assert!(d.ended().is_some());
    assert_eq!(Driver::new(VadConfig::default(), 0, true, 0).finish(1).ended_by, EndedBy::Error);
}

#[test]
fn another_tool_does_not_end_the_call() {
    let mut d = Driver::new(VadConfig::default(), 0, true, 0);
    let _ = d.on_session_event(
        Some(SessionEvent::ToolCall {
            name: "lookup".into(),
            id: "c1".into(),
            args: Value::Null,
        }),
        1,
    );
    assert!(d.ended().is_none());
}

#[test]
fn verdict_respects_thresholds() {
    let cfg = NetCheckConfig::default();
    let good = NetworkHealth {
        rtt_p50_ms: 40,
        rtt_p95_ms: 120,
        jitter_ms: 15,
        loss_pct: single(0.0),
    };
    assert!(matches!(verdict(&good, &cfg), Verdict::Usable));

    let high_rtt = NetworkHealth {
        rtt_p95_ms: 800,
        ..good
    };
    assert!(matches!(verdict(&high_rtt, &cfg), Verdict::Unusable));

    let lossy = NetworkHealth {
        loss_pct: single(10.0),
        ..good
    };
    assert!(matches!(verdict(&lossy, &cfg), Verdict::Unusable));

    let jittery = NetworkHealth {
        jitter_ms: 200,
        ..good
    };
    assert!(matches!(verdict(&jittery, &cfg), Verdict::Unusable));
}

#[test]
fn jitter_is_the_p95_minus_p50_spread() {
    let rtts = vec![10, 20, 30, 40, 50, 60, 70, 80, 90, 100];
    let h = summarize(&rtts, 0, 10);
    assert!(h.rtt_p95_ms >= h.rtt_p50_ms);
    assert_eq!(h.jitter_ms, h.rtt_p95_ms - h.rtt_p50_ms);
}

#[test]
fn quantiles_agree_with_floating_point() {
    for n in 1u32..200 {
        let rtts: Vec<u32> = (0..n).rev().collect();
        let h = summarize(&rtts, 1, n);
        let at = |p: f32| ((n as f32 - 1.0) * p).round() as u32;
        assert_eq!((h.rtt_p50_ms, h.rtt_p95_ms), (at(0.5), at(0.95)), "{n} samples");
        assert_eq!(h.loss_pct, single(1.0 / n as f32 * 100.0));
    }
}

#[test]
fn nothing_measured_is_as_bad_as_it_gets() {
    let h = summarize(&vec![], 10, 10);
    assert_eq!((h.rtt_p50_ms, h.rtt_p95_ms, h.jitter_ms), (u32::MAX, u32::MAX, u32::MAX));
    assert_eq!(h.loss_pct, single(100.0));
}

#[test]
fn setup_ack_ok_on_setup_complete() {
    assert!(on_setup_frame(Frame::Other).is_none());
    assert!(matches!(
        on_setup_frame(Frame::SetupComplete),
        Some(SetupProbe::Acknowledged)
    ));
}

#[test]
fn setup_ack_rejected_on_close_carries_code() {
    let frame = Frame::Close(Some((1007, "properties: only allowed for OBJECT type".into())));
    match on_setup_frame(frame) {
        Some(SetupProbe::Rejected(code, _)) => assert_eq!(code, 1007),
        other => panic!("expected Rejected(1007), got {other:?}"),
    }
    match on_setup_frame(Frame::End) {
        Some(SetupProbe::Rejected(0, reason)) => {
            assert_eq!(reason, "stream ended before setupComplete")
        }
        other => panic!("got {other:?}"),
    }
}

#[test]
fn setup_ack_times_out_when_silent() {
    assert!(matches!(
        on_setup_frame(Frame::Timeout),
        Some(SetupProbe::Timeout)
    ));
}

#[test]
fn summary_is_readable() {
    let h = NetworkHealth {
        rtt_p50_ms: 40,
        rtt_p95_ms: 120,
        jitter_ms: 15,
        loss_pct: single(1.5),
    };
    let s = h.summary(&format!("{:.1}", f32::from_bits(h.loss_pct.bits)));
    assert!(s.contains("rtt_p95=120ms"));
    assert!(s.contains("loss=1.5%"));
}

#[test]
fn a_preflight_measures_then_judges_the_setup() {
    let mut p = Preflight::new(&NetCheckConfig::default());
    let mut pings = 0;
    while p.next_ping().is_some() {
        pings += 1;
        p.on_ping(match pings {
            1 => Some(900),
            11 => None,
            _ => Some(20),
        });
    }
    assert_eq!(pings, 11, "one warm-up, then ten that are measured");
    let h = p.finish(SetupProbe::Acknowledged, 1000, 1500).unwrap();
    assert_eq!((h.rtt_p50_ms, h.rtt_p95_ms), (20, 20));
    assert_eq!(h.loss_pct, single(1.0f32 / 10.0 * 100.0));
    assert!(p.finish(SetupProbe::Timeout, 0, 0).is_err());
    assert!(p.finish(SetupProbe::Rejected(1007, "no".into()), 0, 0).is_err());
}

#[test]
fn a_session_that_is_slow_to_establish_fails_the_preflight() {
    let cfg = NetCheckConfig::default();
    let p = Preflight::new(&cfg);
    match p.finish(SetupProbe::Acknowledged, 1000, 1501) {
        Err(Error::Connect(m)) => assert_eq!(
            m,
            "gemini setup too slow (connect 1000ms + setup 1501ms, limit 2500ms)"
        ),
        other => panic!("got {other:?}"),
    }
    assert!(p.finish(SetupProbe::Acknowledged, u64::MAX, u64::MAX).is_err());
    let p = Preflight::new(&NetCheckConfig {
        max_setup_ms: 0,
        ..cfg
    });
    assert!(p.finish(SetupProbe::Acknowledged, u64::MAX, u64::MAX).is_ok());
}
