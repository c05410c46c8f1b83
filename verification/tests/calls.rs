//! Call records, the engine, a running call, and the tools over them.
use kutsu::bridge::BridgeEnd;
use kutsu::config::{NetCheckConfig, QualityConfig, RetryConfig, ScenarioConfig, ServerConfig};
use kutsu::engine::call::{
    keepalive_frame, preflight_backoff, ring_outcome, Abort, CallAction, LoopEnd, Phase, PreflightStep, RingOutcome,
    RingStep, RunCall,
};
use kutsu::engine::{
    bump_disposition, downlink_breach, merge_quality, should_abort, should_retry_busy,
    window_loss_pct, Counters, EndCall, Ending, Engine, MetricsSnapshot, WrapPhase, WrapUpState,
};
use kutsu::gemini_live::{AffectEntry, EndedBy, Event, Role, TranscriptEntry};
use kutsu::mcp::{
    call_status_label, is_terminal_state, quality_value, status_message, task_result_for,
    KutsuServer, PlaceCallArgs, Placed, Reply, TaskExit, ToolError,
};
use kutsu::mcp_http::{bearer_guard, graceful_teardown, render_prometheus, token_matches};
use kutsu::net_check::NetworkHealth;
use kutsu::single::Single;
use kutsu::sip::{
    CallOutcome, DownlinkQuality, G711Kind, NegotiatedCodec, SipEvent, TermReason, UplinkQuality,
};
use kutsu::state::{
    resolve_disposition, CallQuality, CallRecord, CallShape, CallState, CallStore, Disposition,
};
use serde_json::Value;

fn json(text: &str) -> Value {
    serde_json::from_str(text).unwrap()
}

fn single(x: f32) -> Single {
    Single { bits: x.to_bits() }
}

fn rec(id: &str) -> CallRecord {
    CallRecord {
        call_id: id.into(),
        number: "600".into(),
        state: CallState::Ringing,
        transcript: vec![],
        affect: vec![],
        goal: None,
        error: None,
        started_ms: 1000,
        ended_ms: None,
        quality: CallQuality::default(),
        outcome: None,
        disposition: None,
        attempt: 1,
        retry_of: None,
    }
}

#[test]
fn append_affect_records_emotion_in_order() {
    let mut store = CallStore::new();
    store.insert(rec("c1"));
    store.append_affect(
        "c1",
        AffectEntry {
            role: Role::User,
            label: "interest".into(),
            ts_ms: 7,
        },
    );
    store.append_affect(
        "c1",
        AffectEntry {
            role: Role::Model,
            label: "calmness".into(),
            ts_ms: 9,
        },
    );
    let r = store.get("c1").unwrap();
    assert_eq!(r.affect.len(), 2);
    assert_eq!(r.affect[0].label, "interest");
    assert_eq!(r.affect[1].role, Role::Model);
}

#[test]
fn insert_and_get_roundtrip() {
    let mut store = CallStore::new();
    store.insert(rec("c1"));
    let got = store.get("c1").unwrap();
    assert_eq!(got.call_id, "c1");
    assert_eq!(got.state, CallState::Ringing);
    assert!(store.get("missing").is_none());
}

#[test]
fn state_and_transcript_mutations() {
    let mut store = CallStore::new();
    store.insert(rec("c1"));
    store.set_state("c1", CallState::InProgress);
    store.append_transcript(
        "c1",
        TranscriptEntry {
            role: Role::Model,
            text: "hi".into(),
            ts_ms: 5,
        },
    );
    let got = store.get("c1").unwrap();
    assert_eq!(got.state, CallState::InProgress);
    assert_eq!(got.transcript.len(), 1);
    assert_eq!(got.transcript[0].text, "hi");
}

#[test]
fn finalize_sets_terminal_fields() {
    let mut store = CallStore::new();
    store.insert(rec("c1"));
    store.set_transcript(
        "c1",
        vec![TranscriptEntry {
            role: Role::User,
            text: "bye".into(),
            ts_ms: 9,
        }],
    );
    store.finalize(
        "c1",
        CallState::Completed,
        Some(json(r#"{"ok": true}"#)),
        None,
        Some(CallOutcome::Completed),
        2000,
    );
    let got = store.get("c1").unwrap();
    assert_eq!(got.state, CallState::Completed);
    assert_eq!(got.ended_ms, Some(2000));
    assert!(got.goal.is_some());
    assert_eq!(got.transcript.len(), 1);
    assert_eq!(got.outcome, Some(CallOutcome::Completed));
}

#[test]
fn finalize_sets_outcome_and_record_defaults_attempt_and_retry_of() {
    let mut store = CallStore::new();
    let r = rec("c1");
    assert_eq!(r.attempt, 1);
    assert_eq!(r.retry_of, None);
    assert_eq!(r.outcome, None);
    store.insert(r);
    store.finalize(
        "c1",
        CallState::Failed,
        None,
        Some("busy".into()),
        Some(CallOutcome::Busy),
        3000,
    );
    let got = store.get("c1").unwrap();
    assert_eq!(got.outcome, Some(CallOutcome::Busy));
}

#[test]
fn list_returns_all_and_serializes() {
    let mut store = CallStore::new();
    store.insert(rec("c1"));
    store.insert(rec("c2"));
    assert_eq!(store.list().len(), 2);
    assert_eq!(store.get("c1").unwrap().state.as_str(), "ringing");
}

#[test]
fn queued_and_cancelled_serialize_snake_case() {
    assert_eq!(CallState::Queued.as_str(), "queued");
    assert_eq!(CallState::Cancelled.as_str(), "cancelled");
    assert_eq!(CallState::InProgress.as_str(), "in_progress");
    assert_eq!(Disposition::NoAnswer.as_str(), "no_answer");
}

#[test]
fn set_quality_updates_record() {
    let mut store = CallStore::new();
    store.insert(rec("c1"));
    store.set_quality(
        "c1",
        CallQuality {
            underruns: 3,
            starved_ms: 60,
            max_gap_ms: 220,
            uplink_received: 500,
            uplink_lost: 7,
            uplink_reordered: 1,
            uplink_rms: 2048,
            ..Default::default()
        },
    );
    let got = store.get("c1").unwrap();
    assert_eq!(got.quality.underruns, 3);
    assert_eq!(got.quality.uplink_lost, 7);
    assert_eq!(got.quality.uplink_received, 500);
}

#[test]
fn a_stored_record_replaces_the_one_of_its_id() {
    let mut store = CallStore::new();
    store.insert(rec("c1"));
    store.insert(CallRecord {
        state: CallState::Queued,
        ..rec("c1")
    });
    store.insert(rec("c2"));
    assert_eq!(store.list().len(), 2);
    let c = store.counts();
    assert_eq!((c.active, c.queued), (1, 1));
    store.set_state("missing", CallState::Failed);
    assert_eq!(store.counts(), c);
}

#[test]
fn dispositions_are_resolved_in_order() {
    let answered = CallShape {
        answered: true,
        duration_ms: 9000,
        transcript_len: 3,
        ended_by: EndedBy::RemoteClose,
    };
    let silent = CallShape {
        transcript_len: 0,
        ..answered
    };
    let unanswered = CallShape {
        answered: false,
        ..silent
    };
    let d = resolve_disposition;
    assert_eq!(d(true, Some("voicemail"), None, answered), Disposition::Cancelled);
    assert_eq!(d(false, None, Some(CallOutcome::Busy), unanswered), Disposition::Busy);
    assert_eq!(d(false, None, None, unanswered), Disposition::Failed);
    assert_eq!(d(false, Some("hold"), None, answered), Disposition::Hold);
    assert_eq!(d(false, Some("live"), None, silent), Disposition::Completed);
    assert_eq!(d(false, Some("?"), None, answered), Disposition::Completed);
    assert_eq!(d(false, None, None, silent), Disposition::Failed);
    let by_model = CallShape {
        ended_by: EndedBy::ModelEndCall,
        ..silent
    };
    assert_eq!(d(false, None, None, by_model), Disposition::Completed);
}

#[test]
fn wrapup_state_nudges_then_finalizes() {
    let mut w = WrapUpState::new(25_000, 15_000);
    assert!(!w.on_activity(0));
    assert!(matches!(w.phase(10_000), WrapPhase::Idle));
    assert!(matches!(w.phase(25_000), WrapPhase::Nudge));
    assert!(matches!(w.phase(30_000), WrapPhase::Idle));
    assert!(matches!(w.phase(40_000), WrapPhase::Finalize));
    assert!(w.on_activity(41_000));
    assert!(matches!(w.phase(50_000), WrapPhase::Idle));
}

#[test]
fn window_loss_pct_needs_enough_samples_then_reports_windowed_loss() {
    assert_eq!(window_loss_pct((0, 0), (100, 0)), None);
    assert_eq!(window_loss_pct((0, 0), (500, 0)), Some(single(0.0)));
    assert_eq!(window_loss_pct((0, 0), (450, 50)), Some(single(10.0)));
    let p = f32::from_bits(window_loss_pct((1000, 10), (1400, 50)).unwrap().bits);
    assert!((p - 9.09).abs() < 0.1, "got {p}");
    assert_eq!(p, 40.0f32 / 440.0 * 100.0);
}

fn server(cap: usize) -> ServerConfig {
    ServerConfig {
        api_key: "test-key".into(),
        max_concurrent_channels: cap,
        greet_after_silence_ms: 4000,
        ..Default::default()
    }
}

fn test_scenario() -> ScenarioConfig {
    ScenarioConfig {
        goal_schema: json(r#"{"type": "object", "required": ["disposition"]}"#),
        context: None,
        prompt_override: None,
    }
}

#[test]
fn scheduler_respects_cap_and_eligibility() {
    let cap = 1usize;
    let mut engine = Engine::new(&server(cap));
    let a = engine.place_call("600".into(), test_scenario(), 1000);
    let b = engine.place_call("601".into(), test_scenario(), 1000);
    for now in 1000..1020u64 {
        let _ = engine.dispatch_next(now);
        let m = engine.metrics_snapshot();
        assert!(
            m.active <= cap,
            "running {} must never exceed cap {cap}",
            m.active
        );
        let store_active = [&a, &b]
            .iter()
            .filter(|id| {
                matches!(
                    engine.store().get(id).unwrap().state,
                    CallState::Ringing | CallState::InProgress
                )
            })
            .count();
        assert!(
            store_active <= cap,
            "dispatched calls {store_active} must never exceed cap {cap}"
        );
        assert!(
            engine.store().get(&a).is_some() && engine.store().get(&b).is_some(),
            "both placed calls remain accounted for in the store"
        );
    }
    assert_eq!(engine.metrics_snapshot().placed_total, 2);

    let mut engine2 = Engine::new(&server(3));
    let c = engine2.place_call_at("602".into(), test_scenario(), 1200, 1, 1000);
    assert!(engine2.dispatch_next(1060).is_none());
    assert_eq!(engine2.next_wake(0), Some(1200));
    assert_eq!(
        engine2.store().get(&c).unwrap().state,
        CallState::Queued,
        "not-yet-eligible call must stay Queued despite free capacity"
    );
    assert!(engine2.dispatch_next(1360).is_some());
    assert_ne!(
        engine2.store().get(&c).unwrap().state,
        CallState::Queued,
        "call must be dispatched once its eligibility time passes"
    );
}

#[test]
fn due_calls_are_dispatched_until_the_channels_are_taken() {
    let mut engine = Engine::new(&server(2));
    for n in ["600", "601", "602"] {
        let _ = engine.place_call(n.into(), test_scenario(), 0);
    }
    let ids: Vec<String> = engine.dispatch_due(0).into_iter().map(|e| e.call_id).collect();
    assert_eq!(ids, ["call-0", "call-1"]);
    assert_eq!(engine.next_wake(0), None);
    engine.release("call-0");
    assert_eq!(engine.dispatch_due(0).len(), 1);
}

#[test]
fn place_call_queues_when_at_cap() {
    let mut engine = Engine::new(&server(0));
    let id = engine.place_call("600".into(), test_scenario(), 5);
    assert!(engine.dispatch_next(55).is_none());
    let rec = engine.store().get(&id).unwrap();
    assert_eq!(rec.state, CallState::Queued);
    assert_eq!(engine.queued_position(&id), Some(1));
}

#[test]
fn end_call_cancels_a_queued_call() {
    let mut engine = Engine::new(&server(0));
    let id = engine.place_call("600".into(), test_scenario(), 5);
    assert_eq!(engine.store().get(&id).unwrap().state, CallState::Queued);
    assert_eq!(engine.end_call(&id, 55), EndCall::Cancelled);
    let rec = engine.store().get(&id).unwrap();
    assert_eq!(rec.state, CallState::Ended);
    assert_eq!(rec.disposition, Some(Disposition::Cancelled));
    assert_eq!(rec.ended_ms, Some(55));
    assert_eq!(engine.end_call(&id, 60), EndCall::Unknown);
}

#[test]
fn a_running_call_is_told_to_end_once() {
    let mut engine = Engine::new(&server(1));
    let id = engine.place_call("600".into(), test_scenario(), 5);
    assert!(engine.dispatch_next(5).is_some());
    assert_eq!(engine.end_call(&id, 55), EndCall::Signal);
    assert_eq!(engine.end_call(&id, 56), EndCall::Unknown);
    assert_eq!(engine.store().get(&id).unwrap().state, CallState::Ringing);
}

#[test]
fn end_call_unknown_id_is_false() {
    let mut engine = Engine::new(&server(1));
    assert_eq!(engine.end_call("nope", 0), EndCall::Unknown);
}

#[test]
fn metrics_snapshot_has_quality_fields() {
    let m = Engine::new(&server(1)).metrics_snapshot();
    assert_eq!(m.underruns_total, 0);
    assert_eq!(m.starved_ms_total, 0);
    assert_eq!(m.quality_aborted_total, 0);
}

#[test]
fn metrics_snapshot_exposes_uplink_totals() {
    let m = Engine::new(&server(1)).metrics_snapshot();
    assert_eq!(m.uplink_received_total, 0);
    assert_eq!(m.uplink_lost_total, 0);
}

#[test]
fn metrics_snapshot_counts_placed_and_queued() {
    let mut engine = Engine::new(&server(0));
    let _a = engine.place_call("600".into(), test_scenario(), 0);
    let _b = engine.place_call("601".into(), test_scenario(), 0);
    let m = engine.metrics_snapshot();
    assert_eq!(m.placed_total, 2);
    assert_eq!(m.queued, 2);
    assert_eq!(m.active, 0);
    assert_eq!(m.channels_cap, 0);
}

#[test]
fn should_abort_disabled_never_aborts() {
    let cfg = QualityConfig {
        abort_underruns: 0,
        ..QualityConfig::default()
    };
    assert!(!should_abort(&cfg, 0));
    assert!(!should_abort(&cfg, 1_000_000));
}

#[test]
fn should_abort_trips_at_threshold_not_before() {
    let cfg = QualityConfig {
        abort_underruns: 40,
        ..QualityConfig::default()
    };
    assert!(!should_abort(&cfg, 0));
    assert!(!should_abort(&cfg, 39));
    assert!(should_abort(&cfg, 40));
    assert!(should_abort(&cfg, 41));
}

fn report(present: bool, loss: f32) -> DownlinkQuality {
    DownlinkQuality {
        present,
        loss_pct: single(loss),
        ..Default::default()
    }
}

#[test]
fn downlink_breach_requires_present_report_over_threshold() {
    assert!(downlink_breach(report(true, 15.0), single(10.0)));
    assert!(!downlink_breach(report(true, 5.0), single(10.0)));
    assert!(!downlink_breach(report(false, 99.0), single(10.0)));
    assert!(!downlink_breach(report(true, 10.0), single(10.0)));
}

#[test]
fn both_directions_are_merged_into_one_quality() {
    let q = merge_quality(
        CallQuality {
            underruns: 2,
            ..Default::default()
        },
        UplinkQuality {
            received: 10,
            lost: 1,
            reordered: 3,
        },
        report(true, 2.5),
    );
    assert_eq!((q.underruns, q.uplink_received, q.uplink_lost, q.uplink_reordered), (2, 10, 1, 3));
    assert_eq!(q.downlink_loss_pct, single(2.5));
}

#[test]
fn bump_disposition_counts_per_kind() {
    let mut c = Counters::default();
    bump_disposition(&mut c, Disposition::Voicemail);
    bump_disposition(&mut c, Disposition::Announcement);
    bump_disposition(&mut c, Disposition::Completed);
    assert_eq!(c.voicemail, 1);
    assert_eq!(c.announcement, 1);
    assert_eq!(c.completed, 1);
}

#[test]
fn finalize_call_resolves_records_and_bumps() {
    let mut engine = Engine::new(&server(1));
    let id = engine.place_call("600".into(), test_scenario(), 0);
    assert!(engine.dispatch_next(0).is_some());
    let d = engine.finalize_call(
        &id,
        Ending {
            cancelled: false,
            amd: Some("voicemail".into()),
            sip: None,
            shape: CallShape {
                answered: true,
                duration_ms: 9000,
                transcript_len: 3,
                ended_by: EndedBy::RemoteClose,
            },
            goal: None,
            error: None,
            quality_aborted: false,
        },
        1234,
    );
    assert_eq!(d, Disposition::Voicemail);
    let rec = engine.store().get(&id).unwrap();
    assert_eq!(rec.state, CallState::Ended);
    assert_eq!(rec.disposition, Some(Disposition::Voicemail));
    assert_eq!(rec.ended_ms, Some(1234));
    assert_eq!(engine.metrics_snapshot().voicemail_total, 1);
}

#[test]
fn should_retry_busy_stops_at_max() {
    let cfg = RetryConfig {
        busy_max_attempts: 3,
        busy_retry_interval_ms: 1000,
    };
    assert!(should_retry_busy(1, &cfg));
    assert!(should_retry_busy(2, &cfg));
    assert!(!should_retry_busy(3, &cfg));
}

#[test]
fn requeue_reuses_call_id_without_new_record() {
    let mut engine = Engine::new(&server(2));
    let id = engine.place_call_at("100".into(), test_scenario(), 10, 1, 10);
    assert!(engine.dispatch_next(11).is_some());
    assert_eq!(engine.store().get(&id).unwrap().state, CallState::Ringing);

    engine.requeue(id.clone(), "100".into(), test_scenario(), 12, 2);

    assert!(
        engine.store().get("call-1").is_none(),
        "must not mint a new call_id"
    );
    assert_eq!(engine.store().get(&id).unwrap().state, CallState::Queued);
    assert_eq!(engine.metrics_snapshot().queued, 1);
    let popped = engine.dispatch_next(13).unwrap();
    assert_eq!(popped.call_id, id);
    assert_eq!(popped.attempt, 2);
    assert_eq!(engine.store().get(&id).unwrap().attempt, 2);
}

#[test]
fn suggested_poll_interval_adapts_to_queue() {
    let mut engine = Engine::new(&server(0));
    assert_eq!(engine.suggested_poll_interval_ms("nope"), 5000);
    let a = engine.place_call("600".into(), test_scenario(), 0);
    assert_eq!(engine.suggested_poll_interval_ms(&a), 10_000);
    let b = engine.place_call("601".into(), test_scenario(), 0);
    assert_eq!(engine.suggested_poll_interval_ms(&b), 15_000);
}

#[test]
fn ring_wait_feeds_silence_then_returns_codec() {
    assert_eq!(keepalive_frame(), vec![0i16; 320]);
    let codec = NegotiatedCodec {
        pt: 0,
        kind: G711Kind::Ulaw,
        ptime_ms: 20,
    };
    match ring_outcome(Some(SipEvent::Answered { codec })) {
        RingOutcome::Answered(c) => {
            assert_eq!(c.pt, 0);
            assert_eq!(c.kind, G711Kind::Ulaw);
        }
        _ => panic!("expected Answered"),
    }
}

fn busy() -> TermReason {
    TermReason::Failed {
        outcome: CallOutcome::Busy,
        detail: "486 Busy Here".into(),
    }
}

#[test]
fn ring_wait_terminated_returns_terminated_and_stops_feeding() {
    match ring_outcome(Some(SipEvent::Terminated(busy()))) {
        RingOutcome::Terminated(TermReason::Failed { outcome, .. }) => {
            assert_eq!(outcome, CallOutcome::Busy);
        }
        _ => panic!("expected Terminated(Failed{{Busy}})"),
    }
}

#[test]
fn ring_wait_closed_channel_returns_closed() {
    assert!(matches!(ring_outcome(None), RingOutcome::Closed));
}

fn healthy() -> NetworkHealth {
    NetworkHealth {
        rtt_p50_ms: 40,
        rtt_p95_ms: 120,
        jitter_ms: 15,
        loss_pct: single(0.0),
    }
}

fn ringing(attempt: u32, s: &ServerConfig) -> RunCall {
    let mut c = RunCall::new(s, attempt);
    assert!(matches!(c.on_preflight(Ok(healthy()), "0.0"), PreflightStep::Dial));
    assert!(c.on_invite(Ok(())).is_none());
    c
}

#[test]
fn a_bad_network_refuses_the_call() {
    let mut s = server(1);
    s.net_check.retry_max = 1;
    let mut c = RunCall::new(&s, 1);
    let bad = NetworkHealth {
        rtt_p95_ms: 800,
        ..healthy()
    };
    let e = refused(c.on_preflight(Ok(bad), "0.0"));
    assert_eq!(
        e.error.as_deref(),
        Some("network preflight unusable: rtt_p50=40ms rtt_p95=800ms jitter=15ms loss=0.0%")
    );
    assert_eq!(c.phase(), Phase::Over);
    let mut d = RunCall::new(&s, 1);
    let e = refused(d.on_preflight(Err("no route".into()), ""));
    assert_eq!(e.error.as_deref(), Some("network preflight failed: no route"));
}

fn refused(step: PreflightStep) -> Ending {
    match step {
        PreflightStep::End(e) => e,
        other => panic!("got {other:?}"),
    }
}

#[test]
fn preflights_are_retried_with_doubling_delays() {
    let s = server(1);
    let mut c = RunCall::new(&s, 1);
    for delay in [5000u64, 10_000] {
        match c.on_preflight(Err("no route".into()), "") {
            PreflightStep::Retry { delay_ms } => assert_eq!(delay_ms, delay),
            other => panic!("got {other:?}"),
        }
        assert_eq!(c.phase(), Phase::Preflight);
    }
    let _ = refused(c.on_preflight(Err("no route".into()), ""));
    let mut c = RunCall::new(&s, 1);
    let _ = c.on_preflight(Err("no route".into()), "");
    assert!(matches!(c.on_preflight(Ok(healthy()), "0.0"), PreflightStep::Dial));

    let cfg = NetCheckConfig {
        retry_max: 100,
        retry_backoff_base_ms: 3,
        ..NetCheckConfig::default()
    };
    assert_eq!(preflight_backoff(1, &cfg), Some(3));
    assert_eq!(preflight_backoff(5, &cfg), Some(48));
    assert_eq!(preflight_backoff(99, &cfg), Some(u64::MAX));
    assert_eq!(preflight_backoff(100, &cfg), None);
    let none = NetCheckConfig {
        retry_max: 0,
        ..cfg
    };
    assert_eq!(preflight_backoff(1, &none), None);
}

#[test]
fn repeated_preflight_failures_hold_the_queue() {
    let mut engine = Engine::new(&server(4));
    let _ = engine.place_call("600".into(), test_scenario(), 0);
    for _ in 0..3 {
        assert!(engine.on_preflight(false, 1000));
    }
    assert!(engine.dispatch_due(2000).is_empty());
    assert_eq!(engine.next_wake(2000), Some(61_000));
    let _ = engine.place_call("601".into(), test_scenario(), 2000);
    assert_eq!(engine.dispatch_due(61_000).len(), 1, "one probe, and no more");
    assert!(engine.on_preflight(true, 62_000));
    assert_eq!(engine.dispatch_due(62_000).len(), 1);
}

#[test]
fn a_channel_comes_back_once() {
    let mut engine = Engine::new(&server(1));
    let id = engine.place_call("600".into(), test_scenario(), 0);
    let _ = engine.place_call("601".into(), test_scenario(), 0);
    assert_eq!(engine.dispatch_due(0).len(), 1);
    assert!(!engine.release("call-1"));
    assert_eq!(engine.metrics_snapshot().active, 1);
    assert!(engine.release(&id));
    assert!(!engine.release(&id));
    assert_eq!(engine.metrics_snapshot().active, 0);
    assert_eq!(engine.dispatch_due(0).len(), 1);
}

#[test]
fn a_hang_up_leaves_the_model_a_grace() {
    let s = server(1);
    let hang_up = || Some(SipEvent::Terminated(TermReason::RemoteHangup));
    let mut c = live(&s);
    assert!(matches!(c.on_sip(hang_up(), 2000)[..], [CallAction::SendHarvestCue]));
    assert!(c.harvesting() && c.ended().is_none());
    assert!(c.on_bridge_end(Some(BridgeEnd::PhoneClosed), 2001).is_empty());
    let goal = json(r#"{"amd":"live"}"#);
    let _ = c.on_event(Some(Event::EndCall { goal }), 2500);
    assert_eq!(c.ended(), Some(LoopEnd::Completed));
    assert!(!c.drains(true, 0), "nobody is there to hear it");

    let mut c = live(&s);
    assert_eq!(c.on_bridge_end(Some(BridgeEnd::PhoneClosed), 2000).len(), 1);
    let tick = |c: &mut RunCall, at: u64| {
        let _ = c.on_tick(CallQuality::default(), UplinkQuality::default(), report(true, 99.0), at);
    };
    tick(&mut c, 2000 + s.wrap_up_grace_ms - 1);
    assert!(c.ended().is_none());
    tick(&mut c, 2000 + s.wrap_up_grace_ms);
    assert_eq!(c.ended(), Some(LoopEnd::HungUp));

    let mut c = live(&s);
    let _ = c.on_sip(None, 2000);
    let _ = c.on_event(None, 2100);
    assert_eq!(c.ended(), Some(LoopEnd::HungUp));
}

#[test]
fn a_busy_line_is_dialed_again_until_the_attempts_run_out() {
    let mut s = server(1);
    s.retry = RetryConfig {
        busy_max_attempts: 2,
        busy_retry_interval_ms: 500,
    };
    let mut c = ringing(1, &s);
    assert!(matches!(
        c.on_ring(RingOutcome::Terminated(busy()), 1000),
        RingStep::Retry {
            eligible_at_ms: 1500,
            attempt: 2
        }
    ));
    let mut c = ringing(2, &s);
    match c.on_ring(RingOutcome::Terminated(busy()), 1000) {
        RingStep::End(e) => assert_eq!(e.sip, Some(CallOutcome::Busy)),
        other => panic!("got {other:?}"),
    }
}

fn live(s: &ServerConfig) -> RunCall {
    let mut c = ringing(1, s);
    let codec = NegotiatedCodec {
        pt: 0,
        kind: G711Kind::Ulaw,
        ptime_ms: 20,
    };
    assert!(matches!(c.on_ring(RingOutcome::Answered(codec), 1000), RingStep::Bridge(_)));
    assert!(c.on_session(Ok(()), 1000).is_none());
    c
}

#[test]
fn the_models_end_of_call_completes_it() {
    let s = server(1);
    let mut c = live(&s);
    assert_eq!(
        c.on_event(
            Some(Event::Transcript {
                role: Role::User,
                text: "hello".into(),
                final_: true
            }),
            1100
        )
        .len(),
        1
    );
    let _ = c.on_event(
        Some(Event::EndCall {
            goal: json(r#"{"amd":"voicemail"}"#),
        }),
        1200,
    );
    assert_eq!(c.ended(), Some(LoopEnd::Completed));
    assert!(c.drains(true, 0) && !c.drains(false, 0) && !c.drains(true, 8000));
    let e = c.finish(None, 1, EndedBy::ModelEndCall, "", 5000);
    assert_eq!(e.amd.as_deref(), Some("voicemail"));
    assert_eq!(e.shape.duration_ms, 4000);
    assert!(e.shape.answered && !e.cancelled && e.error.is_none());
}

#[test]
fn dead_air_is_nudged_then_ended() {
    let s = server(1);
    let mut c = live(&s);
    let t = c.on_tick(CallQuality::default(), UplinkQuality::default(), report(false, 0.0), 26_000);
    assert!(matches!(t.actions[..], [CallAction::SendEndCallCue, CallAction::Mute])
        || matches!(t.actions[..], [CallAction::Mute, CallAction::SendEndCallCue]));
    let t = c.on_tick(CallQuality::default(), UplinkQuality::default(), report(false, 0.0), 41_000);
    assert!(t.actions.is_empty());
    assert!(c.ended().is_some());
}

#[test]
fn downlink_loss_aborts_only_when_it_lasts() {
    let s = server(1);
    let mut c = live(&s);
    for k in 0..4u64 {
        let _ = c.on_tick(CallQuality::default(), UplinkQuality::default(), report(true, 20.0), 2000 + k);
        assert!(c.ended().is_none());
    }
    let _ = c.on_tick(CallQuality::default(), UplinkQuality::default(), report(true, 20.0), 2005);
    assert_eq!(c.aborted(), Some(Abort::DownlinkLoss(single(20.0))));
    assert_eq!(
        c.aborted().unwrap().to_string("20.0"),
        "aborted: downlink RTP loss 20.0% reported by callee over ~5s"
    );
    let e = c.finish(None, 0, EndedBy::CallerHangup, "20.0", 5000);
    assert!(e.quality_aborted);
    assert_eq!(
        e.error.as_deref(),
        Some("aborted: downlink RTP loss 20.0% reported by callee over ~5s")
    );
}

#[test]
fn each_side_can_end_a_live_call() {
    let s = server(1);
    let mut c = live(&s);
    let mut off = server(1);
    off.wrap_up_grace_ms = 0;
    let mut d = live(&off);
    let hang_up = Some(SipEvent::Terminated(TermReason::RemoteHangup));
    assert!(d.on_sip(hang_up, 2000).is_empty());
    assert_eq!(d.ended(), Some(LoopEnd::HungUp));
    assert!(c.on_bridge_end(Some(BridgeEnd::GeminiClosed), 2000).is_empty());
    assert_eq!(c.ended(), Some(LoopEnd::Failed));
    let mut c = live(&s);
    c.on_cancel();
    assert_eq!(c.ended(), Some(LoopEnd::Cancelled));
    assert!(c.finish(None, 0, EndedBy::CallerHangup, "", 2000).cancelled);
    let mut c = live(&s);
    c.on_deadline();
    assert!(c.ended().is_some());
}

fn args(to: &str) -> PlaceCallArgs {
    PlaceCallArgs {
        to_number: to.into(),
        goal_schema: json(r#"{ "type": "object" }"#),
        context: None,
        prompt_override: None,
        schedule_at: None,
    }
}

fn immediate(p: &Placed) -> Value {
    match &p.reply {
        Reply::Immediate(text) => json(text),
        other => panic!("expected an immediate reply, got {other:?}"),
    }
}

#[test]
fn place_then_status_and_transcript_roundtrip() {
    let mut srv = KutsuServer::new(Engine::new(&server(1)));
    let out = srv.place_call_inner(args("600"), false, 77).unwrap();
    let body = immediate(&out);
    let call_id = body["call_id"].as_str().unwrap().to_string();
    assert!(!call_id.is_empty());
    assert_eq!(body["server_time_unix"], 77);

    let status = json(&srv.get_call_status(&call_id, json("0.5"), 78).unwrap());
    assert_eq!(status["call_id"], call_id);
    assert!(status.get("state").is_some());
    assert!(status.get("goal").is_some());
    assert_eq!(status["attempt"], 1);
    assert_eq!(status["queued_position"], 1);
    assert_eq!(status["state"], "queued");
    assert_eq!(status["ended_ms"], Value::Null);
    assert_eq!(status.as_object().unwrap().len(), 12);

    let tr = json(&srv.get_call_transcript(&call_id, json("0.5")).unwrap());
    assert_eq!(tr["call_id"], call_id);
    assert!(tr.get("transcript").is_some());
    assert!(tr.get("disposition").is_some());

    let (ended, outcome) = srv.end_call(&call_id, 80).unwrap();
    assert_eq!(json(&ended)["signalled"], true);
    assert_eq!(outcome, EndCall::Cancelled);
    let (ended, _) = srv.end_call(&call_id, 81).unwrap();
    assert_eq!(json(&ended)["signalled"], false);
}

#[test]
fn place_call_empty_number_is_invalid_params() {
    let mut srv = KutsuServer::new(Engine::new(&server(1)));
    let ToolError::InvalidParams(m) = srv.place_call_inner(args("   "), false, 0).unwrap_err();
    assert_eq!(m, "to_number must not be empty");
    assert!(srv.engine.store().list().is_empty());
}

#[test]
fn unknown_call_id_is_invalid_params() {
    let mut srv = KutsuServer::new(Engine::new(&server(1)));
    let errors = [
        srv.get_call_status("x", Value::Null, 0).unwrap_err(),
        srv.get_call_transcript("x", Value::Null).unwrap_err(),
        srv.end_call("x", 0).unwrap_err(),
    ];
    for ToolError::InvalidParams(m) in errors {
        assert_eq!(m, "unknown call_id: x");
    }
}

#[test]
fn call_status_label_and_terminal() {
    let rec = |state: CallState, disposition: Option<Disposition>| CallRecord {
        state,
        disposition,
        ..rec("c1")
    };
    assert_eq!(call_status_label(&rec(CallState::Queued, None)), "queued");
    assert_eq!(call_status_label(&rec(CallState::Ringing, None)), "ringing");
    assert_eq!(call_status_label(&rec(CallState::InProgress, None)), "in progress");
    assert_eq!(
        call_status_label(&rec(CallState::Ended, Some(Disposition::Completed))),
        "completed"
    );
    assert_eq!(
        call_status_label(&rec(CallState::Ended, Some(Disposition::Cancelled))),
        "cancelled"
    );
    assert_eq!(call_status_label(&rec(CallState::Ended, None)), "ended");

    assert!(!is_terminal_state(CallState::Queued));
    assert!(!is_terminal_state(CallState::Ringing));
    assert!(!is_terminal_state(CallState::InProgress));
    assert!(is_terminal_state(CallState::Ended));
}

#[test]
fn task_progress_names_the_queue_position() {
    assert_eq!(
        status_message("call-3", &rec("call-3"), None),
        "call call-3: ringing"
    );
    assert_eq!(
        status_message("call-3", &rec("call-3"), Some(2)),
        "call call-3: ringing (queue position 2)"
    );
}

#[test]
fn the_quality_of_a_reply_is_the_record_s() {
    let q = CallQuality {
        underruns: 1,
        starved_ms: 20,
        max_gap_ms: 3,
        uplink_received: 400,
        uplink_lost: 5,
        uplink_reordered: 6,
        uplink_rms: 700,
        downlink_loss_pct: single(0.5),
        downlink_jitter_ms: 8,
        downlink_rtt_ms: 90,
    };
    let expected = json(
        r#"{"underruns":1,"starved_ms":20,"max_gap_ms":3,"uplink_received":400,"uplink_lost":5,
            "uplink_reordered":6,"uplink_rms":700,"downlink_loss_pct":0.5,"downlink_jitter_ms":8,
            "downlink_rtt_ms":90}"#,
    );
    assert_eq!(quality_value(&q, json("0.5")), expected);

    let mut srv = KutsuServer::new(Engine::new(&server(1)));
    let id = srv.engine.place_call("600".into(), test_scenario(), 0);
    srv.engine.set_quality(&id, q, false);
    let status = json(&srv.get_call_status(&id, json("0.5"), 9).unwrap());
    assert_eq!(status["quality"], expected);
    let transcript = json(&srv.get_call_transcript(&id, json("0.5")).unwrap());
    assert_eq!(transcript["quality"], expected);
}

#[test]
fn a_result_carries_the_record_s_transcript() {
    let done = CallRecord {
        transcript: vec![
            TranscriptEntry {
                role: Role::User,
                text: "allo".into(),
                ts_ms: 5,
            },
            TranscriptEntry {
                role: Role::Model,
                text: "hello".into(),
                ts_ms: 7,
            },
        ],
        disposition: Some(Disposition::Completed),
        ..rec("c1")
    };
    let body = json(&task_result_for(Some(&done), 9).unwrap());
    assert_eq!(
        body["transcript"],
        json(r#"[{"role":"user","text":"allo","ts_ms":5},{"role":"model","text":"hello","ts_ms":7}]"#)
    );
}

#[test]
fn task_result_for_maps_each_disposition() {
    let rec = |disposition: Option<Disposition>, error: Option<&str>| CallRecord {
        state: CallState::Ended,
        goal: Some(json(r#"{ "x": 1 }"#)),
        error: error.map(String::from),
        ended_ms: Some(1),
        disposition,
        ..rec("c1")
    };
    let result = |r: Option<&CallRecord>| task_result_for(r, 9);

    let t = result(Some(&rec(Some(Disposition::Completed), None))).unwrap();
    assert!(t.contains("\"goal\"") && t.contains("\"transcript\""));
    assert!(!t.contains("\"disposition\""));

    for (d, name) in [
        (Disposition::Voicemail, "voicemail"),
        (Disposition::Announcement, "announcement"),
        (Disposition::Ivr, "ivr"),
        (Disposition::Hold, "hold"),
    ] {
        let t = result(Some(&rec(Some(d), None))).unwrap();
        assert!(
            t.contains(&format!("\"disposition\":\"{name}\"")),
            "got: {t}"
        );
        assert!(t.contains("\"goal\""));
    }

    assert!(matches!(
        result(Some(&rec(Some(Disposition::Cancelled), None))),
        Err(TaskExit::Cancelled)
    ));

    for (d, name) in [
        (Disposition::Busy, "busy"),
        (Disposition::NoAnswer, "no_answer"),
        (Disposition::NotFound, "not_found"),
        (Disposition::Unavailable, "unavailable"),
        (Disposition::Rejected, "rejected"),
        (Disposition::Failed, "failed"),
    ] {
        match result(Some(&rec(Some(d), None))) {
            Err(TaskExit::Error(e)) => {
                assert!(e.contains(name), "disposition {name}: {e}")
            }
            other => panic!("expected Err(Error) for {name}, got {other:?}"),
        }
    }

    match result(Some(&rec(Some(Disposition::Failed), Some("boom")))) {
        Err(TaskExit::Error(e)) => assert!(e.contains("boom")),
        other => panic!("expected Err(Error), got {other:?}"),
    }

    match result(None) {
        Err(TaskExit::Error(e)) => assert!(e.contains("no disposition")),
        other => panic!("expected Err(Error), got {other:?}"),
    }
}

#[test]
fn watch_call_to_terminal_returns_cancelled() {
    let mut engine = Engine::new(&server(0));
    let id = engine.place_call("600".into(), test_scenario(), 0);
    assert_eq!(engine.store().get(&id).unwrap().state, CallState::Queued);
    assert!(!is_terminal_state(engine.store().get(&id).unwrap().state));
    engine.end_call(&id, 100);
    let rec = engine.store().get(&id).unwrap();
    assert_eq!(rec.state, CallState::Ended);
    assert_eq!(rec.disposition, Some(Disposition::Cancelled));
}

#[test]
fn place_call_task_branch_returns_task_handle() {
    let mut srv = KutsuServer::new(Engine::new(&server(0)));
    match srv.place_call_inner(args("600"), true, 0).unwrap().reply {
        Reply::Task { ttl_ms, poll_ms } => {
            assert_eq!(ttl_ms, 600 * 1000 + 30_000);
            assert_eq!(poll_ms, 10_000);
        }
        other => panic!("expected a Task reply, got {other:?}"),
    }
}

#[test]
fn scheduled_call_takes_immediate_branch() {
    let mut srv = KutsuServer::new(Engine::new(&server(0)));
    let now = 1_000_000;
    let mut a = args("600");
    a.schedule_at = Some(now + 60_000);
    let body = immediate(&srv.place_call_inner(a, true, now).unwrap());
    assert!(body
        .get("call_id")
        .and_then(|v| v.as_str())
        .is_some_and(|s| !s.is_empty()));
    assert!(body.get("server_time_unix").and_then(|v| v.as_u64()).is_some());
    let mut past = args("601");
    past.schedule_at = Some(now - 1);
    assert!(matches!(
        srv.place_call_inner(past, true, now).unwrap().reply,
        Reply::Task { .. }
    ));
}

#[test]
fn graceful_teardown_cancels_live_calls() {
    let mut engine = Engine::new(&server(0));
    let id = engine.place_call("600".into(), test_scenario(), 0);
    assert_eq!(engine.store().get(&id).unwrap().state, CallState::Queued);
    assert!(graceful_teardown(&mut engine, 50).is_empty());
    let rec = engine.store().get(&id).unwrap();
    assert_eq!(rec.disposition, Some(Disposition::Cancelled));
    assert_eq!(engine.metrics_snapshot().queued, 0);
}

#[test]
fn teardown_tells_the_running_calls() {
    let mut engine = Engine::new(&server(1));
    let a = engine.place_call("600".into(), test_scenario(), 0);
    let b = engine.place_call("601".into(), test_scenario(), 0);
    assert_eq!(engine.dispatch_due(0).len(), 1);
    assert_eq!(graceful_teardown(&mut engine, 50), [a]);
    assert_eq!(
        engine.store().get(&b).unwrap().disposition,
        Some(Disposition::Cancelled)
    );
}

#[test]
fn prometheus_has_all_series() {
    let m = MetricsSnapshot {
        active: 1,
        queued: 2,
        placed_total: 3,
        completed_total: 4,
        failed_total: 5,
        cancelled_total: 6,
        channels_cap: 3,
        ..Engine::new(&server(0)).metrics_snapshot()
    };
    let s = render_prometheus(&m);
    for line in [
        "kutsu_calls_active 1",
        "kutsu_calls_queued 2",
        "kutsu_calls_placed_total 3",
        "kutsu_calls_completed_total 4",
        "kutsu_calls_failed_total 5",
        "kutsu_calls_cancelled_total 6",
        "kutsu_channels_cap 3",
    ] {
        assert!(s.contains(line), "missing: {line}");
    }
    assert!(s.contains("# TYPE kutsu_calls_placed_total counter"));
    assert!(s.starts_with(
        "# HELP kutsu_calls_active Calls ringing or in progress.\n# TYPE kutsu_calls_active gauge\nkutsu_calls_active 1\n"
    ));
}

#[test]
fn token_matches_accepts_only_the_exact_token() {
    assert!(token_matches("s3cret-token", "s3cret-token"));
    assert!(token_matches("", ""));
    assert!(!token_matches("s3cret-token", "s3cret-tokeN"));
    assert!(!token_matches("s3cret-token", "s3cret-toke"));
    assert!(!token_matches("s3cret-token", "s3cret-tokenX"));
    assert!(!token_matches("", "x"));
}

#[test]
fn the_guard_wants_a_bearer_header() {
    assert!(bearer_guard(None, None));
    assert!(bearer_guard(Some("Bearer t"), Some("t")));
    assert!(!bearer_guard(Some("bearer t"), Some("t")));
    assert!(!bearer_guard(Some("Bearer"), Some("t")));
    assert!(!bearer_guard(Some("Bearer tt"), Some("t")));
    assert!(!bearer_guard(None, Some("t")));
}
