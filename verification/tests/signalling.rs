//! SIP: outcomes, media quality, errors, and the decisions of an answered call.
use kutsu::error::Error;
use kutsu::single::Single;
use kutsu::sip::call::{
    call_id_of, classify_completion_err, map_make_err, neg_codec, AnsweredCall, CompletionFault,
    MakeFault, Report, Stage, Turn,
};
use kutsu::sip::{
    g711_kind_from_pt, outcome_from_status, CallOutcome, DownlinkQuality, DownlinkQualityShared,
    G711Kind, SipError, TermReason, UplinkQuality, UplinkQualityShared, UplinkStats,
};

#[test]
fn maps_known_codes() {
    assert_eq!(outcome_from_status(486), CallOutcome::Busy);
    assert_eq!(outcome_from_status(600), CallOutcome::Busy);
    assert_eq!(outcome_from_status(404), CallOutcome::NotFound);
    assert_eq!(outcome_from_status(484), CallOutcome::NotFound);
    assert_eq!(outcome_from_status(408), CallOutcome::NoAnswer);
    assert_eq!(outcome_from_status(480), CallOutcome::NoAnswer);
    assert_eq!(outcome_from_status(603), CallOutcome::Rejected);
    assert_eq!(outcome_from_status(403), CallOutcome::Rejected);
    assert_eq!(outcome_from_status(503), CallOutcome::Unavailable);
    assert_eq!(outcome_from_status(200), CallOutcome::Completed);
}

#[test]
fn unmapped_code_is_failed() {
    assert_eq!(outcome_from_status(481), CallOutcome::Failed);
    assert_eq!(outcome_from_status(100), CallOutcome::Failed);
}

#[test]
fn retryable_only_busy_and_no_answer() {
    assert!(CallOutcome::Busy.retryable());
    assert!(CallOutcome::NoAnswer.retryable());
    for o in [
        CallOutcome::Completed,
        CallOutcome::Rejected,
        CallOutcome::NotFound,
        CallOutcome::Unavailable,
        CallOutcome::Failed,
    ] {
        assert!(!o.retryable());
    }
}

fn run(seqs: &[u16]) -> UplinkQuality {
    let mut s = UplinkStats::new();
    for &q in seqs {
        s.observe(q);
    }
    s.snapshot()
}

fn counts(received: u64, lost: u64, reordered: u64) -> UplinkQuality {
    UplinkQuality {
        received,
        lost,
        reordered,
    }
}

#[test]
fn empty_is_zero() {
    assert_eq!(run(&[]), UplinkQuality::default());
}

#[test]
fn in_order_has_no_loss() {
    assert_eq!(run(&[100, 101, 102, 103, 104]), counts(5, 0, 0));
}

#[test]
fn single_gap_counts_one_lost() {
    assert_eq!(run(&[100, 101, 103, 104]), counts(4, 1, 0));
}

#[test]
fn wider_gap_counts_all_lost() {
    assert_eq!(run(&[100, 105]), counts(2, 4, 0));
}

#[test]
fn reorder_does_not_inflate_loss() {
    assert_eq!(run(&[100, 101, 103, 102, 104]), counts(5, 0, 1));
}

#[test]
fn duplicate_is_counted_not_lost() {
    let q = run(&[100, 101, 101, 102]);
    assert_eq!(q.lost, 0);
    assert_eq!(q.received, 4);
}

#[test]
fn wraparound_has_no_loss() {
    assert_eq!(run(&[65534, 65535, 0, 1]), counts(4, 0, 0));
}

#[test]
fn uplink_shared_roundtrips_published_snapshot() {
    let mut shared = UplinkQualityShared::new();
    assert_eq!(shared.snapshot(), UplinkQuality::default());
    let q = counts(50, 3, 2);
    shared.publish(&q);
    assert_eq!(shared.snapshot(), q);
}

fn single(x: f32) -> Single {
    Single { bits: x.to_bits() }
}

#[test]
fn snapshot_defaults_to_absent() {
    let shared = DownlinkQualityShared::new();
    let q = shared.snapshot();
    assert!(!q.present);
    assert_eq!(q.loss_pct, single(0.0));
}

#[test]
fn downlink_shared_roundtrips_published_snapshot() {
    let mut shared = DownlinkQualityShared::new();
    let q = DownlinkQuality {
        present: true,
        loss_pct: single(12.5),
        jitter_ms: 30,
        rtt_ms: 120,
    };
    shared.publish(&q);
    assert_eq!(shared.snapshot(), q);
}

#[test]
fn sip_sip_error_display_and_crate_error_from() {
    let e = SipError::Invite("486 Busy Here".into());
    assert_eq!(e.to_string(), "invite rejected: 486 Busy Here");
    let ce: Error = SipError::NotAnswered.into();
    assert_eq!(ce.to_string(), "sip error: call not answered");
}

#[test]
fn mod_sip_error_display_and_crate_error_from() {
    let e = SipError::Invite("486 Busy Here".into());
    assert_eq!(e.to_string(), "invite rejected: 486 Busy Here");
    let ce: Error = SipError::NotAnswered.into();
    assert_eq!(ce.to_string(), "sip error: call not answered");
}

#[test]
fn every_sip_error_has_its_message() {
    assert_eq!(
        SipError::Config("server must be host:port").to_string(),
        "sip config: server must be host:port"
    );
    assert_eq!(SipError::Bind("in use".into()).to_string(), "sip bind/io: in use");
    assert_eq!(SipError::Media("no sdp".into()).to_string(), "media error: no sdp");
    assert_eq!(SipError::Register("403".into()).to_string(), "register failed: 403");
    assert_eq!(SipError::RuntimeGone.to_string(), "sip runtime unavailable");
}

#[test]
fn g711_pt_maps_to_kind() {
    assert!(matches!(g711_kind_from_pt(0), Some(G711Kind::Ulaw)));
    assert!(matches!(g711_kind_from_pt(8), Some(G711Kind::Alaw)));
    assert!(g711_kind_from_pt(9).is_none());
}

#[test]
fn unknown_payload_type_is_taken_for_ulaw() {
    assert_eq!(neg_codec(8).kind, G711Kind::Alaw);
    let c = neg_codec(9);
    assert_eq!((c.pt, c.kind, c.ptime_ms), (9, G711Kind::Ulaw, 20));
}

#[test]
fn transport_calls_are_numbered() {
    assert_eq!(call_id_of(1), "kutsu-1");
    assert_eq!(call_id_of(120), "kutsu-120");
}

#[test]
fn failed_invites_are_classified() {
    assert_eq!(
        map_make_err(MakeFault::Refused("486 Busy Here".into())).to_string(),
        "invite rejected: 486 Busy Here"
    );
    assert!(matches!(map_make_err(MakeFault::TimedOut), SipError::NotAnswered));
    assert_eq!(
        map_make_err(MakeFault::Other("sdp".into())).to_string(),
        "media error: sdp"
    );
    let (outcome, detail) = classify_completion_err(CompletionFault::Status {
        code: 486,
        line: "486 Busy Here".into(),
    });
    assert_eq!((outcome, detail.as_str()), (CallOutcome::Busy, "486 Busy Here"));
    let (outcome, detail) = classify_completion_err(CompletionFault::TimedOut);
    assert_eq!((outcome, detail.as_str()), (CallOutcome::NoAnswer, "request timed out"));
    let (outcome, detail) = classify_completion_err(CompletionFault::Other("x".into()));
    assert_eq!((outcome, detail.as_str()), (CallOutcome::Failed, "x"));
}

#[test]
fn media_in_either_order_answers_the_call() {
    let mut a = AnsweredCall::new();
    assert!(matches!(a.on_report(Report::SenderAdded { pt: 8 }), Turn::Wait));
    match a.on_report(Report::ReceiverAdded) {
        Turn::Answered(c) => assert_eq!(c.kind, G711Kind::Alaw),
        other => panic!("expected Answered, got {other:?}"),
    }
    let mut b = AnsweredCall::new();
    assert!(matches!(b.on_report(Report::ReceiverAdded), Turn::Wait));
    assert!(matches!(b.on_report(Report::SenderAdded { pt: 0 }), Turn::Answered(_)));
    assert_eq!(b.stage(), Stage::Live);
    assert!(matches!(b.on_report(Report::SenderAdded { pt: 8 }), Turn::Wait));
    assert!(matches!(b.on_media_deadline(), Turn::Wait));
}

#[test]
fn a_call_ends_for_each_reason() {
    let mut a = AnsweredCall::new();
    match a.on_media_deadline() {
        Turn::Over {
            reason: TermReason::Failed { outcome, detail },
            terminate: true,
        } => {
            assert_eq!(outcome, CallOutcome::Failed);
            assert_eq!(detail, "answered but media was not negotiated in time");
        }
        other => panic!("got {other:?}"),
    }
    let mut b = AnsweredCall::new();
    assert!(matches!(b.on_hangup(), Turn::Wait));
    let _ = b.on_report(Report::ReceiverAdded);
    let _ = b.on_report(Report::SenderAdded { pt: 0 });
    assert!(matches!(
        b.on_hangup(),
        Turn::Over {
            reason: TermReason::LocalHangup,
            terminate: true
        }
    ));
    let mut c = AnsweredCall::new();
    assert!(matches!(
        c.on_report(Report::Terminated),
        Turn::Over {
            reason: TermReason::RemoteHangup,
            terminate: false
        }
    ));
    let mut d = AnsweredCall::new();
    assert!(matches!(d.on_report(Report::Internal { handled: true }), Turn::Wait));
    match d.on_report(Report::Internal { handled: false }) {
        Turn::Over {
            reason: TermReason::Failed { detail, .. },
            terminate: false,
        } => assert_eq!(detail, "internal"),
        other => panic!("got {other:?}"),
    }
    let mut e = AnsweredCall::new();
    match e.on_report(Report::Failed("gone".into())) {
        Turn::Over {
            reason: TermReason::Failed { detail, .. },
            ..
        } => assert_eq!(detail, "gone"),
        other => panic!("got {other:?}"),
    }
}

#[test]
fn packets_are_counted_while_live() {
    let mut a = AnsweredCall::new();
    assert_eq!(a.on_packet(10), counts(1, 0, 0));
    assert_eq!(a.on_packet(12), counts(2, 1, 0));
}
