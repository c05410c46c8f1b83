//! Errors, proxy addresses, backoff, the breaker, the queue and single-precision numbers.
use kutsu::breaker::{Breaker, Decision};
use kutsu::config::ScenarioConfig;
use kutsu::error::Error;
use kutsu::proxy::{parse_host_port, target_host_port};
use kutsu::queue::{MemQueue, PendingEntry, QueueStore};
use kutsu::realtime::rt_enabled;
use kutsu::reconnect::{Backoff, ReconnectState};
use kutsu::nearest::{counted, divided, lessened, multiplied, percent, ratio, summed};
use kutsu::single::Single;

#[test]
fn version_is_non_empty() {
    assert!(!kutsu::version().is_empty());
}

#[test]
fn display_messages_are_stable() {
    assert_eq!(
        Error::Protocol("bad frame".into()).to_string(),
        "protocol error: bad frame"
    );
    assert_eq!(
        Error::NetworkUnstable("rtt_p95=800ms".into()).to_string(),
        "network unstable: rtt_p95=800ms"
    );
    assert_eq!(Error::SessionClosed.to_string(), "session closed");
}

#[test]
fn other_messages() {
    assert_eq!(Error::Config("x".into()).to_string(), "config error: x");
    assert_eq!(Error::Connect("x".into()).to_string(), "connect error: x");
    assert_eq!(Error::Io("x".into()).to_string(), "io error: x");
}

#[test]
fn from_json_error_converts() {
    let e: Error = serde_json::from_str::<serde_json::Value>("{").unwrap_err().into();
    assert!(matches!(e, Error::Json(_)));
    let inner = serde_json::from_str::<serde_json::Value>("{").unwrap_err().to_string();
    assert_eq!(e.to_string(), format!("json error: {inner}"));
}

#[test]
fn closed_dispatches() {
    let b = Breaker::new(3, 60_000);
    assert_eq!(b.decision(0), Decision::Dispatch);
}

#[test]
fn trips_after_threshold_failures() {
    let mut b = Breaker::new(3, 60_000);
    b.on_result(false, 1000);
    b.on_result(false, 1000);
    assert_eq!(b.decision(1000), Decision::Dispatch);
    b.on_result(false, 1000);
    assert_eq!(b.decision(1000), Decision::Hold(61_000));
    assert_eq!(b.decision(60_999), Decision::Hold(61_000));
}

#[test]
fn half_open_admits_one_probe_then_holds() {
    let mut b = Breaker::new(1, 10_000);
    b.on_result(false, 0);
    assert_eq!(b.decision(10_000), Decision::Probe);
    b.mark_probe_dispatched(10_000);
    assert_eq!(b.decision(10_000), Decision::Hold(30_000));
}

#[test]
fn probe_success_closes() {
    let mut b = Breaker::new(1, 10_000);
    b.on_result(false, 0);
    let _ = b.decision(10_000);
    b.mark_probe_dispatched(10_000);
    b.on_result(true, 11_000);
    assert_eq!(b.decision(11_000), Decision::Dispatch);
}

#[test]
fn probe_failure_retrips() {
    let mut b = Breaker::new(1, 10_000);
    b.on_result(false, 0);
    let _ = b.decision(10_000);
    b.mark_probe_dispatched(10_000);
    b.on_result(false, 11_000);
    assert_eq!(b.decision(11_000), Decision::Hold(21_000));
}

#[test]
fn stale_probe_is_re_admitted() {
    let mut b = Breaker::new(1, 10_000);
    b.on_result(false, 0);
    let _ = b.decision(10_000);
    b.mark_probe_dispatched(10_000);
    assert_eq!(b.decision(30_000), Decision::Probe);
}

#[test]
fn threshold_zero_disables() {
    let mut b = Breaker::new(0, 60_000);
    b.on_result(false, 0);
    b.on_result(false, 0);
    b.on_result(false, 0);
    assert_eq!(b.decision(0), Decision::Dispatch);
}

#[test]
fn backoff_doubles_and_caps_then_resets() {
    let mut b = Backoff::new(300, 5000);
    assert_eq!(b.next_delay(), 300);
    assert_eq!(b.next_delay(), 600);
    assert_eq!(b.next_delay(), 1200);
    assert_eq!(b.next_delay(), 2400);
    assert_eq!(b.next_delay(), 4800);
    assert_eq!(b.next_delay(), 5000);
    b.reset();
    assert_eq!(b.next_delay(), 300);
}

#[test]
fn drops_handle_after_four_consecutive_failures() {
    let mut s = ReconnectState::new(4);
    assert!(!s.on_failure());
    assert!(!s.on_failure());
    assert!(!s.on_failure());
    assert!(s.on_failure());
    s.on_success();
    assert!(!s.on_failure());
}

#[test]
fn target_defaults_to_443_for_wss() {
    let (h, p) = target_host_port(
        "wss://generativelanguage.googleapis.com/ws/foo.BidiGenerateContent?key=K",
    )
    .unwrap();
    assert_eq!(h, "generativelanguage.googleapis.com");
    assert_eq!(p, 443);
}

#[test]
fn proxy_url_parses_host_and_port() {
    let (h, p) = parse_host_port("http://46.202.204.37:46250", 80).unwrap();
    assert_eq!(h, "46.202.204.37");
    assert_eq!(p, 46250);
}

#[test]
fn host_without_port_uses_default() {
    let (h, p) = parse_host_port("proxy.example.com", 8080).unwrap();
    assert_eq!(h, "proxy.example.com");
    assert_eq!(p, 8080);
}

#[test]
fn non_ws_url_is_rejected() {
    assert!(target_host_port("https://example.com").is_err());
}

#[test]
fn a_port_that_is_no_number_is_rejected() {
    assert!(parse_host_port("host:notaport", 80).is_err());
    assert!(parse_host_port("host:70000", 80).is_err());
}

#[test]
fn rt_priority_defaults_on_when_unset_or_empty() {
    assert!(rt_enabled(None));
    assert!(rt_enabled(Some(String::new())));
    assert!(rt_enabled(Some("   ".into())));
}

#[test]
fn rt_priority_explicit_off_values_disable() {
    for v in ["0", "false", "no", "off", "OFF", "False"] {
        assert!(!rt_enabled(Some(v.into())), "{v} should disable");
    }
}

#[test]
fn rt_priority_other_values_stay_on() {
    for v in ["1", "true", "yes", "on"] {
        assert!(rt_enabled(Some(v.into())), "{v} should stay on");
    }
}

fn entry(id: &str, at: u64) -> PendingEntry {
    PendingEntry {
        call_id: id.into(),
        number: "1".into(),
        scenario: ScenarioConfig {
            goal_schema: serde_json::from_str("{}").unwrap(),
            context: None,
            prompt_override: None,
        },
        eligible_at_ms: at,
        attempt: 1,
        retry_of: None,
    }
}

#[test]
fn pops_earliest_eligible_only() {
    let mut q = MemQueue::new();
    q.push(entry("b", 200));
    q.push(entry("a", 100));
    assert!(q.pop_eligible(50).is_none());
    assert_eq!(q.pop_eligible(150).unwrap().call_id, "a");
    assert!(q.pop_eligible(150).is_none());
    assert_eq!(q.pop_eligible(250).unwrap().call_id, "b");
}

#[test]
fn peek_and_position_and_remove() {
    let mut q = MemQueue::new();
    q.push(entry("a", 100));
    q.push(entry("b", 200));
    assert_eq!(q.peek_next_eligible_at(), Some(100));
    assert_eq!(q.position("b"), Some(2));
    assert_eq!(q.remove("a").unwrap().call_id, "a");
    assert_eq!(q.position("b"), Some(1));
    assert_eq!(q.len(), 1);
}

#[test]
fn entries_due_at_once_go_by_id() {
    let mut q = MemQueue::new();
    for id in ["call-2", "call-10", "call-1"] {
        q.push(entry(id, 100));
    }
    let order: Vec<String> = (0..3).map(|_| q.pop_eligible(100).unwrap().call_id).collect();
    assert_eq!(order, ["call-1", "call-10", "call-2"]);
}

#[test]
fn singles_agree_with_floating_point() {
    let values = [0u64, 1, 2, 3, 7, 10, 33, 50, 99, 100, 441, 1000, 65_537, 16_777_217, 40_000_001];
    for &num in &values {
        for &den in &values[1..] {
            let r = f32::from_bits(ratio(num, den).bits);
            assert_eq!(r, num as f32 / den as f32, "{num} / {den}");
            let p = f32::from_bits(percent(num, den).bits);
            assert_eq!(p, num as f32 / den as f32 * 100.0, "{num} of {den}");
        }
    }
}

#[test]
fn singles_compare_as_numbers() {
    let values = [0.0f32, -0.0, 1.0, -1.0, 0.4, 9.09, 300.0, f32::MIN_POSITIVE, f32::MAX];
    for &a in &values {
        for &b in &values {
            let (x, y) = (Single { bits: a.to_bits() }, Single { bits: b.to_bits() });
            assert_eq!(x.exceeds(y), a > b, "{a} > {b}");
            assert_eq!(x.reaches(y), a >= b, "{a} >= {b}");
        }
    }
    let nan = Single { bits: f32::NAN.to_bits() };
    let one = Single { bits: 1.0f32.to_bits() };
    assert!(!nan.exceeds(one) && !one.exceeds(nan) && !nan.reaches(nan));
}

#[test]
fn arithmetic_agrees_with_floating_point() {
    let mut numbers: Vec<u32> = vec![
        0, 1, 2, 3, 0x7F_FFFF, 0x80_0000, 0x80_0001, 0x100_0000, 0x3F7F_FFFF, 0x3F80_0000,
        0x3F80_0001, 0x4B00_0000, 0x4B7F_FFFF, 0x4B80_0000, 0x7F00_0000, 0x7F7F_FFFF,
    ];
    let mut x: u32 = 2024;
    for k in 0..250u32 {
        x = x.wrapping_mul(1664525).wrapping_add(1013904223);
        numbers.push(match k % 3 {
            0 => x % 0x7F80_0000,
            1 => 0x3F00_0000 + (x >> 7),
            _ => (x >> 8) & 0xFF_FFFF,
        });
    }
    for &a in &numbers {
        for &b in &numbers {
            let (p, q) = (f32::from_bits(a), f32::from_bits(b));
            let (m, n) = (Single { bits: a }, Single { bits: b });
            assert_eq!(multiplied(m, n).bits, (p * q).to_bits(), "{p} * {q}");
            assert_eq!(summed(m, n).bits, (p + q).to_bits(), "{p} + {q}");
            if a >= b {
                assert_eq!(lessened(m, n).bits, (p - q).to_bits(), "{p} - {q}");
            }
            if b > 0 {
                assert_eq!(divided(m, n).bits, (p / q).to_bits(), "{p} / {q}");
            }
        }
    }
    for n in [0u64, 1, 3, 16777216, 16777217, 16777219, u32::MAX as u64, u64::MAX, u64::MAX / 3] {
        assert_eq!(counted(n).bits, (n as f32).to_bits());
    }
}
