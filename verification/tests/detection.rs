//! Speech onset, answering-machine detection and audio files.
use kutsu::amd::detector::{AmdDetector, HeuristicDetector, HeuristicParams};
use kutsu::amd::eval::{binary_metrics, confusion, render_confusion};
use kutsu::amd::features::{extract_profile, CalleeProfile};
use kutsu::amd::framer::{EnergyFramer, SileroFramer, SpeechFramer};
use kutsu::amd::{AmdClass, FrameClass};
use kutsu::audio_file::{check_spec, decode_raw, is_wav, read_pcm16};
use kutsu::config::VadConfig;
use kutsu::error::Error;
use kutsu::single::Single;
use kutsu::level::rms;
use kutsu::vad::Vad;

fn single(x: f32) -> Single {
    Single { bits: x.to_bits() }
}

fn number(x: Single) -> f32 {
    f32::from_bits(x.bits)
}

fn base() -> CalleeProfile {
    CalleeProfile {
        onset_ms: Some(300),
        first_utterance_ms: 500,
        speech_ratio: single(0.3),
        longest_speech_run_ms: 500,
        longest_pause_ms: 1000,
        total_ms: 8000,
        mean_speech_prob: None,
        nonspeech_energy_ratio: None,
    }
}

#[test]
fn short_utterance_then_pause_reads_human() {
    let d = HeuristicDetector::new(HeuristicParams::default());
    let v = d.classify(&base());
    assert_eq!(v.class, AmdClass::Human);
    assert_eq!(v.confidence, single(0.6));
}

#[test]
fn long_continuous_greeting_reads_voicemail() {
    let d = HeuristicDetector::new(HeuristicParams::default());
    let p = CalleeProfile {
        first_utterance_ms: 6000,
        longest_speech_run_ms: 6000,
        ..base()
    };
    let v = d.classify(&p);
    assert_eq!(v.class, AmdClass::Voicemail);
    assert_eq!(v.confidence, single(0.7));
}

#[test]
fn loud_nonspeech_reads_hold() {
    let d = HeuristicDetector::new(HeuristicParams::default());
    let p = CalleeProfile {
        nonspeech_energy_ratio: Some(single(0.6)),
        mean_speech_prob: Some(single(0.1)),
        ..base()
    };
    let v = d.classify(&p);
    assert_eq!(v.class, AmdClass::Hold);
    assert_eq!(v.confidence, single(0.6));
}

#[test]
fn hold_confidence_is_capped_and_its_threshold_is_inclusive() {
    let d = HeuristicDetector::new(HeuristicParams::default());
    let at = |r: f32| {
        d.classify(&CalleeProfile {
            nonspeech_energy_ratio: Some(single(r)),
            ..base()
        })
    };
    assert_eq!(at(0.4).class, AmdClass::Hold);
    assert_eq!(at(0.39).class, AmdClass::Human);
    assert_eq!(at(1.5).confidence, single(1.0));
}

#[test]
fn binary_metrics_on_machine_positive() {
    let pairs = vec![
        (AmdClass::Voicemail, AmdClass::Voicemail),
        (AmdClass::Hold, AmdClass::Ivr),
        (AmdClass::Voicemail, AmdClass::Human),
        (AmdClass::Human, AmdClass::Voicemail),
        (AmdClass::Human, AmdClass::Human),
    ];
    let m = binary_metrics(&pairs);
    assert!((number(m.precision) - 2.0 / 3.0).abs() < 1e-6);
    assert!((number(m.recall) - 2.0 / 3.0).abs() < 1e-6);
    assert!((number(m.f1) - 2.0 / 3.0).abs() < 1e-6);
}

#[test]
fn no_positives_predicted_is_zero_precision() {
    let pairs = vec![
        (AmdClass::Human, AmdClass::Voicemail),
        (AmdClass::Human, AmdClass::Human),
    ];
    let m = binary_metrics(&pairs);
    assert_eq!(number(m.precision), 0.0);
    assert_eq!(number(m.recall), 0.0);
    assert_eq!(number(m.f1), 0.0);
}

#[test]
fn f1_agrees_with_floating_point() {
    for tp in 0..12usize {
        for fp in 0..12usize {
            for missed in 0..12usize {
                let mut pairs = vec![(AmdClass::Hold, AmdClass::Ivr); tp];
                pairs.extend(vec![(AmdClass::Voicemail, AmdClass::Human); fp]);
                pairs.extend(vec![(AmdClass::Human, AmdClass::Voicemail); missed]);
                let m = binary_metrics(&pairs);
                let share = |whole: usize| if whole == 0 { 0.0 } else { tp as f32 / whole as f32 };
                let (p, r) = (share(tp + fp), share(tp + missed));
                let f1 = if p + r == 0.0 { 0.0 } else { 2.0 * p * r / (p + r) };
                assert_eq!(m.precision, single(p));
                assert_eq!(m.recall, single(r));
                assert_eq!(m.f1, single(f1));
            }
        }
    }
}

#[test]
fn confusion_counts_by_actual_then_predicted() {
    let pairs = vec![
        (AmdClass::Human, AmdClass::Human),
        (AmdClass::Voicemail, AmdClass::Human),
        (AmdClass::Voicemail, AmdClass::Voicemail),
        (AmdClass::Hold, AmdClass::Ivr),
    ];
    let m = confusion(&pairs);
    assert_eq!(m[AmdClass::Human.index()][AmdClass::Human.index()], 1);
    assert_eq!(m[AmdClass::Human.index()][AmdClass::Voicemail.index()], 1);
    assert_eq!(m[AmdClass::Voicemail.index()][AmdClass::Voicemail.index()], 1);
    assert_eq!(m[AmdClass::Ivr.index()][AmdClass::Hold.index()], 1);
    assert_eq!(m[AmdClass::Hold.index()][AmdClass::Hold.index()], 0);
}

#[test]
fn a_confusion_matrix_is_rendered_in_columns() {
    let m = confusion(&[(AmdClass::Hold, AmdClass::Ivr)]);
    let mut expected = String::from("confusion (rows=actual, cols=predicted):\n");
    expected.push_str(&format!("{:>10}", ""));
    for c in AmdClass::ALL {
        expected.push_str(&format!("{:>10}", c.label()));
    }
    expected.push('\n');
    for a in AmdClass::ALL {
        expected.push_str(&format!("{:>10}", a.label()));
        for p in AmdClass::ALL {
            expected.push_str(&format!("{:>10}", m[a.index()][p.index()]));
        }
        expected.push('\n');
    }
    assert_eq!(render_confusion(&m), expected);
}

fn speech(rms: f32) -> FrameClass {
    FrameClass {
        speech: true,
        speech_prob: None,
        rms: single(rms),
    }
}

fn sil(rms: f32) -> FrameClass {
    FrameClass {
        speech: false,
        speech_prob: None,
        rms: single(rms),
    }
}

#[test]
fn profile_measures_onset_first_utterance_and_runs() {
    let mut frames = vec![sil(10.0); 2];
    frames.extend(vec![speech(2000.0); 5]);
    frames.extend(vec![sil(10.0); 30]);
    frames.extend(vec![speech(2000.0); 3]);
    let p = extract_profile(&frames, 20, single(500.0));
    assert_eq!(p.onset_ms, Some(40));
    assert_eq!(p.first_utterance_ms, 100);
    assert_eq!(p.longest_speech_run_ms, 100);
    assert_eq!(p.longest_pause_ms, 600);
    assert_eq!(p.total_ms, 40 * 20);
    assert!((number(p.speech_ratio) - 8.0 / 40.0).abs() < 1e-6);
    assert!(p.mean_speech_prob.is_none());
    assert!(p.nonspeech_energy_ratio.is_none());
}

#[test]
fn a_short_gap_does_not_end_the_first_utterance() {
    let mut frames = vec![speech(2000.0); 5];
    frames.extend(vec![sil(10.0); 24]);
    frames.extend(vec![speech(2000.0); 5]);
    let p = extract_profile(&frames, 20, single(500.0));
    assert_eq!(p.first_utterance_ms, 200);
    frames.insert(5, sil(10.0));
    let p = extract_profile(&frames, 20, single(500.0));
    assert_eq!(p.first_utterance_ms, 100);
}

#[test]
fn nonspeech_energy_ratio_present_only_with_probabilities() {
    let frame = |speech: bool, prob: f32, rms: f32| FrameClass {
        speech,
        speech_prob: Some(single(prob)),
        rms: single(rms),
    };
    let frames = vec![
        frame(false, 0.1, 3000.0),
        frame(false, 0.1, 3000.0),
        frame(true, 0.9, 3000.0),
        frame(false, 0.1, 10.0),
    ];
    let p = extract_profile(&frames, 20, single(500.0));
    assert_eq!(p.nonspeech_energy_ratio, Some(single(0.5)));
    assert!(p.mean_speech_prob.is_some());
    let sum = 0.0f32 + 0.1 + 0.1 + 0.9 + 0.1;
    assert_eq!(p.mean_speech_prob, Some(single(sum / 4.0)));
}

#[test]
fn mean_probability_agrees_with_floating_point() {
    let mut x: u32 = 99;
    let mut frames = Vec::new();
    let mut sum = 0f32;
    for k in 0..2000u32 {
        x = x.wrapping_mul(1664525).wrapping_add(1013904223);
        let prob = (x >> 8) as f32 / 16777216.0;
        let rated = k % 7 != 3;
        if rated {
            sum += prob;
        }
        frames.push(FrameClass {
            speech: prob > 0.5,
            speech_prob: if rated { Some(single(prob)) } else { None },
            rms: single(100.0),
        });
        let p = extract_profile(&frames, 20, single(500.0));
        assert_eq!(p.mean_speech_prob, Some(single(sum / frames.len() as f32)));
    }
}

#[test]
fn empty_input_is_all_zero() {
    let p = extract_profile(&[], 20, single(500.0));
    assert_eq!(p.onset_ms, None);
    assert_eq!(p.total_ms, 0);
    assert_eq!(p.first_utterance_ms, 0);
}

fn cfg() -> VadConfig {
    VadConfig {
        min_rms: 200,
        ratio: single(3.0),
        onset_frames: 3,
        warmup_frames: 10,
    }
}

struct Ear {
    vad: Vad,
}

impl Ear {
    fn new() -> Ear {
        Ear {
            vad: Vad::new(cfg()),
        }
    }

    fn observe(&mut self, amp: i16, n: usize) -> bool {
        self.vad.observe(&vec![amp; n])
    }
}

/// Frames of pseudorandom samples, of changing length and loudness.
fn noise(k: u32, x: &mut u32) -> Vec<i16> {
    let shift = 16 + (k / 20) % 15;
    let mut frame = Vec::new();
    for _ in 0..(k % 161) + 1 {
        *x = x.wrapping_mul(1664525).wrapping_add(1013904223);
        frame.push(((*x as i32) >> shift) as i16);
    }
    frame
}

fn float_rms(frame: &[i16]) -> f32 {
    let sumsq: f64 = frame.iter().map(|&s| (s as f64) * (s as f64)).sum();
    (sumsq / frame.len() as f64).sqrt() as f32
}

#[test]
fn levels_agree_with_floating_point() {
    let mut x: u32 = 7;
    for k in 0..900u32 {
        let frame = noise(k, &mut x);
        assert_eq!(rms(&frame), single(float_rms(&frame)), "frame {k}");
    }
    assert_eq!(rms(&[]), single(0.0));
    assert_eq!(rms(&[i16::MIN; 160]), single(32768.0));
    assert_eq!(rms(&[1, 0, 0, 0, 0, 0, 0]), single(float_rms(&[1, 0, 0, 0, 0, 0, 0])));
    let long: Vec<i16> = (0..100_000).map(|i| (i % 65536 - 32768) as i16).collect();
    assert_eq!(rms(&long), single(float_rms(&long)));
}

#[test]
fn noise_floor_agrees_with_floating_point() {
    for &ratio in &[3.0f32, 1.0e30, -2.0, f32::NAN, f32::INFINITY, 0.0, 1.37] {
        let cfg = VadConfig {
            min_rms: 150,
            ratio: single(ratio),
            onset_frames: 40,
            warmup_frames: 5,
        };
        let mut v = Vad::new(cfg);
        let (mut floor, mut streak, mut fired) = (0f32, 0u32, false);
        let mut x: u32 = 3;
        for k in 0..400u32 {
            let frame = noise(k, &mut x);
            let level = float_rms(&frame);
            let got = v.observe(&frame);
            let mut expected = false;
            let threshold = 150f32.max(floor * ratio);
            if !fired {
                if k == 0 {
                    floor = level;
                } else if level >= threshold {
                    streak += 1;
                    if streak >= 40 {
                        fired = true;
                        expected = true;
                    }
                } else {
                    streak = 0;
                    floor = floor * 0.9 + level * 0.1;
                }
            }
            assert_eq!(got, expected, "ratio {ratio}, frame {k}");
            assert_eq!(v.noise_floor(), single(floor), "ratio {ratio}, frame {k}");
            assert_eq!(v.last_rms(), single(level));
            assert_eq!(v.is_speech_frame(), level >= 150f32.max(floor * ratio));
            assert_eq!(v.onset(), fired);
        }
    }
}

#[test]
fn silence_never_fires() {
    let mut v = Ear::new();
    for _ in 0..50 {
        assert!(!v.observe(0, 320));
    }
}

#[test]
fn speech_after_warmup_fires_once() {
    let mut v = Ear::new();
    for _ in 0..10 {
        assert!(!v.observe(100, 320));
    }
    assert!(!v.observe(4000, 320));
    assert!(!v.observe(4000, 320));
    assert!(v.observe(4000, 320));
    assert!(!v.observe(4000, 320));
    assert_eq!(v.vad.last_rms(), single(4000.0));
}

#[test]
fn single_click_does_not_fire() {
    let mut v = Ear::new();
    for _ in 0..10 {
        assert!(!v.observe(100, 320));
    }
    assert!(!v.observe(4000, 320));
    for _ in 0..10 {
        assert!(!v.observe(0, 320));
    }
}

#[test]
fn steady_loud_background_no_false_fire() {
    let mut v = Ear::new();
    for _ in 0..200 {
        assert!(!v.observe(1500, 320));
    }
}

#[test]
fn speech_jump_during_warmup_fires() {
    let mut v = Ear::new();
    for _ in 0..4 {
        assert!(!v.observe(80, 320));
    }
    assert!(!v.observe(4000, 320));
    assert!(!v.observe(4000, 320));
    assert!(v.observe(4000, 320));
    assert!(!v.observe(4000, 320));
}

#[test]
fn quiet_speech_above_low_background_fires() {
    let mut v = Ear::new();
    for _ in 0..10 {
        assert!(!v.observe(80, 320));
    }
    let mut fired = false;
    for _ in 0..5 {
        if v.observe(400, 320) {
            fired = true;
        }
    }
    assert!(fired);
}

#[test]
fn an_empty_frame_changes_nothing() {
    let mut v = Ear::new();
    assert!(!v.observe(100, 320));
    assert!(!v.observe(4000, 0));
    assert_eq!(v.vad.last_rms(), single(100.0));
    assert_eq!(v.vad.noise_floor(), single(100.0));
}

#[test]
fn energy_framer_flags_loud_frame_as_speech_after_quiet_seed() {
    let mut f = EnergyFramer::new(VadConfig::default());
    let quiet = [30i16; 160];
    let loud = [4000i16; 160];
    for _ in 0..12 {
        let _ = f.classify(&quiet);
    }
    let fc = f.classify(&loud);
    assert!(
        fc.speech,
        "loud frame after a quiet seed must read as speech"
    );
    assert!(fc.speech_prob.is_none(), "energy framer has no probability");
    assert!(number(fc.rms) > 0.0);
}

/// A WAV file in memory.
fn wav(samples: &[i16], rate: u32) -> Vec<u8> {
    let spec = hound::WavSpec {
        channels: 1,
        sample_rate: rate,
        bits_per_sample: 16,
        sample_format: hound::SampleFormat::Int,
    };
    let mut bytes = std::io::Cursor::new(Vec::new());
    let mut w = hound::WavWriter::new(&mut bytes, spec).unwrap();
    for &s in samples {
        w.write_sample(s).unwrap();
    }
    w.finalize().unwrap();
    bytes.into_inner()
}

#[test]
fn wav_round_trip_16k() {
    let samples: Vec<i16> = (0..320).map(|i| (i as i16) - 160).collect();
    let back = read_pcm16(Some("wav"), &wav(&samples, 16000), 16000).unwrap();
    assert_eq!(back, samples);
}

#[test]
fn wrong_rate_is_rejected() {
    let err = read_pcm16(Some("WAV"), &wav(&[1, 2, 3], 8000), 16000).unwrap_err();
    assert!(matches!(err, Error::Config(_)));
    assert_eq!(
        err.to_string(),
        "config error: expected 16000 Hz, got 8000 Hz (resampling is not this layer's job)"
    );
}

#[test]
fn a_broken_wav_is_an_error() {
    match read_pcm16(Some("wav"), b"not a wav file at all", 16000) {
        Err(Error::Config(m)) => assert_eq!(m, "Ill-formed WAVE file: no RIFF tag found"),
        other => panic!("got {other:?}"),
    }
    let whole = wav(&[1, 2, 3, 4], 16000);
    assert!(matches!(
        read_pcm16(Some("wav"), &whole[..whole.len() - 2], 16000),
        Err(Error::Io(_))
    ));
}

#[test]
fn raw_files_are_little_endian_pairs() {
    assert_eq!(
        read_pcm16(Some("pcm"), &[0x01, 0x00, 0xFF, 0xFF, 0x00, 0x80], 16000).unwrap(),
        [1, -1, i16::MIN]
    );
    assert_eq!(
        decode_raw(&[1]).unwrap_err().to_string(),
        "config error: raw PCM file has odd byte length"
    );
    assert!(is_wav(Some("Wav")) && !is_wav(Some("wave")) && !is_wav(None));
    assert_eq!(
        check_spec(2, 8, 16000, 16000).unwrap_err().to_string(),
        "config error: expected mono PCM16, got 2 channels / 8 bits"
    );
}

#[test]
fn neural_framer_scores_full_windows_and_holds_the_last_score() {
    let mut f = SileroFramer::new(512);
    let ramp: Vec<i16> = (0..1200).collect();
    let mut windows: Vec<Vec<i16>> = Vec::new();
    for chunk in ramp.chunks(160) {
        f.feed(chunk);
        while let Some(w) = f.next_window() {
            windows.push(w);
        }
    }
    assert_eq!(windows.len(), 2);
    assert_eq!(windows[0], ramp[..512].to_vec());
    assert_eq!(windows[1], ramp[512..1024].to_vec());

    let frame = [100i16; 160];
    assert!(!f.class(&frame).speech);
    f.score(Some(single(0.5)));
    assert!(!f.class(&frame).speech);
    f.score(Some(single(0.75)));
    f.score(None);
    let class = f.class(&frame);
    assert!(class.speech);
    assert_eq!(class.speech_prob, Some(single(0.75)));
    assert_eq!(class.rms, single(100.0));
    assert_eq!(f.class(&[]).rms, single(0.0));
}
