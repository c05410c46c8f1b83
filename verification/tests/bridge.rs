//! The audio bridge: codecs, rate conversion, pacing and the two directions.
use kutsu::bridge::agc::Agc;
use kutsu::bridge::g711::{
    decode, decode_alaw, decode_ulaw, encode, encode_alaw, encode_ulaw, silence_byte,
};
use kutsu::bridge::pace::Downlink;
use kutsu::bridge::resample::{up_8k_16k, Downsampler};
use kutsu::bridge::{uplink_frame, Bridge, BridgeEnd, QualityShared, Step};
use kutsu::config::AgcConfig;
use kutsu::gemini_live::Event;
use kutsu::single::Single;
use kutsu::sip::G711Kind;

#[test]
fn silence_anchors() {
    assert_eq!(encode_ulaw(0), 0xFF);
    assert_eq!(decode_ulaw(0xFF), 0);
    assert_eq!(silence_byte(G711Kind::Ulaw), 0xFF);

    assert_eq!(encode_alaw(0), 0xD5);
    assert!(decode_alaw(0xD5).abs() < 16);
    assert_eq!(silence_byte(G711Kind::Alaw), 0xD5);
}

#[test]
fn ulaw_decode_is_stable_under_reencode() {
    for b in 0u8..=255 {
        let pcm = decode_ulaw(b);
        assert_eq!(decode_ulaw(encode_ulaw(pcm)), pcm, "ulaw byte {b:#04x}");
    }
}

#[test]
fn alaw_decode_is_stable_under_reencode() {
    for b in 0u8..=255 {
        let pcm = decode_alaw(b);
        assert_eq!(decode_alaw(encode_alaw(pcm)), pcm, "alaw byte {b:#04x}");
    }
}

#[test]
fn frame_helpers_roundtrip_length() {
    let pcm = [0i16, 100, -100, 5000, -5000];
    let enc = encode(G711Kind::Ulaw, &pcm);
    assert_eq!(enc.len(), pcm.len());
    let dec = decode(G711Kind::Ulaw, &enc);
    assert_eq!(dec.len(), pcm.len());
}

#[test]
fn known_code_points() {
    assert_eq!(decode_ulaw(0x00), -32124);
    assert_eq!(decode_ulaw(0x80), 32124);
    assert_eq!(encode_ulaw(i16::MAX), 0x80);
    assert_eq!(encode_ulaw(i16::MIN), 0x00);
    assert_eq!(decode_alaw(0x2A), -32256);
    assert_eq!(decode_alaw(0xAA), 32256);
    assert_eq!(encode_alaw(i16::MAX), 0xAA);
    assert_eq!(encode_alaw(i16::MIN), 0x2A);
}

#[test]
fn interrupt_fade_drops_buffered_bulk() {
    let mut d = Downlink::new(0, 0);
    d.push(&[8000i16; 480 * 10]);
    let _ = d.next_frame();
    d.interrupt_fade(25);
    let mut signal_frames = 0;
    for _ in 0..10 {
        if d.next_frame().iter().any(|&s| s.abs() > 500) {
            signal_frames += 1;
        }
    }
    assert!(
        signal_frames <= 2,
        "fade must drop the buffered bulk, got {signal_frames}"
    );
}

#[test]
fn interrupt_fade_on_empty_buffer_is_a_clear() {
    let mut d = Downlink::new(140, 60);
    d.interrupt_fade(25);
    assert!(!d.pending());
}

#[test]
fn pending_reflects_buffered_audio() {
    let mut d = Downlink::new(0, 0);
    assert!(!d.pending(), "empty buffer is not pending");
    d.push(&[8000i16; 480]);
    assert!(d.pending(), "buffered audio is pending");
    let _ = d.next_frame();
    assert!(!d.pending(), "drained buffer is not pending");
}

#[test]
fn underrun_yields_silence_frame() {
    let mut d = Downlink::new(0, 0);
    let f = d.next_frame();
    assert_eq!(f.len(), 160);
    assert!(
        f.iter().all(|&s| s.abs() < 16),
        "empty buffer should be ~silence"
    );
}

#[test]
fn buffered_audio_plays_out() {
    let mut d = Downlink::new(0, 0);
    d.push(&[8000i16; 480 * 2]);
    let f = d.next_frame();
    assert_eq!(f.len(), 160);
    assert!(
        f[80..].iter().any(|&s| s.abs() > 2000),
        "buffered audio not played"
    );
}

#[test]
fn clear_flushes_pending_audio() {
    let mut d = Downlink::new(0, 0);
    d.push(&[8000i16; 480 * 4]);
    let _ = d.next_frame();
    d.clear();
    let _ = d.next_frame();
    let f = d.next_frame();
    assert!(
        f.iter().all(|&s| s.abs() < 16),
        "second post-clear frame should be silence"
    );
}

#[test]
fn each_frame_consumes_20ms() {
    let mut d = Downlink::new(0, 0);
    d.push(&[1000i16; 480 * 3]);
    for _ in 0..3 {
        assert_eq!(d.next_frame().len(), 160);
    }
    let _ = d.next_frame();
    let f = d.next_frame();
    assert!(f.iter().all(|&s| s.abs() < 16));
}

#[test]
fn prefill_holds_playout_until_target_met() {
    let mut d = Downlink::new(140, 60);
    d.set_expecting(true);
    d.push(&[8000i16; 480 * 3]);
    let f = d.next_frame();
    assert!(
        f.iter().all(|&s| s.abs() < 16),
        "should hold (silence) under prefill target"
    );
    d.push(&[8000i16; 480 * 5]);
    let f = d.next_frame();
    assert!(
        f[80..].iter().any(|&s| s.abs() > 2000),
        "should play once prefill met"
    );
}

#[test]
fn underrun_counted_only_while_expecting() {
    let mut d = Downlink::new(0, 60);
    d.set_expecting(true);
    d.push(&[8000i16; 480]);
    let _ = d.next_frame();
    let _ = d.next_frame();
    assert_eq!(d.underruns(), 1);
    assert!(d.starved_ms() >= 20);

    let mut d2 = Downlink::new(0, 60);
    d2.push(&[8000i16; 480]);
    let _ = d2.next_frame();
    let _ = d2.next_frame();
    assert_eq!(d2.underruns(), 0);
}

#[test]
fn clear_rearms_prefill() {
    let mut d = Downlink::new(140, 60);
    d.set_expecting(true);
    d.push(&[8000i16; 480 * 8]);
    assert!(d.next_frame()[80..].iter().any(|&s| s.abs() > 2000));
    d.clear();
    d.push(&[8000i16; 480 * 3]);
    let f = d.next_frame();
    assert!(
        f.iter().all(|&s| s.abs() < 16),
        "clear must re-arm the 140 ms prefill"
    );
}

#[test]
fn upsample_doubles_and_interpolates() {
    let out = up_8k_16k(&[0, 100]);
    assert_eq!(out, vec![0, 50, 100, 100]);
    assert_eq!(up_8k_16k(&[0; 160]).len(), 320);
}

#[test]
fn upsample_rounds_the_mean_toward_zero() {
    assert_eq!(up_8k_16k(&[-1, 0]), vec![-1, 0, 0, 0]);
    assert_eq!(up_8k_16k(&[-3, 0]), vec![-3, -1, 0, 0]);
    assert_eq!(up_8k_16k(&[]), Vec::<i16>::new());
}

#[test]
fn upsample_preserves_dc() {
    let out = up_8k_16k(&[1000; 10]);
    assert!(out.iter().all(|&s| s == 1000));
}

#[test]
fn downsample_thirds_length_and_dc() {
    let mut d = Downsampler::new();
    let out = d.process(&[2000i16; 480]);
    assert_eq!(out.len(), 160);
    let tail = &out[80..];
    assert!(
        tail.iter().all(|&s| (s - 2000).abs() < 60),
        "DC not preserved: {tail:?}"
    );
}

fn tone(freq: f32, n: usize) -> Vec<i16> {
    (0..n)
        .map(|i| {
            let t = i as f32 / 24000.0;
            ((2.0 * std::f32::consts::PI * freq * t).sin() * 10000.0) as i16
        })
        .collect()
}

fn rms(s: &[i16]) -> f32 {
    (s.iter().map(|&x| (x as f32).powi(2)).sum::<f32>() / s.len() as f32).sqrt()
}

#[test]
fn downsample_is_antialiasing() {
    let mut d1 = Downsampler::new();
    let pass = d1.process(&tone(1000.0, 2400));
    let mut d2 = Downsampler::new();
    let block = d2.process(&tone(6000.0, 2400));
    let pass_rms = rms(&pass[40..]);
    let block_rms = rms(&block[40..]);
    assert!(pass_rms > 3000.0, "in-band tone attenuated: {pass_rms}");
    assert!(
        block_rms < pass_rms * 0.2,
        "out-of-band not attenuated: pass={pass_rms} block={block_rms}"
    );
}

#[test]
fn downsample_is_continuous_across_blocks() {
    let a = tone(1000.0, 480);
    let b = tone(1000.0, 480);
    let mut split = Downsampler::new();
    let mut out_split = split.process(&a);
    out_split.extend(split.process(&b));

    let mut whole = Downsampler::new();
    let combined: Vec<i16> = a.iter().chain(b.iter()).copied().collect();
    let out_whole = whole.process(&combined);

    assert_eq!(out_split, out_whole);
}

/// Windowed-sinc low-pass filter, cutoff 3.4 kHz at 24 kHz.
fn lowpass() -> Vec<f32> {
    let n = 23usize;
    let fc_norm = 3400.0f32 / 24000.0;
    let mid = (n as f32 - 1.0) / 2.0;
    let pi = std::f32::consts::PI;
    let mut h = vec![0f32; n];
    let mut sum = 0f32;
    for (i, v) in h.iter_mut().enumerate() {
        let x = i as f32 - mid;
        let sinc = if x == 0.0 {
            2.0 * fc_norm
        } else {
            (2.0 * pi * fc_norm * x).sin() / (pi * x)
        };
        let w = 0.54 - 0.46 * (2.0 * pi * i as f32 / (n as f32 - 1.0)).cos();
        *v = sinc * w;
        sum += *v;
    }
    for v in &mut h {
        *v /= sum;
    }
    h
}

/// The filter run in floating point.
fn filtered(input: &[i16]) -> Vec<i16> {
    let h = lowpass();
    let mut win = vec![0i16; h.len()];
    let mut out = Vec::new();
    for (i, &s) in input.iter().enumerate() {
        win.remove(0);
        win.push(s);
        if i % 3 == 0 {
            let mut acc = 0f32;
            for j in 0..h.len() {
                acc += h[j] * win[j] as f32;
            }
            out.push(acc.round().clamp(-32768.0, 32767.0) as i16);
        }
    }
    out
}

/// A deterministic stream of noise.
fn noise(n: usize) -> Vec<i16> {
    let mut x = 0x1234_5678u32;
    (0..n)
        .map(|_| {
            x = x.wrapping_mul(1664525).wrapping_add(1013904223);
            (x >> 16) as u16 as i16
        })
        .collect()
}

#[test]
fn downsampling_agrees_with_floating_point() {
    for input in [noise(24000), tone(440.0, 4800), vec![i16::MAX; 600], vec![i16::MIN; 600]] {
        assert_eq!(Downsampler::new().process(&input), filtered(&input));
    }
}

#[test]
fn fading_agrees_with_floating_point() {
    let audio = noise(480 * 4);
    for fade_ms in [1u32, 7, 25, 60] {
        let mut d = Downlink::new(0, 0);
        d.push(&audio);
        d.interrupt_fade(fade_ms);
        let n = (fade_ms as usize * 24).min(audio.len());
        let mut faded: Vec<i16> = (0..n)
            .map(|i| {
                let gain = 1.0 - (i as f32 / n as f32);
                (audio[i] as f32 * gain) as i16
            })
            .collect();
        faded.resize(480 * 4, 0);
        let expected = filtered(&faded);
        let mut got = Vec::new();
        for _ in 0..4 {
            got.extend(d.next_frame());
        }
        // Whole blocks play the faded head; what is short of a block is padded out.
        let whole = n / 480 * 160;
        assert_eq!(got[..whole], expected[..whole], "fade over {fade_ms} ms");
    }
}

#[test]
fn uplink_rms_is_zero_before_any_audio_and_matches_a_constant_tone() {
    let mut q = QualityShared::new();
    assert_eq!(q.snapshot().uplink_rms, 0);
    q.add_uplink_level(&[1000i16; 400]);
    q.add_uplink_level(&[1000i16; 400]);
    assert_eq!(q.snapshot().uplink_rms, 1000);
}

#[test]
fn uplink_forwards_every_frame_transparently() {
    let mut agc = gain(AgcConfig::default());
    for _ in 0..5 {
        let frame = uplink_frame(G711Kind::Ulaw, &[0xFFu8; 160], &mut agc);
        assert_eq!(frame.pcm8.len(), 160);
        assert_eq!(frame.pcm16.len(), 320);
    }
    let mut agc = gain(AgcConfig {
        enabled: false,
        ..AgcConfig::default()
    });
    let frame = uplink_frame(G711Kind::Ulaw, &[0x80u8, 0xFF], &mut agc);
    assert_eq!(frame.pcm16, vec![32124, 16062, 0, 0]);
}

#[test]
fn downlink_paces_frames_to_phone() {
    let mut q = QualityShared::new();
    let mut b = Bridge::new(G711Kind::Ulaw, 140, 60);
    let _ = b.on_tick(0, false, &mut q);
    assert!(matches!(
        b.on_event(Some(Event::OutputAudio(vec![8000i16; 480 * 10])), 5),
        Step::Done
    ));
    for k in 1..=3u64 {
        let frame = b.on_tick(20 * k, false, &mut q);
        assert_eq!(frame.payload.len(), 160);
        let pcm = decode(G711Kind::Ulaw, &frame.payload);
        assert!(
            pcm.iter().any(|&s| s.abs() > 1000),
            "expected paced audio, not silence"
        );
    }
}

#[test]
fn barge_in_silences_the_phone() {
    let mut q = QualityShared::new();
    let mut b = Bridge::new(G711Kind::Ulaw, 140, 60);
    let _ = b.on_tick(0, false, &mut q);
    let _ = b.on_event(Some(Event::OutputAudio(vec![8000i16; 480 * 20])), 5);
    let frame = b.on_tick(20, false, &mut q);
    let pcm = decode(G711Kind::Ulaw, &frame.payload);
    assert!(
        pcm.iter().any(|&s| s.abs() > 1000),
        "expected audio to be playing before barge-in"
    );

    let _ = b.on_event(Some(Event::Interrupted), 25);
    let _ = b.on_tick(40, false, &mut q);
    let frame = b.on_tick(60, false, &mut q);
    let pcm = decode(G711Kind::Ulaw, &frame.payload);
    assert!(
        pcm.iter().all(|&s| s.abs() < 64),
        "expected silence after barge-in"
    );
}

#[test]
fn non_audio_events_forwarded_to_engine() {
    let mut b = Bridge::new(G711Kind::Ulaw, 140, 60);
    assert!(matches!(
        b.on_event(Some(Event::TurnComplete), 0),
        Step::Forward(Event::TurnComplete)
    ));
}

#[test]
fn quality_shared_records_underruns_while_expecting() {
    let mut q = QualityShared::new();
    let mut b = Bridge::new(G711Kind::Ulaw, 0, 0);
    let _ = b.on_event(Some(Event::OutputAudio(vec![8000i16; 480])), 0);
    for k in 1..=4u64 {
        let _ = b.on_tick(20 * k, false, &mut q);
    }
    assert!(
        q.snapshot().underruns >= 1,
        "expected underruns recorded while expecting"
    );
}

#[test]
fn ends_when_gemini_closes() {
    let mut b = Bridge::new(G711Kind::Ulaw, 140, 60);
    assert!(matches!(
        b.on_event(None, 0),
        Step::End(BridgeEnd::GeminiClosed)
    ));
}

#[test]
fn muted_downlink_is_silence_on_the_line() {
    let mut q = QualityShared::new();
    let mut b = Bridge::new(G711Kind::Alaw, 0, 0);
    let _ = b.on_event(Some(Event::OutputAudio(vec![8000i16; 480 * 4])), 0);
    let frame = b.on_tick(20, true, &mut q);
    assert!(frame.payload.iter().all(|&p| p == 0xD5));
}

/// The gain of a configuration, its decibels turned to factors.
fn gain(cfg: AgcConfig) -> Agc {
    let target = 32768.0 * 10f32.powf(f32::from_bits(cfg.target_dbfs.bits) / 20.0);
    let most = 10f32.powf(f32::from_bits(cfg.max_gain_db.bits) / 20.0);
    Agc::new(
        cfg,
        Single { bits: target.to_bits() },
        Single { bits: most.to_bits() },
    )
}

fn rms_of(frame: &[i16]) -> f32 {
    let sq: f64 = frame.iter().map(|&s| (s as f64) * (s as f64)).sum();
    (sq / frame.len() as f64).sqrt() as f32
}

fn target_rms(c: &AgcConfig) -> f32 {
    32768.0 * 10f32.powf(f32::from_bits(c.target_dbfs.bits) / 20.0)
}

/// Feeds `n` frames of constant amplitude and returns the level of the last one out.
fn run_gain(agc: &mut Agc, amp: i16, n: usize) -> f32 {
    let mut last = 0.0;
    for _ in 0..n {
        let mut f = vec![amp; 160];
        agc.process(&mut f);
        last = rms_of(&f);
    }
    last
}

#[test]
fn quiet_speech_is_lifted_toward_target() {
    let c = AgcConfig::default();
    let mut agc = gain(c);
    let out = run_gain(&mut agc, 500, 400);
    let t = target_rms(&c);
    assert!((out - t).abs() < t * 0.15, "expected ~{t}, got {out}");
}

#[test]
fn loud_speech_is_attenuated_toward_target_without_clipping() {
    let c = AgcConfig::default();
    let mut agc = gain(c);
    let mut f = vec![12000i16; 160];
    for _ in 0..400 {
        f = vec![12000i16; 160];
        agc.process(&mut f);
    }
    let t = target_rms(&c);
    assert!(f.iter().all(|&s| s.abs() < 32767), "must not clip");
    assert!((rms_of(&f) - t).abs() < t * 0.2, "expected ~{t}, got {}", rms_of(&f));
}

#[test]
fn near_silence_is_held_not_amplified() {
    let mut agc = gain(AgcConfig::default());
    let out = run_gain(&mut agc, 50, 400);
    assert!(out < 200.0, "silence/noise must not be boosted, got {out}");
}

#[test]
fn gain_respects_max_cap() {
    let c = AgcConfig {
        max_gain_db: Single { bits: 6f32.to_bits() },
        ..AgcConfig::default()
    };
    let mut agc = gain(c);
    let out = run_gain(&mut agc, 500, 400);
    assert!(out <= 500.0 * 2.0 * 1.05, "gain must cap at ~2x, got {out}");
    assert!(out > 500.0 * 1.5, "gain should apply up to the cap, got {out}");
}

#[test]
fn disabled_passes_through_unchanged() {
    let c = AgcConfig {
        enabled: false,
        ..AgcConfig::default()
    };
    let mut agc = gain(c);
    let out = run_gain(&mut agc, 500, 50);
    assert!((out - 500.0).abs() < 1.0, "disabled AGC must not alter the signal");
}

/// The same gain in floating point.
fn float_gain(gain: &mut f32, c: &AgcConfig, frame: &mut [i16]) {
    let most = 10f32.powf(f32::from_bits(c.max_gain_db.bits) / 20.0);
    let rms = rms_of(frame);
    if rms >= f32::from_bits(c.noise_floor_rms.bits) && rms > 0.0 {
        let desired = (target_rms(c) / rms).clamp(0.0, most);
        let coeff = if desired < *gain { 0.3 } else { 0.05 };
        *gain += (desired - *gain) * coeff;
    }
    if (*gain - 1.0).abs() < 1e-3 {
        return;
    }
    for s in frame.iter_mut() {
        let v = (*s as f32 * *gain).round();
        *s = v.clamp(i16::MIN as f32, i16::MAX as f32) as i16;
    }
}

#[test]
fn gain_agrees_with_floating_point() {
    for &(target, most, floor) in &[(-18.0f32, 30.0f32, 200.0f32), (-3.0, 60.0, 0.0), (-40.0, 0.0, 5.0)] {
        let c = AgcConfig {
            enabled: true,
            target_dbfs: Single { bits: target.to_bits() },
            max_gain_db: Single { bits: most.to_bits() },
            noise_floor_rms: Single { bits: floor.to_bits() },
        };
        let mut agc = gain(c);
        let mut float = 1.0f32;
        let mut x: u32 = 12345;
        for k in 0..300u32 {
            let shift = 16 + (k / 20) % 15;
            let mut frame: Vec<i16> = Vec::new();
            for _ in 0..(k % 161) {
                x = x.wrapping_mul(1664525).wrapping_add(1013904223);
                frame.push(((x as i32) >> shift) as i16);
            }
            let mut same = frame.clone();
            agc.process(&mut frame);
            if !same.is_empty() {
                float_gain(&mut float, &c, &mut same);
            }
            assert_eq!(frame, same, "frame {k}");
        }
    }
}

#[test]
fn a_fade_re_arms_the_full_prefill() {
    let mut d = Downlink::new(140, 60);
    d.push(&[8000i16; 4800]);
    let _ = d.next_frame();
    d.interrupt_fade(20);
    let _ = d.next_frame();
    let _ = d.next_frame();
    d.push(&[8000i16; 1440]);
    let _ = d.next_frame();
    assert!(!d.playing(), "60 ms is not the full prefill");
    d.push(&[8000i16; 1920]);
    let _ = d.next_frame();
    assert!(d.playing());
    for _ in 0..7 {
        let _ = d.next_frame();
    }
    assert!(!d.playing());
    d.push(&[8000i16; 1440]);
    let _ = d.next_frame();
    assert!(d.playing(), "once the prefill was met, a stall resumes at the smaller level");
}

#[test]
fn a_gain_that_is_no_number_mutes() {
    let c = AgcConfig {
        target_dbfs: Single { bits: f32::NAN.to_bits() },
        ..AgcConfig::default()
    };
    let target = f32::NAN.abs();
    let mut agc = Agc::new(c, Single { bits: target.to_bits() }, Single { bits: 4f32.to_bits() });
    let mut quiet = vec![50i16; 160];
    agc.process(&mut quiet);
    assert_eq!(quiet, vec![50i16; 160]);
    let mut loud = vec![5000i16; 160];
    agc.process(&mut loud);
    assert_eq!(loud, vec![0i16; 160]);

    let endless = Single { bits: f32::INFINITY.to_bits() };
    let mut agc = Agc::new(AgcConfig::default(), endless, endless);
    let mut f = vec![5000i16, 0, -5000];
    agc.process(&mut f);
    assert_eq!(f, vec![32767, 0, -32768]);
    let mut f = vec![5000i16, 0, -5000];
    agc.process(&mut f);
    assert_eq!(f, vec![0, 0, 0]);
}
