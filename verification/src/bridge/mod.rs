//! Audio bridge between the phone and the live session.
//!
//! Phone audio is G.711 at 8 kHz; the session takes PCM16 at 16 kHz and gives PCM16 at 24 kHz. The
//! uplink is forwarded frame by frame as it comes. The downlink is buffered and paced out every
//! 20 ms, and the callee can interrupt it.
use vstd::prelude::*;

use crate::gemini_live::Event;
use crate::sip::G711Kind;
use crate::state::CallQuality;

pub mod agc;
pub mod course;
pub mod g711;
pub mod pace;
pub mod resample;

use agc::Agc;
use g711::{code_of, decode, encode, sample_of, silence_byte};
use pace::{Downlink, Pacer};
use resample::{up_8k_16k, upsampled};

verus! {

/// How long after the last model audio the downlink still counts as active. It bridges the gaps
/// between chunks, so that a momentarily empty buffer does not read as the end of a turn.
pub const DOWNLINK_GRACE_MS: u64 = 600;

/// The sum of the squares of the first `n` samples.
pub open spec fn energy(pcm: Seq<i16>, n: int) -> int
    decreases n,
{
    if n <= 0 {
        0
    } else {
        energy(pcm, n - 1) + pcm[n - 1] * pcm[n - 1]
    }
}

/// The whole part of the square root of `x`.
pub open spec fn is_root(r: int, x: int) -> bool {
    0 <= r && r * r <= x < (r + 1) * (r + 1)
}

/// Call-quality counters.
pub struct Levels {
    pub underruns: u64,
    pub starved_ms: u64,
    pub max_gap_ms: u64,
    /// Sum of squares of the decoded uplink samples, and how many there were.
    pub uplink_energy: int,
    pub uplink_samples: int,
    pub downlink_active: bool,
}

impl Levels {
    pub open spec fn none() -> Levels {
        Levels {
            underruns: 0,
            starved_ms: 0,
            max_gap_ms: 0,
            uplink_energy: 0,
            uplink_samples: 0,
            downlink_active: false,
        }
    }

    pub open spec fn wf(self) -> bool {
        0 <= self.uplink_energy <= 0x4000_0000 * self.uplink_samples
    }

    /// The mean square of the uplink, rounded down; 0 before any audio.
    pub open spec fn mean_square(self) -> int {
        if self.uplink_samples > 0 {
            self.uplink_energy / self.uplink_samples
        } else {
            0
        }
    }
}

/// Call-quality counters, published by the bridge and read by the engine.
pub struct QualityShared {
    underruns: u64,
    starved_ms: u64,
    max_gap_ms: u64,
    uplink_sumsq: u64,
    uplink_samples: u64,
    downlink_active: bool,
}

impl View for QualityShared {
    type V = Levels;

    closed spec fn view(&self) -> Levels {
        Levels {
            underruns: self.underruns,
            starved_ms: self.starved_ms,
            max_gap_ms: self.max_gap_ms,
            uplink_energy: self.uplink_sumsq as int,
            uplink_samples: self.uplink_samples as int,
            downlink_active: self.downlink_active,
        }
    }
}

/// The whole part of the square root of `x`.
fn root(x: u64) -> (r: u64)
    requires
        x <= 0x4000_0000,
    ensures
        is_root(r as int, x as int),
{
    let mut r: u64 = 0;
    while (r + 1) * (r + 1) <= x
        invariant
            r * r <= x,
            r <= 0x8000,
            (r + 1) * (r + 1) <= 0x8001 * 0x8001,
            x <= 0x4000_0000,
        decreases 0x8000 - r,
    {
        assert(r + 1 <= 0x8000) by (nonlinear_arith)
            requires
                (r + 1) * (r + 1) <= 0x4000_0000,
        ;
        r = r + 1;
        assert((r + 1) * (r + 1) <= 0x8001 * 0x8001) by (nonlinear_arith)
            requires
                r <= 0x8000,
        ;
    }
    r
}

impl QualityShared {
    pub fn new() -> (r: Self)
        ensures
            r@ == Levels::none(),
            r@.wf(),
    {
        QualityShared {
            underruns: 0,
            starved_ms: 0,
            max_gap_ms: 0,
            uplink_sumsq: 0,
            uplink_samples: 0,
            downlink_active: false,
        }
    }

    /// The counters as a call's quality: the uplink level is the root of its mean square.
    pub fn snapshot(&self) -> (r: CallQuality)
        requires
            self@.wf(),
        ensures
            is_root(r.uplink_rms as int, self@.mean_square()),
            r == (CallQuality {
                underruns: self@.underruns,
                starved_ms: self@.starved_ms,
                max_gap_ms: self@.max_gap_ms,
                uplink_rms: r.uplink_rms,
                ..CallQuality::none()
            }),
    {
        let mut q: CallQuality = CallQuality::default();
        q.underruns = self.underruns;
        q.starved_ms = self.starved_ms;
        q.max_gap_ms = self.max_gap_ms;
        if self.uplink_samples > 0 {
            let mean: u64 = self.uplink_sumsq / self.uplink_samples;
            assert(mean <= 0x4000_0000) by (nonlinear_arith)
                requires
                    self.uplink_sumsq <= 0x4000_0000 * self.uplink_samples,
                    self.uplink_samples > 0,
                    mean == self.uplink_sumsq / self.uplink_samples,
            ;
            q.uplink_rms = root(mean);
        } else {
            q.uplink_rms = 0;
        }
        q
    }

    /// Publish whether the downlink is still delivering a turn.
    pub fn set_downlink_active(&mut self, active: bool)
        ensures
            final(self)@ == (Levels { downlink_active: active, ..old(self)@ }),
    {
        self.downlink_active = active;
    }

    /// True while the downlink is still delivering a turn.
    pub fn downlink_active(&self) -> (r: bool)
        ensures
            r == self@.downlink_active,
    {
        self.downlink_active
    }

    /// Accumulate one decoded uplink frame into the running level. The sum has room for about
    /// 1.7e10 samples, some 24 days of audio.
    pub fn add_uplink_level(&mut self, pcm: &[i16])
        requires
            old(self)@.wf(),
            old(self)@.uplink_samples + pcm@.len() < 0x4_0000_0000,
        ensures
            final(self)@ == (Levels {
                uplink_energy: old(self)@.uplink_energy + energy(pcm@, pcm@.len() as int),
                uplink_samples: old(self)@.uplink_samples + pcm@.len(),
                ..old(self)@
            }),
            final(self)@.wf(),
    {
        let mut sq: u64 = 0;
        let mut i: usize = 0;
        while i < pcm.len()
            invariant
                i <= pcm@.len(),
                sq == energy(pcm@, i as int),
                sq <= 0x4000_0000 * i,
                pcm@.len() < 0x4_0000_0000,
            decreases pcm@.len() - i,
        {
            let s: i64 = pcm[i] as i64;
            assert(0 <= s * s <= 0x4000_0000) by (nonlinear_arith)
                requires
                    -0x8000 <= s <= 0x7fff,
            ;
            sq = sq + (s * s) as u64;
            i = i + 1;
        }
        self.uplink_sumsq = self.uplink_sumsq + sq;
        self.uplink_samples = self.uplink_samples + pcm.len() as u64;
    }

    fn publish(&mut self, downlink: &Downlink, max_gap_ms: u64, active: bool)
        ensures
            final(self)@ == (Levels {
                underruns: downlink@.underruns as u64,
                starved_ms: downlink@.starved_ms as u64,
                max_gap_ms,
                downlink_active: active,
                ..old(self)@
            }),
    {
        self.underruns = downlink.underruns();
        self.starved_ms = downlink.starved_ms();
        self.max_gap_ms = max_gap_ms;
        self.set_downlink_active(active);
    }
}

/// A constant signal of amplitude `a` has level `|a|`, however many frames it came in.
pub proof fn constant_tone_level(pcm: Seq<i16>, a: i16, n: int)
    requires
        0 <= n <= pcm.len(),
        forall|i: int| 0 <= i < pcm.len() ==> #[trigger] pcm[i] == a,
    ensures
        energy(pcm, n) == n * (a * a),
        n > 0 ==> energy(pcm, n) / n == a * a,
    decreases n,
{
    if n > 0 {
        constant_tone_level(pcm, a, n - 1);
        assert(pcm[n - 1] == a);
        assert((n - 1) * (a * a) + a * a == n * (a * a)) by (nonlinear_arith);
        vstd::arithmetic::div_mod::lemma_div_multiples_vanish(a * a, n);
        assert(n * (a * a) == (a * a) * n) by (nonlinear_arith);
    } else {
        assert(0 * (a * a) == 0);
    }
}

/// Why the bridge stopped.
#[derive(Clone, Copy, Debug, PartialEq, Eq, Structural)]
pub enum BridgeEnd {
    /// The phone side ended.
    PhoneClosed,
    /// The session side ended.
    GeminiClosed,
    /// The engine stopped it.
    Cancelled,
}

/// One uplink frame: the decoded phone audio, and what goes to the session.
pub struct UplinkFrame {
    pub pcm8: Vec<i16>,
    pub pcm16: Vec<i16>,
}

/// Decode one phone payload, lift it and bring it to the session's rate. Nothing is dropped or
/// delayed.
pub fn uplink_frame(codec: G711Kind, payload: &[u8], agc: &mut Agc) -> (r: UplinkFrame)
    requires
        old(agc)@.wf(),
        payload@.len() < 0x8_0000_0000_0000,
    ensures
        r.pcm8@.len() == payload@.len(),
        forall|i: int| 0 <= i < r.pcm8@.len() ==> #[trigger] r.pcm8@[i] == sample_of(codec, payload@[i]),
        r.pcm16@.len() == 2 * payload@.len(),
        forall|k: int|
            0 <= k < r.pcm16@.len() ==> #[trigger] r.pcm16@[k] == upsampled(
                old(agc)@.applied(r.pcm8@),
                k,
            ),
        final(agc)@ == old(agc)@.after(r.pcm8@),
        final(agc)@.wf(),
{
    let pcm8: Vec<i16> = decode(codec, payload);
    let mut lifted: Vec<i16> = pcm8.clone();
    assert(lifted@ =~= pcm8@);
    agc.process(lifted.as_mut_slice());
    let pcm16: Vec<i16> = up_8k_16k(lifted.as_slice());
    UplinkFrame { pcm8, pcm16 }
}

/// What the bridge does with a session event.
#[derive(Debug)]
pub enum Step {
    /// It is dealt with.
    Done,
    /// It goes on to the engine.
    Forward(Event),
    /// The bridge ends.
    End(BridgeEnd),
}

/// One 20 ms downlink frame: the audio, and its payload for the phone.
pub struct DownlinkFrame {
    pub pcm8: Vec<i16>,
    pub payload: Vec<u8>,
}

/// The downlink side of the bridge.
pub struct Playout {
    pub codec: G711Kind,
    pub pacer: Pacer,
    /// When model audio last arrived in this turn.
    pub last_audio_ms: Option<u64>,
    /// The longest gap between chunks of one turn.
    pub max_gap_ms: u64,
}

/// `b - a`, no less than zero.
pub open spec fn since(a: u64, b: u64) -> u64 {
    if b > a {
        (b - a) as u64
    } else {
        0
    }
}

impl Playout {
    /// Model audio arrived: a turn is expected, and the gap since the last chunk counts.
    pub open spec fn after_audio(self, pcm24: Seq<i16>, now_ms: u64) -> Playout {
        let gap = match self.last_audio_ms {
            Some(t) => since(t, now_ms),
            None => 0,
        };
        let p = self.pacer.with_expecting(true);
        Playout {
            pacer: Pacer { buf: p.buf + pcm24, ..p },
            last_audio_ms: Some(now_ms),
            max_gap_ms: if gap > self.max_gap_ms {
                gap
            } else {
                self.max_gap_ms
            },
            ..self
        }
    }

    /// The callee interrupted: everything buffered is dropped.
    pub open spec fn after_interruption(self) -> Playout {
        Playout {
            pacer: self.pacer.with_expecting(false).cleared(),
            last_audio_ms: None,
            ..self
        }
    }

    /// The turn is over; what is buffered still plays.
    pub open spec fn after_turn(self) -> Playout {
        Playout { pacer: self.pacer.with_expecting(false), last_audio_ms: None, ..self }
    }

    pub open spec fn after_event(self, ev: Option<Event>, now_ms: u64) -> Playout {
        match ev {
            Some(Event::OutputAudio(pcm24)) => self.after_audio(pcm24@, now_ms),
            Some(Event::Interrupted) => self.after_interruption(),
            Some(Event::TurnComplete) => self.after_turn(),
            _ => self,
        }
    }

    /// What becomes of an event: audio and interruptions are consumed, the rest goes on to the
    /// engine, and the end of the events ends the bridge.
    pub open spec fn step(self, ev: Option<Event>) -> Step {
        match ev {
            Some(Event::OutputAudio(_)) => Step::Done,
            Some(Event::Interrupted) => Step::Done,
            Some(e) => Step::Forward(e),
            None => Step::End(BridgeEnd::GeminiClosed),
        }
    }

    /// Whether the downlink is still delivering a turn: audio is buffered, or came within the
    /// grace window.
    pub open spec fn delivering(self, now_ms: u64) -> bool {
        self.pacer.buf.len() > 0 || (self.last_audio_ms is Some && since(
            self.last_audio_ms->Some_0,
            now_ms,
        ) < DOWNLINK_GRACE_MS)
    }

    pub open spec fn ticked(self) -> Playout {
        Playout { pacer: self.pacer.advanced(), ..self }
    }
}

/// The downlink side of the bridge: buffer, pacer and barge-in.
pub struct Bridge {
    codec: G711Kind,
    downlink: Downlink,
    last_audio_ms: Option<u64>,
    max_gap_ms: u64,
}

impl View for Bridge {
    type V = Playout;

    closed spec fn view(&self) -> Playout {
        Playout {
            codec: self.codec,
            pacer: self.downlink@,
            last_audio_ms: self.last_audio_ms,
            max_gap_ms: self.max_gap_ms,
        }
    }
}

impl Bridge {
    pub fn new(codec: G711Kind, prebuffer_ms: u32, resume_ms: u32) -> (r: Self)
        ensures
            r@ == (Playout {
                codec,
                pacer: Pacer::fresh(prebuffer_ms as int, resume_ms as int),
                last_audio_ms: None,
                max_gap_ms: 0,
            }),
            r@.pacer.wf(),
    {
        Bridge {
            codec,
            downlink: Downlink::new(prebuffer_ms, resume_ms),
            last_audio_ms: None,
            max_gap_ms: 0,
        }
    }

    /// A session event, or (`None`) the end of them.
    pub fn on_event(&mut self, ev: Option<Event>, now_ms: u64) -> (r: Step)
        requires
            old(self)@.pacer.wf(),
        ensures
            r == old(self)@.step(ev),
            final(self)@ == old(self)@.after_event(ev, now_ms),
            final(self)@.pacer.wf(),
    {
        match ev {
            Some(Event::OutputAudio(pcm24)) => {
                self.downlink.set_expecting(true);
                if let Some(prev) = self.last_audio_ms {
                    let gap: u64 = now_ms.saturating_sub(prev);
                    if gap > self.max_gap_ms {
                        self.max_gap_ms = gap;
                    }
                }
                self.last_audio_ms = Some(now_ms);
                self.downlink.push(pcm24.as_slice());
                Step::Done
            },
            Some(Event::Interrupted) => {
                self.downlink.set_expecting(false);
                self.last_audio_ms = None;
                self.downlink.clear();
                Step::Done
            },
            Some(Event::TurnComplete) => {
                self.downlink.set_expecting(false);
                self.last_audio_ms = None;
                Step::Forward(Event::TurnComplete)
            },
            Some(other) => Step::Forward(other),
            None => Step::End(BridgeEnd::GeminiClosed),
        }
    }

    /// The pacer's 20 ms tick: the next frame for the phone, silence while `muted`. Publishes the
    /// counters.
    pub fn on_tick(&mut self, now_ms: u64, muted: bool, quality: &mut QualityShared) -> (r:
        DownlinkFrame)
        requires
            old(self)@.pacer.wf(),
            old(self)@.pacer.underruns < u64::MAX,
            old(self)@.pacer.starved_ms <= u64::MAX - 20,
        ensures
            r.pcm8@ == old(self)@.pacer.frame(),
            r.payload@.len() == 160,
            forall|i: int|
                0 <= i < 160 ==> #[trigger] r.payload@[i] == code_of(
                    old(self)@.codec,
                    if muted {
                        0
                    } else {
                        r.pcm8@[i]
                    },
                ),
            final(self)@ == old(self)@.ticked(),
            final(self)@.pacer.wf(),
            final(quality)@ == (Levels {
                underruns: final(self)@.pacer.underruns as u64,
                starved_ms: final(self)@.pacer.starved_ms as u64,
                max_gap_ms: final(self)@.max_gap_ms,
                downlink_active: final(self)@.delivering(now_ms),
                ..old(quality)@
            }),
    {
        let pcm8: Vec<i16> = self.downlink.next_frame();
        let payload: Vec<u8> = if muted {
            let byte: u8 = silence_byte(self.codec);
            let mut quiet: Vec<u8> = Vec::with_capacity(160);
            while quiet.len() < 160
                invariant
                    quiet@.len() <= 160,
                    forall|i: int| 0 <= i < quiet@.len() ==> #[trigger] quiet@[i] == byte,
                decreases 160 - quiet@.len(),
            {
                quiet.push(byte);
            }
            quiet
        } else {
            encode(self.codec, pcm8.as_slice())
        };
        let recent: bool = match self.last_audio_ms {
            Some(t) => now_ms.saturating_sub(t) < DOWNLINK_GRACE_MS,
            None => false,
        };
        let active: bool = self.downlink.pending() || recent;
        quality.publish(&self.downlink, self.max_gap_ms, active);
        DownlinkFrame { pcm8, payload }
    }
}

/// Every event that is neither audio nor an interruption reaches the engine as it is, and changes
/// nothing that plays unless it ends the turn.
pub proof fn non_audio_events_are_forwarded(p: Playout, ev: Event, now_ms: u64)
    requires
        !(ev is OutputAudio),
        !(ev is Interrupted),
    ensures
        p.step(Some(ev)) == Step::Forward(ev),
        p.after_event(Some(ev), now_ms).pacer.buf == p.pacer.buf,
{
}

/// After an interruption nothing is buffered, and the next frame is silence.
pub proof fn barge_in_silences_the_phone(p: Playout, now_ms: u64)
    requires
        p.pacer.prebuffer > 0,
    ensures
        ({
            let q = p.after_event(Some(Event::Interrupted), now_ms);
            &&& q.pacer.buf.len() == 0
            &&& !q.delivering(now_ms)
            &&& forall|k: int| 0 <= k < 160 ==> #[trigger] q.pacer.frame()[k] == 0
        }),
{
    let e = p.pacer.with_expecting(false);
    pace::clear_silences_and_rearms(e, Seq::empty());
    assert(e.cleared().buf.len() == 0);
}

/// The gap metric never falls.
pub proof fn max_gap_never_falls(p: Playout, ev: Option<Event>, now_ms: u64)
    ensures
        p.after_event(ev, now_ms).max_gap_ms >= p.max_gap_ms,
{
}

} // verus!
