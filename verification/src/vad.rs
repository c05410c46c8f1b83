//! Detects the onset of callee speech from incoming frames of samples.
//!
//! The discriminator between a steady line background and genuine speech is a jump from an
//! established baseline, not absolute loudness. The first frame ever observed has no prior
//! contrast to be judged against, so it seeds the noise floor. From then on a frame is loud when
//! its level reaches the threshold over the floor, and only frames that are not loud train the
//! floor.
//!
//! Speech that is present and perfectly sustained from the first observed frame on cannot be told
//! from a steady background at that level.
use vstd::arithmetic::power2::{lemma2_to64, lemma_pow2_adds, lemma_pow2_pos, pow2};
use vstd::prelude::*;

use crate::config::VadConfig;
use crate::level::{energy, rms, rms_bits};
use crate::nearest::{
    count, counted, exponent, is_nearest, lemma_below_power, lemma_count, lemma_not_negative,
    lemma_order, mantissa, multiplied, operations_are_exact_to_the_last_digit, power_bits, product,
    rounding_keeps_bounds, summed, total, INFINITE,
};
use crate::single::Single;

verus! {

/// The weight of the noise floor in its moving average: the bits of 0.9.
pub const KEEP: u32 = 0x3F66_6666;

/// The weight of a background frame in it: the bits of 0.1.
pub const LEARN: u32 = 0x3DCC_CCCD;

/// The bits of the level that is `ratio` times the floor. A ratio that is negative or not a number
/// gives no level.
pub open spec fn raised(floor: Single, ratio: Single) -> int {
    if ratio.bits > INFINITE {
        0
    } else if ratio.bits == INFINITE {
        if floor.bits == 0 {
            0
        } else {
            INFINITE as int
        }
    } else {
        product(floor.bits as int, ratio.bits as int)
    }
}

/// The speech threshold over a noise floor: the least level of speech, or `ratio` times the floor
/// where that is more.
pub open spec fn threshold_over(min_rms: int, ratio: Single, floor: Single) -> Single {
    let least = count(min_rms);
    let over = raised(floor, ratio);
    Single {
        bits: (if over > least {
            over
        } else {
            least
        }) as u32,
    }
}

/// The bits of the noise floor after a background frame.
pub open spec fn drifted(floor: Single, rms: int) -> int {
    total(product(floor.bits as int, KEEP as int), product(rms, LEARN as int))
}

/// The state of the detection.
#[verifier::ext_equal]
pub struct Onset {
    pub min_rms: int,
    pub ratio: Single,
    pub onset_frames: int,
    pub warmup_frames: int,
    pub noise_floor: Single,
    pub last_rms: Single,
    /// Loud frames in a row.
    pub streak: int,
    pub fired: bool,
    /// Frames seen, up to the warmup.
    pub seen: int,
}

impl Onset {
    pub open spec fn fresh(cfg: VadConfig) -> Onset {
        Onset {
            min_rms: cfg.min_rms as int,
            ratio: cfg.ratio,
            onset_frames: cfg.onset_frames as int,
            warmup_frames: cfg.warmup_frames as int,
            noise_floor: Single { bits: 0 },
            last_rms: Single { bits: 0 },
            streak: 0,
            fired: false,
            seen: 0,
        }
    }

    /// Neither level passes that of the loudest sample.
    pub open spec fn wf(self) -> bool {
        &&& 0 <= self.min_rms <= u32::MAX
        &&& 0 <= self.seen <= self.warmup_frames
        &&& 0 <= self.streak
        &&& !self.fired ==> self.streak == 0 || self.streak < self.onset_frames
        &&& self.noise_floor.bits <= power_bits(15)
        &&& self.last_rms.bits <= power_bits(15)
    }

    /// The speech threshold over the floor.
    pub open spec fn threshold(self) -> Single {
        threshold_over(self.min_rms, self.ratio, self.noise_floor)
    }

    /// Whether a frame reaches the threshold.
    pub open spec fn loud(self, frame: Seq<i16>) -> bool {
        (Single { bits: rms_bits(frame) as u32 }).at_least(self.threshold())
    }

    /// Whether the next frame seeds the noise floor.
    pub open spec fn seeds(self) -> bool {
        self.seen == 0 && self.warmup_frames > 0
    }

    /// Whether a frame confirms the onset of speech.
    pub open spec fn confirms(self, frame: Seq<i16>) -> bool {
        &&& frame.len() > 0
        &&& !self.fired
        &&& !self.seeds()
        &&& self.loud(frame)
        &&& self.streak + 1 >= self.onset_frames
    }

    /// The state after a frame; an empty one changes nothing.
    pub open spec fn after(self, frame: Seq<i16>) -> Onset {
        let level = Single { bits: rms_bits(frame) as u32 };
        if frame.len() == 0 {
            self
        } else if self.fired {
            Onset { last_rms: level, ..self }
        } else {
            let s = Onset {
                last_rms: level,
                seen: if self.seen < self.warmup_frames {
                    self.seen + 1
                } else {
                    self.seen
                },
                ..self
            };
            if self.seeds() {
                Onset { noise_floor: level, streak: 0, ..s }
            } else if self.loud(frame) {
                Onset { streak: self.streak + 1, fired: self.confirms(frame), ..s }
            } else {
                Onset {
                    noise_floor: Single {
                        bits: drifted(self.noise_floor, level.bits as int) as u32,
                    },
                    streak: 0,
                    ..s
                }
            }
        }
    }
}

/// A weighted level is at most its weight's share of the loudest.
proof fn lemma_weighted(level: int, weight: int, most: int)
    requires
        0 <= level <= power_bits(15),
        weight == KEEP && most == 0x46E6_6666 || weight == LEARN && most == 0x454C_CCCD,
    ensures
        0 <= product(level, weight) <= most,
{
    lemma_below_power(level, 15);
    let x = exponent(level);
    let m = mantissa(level);
    let w = mantissa(weight);
    assert(mantissa(most) == w && exponent(most) == exponent(weight) + 15);
    let p = pow2((15 - x) as nat) as int;
    assert(0 <= m * w <= w * p) by (nonlinear_arith)
        requires
            0 <= m <= p,
            w > 0,
    ;
    assert(1 * (w * p) == w * p);
    rounding_keeps_bounds(m * w, 1, x + exponent(weight), most);
}

/// The digits of a number that is at most another, shifted to a common place.
proof fn lemma_shifted_below(bits: int, most: int, e: int)
    requires
        0 <= bits <= most,
        0x80_0000 <= most,
        e <= exponent(bits),
    ensures
        0 <= mantissa(bits) * pow2((exponent(bits) - e) as nat) <= mantissa(most) * pow2(
            (exponent(most) - e) as nat,
        ),
        exponent(bits) <= exponent(most),
{
    lemma_order(most, bits);
    let x = exponent(bits);
    let y = exponent(most);
    lemma_pow2_adds((y - x) as nat, (x - e) as nat);
    lemma_pow2_pos((x - e) as nat);
    let p = pow2((x - e) as nat) as int;
    let q = pow2((y - x) as nat) as int;
    let m = mantissa(bits);
    let n = mantissa(most);
    assert(0 <= m * p <= n * (q * p)) by (nonlinear_arith)
        requires
            0 <= m <= n * q,
            p > 0,
    ;
}

/// The noise floor never passes the level of the loudest sample: it moves between levels that do
/// not.
pub proof fn floor_stays_in_range(floor: Single, rms: int)
    requires
        floor.bits <= power_bits(15),
        0 <= rms <= power_bits(15),
    ensures
        0 <= product(floor.bits as int, KEEP as int) < INFINITE,
        0 <= product(rms, LEARN as int) < INFINITE,
        0 <= drifted(floor, rms) <= power_bits(15),
{
    let a = product(floor.bits as int, KEEP as int);
    let b = product(rms, LEARN as int);
    lemma_weighted(floor.bits as int, KEEP as int, 0x46E6_6666);
    lemma_weighted(rms, LEARN as int, 0x454C_CCCD);
    let e = if exponent(a) < exponent(b) {
        exponent(a)
    } else {
        exponent(b)
    };
    lemma_shifted_below(a, 0x46E6_6666, e);
    lemma_shifted_below(b, 0x454C_CCCD, e);
    let p = pow2((-12 - e) as nat) as int;
    lemma2_to64();
    lemma_pow2_adds(3, (-12 - e) as nat);
    lemma_pow2_adds(4, (-12 - e) as nat);
    assert(mantissa(0x46E6_6666) == 0xE6_6666 && exponent(0x46E6_6666) == -9);
    assert(mantissa(0x454C_CCCD) == 0xCC_CCCD && exponent(0x454C_CCCD) == -12);
    assert(mantissa(power_bits(15)) == 0x80_0000 && exponent(power_bits(15)) == -8);
    let sum = mantissa(a) * pow2((exponent(a) - e) as nat) + mantissa(b) * pow2(
        (exponent(b) - e) as nat,
    );
    let m = mantissa(0x46E6_6666);
    let n = mantissa(0x454C_CCCD);
    let q = pow2((-9 - e) as nat) as int;
    assert(m * q + n * p == 0x7FF_FFFD * p) by (nonlinear_arith)
        requires
            m == 0xE6_6666,
            n == 0xCC_CCCD,
            q == 8 * p,
    ;
    let h = mantissa(power_bits(15));
    let t = pow2((-8 - e) as nat) as int;
    assert(h * t == 0x800_0000 * p) by (nonlinear_arith)
        requires
            h == 0x80_0000,
            t == 16 * p,
    ;
    assert(0 <= sum <= 1 * (h * t));
    rounding_keeps_bounds(sum, 1, e, power_bits(15));
}

/// Onset detection over frame energies.
pub struct Vad {
    cfg: VadConfig,
    noise_floor: Single,
    last_rms: Single,
    consec: u32,
    fired: bool,
    frames_seen: u32,
}

impl View for Vad {
    type V = Onset;

    closed spec fn view(&self) -> Onset {
        Onset {
            min_rms: self.cfg.min_rms as int,
            ratio: self.cfg.ratio,
            onset_frames: self.cfg.onset_frames as int,
            warmup_frames: self.cfg.warmup_frames as int,
            noise_floor: self.noise_floor,
            last_rms: self.last_rms,
            streak: self.consec as int,
            fired: self.fired,
            seen: self.frames_seen as int,
        }
    }
}

impl Vad {
    pub fn new(cfg: VadConfig) -> (r: Self)
        ensures
            r@ == Onset::fresh(cfg),
            r@.wf(),
    {
        Vad {
            cfg,
            noise_floor: Single { bits: 0 },
            last_rms: Single { bits: 0 },
            consec: 0,
            fired: false,
            frames_seen: 0,
        }
    }

    /// RMS of the most recently observed frame.
    pub fn last_rms(&self) -> (r: Single)
        ensures
            r == self@.last_rms,
    {
        self.last_rms
    }

    /// Current adaptive noise floor.
    pub fn noise_floor(&self) -> (r: Single)
        ensures
            r == self@.noise_floor,
    {
        self.noise_floor
    }

    /// Whether speech onset was confirmed.
    pub fn onset(&self) -> (r: bool)
        ensures
            r == self@.fired,
    {
        self.fired
    }

    /// The speech threshold over the floor as it stands.
    fn threshold(&self) -> (r: Single)
        requires
            self@.wf(),
        ensures
            r == self@.threshold(),
    {
        proof {
            vstd::arithmetic::power2::lemma2_to64();
            lemma_count(self.cfg.min_rms as int, 32);
        }
        let least: Single = counted(self.cfg.min_rms as u64);
        let over: Single = if self.cfg.ratio.bits > INFINITE {
            Single { bits: 0 }
        } else if self.cfg.ratio.bits == INFINITE {
            if self.noise_floor.bits == 0 {
                Single { bits: 0 }
            } else {
                Single { bits: INFINITE }
            }
        } else {
            multiplied(self.noise_floor, self.cfg.ratio)
        };
        if over.bits > least.bits {
            over
        } else {
            least
        }
    }

    /// Whether the most recently observed frame reaches the speech threshold over the floor as it
    /// now stands. Unlike the onset this follows every frame.
    pub fn is_speech_frame(&self) -> (r: bool)
        requires
            self@.wf(),
        ensures
            r == self@.last_rms.at_least(self@.threshold()),
    {
        self.last_rms.reaches(self.threshold())
    }

    /// Feed one incoming callee frame. Returns true exactly once, on the frame that confirms
    /// speech onset.
    pub fn observe(&mut self, frame: &[i16]) -> (r: bool)
        requires
            old(self)@.wf(),
            frame@.len() < 0x8_0000_0000_0000,
        ensures
            r == old(self)@.confirms(frame@),
            final(self)@ == old(self)@.after(frame@),
            final(self)@.wf(),
    {
        if frame.len() == 0 {
            return false;
        }
        let level: Single = rms(frame);
        self.last_rms = level;
        if self.fired {
            return false;
        }
        if self.frames_seen < self.cfg.warmup_frames {
            let is_seed: bool = self.frames_seen == 0;
            self.frames_seen = self.frames_seen + 1;
            if is_seed {
                self.noise_floor = level;
                self.consec = 0;
                return false;
            }
        }
        self.classify(level)
    }

    /// Judges a level against the current floor.
    fn classify(&mut self, level: Single) -> (r: bool)
        requires
            old(self)@.wf(),
            !old(self)@.fired,
            level.bits <= power_bits(15),
        ensures
            r == (level.at_least(old(self)@.threshold()) && old(self)@.streak + 1 >= old(
                self,
            )@.onset_frames),
            final(self)@ == (if level.at_least(old(self)@.threshold()) {
                Onset { streak: old(self)@.streak + 1, fired: r, ..old(self)@ }
            } else {
                Onset {
                    noise_floor: Single {
                        bits: drifted(old(self)@.noise_floor, level.bits as int) as u32,
                    },
                    streak: 0,
                    ..old(self)@
                }
            }),
            final(self)@.wf(),
    {
        if level.reaches(self.threshold()) {
            self.consec = self.consec + 1;
            if self.consec >= self.cfg.onset_frames {
                self.fired = true;
                return true;
            }
        } else {
            proof {
                floor_stays_in_range(self.noise_floor, level.bits as int);
            }
            self.consec = 0;
            let kept: Single = multiplied(self.noise_floor, Single { bits: KEEP });
            let learnt: Single = multiplied(level, Single { bits: LEARN });
            self.noise_floor = summed(kept, learnt);
        }
        false
    }
}

/// The onset comes at most once: afterwards a frame only refreshes the last level.
pub proof fn onset_comes_once(s: Onset, frame: Seq<i16>, next: Seq<i16>)
    requires
        s.confirms(frame),
    ensures
        s.after(frame).fired,
        !s.after(frame).confirms(next),
        s.after(frame).after(next).fired,
        s.after(frame).after(next).noise_floor == s.after(frame).noise_floor,
{
}

/// The state after a run of frames.
pub open spec fn after_all(s: Onset, frames: Seq<Seq<i16>>) -> Onset
    decreases frames.len(),
{
    if frames.len() == 0 {
        s
    } else {
        after_all(s, frames.drop_last()).after(frames.last())
    }
}

/// From background, it takes exactly the configured number of loud frames in a row: the run of
/// `n` before the last does not fire, and the frame that completes it does. A background frame
/// starts the count over. Loud frames leave the floor, and so the threshold, where it was.
pub proof fn onset_needs_consecutive_loud_frames(
    s: Onset,
    frames: Seq<Seq<i16>>,
    next: Seq<i16>,
    quiet: Seq<i16>,
)
    requires
        s.wf(),
        !s.fired,
        s.streak == 0,
        !s.seeds(),
        frames.len() < s.onset_frames,
        forall|i: int|
            0 <= i < frames.len() ==> (#[trigger] frames[i]).len() > 0 && s.loud(frames[i]),
        next.len() > 0,
        s.loud(next),
        quiet.len() > 0,
        !s.loud(quiet),
    ensures
        !after_all(s, frames).fired,
        after_all(s, frames).streak == frames.len(),
        after_all(s, frames).confirms(next) == (frames.len() + 1 == s.onset_frames),
        after_all(s, frames).after(quiet).streak == 0,
        after_all(s, frames).threshold() == s.threshold(),
        !after_all(s, frames).seeds(),
        0 <= after_all(s, frames).seen <= after_all(s, frames).warmup_frames,
        after_all(s, frames).onset_frames == s.onset_frames,
        after_all(s, frames).noise_floor == s.noise_floor,
        after_all(s, frames).min_rms == s.min_rms,
        after_all(s, frames).ratio == s.ratio,
    decreases frames.len(),
{
    if frames.len() > 0 {
        onset_needs_consecutive_loud_frames(s, frames.drop_last(), next, quiet);
        assert(frames.last() == frames[frames.len() - 1]);
    }
}

/// Frames that never reach the threshold never fire.
pub proof fn background_never_fires(s: Onset, frames: Seq<Seq<i16>>)
    requires
        s.wf(),
        !s.fired,
        s.streak == 0,
        forall|i: int|
            0 <= i < frames.len() ==> !after_all(s, #[trigger] frames.take(i)).loud(frames[i]),
    ensures
        !after_all(s, frames).fired,
        after_all(s, frames).streak == 0,
    decreases frames.len(),
{
    if frames.len() > 0 {
        let before = frames.drop_last();
        let n = before.len() as int;
        assert(frames.take(n) =~= before);
        assert forall|i: int| 0 <= i < before.len() implies !after_all(
            s,
            #[trigger] before.take(i),
        ).loud(before[i]) by {
            assert(frames.take(i) =~= before.take(i));
        }
        background_never_fires(s, before);
    }
}

/// How many of the first `n` frames are not empty.
pub open spec fn heard(frames: Seq<Seq<i16>>, n: int) -> int
    decreases n,
{
    if n <= 0 {
        0
    } else {
        heard(frames, n - 1) + (if frames[n - 1].len() > 0 {
            1int
        } else {
            0
        })
    }
}

/// Whether frame `n` only seeds the noise floor: it is the first that is not empty, and there is a
/// warmup.
pub open spec fn seeding(cfg: VadConfig, frames: Seq<Seq<i16>>, n: int) -> bool {
    cfg.warmup_frames > 0 && heard(frames, n) == 0
}

/// The noise floor over the first `n` frames: the seed sets it, and each later frame under the
/// threshold moves it a little toward its own level. An empty frame leaves it.
pub open spec fn floor_of(cfg: VadConfig, frames: Seq<Seq<i16>>, n: int) -> Single
    decreases n,
{
    if n <= 0 {
        Single { bits: 0 }
    } else {
        let floor = floor_of(cfg, frames, n - 1);
        let f = frames[n - 1];
        if f.len() == 0 {
            floor
        } else if seeding(cfg, frames, n - 1) {
            Single { bits: rms_bits(f) as u32 }
        } else if is_loud(cfg, floor, f) {
            floor
        } else {
            Single { bits: drifted(floor, (rms_bits(f) as u32) as int) as u32 }
        }
    }
}

/// Whether a frame reaches the threshold over a floor.
pub open spec fn is_loud(cfg: VadConfig, floor: Single, frame: Seq<i16>) -> bool {
    (Single { bits: rms_bits(frame) as u32 }).at_least(
        threshold_over(cfg.min_rms as int, cfg.ratio, floor),
    )
}

/// How many loud frames in a row end the first `n` frames, empty ones aside.
pub open spec fn loud_run(cfg: VadConfig, frames: Seq<Seq<i16>>, n: int) -> int
    decreases n,
{
    if n <= 0 {
        0
    } else if frames[n - 1].len() == 0 {
        loud_run(cfg, frames, n - 1)
    } else if seeding(cfg, frames, n - 1) || !is_loud(
        cfg,
        floor_of(cfg, frames, n - 1),
        frames[n - 1],
    ) {
        0
    } else {
        loud_run(cfg, frames, n - 1) + 1
    }
}

/// Whether frame `n` completes a run of as many loud frames as confirm speech.
pub open spec fn completes(cfg: VadConfig, frames: Seq<Seq<i16>>, n: int) -> bool {
    frames[n].len() > 0 && loud_run(cfg, frames, n + 1) > 0 && loud_run(cfg, frames, n + 1)
        >= cfg.onset_frames
}

/// What a fresh detector knows after the first `n` frames.
proof fn lemma_detected(cfg: VadConfig, frames: Seq<Seq<i16>>, n: int)
    requires
        0 <= n <= frames.len(),
    ensures
        ({
            let s = after_all(Onset::fresh(cfg), frames.take(n));
            &&& s.min_rms == cfg.min_rms
            &&& s.ratio == cfg.ratio
            &&& s.onset_frames == cfg.onset_frames
            &&& s.warmup_frames == cfg.warmup_frames
            &&& 0 <= s.seen <= s.warmup_frames
            &&& s.fired <==> exists|k: int| 0 <= k < n && #[trigger] completes(cfg, frames, k)
            &&& !s.fired ==> {
                &&& s.noise_floor == floor_of(cfg, frames, n)
                &&& s.streak == loud_run(cfg, frames, n)
                &&& s.seeds() == seeding(cfg, frames, n)
            }
            &&& 0 <= loud_run(cfg, frames, n)
            &&& 0 <= heard(frames, n)
        }),
    decreases n,
{
    if n > 0 {
        lemma_detected(cfg, frames, n - 1);
        let before = frames.take(n - 1);
        assert(frames.take(n).drop_last() =~= before);
        assert(frames.take(n).last() == frames[n - 1]);
        let s = after_all(Onset::fresh(cfg), before);
        let t = after_all(Onset::fresh(cfg), frames.take(n));
        assert(t == s.after(frames[n - 1]));
        if completes(cfg, frames, n - 1) {
            assert(t.fired);
        } else if s.fired {
            assert(t.fired);
            let k = choose|k: int| 0 <= k < n - 1 && #[trigger] completes(cfg, frames, k);
            assert(completes(cfg, frames, k));
        } else {
            assert(!t.fired);
        }
    }
}

/// Over any frames, a fresh detector says so on exactly one: the first that completes a run of
/// loud frames as long as configured (at least one), where the first frame that is not empty only
/// seeds the floor. It never says so again, and never on an empty frame.
pub proof fn onset_is_the_first_complete_run(cfg: VadConfig, frames: Seq<Seq<i16>>, n: int)
    requires
        0 <= n < frames.len(),
    ensures
        after_all(Onset::fresh(cfg), frames.take(n)).confirms(frames[n]) <==> (completes(
            cfg,
            frames,
            n,
        ) && forall|k: int| 0 <= k < n ==> !(#[trigger] completes(cfg, frames, k))),
        after_all(Onset::fresh(cfg), frames.take(n)).confirms(frames[n]) ==> forall|m: int|
            0 <= m < frames.len() && m != n ==> !after_all(
                Onset::fresh(cfg),
                #[trigger] frames.take(m),
            ).confirms(frames[m]),
        frames[n].len() == 0 ==> after_all(Onset::fresh(cfg), frames.take(n)).after(frames[n])
            == after_all(Onset::fresh(cfg), frames.take(n)),
{
    lemma_detected(cfg, frames, n);
    if after_all(Onset::fresh(cfg), frames.take(n)).confirms(frames[n]) {
        assert(completes(cfg, frames, n));
        assert forall|m: int| 0 <= m < frames.len() && m != n implies !after_all(
            Onset::fresh(cfg),
            #[trigger] frames.take(m),
        ).confirms(frames[m]) by {
            lemma_detected(cfg, frames, m);
            if m < n && after_all(Onset::fresh(cfg), frames.take(m)).confirms(frames[m]) {
                assert(completes(cfg, frames, m));
            }
        }
    }
}

/// A run of zero samples has no energy.
proof fn lemma_silent(frame: Seq<i16>, n: int)
    requires
        0 <= n <= frame.len(),
        forall|i: int| 0 <= i < frame.len() ==> frame[i] == 0,
    ensures
        energy(frame, n) == 0,
    decreases n,
{
    if n > 0 {
        lemma_silent(frame, n - 1);
        assert(frame[n - 1] * frame[n - 1] == 0);
        assert(crate::nearest::length(0) == 0);
    }
}

/// Silence is never loud, so it never fires, where the least level of speech is above zero.
pub proof fn silence_is_not_speech(s: Onset, frame: Seq<i16>)
    requires
        s.wf(),
        s.min_rms > 0,
        forall|i: int| 0 <= i < frame.len() ==> frame[i] == 0,
    ensures
        !s.loud(frame),
        !s.confirms(frame),
        s.after(frame).fired == s.fired,
{
    lemma_silent(frame, frame.len() as int);
    lemma2_to64();
    lemma_count(s.min_rms, 32);
    assert(rms_bits(frame) == 0);
    let over = raised(s.noise_floor, s.ratio);
    assert(over <= INFINITE);
}

/// The speech threshold is the least level of speech, or the noise floor times the ratio where that
/// is more; it never falls below the least level, and a higher floor never lowers the ratio's share.
pub proof fn threshold_is_over_the_floor(min_rms: int, ratio: Single, floor: Single)
    requires
        0 <= min_rms <= u32::MAX,
        floor.bits < INFINITE,
    ensures
        ({
            let t = threshold_over(min_rms, ratio, floor).bits as int;
            &&& t >= count(min_rms)
            &&& ratio.bits < INFINITE ==> t >= product(floor.bits as int, ratio.bits as int)
            &&& t == count(min_rms) || (ratio.bits <= INFINITE && t > count(min_rms))
            &&& ratio.bits < INFINITE && t > count(min_rms) && t < INFINITE ==> is_nearest(
                t,
                mantissa(floor.bits as int) * mantissa(ratio.bits as int),
                1,
                exponent(floor.bits as int) + exponent(ratio.bits as int),
            )
        }),
{
    lemma2_to64();
    lemma_count(min_rms, 32);
    let f = floor.bits as int;
    if ratio.bits < INFINITE {
        let r = ratio.bits as int;
        let e = if exponent(f) < exponent(r) {
            exponent(f)
        } else {
            exponent(r)
        };
        operations_are_exact_to_the_last_digit(f, r, 0, e);
        lemma_product_is_not_negative(f, r);
    }
}

proof fn lemma_product_is_not_negative(a: int, b: int)
    requires
        0 <= a < INFINITE,
        0 <= b < INFINITE,
    ensures
        0 <= product(a, b) <= INFINITE,
{
    lemma_below_power(a, 128);
    lemma_below_power(b, 128);
    let m = mantissa(a) * mantissa(b);
    assert(0 <= m) by (nonlinear_arith)
        requires
            m == mantissa(a) * mantissa(b),
            0 <= mantissa(a),
            0 <= mantissa(b),
    ;
    lemma_not_negative(m, 1, exponent(a) + exponent(b));
}

} // verus!
