//! Adaptive gain for the uplink.
//!
//! Real trunks arrive quiet, which under-triggers the model's speech detection and stalls
//! turn-taking. This lifts sustained speech toward a target level, and holds the gain on
//! near-silence so that background noise is never amplified into false speech. The gain moves
//! smoothly (fast down, slow up) and is bounded by a ceiling; the output is held to the range of a
//! sample.
use vstd::arithmetic::power2::{
    lemma2_to64, lemma_pow2_adds, lemma_pow2_pos, lemma_pow2_strictly_increases, pow2,
};
use vstd::prelude::*;

use crate::config::AgcConfig;
use crate::level::{rms, rms_bits};
use crate::nearest::{
    count, counted, divided, exponent, is_nearest, lemma_at_most_twice, lemma_count,
    lemma_less_below, lemma_not_negative, lemma_order, lemma_product_shrinks, lemma_value_scaled,
    lemma_values_add, less, lessened, mantissa, multiplied, nearest,
    operations_are_exact_to_the_last_digit, parted, per, power, product, rounding_keeps_bounds,
    summed, total, value, INFINITE,
};
use crate::single::Single;

verus! {

/// The bits of 1.
pub const UNITY: u32 = 0x3F80_0000;

/// The bits of what is not a number: a gain that is lost.
pub const LOST: u32 = 0x7FC0_0000;

/// The bits of 0.3, the share of the way that the gain moves down at a frame.
pub const ATTACK: u32 = 0x3E99_999A;

/// The bits of 0.05, the share of the way that it moves up.
pub const RELEASE: u32 = 0x3D4C_CCCD;

/// The bits of 0.001: a gain nearer to 1 than this changes no sample.
pub const NEGLIGIBLE: u32 = 0x3A83_126F;

/// The gain at work.
#[verifier::ext_equal]
pub struct Gain {
    pub enabled: bool,
    /// The level that speech is driven toward.
    pub target: Single,
    /// The ceiling.
    pub most: Single,
    /// Frames below this level hold the gain.
    pub floor: Single,
    pub gain: Single,
}

/// The gain that would bring a level to the target, under the ceiling: its bits. A target that is
/// not a number gives none.
pub open spec fn desired(target: Single, most: Single, level: int) -> int {
    let full = if target.bits > INFINITE {
        LOST as int
    } else if target.bits == INFINITE {
        INFINITE as int
    } else {
        per(target.bits as int, level)
    };
    if full != LOST && full > most.bits {
        most.bits as int
    } else {
        full
    }
}

/// The bits of a gain that has moved toward another: fast down, slow up. Toward infinity it is
/// infinite at once; from there, and from or toward what is not a number, it is lost.
pub open spec fn moved(gain: int, to: int) -> int {
    if gain >= INFINITE || to > INFINITE {
        LOST as int
    } else if to == INFINITE {
        INFINITE as int
    } else if to < gain {
        less(gain, product(less(gain, to), ATTACK as int))
    } else {
        total(gain, product(less(to, gain), RELEASE as int))
    }
}

/// Whether a gain is 1 for all purposes.
pub open spec fn near_unity(gain: int) -> bool {
    if gain >= INFINITE {
        false
    } else if gain >= UNITY {
        less(gain, UNITY as int) < NEGLIGIBLE
    } else {
        less(UNITY as int, gain) < NEGLIGIBLE
    }
}

/// The number with those bits to the nearest whole number, a half away from zero.
pub open spec fn rounded(bits: int) -> int {
    let m = mantissa(bits);
    let e = exponent(bits);
    if e >= 0 {
        m * pow2(e as nat)
    } else {
        (2 * m + pow2((-e) as nat)) / (2 * pow2((-e) as nat) as int)
    }
}

/// The size of a sample under a gain. Nothing comes of a lost gain, and an infinite one leaves
/// only zero below the range of a sample.
pub open spec fn amplified_size(size: int, gain: int) -> int {
    if gain > INFINITE {
        0
    } else if gain == INFINITE {
        if size == 0 {
            0
        } else {
            0x1_0000
        }
    } else {
        rounded(product(count(size), gain))
    }
}

/// A sample under a gain, held to the range of a sample.
pub open spec fn amplified(s: i16, gain: int) -> int {
    let size = if s < 0 {
        -(s as int)
    } else {
        s as int
    };
    let r = amplified_size(size, gain);
    if s < 0 {
        if r > 0x8000 {
            -0x8000
        } else {
            -r
        }
    } else if r > 0x7FFF {
        0x7FFF
    } else {
        r
    }
}

impl Gain {
    /// No gain passes the ceiling, or 1 where it is lower, unless it is lost.
    pub open spec fn wf(self) -> bool {
        &&& self.target.bits < 0x8000_0000
        &&& self.most.bits <= INFINITE
        &&& self.gain.bits <= self.most.bits || self.gain.bits <= UNITY || self.gain.bits == LOST
    }

    /// Whether a frame of that level moves the gain.
    pub open spec fn adapts(self, level: int) -> bool {
        (Single { bits: level as u32 }).at_least(self.floor) && level > 0
    }

    /// The state after a frame.
    pub open spec fn after(self, frame: Seq<i16>) -> Gain {
        let level = rms_bits(frame);
        if self.enabled && frame.len() > 0 && self.adapts(level) {
            Gain {
                gain: Single {
                    bits: moved(
                        self.gain.bits as int,
                        desired(self.target, self.most, level),
                    ) as u32,
                },
                ..self
            }
        } else {
            self
        }
    }

    /// What becomes of a frame.
    pub open spec fn applied(self, frame: Seq<i16>) -> Seq<i16> {
        let gain = self.after(frame).gain.bits as int;
        if !self.enabled || near_unity(gain) {
            frame
        } else {
            Seq::new(frame.len(), |i: int| amplified(frame[i], gain) as i16)
        }
    }
}

/// A step up at most reaches what it moves toward.
proof fn lemma_step_up(gain: int, to: int)
    requires
        0 <= gain <= to < INFINITE,
    ensures
        0 <= less(to, gain) < INFINITE,
        0 <= product(less(to, gain), RELEASE as int) < INFINITE,
        0 <= total(gain, product(less(to, gain), RELEASE as int)) <= to,
{
    let s = less(to, gain);
    let c = RELEASE as int;
    let t = product(s, c);
    lemma_less_below(to, gain);
    lemma_product_shrinks(s, c);
    lemma_order(to, gain);
    lemma2_to64();
    // Everything at one place below all of them.
    let y = -400int;
    let e = exponent(gain);
    let mg = mantissa(gain);
    let mt = mantissa(to);
    let apart = pow2((exponent(to) - e) as nat) as int;
    let x = mt * apart - mg;
    lemma_at_most_twice(x, e, y);
    let ms = mantissa(s);
    let es = exponent(s);
    assert(mantissa(c) == 0xCC_CCCD && exponent(c) == -28);
    let num = ms * mantissa(c);
    assert(0 <= num) by (nonlinear_arith)
        requires
            num == ms * mantissa(c),
            ms >= 0,
            mantissa(c) >= 0,
    ;
    lemma_at_most_twice(num, es - 28, y);
    let mv = mantissa(t);
    let ev = exponent(t);
    let f = pow2((e - y) as nat) as int;
    let g = pow2((es - y) as nat) as int;
    let h = pow2((es - 28 - y) as nat) as int;
    let v = pow2((ev - y) as nat) as int;
    lemma_pow2_adds((es - 28 - y) as nat, 28);
    lemma_pow2_pos((es - 28 - y) as nat);
    lemma_pow2_pos((e - y) as nat);
    // The step is at most the way.
    assert(mv * v <= x * f) by {
        let n = mantissa(c);
        assert(num * h == (ms * h) * n) by (nonlinear_arith)
            requires
                num == ms * n,
        ;
        assert(ms * g == (ms * h) * 0x1000_0000) by (nonlinear_arith)
            requires
                g == h * 0x1000_0000,
        ;
        assert(0 <= ms * h) by (nonlinear_arith)
            requires
                ms >= 0,
                h > 0,
        ;
        let w = ms * h;
        assert(w * n <= w * 0x100_0000) by (nonlinear_arith)
            requires
                w >= 0,
                n <= 0x100_0000,
        ;
    }
    let p = if e < ev {
        e
    } else {
        ev
    };
    let sum = mg * pow2((e - p) as nat) + mv * pow2((ev - p) as nat);
    let k = pow2((p - y) as nat) as int;
    lemma_pow2_pos((p - y) as nat);
    lemma_pow2_adds((e - p) as nat, (p - y) as nat);
    lemma_pow2_adds((ev - p) as nat, (p - y) as nat);
    let a = pow2((e - p) as nat) as int;
    let b = pow2((ev - p) as nat) as int;
    lemma_pow2_pos((e - p) as nat);
    lemma_pow2_pos((ev - p) as nat);
    lemma_pow2_adds((exponent(to) - e) as nat, (e - y) as nat);
    let z = pow2((exponent(to) - y) as nat) as int;
    assert(sum * k == mg * f + mv * v) by (nonlinear_arith)
        requires
            sum == mg * a + mv * b,
            f == a * k,
            v == b * k,
    ;
    assert(mt * z == mg * f + x * f) by (nonlinear_arith)
        requires
            x == mt * apart - mg,
            z == apart * f,
    ;
    assert(sum * k <= mt * z);
    assert(0 <= sum) by (nonlinear_arith)
        requires
            sum == mg * a + mv * b,
            mg >= 0,
            mv >= 0,
            a > 0,
            b > 0,
    ;
    if p >= exponent(to) {
        let d = pow2((p - exponent(to)) as nat) as int;
        lemma_pow2_adds((p - exponent(to)) as nat, (exponent(to) - y) as nat);
        lemma_pow2_pos((exponent(to) - y) as nat);
        assert(sum * d <= 1 * mt) by (nonlinear_arith)
            requires
                sum * k <= mt * z,
                k == d * z,
                z > 0,
        ;
    } else {
        let d = pow2((exponent(to) - p) as nat) as int;
        lemma_pow2_adds((exponent(to) - p) as nat, (p - y) as nat);
        assert(sum <= 1 * (mt * d)) by (nonlinear_arith)
            requires
                sum * k <= mt * z,
                z == d * k,
                k > 0,
        ;
    }
    rounding_keeps_bounds(sum, 1, p, to);
}

/// A step down stays above zero.
proof fn lemma_step_down(gain: int, to: int)
    requires
        0 <= to < gain < INFINITE,
    ensures
        0 <= less(gain, to) <= gain,
        0 <= product(less(gain, to), ATTACK as int) <= gain,
        0 <= moved(gain, to) <= gain,
{
    lemma_less_below(gain, to);
    lemma_product_shrinks(less(gain, to), ATTACK as int);
    lemma_less_below(gain, product(less(gain, to), ATTACK as int));
}

/// A gain moves toward its goal and never past it upward: it is bounded by the greater of where it
/// was and where it goes.
pub proof fn gain_respects_the_ceiling(gain: int, to: int)
    requires
        0 <= gain < INFINITE,
        0 <= to <= INFINITE,
    ensures
        0 <= moved(gain, to),
        moved(gain, to) <= gain || moved(gain, to) <= to,
{
    if to == INFINITE {
    } else if to < gain {
        lemma_step_down(gain, to);
    } else {
        lemma_step_up(gain, to);
    }
}

proof fn lemma_values_ordered(a: int, b: int)
    requires
        0 <= b <= a < INFINITE,
    ensures
        0 <= value(b) <= value(a),
{
    lemma_values_add(a, b);
    lemma_values_add(b, b);
}

/// The arithmetic of a step down from `g` toward `t`: `s` is the way, `v` the step, `r` the result,
/// each to its last digit.
proof fn lemma_falls(g: int, t: int, s: int, v: int, r: int)
    requires
        0 <= t <= g,
        0 <= r <= g,
        0 <= v,
        -s <= 0x100_0000 * (s - (g - t)) <= s,
        -(0x200_0000 * v + 0x100_0000 * 0x200_0000) <= 0x100_0000 * (0x200_0000 * v - s
            * 0x99_999A) <= 0x200_0000 * v + 0x100_0000 * 0x200_0000,
        -r <= 0x100_0000 * (r - (g - v)) <= r,
    ensures
        -(g + 0x100_0000) <= 0x10_0000 * (4 * (g - r) - (g - t)),
        0x10_0000 * (3 * (g - r) - (g - t)) <= g + 0x100_0000,
{
}

/// The arithmetic of a step up from `g` toward `t`.
proof fn lemma_rises(g: int, t: int, s: int, v: int, r: int)
    requires
        0 <= g <= t,
        0 <= r <= t,
        0 <= v,
        -s <= 0x100_0000 * (s - (t - g)) <= s,
        -(0x1000_0000 * v + 0x100_0000 * 0x1000_0000) <= 0x100_0000 * (0x1000_0000 * v - s
            * 0xCC_CCCD) <= 0x1000_0000 * v + 0x100_0000 * 0x1000_0000,
        -r <= 0x100_0000 * (r - (g + v)) <= r,
    ensures
        -(4 * t + 0x400_0000) <= 0x10_0000 * (32 * (r - g) - (t - g)),
        0x10_0000 * (16 * (r - g) - (t - g)) <= 4 * t + 0x400_0000,
{
}

/// The gain comes down fast and goes up slowly: at each frame it falls by between a quarter and a
/// third of the way to where it should be, or rises by between a thirty-second and a sixteenth of it,
/// but for the rounding of its last digits.
#[verifier::rlimit(40)]
pub proof fn gain_falls_fast_and_rises_slowly(gain: int, to: int)
    requires
        0 <= gain < INFINITE,
        0 <= to < INFINITE,
    ensures
        ({
            let g = value(gain);
            let t = value(to);
            let r = value(moved(gain, to));
            let slack = if g > t {
                4 * g + 0x400_0000
            } else {
                4 * t + 0x400_0000
            };
            &&& to < gain ==> -slack <= 0x10_0000 * (4 * (g - r) - (g - t)) && 0x10_0000 * (3 * (g
                - r) - (g - t)) <= slack
            &&& to >= gain ==> -slack <= 0x10_0000 * (32 * (r - g) - (t - g)) && 0x10_0000 * (16 * (r
                - g) - (t - g)) <= slack
        }),
{
    let g = value(gain);
    let t = value(to);
    lemma2_to64();
    if to < gain {
        let s = less(gain, to);
        lemma_values_add(gain, to);
        lemma_step_down(gain, to);
        let c = ATTACK as int;
        assert(mantissa(c) == 0x99_999A && exponent(c) == -25);
        let p = product(s, c);
        lemma_value_scaled(s, 0x99_999A, 25);
        assert(p == nearest(mantissa(s) * 0x99_999A, 1, exponent(s) - 25));
        let v = value(p);
        assert(v * pow2(25) == 0x200_0000 * v) by (nonlinear_arith)
            requires
                pow2(25) == 0x200_0000,
        ;
        lemma_values_add(gain, p);
        lemma_values_ordered(gain, moved(gain, to));
        lemma_values_ordered(to, to);
        lemma_falls(g, t, value(s), v, value(moved(gain, to)));
    } else {
        let s = less(to, gain);
        lemma_values_add(to, gain);
        lemma_step_up(gain, to);
        let c = RELEASE as int;
        assert(mantissa(c) == 0xCC_CCCD && exponent(c) == -28);
        let p = product(s, c);
        lemma_value_scaled(s, 0xCC_CCCD, 28);
        assert(p == nearest(mantissa(s) * 0xCC_CCCD, 1, exponent(s) - 28));
        let v = value(p);
        assert(v * pow2(28) == 0x1000_0000 * v) by (nonlinear_arith)
            requires
                pow2(28) == 0x1000_0000,
        ;
        if p <= gain {
            lemma_values_add(gain, p);
        } else {
            lemma_values_add(p, gain);
        }
        lemma_values_ordered(to, moved(gain, to));
        lemma_values_ordered(gain, gain);
        lemma_rises(g, t, value(s), v, value(moved(gain, to)));
    }
}

/// Near-silence leaves the gain where it is, whatever the frame.
pub proof fn near_silence_holds_the_gain(s: Gain, frame: Seq<i16>)
    requires
        !(Single { bits: rms_bits(frame) as u32 }).at_least(s.floor),
    ensures
        s.after(frame).gain == s.gain,
{
}

/// Per-call adaptive uplink gain.
pub struct Agc {
    enabled: bool,
    noise_floor_rms: Single,
    target_rms: Single,
    max_gain: Single,
    gain: Single,
}

impl View for Agc {
    type V = Gain;

    closed spec fn view(&self) -> Gain {
        Gain {
            enabled: self.enabled,
            target: self.target_rms,
            most: self.max_gain,
            floor: self.noise_floor_rms,
            gain: self.gain,
        }
    }
}

impl Agc {
    /// `target_rms` and `max_gain` are the linear forms of the configured decibels: neither is
    /// negative, and the ceiling is a number.
    pub fn new(cfg: AgcConfig, target_rms: Single, max_gain: Single) -> (r: Self)
        requires
            target_rms.bits < 0x8000_0000,
            max_gain.bits <= INFINITE,
        ensures
            r@ == (Gain {
                enabled: cfg.enabled,
                target: target_rms,
                most: max_gain,
                floor: cfg.noise_floor_rms,
                gain: Single { bits: UNITY },
            }),
            r@.wf(),
    {
        Agc {
            enabled: cfg.enabled,
            noise_floor_rms: cfg.noise_floor_rms,
            target_rms,
            max_gain,
            gain: Single { bits: UNITY },
        }
    }

    /// Moves the gain for a frame of that level.
    fn adapt(&mut self, level: Single)
        requires
            old(self)@.wf(),
            0 < level.bits < INFINITE,
        ensures
            final(self)@ == (Gain {
                gain: Single {
                    bits: moved(
                        old(self)@.gain.bits as int,
                        desired(old(self)@.target, old(self)@.most, level.bits as int),
                    ) as u32,
                },
                ..old(self)@
            }),
            final(self)@.wf(),
    {
        let full: Single = if self.target_rms.bits > INFINITE {
            Single { bits: LOST }
        } else if self.target_rms.bits == INFINITE {
            self.target_rms
        } else {
            divided(self.target_rms, level)
        };
        let to: Single = if full.bits != LOST && full.bits > self.max_gain.bits {
            self.max_gain
        } else {
            full
        };
        let gain: Single = self.gain;
        if gain.bits >= INFINITE || to.bits > INFINITE {
            self.gain = Single { bits: LOST };
            return;
        }
        if to.bits == INFINITE {
            self.gain = to;
            return;
        }
        proof {
            if to.bits < gain.bits {
                lemma_step_down(gain.bits as int, to.bits as int);
            } else {
                lemma_step_up(gain.bits as int, to.bits as int);
            }
        }
        self.gain = if to.bits < gain.bits {
            let way: Single = lessened(gain, to);
            lessened(gain, multiplied(way, Single { bits: ATTACK }))
        } else {
            let way: Single = lessened(to, gain);
            summed(gain, multiplied(way, Single { bits: RELEASE }))
        };
    }

    /// Apply adaptive gain in place to one frame.
    pub fn process(&mut self, frame: &mut [i16])
        requires
            old(self)@.wf(),
            old(frame)@.len() < 0x8_0000_0000_0000,
        ensures
            final(self)@ == old(self)@.after(old(frame)@),
            final(self)@.wf(),
            final(frame)@ == old(self)@.applied(old(frame)@),
    {
        if !self.enabled || frame.len() == 0 {
            assert(frame@ =~= old(self)@.applied(old(frame)@));
            return;
        }
        let level: Single = rms(frame);
        if level.reaches(self.noise_floor_rms) && level.bits > 0 {
            self.adapt(level);
        }
        let gain: Single = self.gain;
        if gain.bits < INFINITE {
            let off: Single = if gain.bits >= UNITY {
                lessened(gain, Single { bits: UNITY })
            } else {
                lessened(Single { bits: UNITY }, gain)
            };
            if off.bits < NEGLIGIBLE {
                return;
            }
        }
        let ghost input = frame@;
        let mut i: usize = 0;
        while i < frame.len()
            invariant
                i <= frame@.len(),
                frame@.len() == input.len(),
                forall|j: int|
                    0 <= j < i ==> frame@[j] == amplified(input[j], gain.bits as int) as i16,
                forall|j: int| i <= j < frame@.len() ==> frame@[j] == input[j],
            decreases frame@.len() - i,
        {
            let s: i16 = amplify(frame[i], gain);
            frame[i] = s;
            i = i + 1;
        }
    }
}

/// A sample under a gain.
fn amplify(s: i16, gain: Single) -> (r: i16)
    ensures
        r == amplified(s, gain.bits as int),
{
    let size: u64 = if s < 0 {
        (-(s as i64)) as u64
    } else {
        s as u64
    };
    proof {
        lemma2_to64();
        lemma_count(size as int, 23);
    }
    let r: u64 = if gain.bits > INFINITE {
        0
    } else if gain.bits == INFINITE {
        if size == 0 {
            0
        } else {
            0x1_0000
        }
    } else {
        nearest_whole(multiplied(counted(size), gain))
    };
    if s < 0 {
        if r > 0x8000 {
            -0x8000
        } else {
            (-(r as i64)) as i16
        }
    } else if r > 0x7FFF {
        0x7FFF
    } else {
        r as i16
    }
}

/// The nearest whole number, as far as a sample needs it: anything past 2^16 is as good as 2^16.
fn nearest_whole(a: Single) -> (r: u64)
    requires
        a.bits <= INFINITE,
    ensures
        r == rounded(a.bits as int) || (r == 0x1_0000 && rounded(a.bits as int) >= 0x1_0000),
{
    proof {
        lemma2_to64();
    }
    if a.bits >= 0x4780_0000 {
        proof {
            lemma_large(a.bits as int);
        }
        return 0x1_0000;
    }
    let (m, e) = parted(a.bits);
    if e <= -26 {
        proof {
            if e < -26 {
                lemma_pow2_strictly_increases(26, (-e) as nat);
            }
            let p = pow2((-e) as nat) as int;
            vstd::arithmetic::div_mod::lemma_basic_div(2 * m + p, 2 * p);
        }
        return 0;
    }
    let p: u128 = power((-e) as u32);
    proof {
        lemma_pow2_pos((-e) as nat);
        if -e < 26 {
            lemma_pow2_strictly_increases((-e) as nat, 26);
        }
        assert((2 * m + p) / (2 * p) <= 2 * m + p) by (nonlinear_arith)
            requires
                m >= 0,
                p > 0,
        ;
    }
    ((2 * m + p) / (2 * p)) as u64
}

/// A number of at least 2^16 is far beyond a sample.
proof fn lemma_large(bits: int)
    requires
        bits >= 0x4780_0000,
    ensures
        rounded(bits) >= 0x1_0000,
{
    let m = mantissa(bits);
    let e = exponent(bits);
    lemma2_to64();
    assert(m >= 0x80_0000 && e >= -7);
    if e >= 0 {
        lemma_pow2_pos(e as nat);
        let p = pow2(e as nat) as int;
        assert(m * p >= 0x80_0000) by (nonlinear_arith)
            requires
                m >= 0x80_0000,
                p >= 1,
        ;
    } else {
        lemma_pow2_pos((-e) as nat);
        let p = pow2((-e) as nat) as int;
        if -e < 7 {
            lemma_pow2_strictly_increases((-e) as nat, 7);
        }
        assert((2 * m + p) / (2 * p) >= 0x1_0000) by (nonlinear_arith)
            requires
                m >= 0x80_0000,
                0 < p <= 128,
        ;
    }
}

/// The gain that is driven toward brings the level to the target, as near as single precision tells,
/// unless that would pass the ceiling; then it is the ceiling.
pub proof fn desired_gain_meets_the_target(target: Single, most: Single, level: int)
    requires
        target.bits < INFINITE,
        most.bits <= INFINITE,
        0 < level < INFINITE,
    ensures
        ({
            let d = desired(target, most, level);
            &&& d <= most.bits
            &&& d < most.bits ==> is_nearest(
                d,
                mantissa(target.bits as int),
                mantissa(level),
                exponent(target.bits as int) - exponent(level),
            )
        }),
{
    let t = target.bits as int;
    let e = if exponent(t) < exponent(level) {
        exponent(t)
    } else {
        exponent(level)
    };
    operations_are_exact_to_the_last_digit(t, level, 0, e);
}

/// A gain keeps the sign of a sample and its place in the range: what comes out has the size of the
/// sample times the gain, to the nearest whole number, or is the last sample of the range where that
/// is past it.
pub proof fn amplified_sample_is_the_product(s: i16, gain: int)
    requires
        0 <= gain < INFINITE,
    ensures
        ({
            let size = if s < 0 {
                -(s as int)
            } else {
                s as int
            };
            let out = if s < 0 {
                -amplified(s, gain)
            } else {
                amplified(s, gain)
            };
            let b = product(count(size), gain);
            let m = mantissa(b);
            let e = exponent(b);
            let last = if s < 0 {
                0x8000int
            } else {
                0x7FFF
            };
            &&& 0 <= out <= last
            &&& out < last && e >= 0 ==> out == m * pow2(e as nat)
            &&& out < last && e < 0 ==> {
                let d = pow2((-e) as nat) as int;
                -d <= 2 * (out * d - m) <= d
            }
            &&& b < INFINITE ==> is_nearest(
                b,
                mantissa(count(size)) * mantissa(gain),
                1,
                exponent(count(size)) + exponent(gain),
            )
        }),
{
    let size = if s < 0 {
        -(s as int)
    } else {
        s as int
    };
    lemma2_to64();
    lemma_count(size, 32);
    let c = count(size);
    let y = if exponent(c) < exponent(gain) {
        exponent(c)
    } else {
        exponent(gain)
    };
    operations_are_exact_to_the_last_digit(c, gain, 0, y);
    let b = product(c, gain);
    let m = mantissa(b);
    let e = exponent(b);
    let k = mantissa(c) * mantissa(gain);
    assert(0 <= k) by (nonlinear_arith)
        requires
            k == mantissa(c) * mantissa(gain),
            0 <= mantissa(c),
            0 <= mantissa(gain),
    ;
    lemma_not_negative(k, 1, exponent(c) + exponent(gain));
    let r = rounded(b);
    if e >= 0 {
        lemma_pow2_pos(e as nat);
        assert(m * pow2(e as nat) >= 0) by (nonlinear_arith)
            requires
                m >= 0,
        ;
    } else {
        let d = pow2((-e) as nat) as int;
        lemma_pow2_pos((-e) as nat);
        vstd::arithmetic::div_mod::lemma_fundamental_div_mod(2 * m + d, 2 * d);
        vstd::arithmetic::div_mod::lemma_mod_bound(2 * m + d, 2 * d);
        assert((2 * d) * r == 2 * (r * d)) by (nonlinear_arith);
        assert(r >= 0) by (nonlinear_arith)
            requires
                r == (2 * m + d) / (2 * d),
                m >= 0,
                d > 0,
        ;
    }
}

/// A gain control that is off leaves every frame alone, and so does one whose gain is within a
/// thousandth of one; any other gain is put on every sample.
pub proof fn unity_gain_is_not_heard(g: Gain, frame: Seq<i16>, i: int)
    ensures
        g.applied(frame).len() == frame.len(),
        !g.enabled ==> g.applied(frame) == frame,
        ({
            let gain = g.after(frame).gain.bits as int;
            &&& UNITY <= gain < INFINITE && less(gain, UNITY as int) < NEGLIGIBLE ==> g.applied(frame)
                == frame
            &&& gain < UNITY && less(UNITY as int, gain) < NEGLIGIBLE ==> g.applied(frame) == frame
            &&& g.enabled && 0 <= i < frame.len() && UNITY <= gain < INFINITE && less(
                gain,
                UNITY as int,
            ) >= NEGLIGIBLE ==> g.applied(frame)[i] == amplified(frame[i], gain)
            &&& g.enabled && 0 <= i < frame.len() && gain < UNITY && less(UNITY as int, gain)
                >= NEGLIGIBLE ==> g.applied(frame)[i] == amplified(frame[i], gain)
        }),
{
    let gain = g.after(frame).gain.bits as int;
    if 0 <= i < frame.len() && gain < INFINITE {
        amplified_sample_is_the_product(frame[i], gain);
    }
}

} // verus!
