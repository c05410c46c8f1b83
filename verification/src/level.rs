//! The loudness of a frame: the root mean square of its samples.
//!
//! The mean square is taken in double precision, which keeps 53 binary digits of the running sum,
//! of the quotient and of the root; the level is the single-precision number nearest to the root.
use vstd::arithmetic::power2::{
    lemma2_to64, lemma2_to64_rest, lemma_pow2_adds, lemma_pow2_pos, lemma_pow2_strictly_increases,
    pow2,
};
use vstd::prelude::*;

use crate::nearest::{
    count, digits, halved, in_units, lead, leading, length, lemma_count, lemma_half_even_at_most,
    lemma_lead, lemma_length, lemma_nearest_below_power, lemma_scaled, lemma_shifted_digits,
    nearest, nearest_bits, power, power_bits,
};
use crate::single::{half_even, Single};

verus! {

/// A whole number rounded to 53 binary digits.
pub open spec fn kept(x: int) -> int {
    if length(x) <= 53 {
        x
    } else {
        let u = pow2((length(x) - 53) as nat) as int;
        u * half_even(x, u)
    }
}

/// The sum of the squares of the first `n` samples, each step rounded.
pub open spec fn energy(f: Seq<i16>, n: int) -> int
    decreases n,
{
    if n <= 0 {
        0
    } else {
        kept(energy(f, n - 1) + f[n - 1] * f[n - 1])
    }
}

/// The number `m * 2^e`.
pub struct Scaled {
    pub m: int,
    pub e: int,
}

/// `num / den` rounded to 53 binary digits.
pub open spec fn doubled(num: int, den: int) -> Scaled {
    let u = lead(num, den) - 52;
    Scaled { m: in_units(num, den, 0, u), e: u }
}

/// Whether `r` is the whole number nearest to the square root of `x`.
pub open spec fn is_root(r: int, x: int) -> bool {
    r >= 0 && r * r - r < x <= r * r + r
}

/// The whole number nearest to the square root of `x`.
pub open spec fn root(x: int) -> int {
    choose|r: int| is_root(r, x)
}

/// How far a number of 53 digits is shifted so that its root has 53 digits too and its exponent
/// can be halved.
pub open spec fn shift(e: int) -> int {
    if e % 2 == 0 {
        52
    } else {
        53
    }
}

/// The bits of the root of a number of 53 digits.
pub open spec fn root_bits(s: Scaled) -> int {
    let t = shift(s.e);
    nearest(root(s.m * pow2(t as nat)), 1, (s.e - t) / 2)
}

/// The bits of a frame's root mean square; that of an empty frame is 0.
pub open spec fn rms_bits(f: Seq<i16>) -> int {
    let e = energy(f, f.len() as int);
    if e == 0 {
        0
    } else {
        root_bits(doubled(e, f.len() as int))
    }
}

/// A number has one nearest root.
proof fn lemma_root(r: int, x: int)
    requires
        is_root(r, x),
    ensures
        root(x) == r,
{
    let s = root(x);
    assert(is_root(s, x));
    if s < r {
        assert(r * r - r >= s * s + s) by (nonlinear_arith)
            requires
                0 <= s < r,
        ;
    } else if r < s {
        assert(s * s - s >= r * r + r) by (nonlinear_arith)
            requires
                0 <= r < s,
        ;
    }
}

/// Rounding to 53 digits keeps a bound of 53 digits and 30 places.
proof fn lemma_kept_at_most(x: int, j: int)
    requires
        0 <= x <= j * 0x4000_0000,
        j < 0x20_0000_0000_0000,
    ensures
        0 <= kept(x) <= j * 0x4000_0000,
{
    if length(x) > 53 {
        let d = (length(x) - 53) as nat;
        lemma2_to64();
        lemma2_to64_rest();
        lemma_pow2_pos(d);
        lemma_length(x);
        if d > 30 {
            lemma_pow2_adds(53, 30);
            if length(x) - 1 > 83 {
                lemma_pow2_strictly_increases(83, (length(x) - 1) as nat);
            }
            assert(pow2(83) == 0x20_0000_0000_0000 * 0x4000_0000);
        } else {
            lemma_pow2_adds(d, (30 - d) as nat);
            let u = pow2(d) as int;
            let v = pow2((30 - d) as nat) as int;
            assert(j * 0x4000_0000 == u * (j * v)) by (nonlinear_arith)
                requires
                    u * v == 0x4000_0000,
            ;
            lemma_half_even_at_most(x, u, j * v);
            let q = half_even(x, u);
            assert(0 <= u * q <= u * (j * v)) by (nonlinear_arith)
                requires
                    0 <= q <= j * v,
                    u > 0,
            ;
        }
    }
}

/// Rounds a whole number to 53 binary digits.
fn keep(x: u128) -> (r: u128)
    requires
        x < 0x10_0000_0000_0000_0000_0000_0000,
    ensures
        r == kept(x as int),
{
    let d: u32 = digits(x);
    if d <= 53 {
        x
    } else {
        let p: u128 = power(d - 53);
        proof {
            lemma_pow2_pos((d - 53) as nat);
        }
        let q: u128 = halved(x, p);
        proof {
            vstd::arithmetic::div_mod::lemma_fundamental_div_mod(x as int, p as int);
            let w = x as int / p as int;
            assert(p * q <= x + p) by (nonlinear_arith)
                requires
                    q <= w + 1,
                    x == p * w + x % p,
                    x % p >= 0,
                    p > 0,
            ;
        }
        p * q
    }
}

/// The sum of the squares of a frame's samples.
fn sum_of_squares(frame: &[i16]) -> (r: u128)
    requires
        frame@.len() < 0x8_0000_0000_0000,
    ensures
        r == energy(frame@, frame@.len() as int),
        r <= frame@.len() * 0x4000_0000,
{
    let mut sum: u128 = 0;
    let mut i: usize = 0;
    while i < frame.len()
        invariant
            i <= frame@.len() < 0x8_0000_0000_0000,
            sum == energy(frame@, i as int),
            sum <= i * 0x4000_0000,
        decreases frame@.len() - i,
    {
        let s: i64 = frame[i] as i64;
        assert(0 <= s * s <= 0x4000_0000) by (nonlinear_arith)
            requires
                -0x8000 <= s <= 0x7FFF,
        ;
        proof {
            lemma_kept_at_most(sum + s * s, i + 1);
        }
        sum = keep(sum + (s * s) as u128);
        i = i + 1;
    }
    sum
}

/// The mean of squares that sum to at most `2^30` each is at most `2^30`.
proof fn lemma_mean_at_most(num: int, den: int)
    requires
        0 < num <= den * 0x4000_0000,
        0 < den,
    ensures
        lead(num, den) <= 30,
        0 <= doubled(num, den).m <= pow2((30 - doubled(num, den).e) as nat),
{
    let k = lead(num, den);
    lemma_lead(num, den);
    lemma2_to64();
    if k > 30 {
        lemma_pow2_strictly_increases(30, k as nat);
        let p = pow2(k as nat) as int;
        assert(p * den > den * 0x4000_0000) by (nonlinear_arith)
            requires
                p > 0x4000_0000,
                den > 0,
        ;
    }
    let u = k - 52;
    lemma_pow2_adds(30, (-u) as nat);
    lemma_pow2_pos((-u) as nat);
    let p = pow2((-u) as nat) as int;
    let b = pow2((30 - u) as nat) as int;
    assert(0 <= num * p <= den * b) by (nonlinear_arith)
        requires
            0 < num <= den * 0x4000_0000,
            b == 0x4000_0000 * p,
            p > 0,
    ;
    lemma_half_even_at_most(num * p, den, b);
}

/// The root of at most a square is at most its side.
proof fn lemma_root_at_most(r: int, x: int, side: int)
    requires
        is_root(r, x),
        x <= side * side,
        0 <= side,
    ensures
        r <= side,
{
    if r > side {
        assert(r * r - r >= side * side) by (nonlinear_arith)
            requires
                r >= side + 1,
                side >= 0,
        ;
    }
}

/// The whole number nearest to a square root.
fn nearest_root(x: u128) -> (r: u128)
    requires
        0 < x <= 0x400_0000_0000_0000_0000_0000_0000,
    ensures
        r == root(x as int),
        is_root(r as int, x as int),
        r <= 0x80_0000_0000_0000,
{
    let mut low: u128 = 0;
    let mut high: u128 = 0x80_0000_0000_0000;
    while high - low > 1
        invariant
            low < high <= 0x80_0000_0000_0000,
            low * low <= x < high * high,
        decreases high - low,
    {
        let mid: u128 = low + (high - low) / 2;
        assert(0 <= mid * mid <= 0x80_0000_0000_0000 * 0x80_0000_0000_0000) by (nonlinear_arith)
            requires
                0 <= mid <= 0x80_0000_0000_0000,
        ;
        if mid * mid <= x {
            low = mid;
        } else {
            high = mid;
        }
    }
    assert(low * low + 2 * low + 1 == high * high) by (nonlinear_arith)
        requires
            high == low + 1,
    ;
    assert(0 <= low * low) by (nonlinear_arith);
    let r: u128 = if x - low * low > low {
        high
    } else {
        low
    };
    proof {
        if r == low {
            assert(low * low - low < x) by (nonlinear_arith)
                requires
                    low * low <= x,
                    0 < x,
                    0 <= low,
            ;
        }
        lemma_root(r as int, x as int);
    }
    r
}

/// A frame's root mean square.
pub fn rms(frame: &[i16]) -> (r: Single)
    requires
        frame@.len() < 0x8_0000_0000_0000,
    ensures
        r.bits == rms_bits(frame@),
        r.bits <= power_bits(15),
{
    let sum: u128 = sum_of_squares(frame);
    if sum == 0 {
        return Single { bits: 0 };
    }
    let len: u128 = frame.len() as u128;
    let k: i32 = leading(sum, len);
    let u: i32 = k - 52;
    let ghost mean = doubled(sum as int, len as int);
    proof {
        lemma_mean_at_most(sum as int, len as int);
        lemma_scaled(sum as int, len as int, -u as int, 52);
        lemma2_to64();
        lemma2_to64_rest();
        lemma_pow2_pos(-u as nat);
    }
    let p: u128 = power((-u) as u32);
    proof {
        assert(0 <= sum * p < len * 0x20_0000_0000_0000);
        lemma_half_even_at_most(sum * p, len as int, 0x20_0000_0000_0000);
    }
    let m: u128 = halved(sum * p, len);
    proof {
        lemma_mean_positive(sum as int, len as int);
    }
    let t: i32 = if u % 2 == 0 {
        52
    } else {
        53
    };
    let w: u128 = power(t as u32);
    assert(0 < m * w <= 0x20_0000_0000_0000 * 0x20_0000_0000_0000) by (nonlinear_arith)
        requires
            0 < m <= 0x20_0000_0000_0000,
            0 < w <= 0x20_0000_0000_0000,
    ;
    let r: u128 = nearest_root(m * w);
    let h: i32 = (u - t) / 2;
    proof {
        let side = pow2((15 - h) as nat) as int;
        lemma_pow2_adds((15 - h) as nat, (15 - h) as nat);
        lemma_pow2_adds((30 - u) as nat, t as nat);
        let b = pow2((30 - u) as nat) as int;
        assert(m * w <= b * w) by (nonlinear_arith)
            requires
                m <= b,
                w > 0,
        ;
        lemma_root_at_most(r as int, m * w, side);
        assert(r <= 1 * side);
        lemma_nearest_below_power(r as int, 1, h as int, 15);
    }
    Single { bits: nearest_bits(r, 1, h) }
}

/// The mean of squares whose sum is positive has all its 53 digits.
proof fn lemma_mean_positive(num: int, den: int)
    requires
        0 < num <= den * 0x4000_0000,
        0 < den,
    ensures
        doubled(num, den).m >= 0x10_0000_0000_0000,
{
    let k = lead(num, den);
    let u = k - 52;
    lemma_lead(num, den);
    lemma_mean_at_most(num, den);
    lemma2_to64();
    lemma2_to64_rest();
    let p = pow2((-u) as nat) as int;
    lemma_pow2_pos((-u) as nat);
    if k >= 0 {
        lemma_pow2_adds(k as nat, (-u) as nat);
        let a = pow2(k as nat) as int;
        assert(num * p >= den * 0x10_0000_0000_0000) by (nonlinear_arith)
            requires
                num >= a * den,
                a * p == 0x10_0000_0000_0000,
                p > 0,
        ;
    } else {
        lemma_pow2_adds((-k) as nat, 52);
        let a = pow2((-k) as nat) as int;
        assert(num * p >= den * 0x10_0000_0000_0000) by (nonlinear_arith)
            requires
                num * a >= den,
                a * 0x10_0000_0000_0000 == p,
        ;
    }
    vstd::arithmetic::div_mod::lemma_fundamental_div_mod(num * p, den);
    let q = (num * p) / den;
    assert(q >= 0x10_0000_0000_0000) by (nonlinear_arith)
        requires
            num * p == den * q + (num * p) % den,
            (num * p) % den < den,
            num * p >= den * 0x10_0000_0000_0000,
            den > 0,
    ;
}

proof fn lemma_kept_whole(x: int)
    requires
        0 <= x < 0x20_0000_0000_0000,
    ensures
        kept(x) == x,
{
    lemma2_to64_rest();
    if x > 0 {
        lemma_length(x);
        if length(x) > 53 {
            if length(x) - 1 > 53 {
                lemma_pow2_strictly_increases(53, (length(x) - 1) as nat);
            }
        }
    }
}

proof fn lemma_constant_energy(f: Seq<i16>, a: i16, n: int)
    requires
        0 <= n <= f.len() < 0x40_0000,
        forall|i: int| 0 <= i < f.len() ==> #[trigger] f[i] == a,
    ensures
        energy(f, n) == n * (a * a),
        0 <= n * (a * a) < 0x10_0000_0000_0000,
    decreases n,
{
    let sq = a * a;
    assert(0 <= sq <= 0x4000_0000) by (nonlinear_arith)
        requires
            sq == a * a,
            -0x8000 <= a <= 0x7FFF,
    ;
    assert(0 <= n * sq <= n * 0x4000_0000) by (nonlinear_arith)
        requires
            0 <= sq <= 0x4000_0000,
            0 <= n,
    ;
    if n > 0 {
        lemma_constant_energy(f, a, n - 1);
        assert(f[n - 1] == a);
        assert((n - 1) * sq + sq == n * sq) by (nonlinear_arith);
        lemma_kept_whole(n * sq);
    } else {
        assert(0 * sq == 0) by (nonlinear_arith);
    }
}

/// A frame that is one sample throughout is as loud as that sample: its root mean square is the
/// sample's size, however long the frame.
#[verifier::rlimit(40)]
pub proof fn constant_frame_is_as_loud_as_its_sample(f: Seq<i16>, a: i16)
    requires
        0 < f.len() < 0x40_0000,
        forall|i: int| 0 <= i < f.len() ==> #[trigger] f[i] == a,
    ensures
        rms_bits(f) == count(
            if a < 0 {
                -(a as int)
            } else {
                a as int
            },
        ),
{
    let n = f.len() as int;
    let size = if a < 0 {
        -(a as int)
    } else {
        a as int
    };
    let sq = a * a;
    lemma_constant_energy(f, a, n);
    lemma2_to64();
    lemma2_to64_rest();
    if a == 0 {
        assert(n * 0 == 0);
    } else {
        assert(sq == size * size && 0 < sq <= 0x4000_0000) by (nonlinear_arith)
            requires
                sq == a * a,
                size == a || size == -a,
                0 < size <= 0x8000,
        ;
        let num = n * sq;
        assert(num >= n && num > 0) by (nonlinear_arith)
            requires
                num == n * sq,
                sq >= 1,
                n > 0,
        ;
        vstd::arithmetic::div_mod::lemma_div_multiples_vanish(sq, n);
        assert(num / n == sq);
        let k = length(sq) - 1;
        lemma_length(sq);
        assert(lead(num, n) == k);
        if k > 30 {
            lemma_pow2_strictly_increases(30, k as nat);
        }
        let up = pow2((52 - k) as nat) as int;
        lemma_pow2_pos((52 - k) as nat);
        assert(num * up == n * (sq * up)) by (nonlinear_arith)
            requires
                num == n * sq,
        ;
        vstd::arithmetic::div_mod::lemma_fundamental_div_mod_converse(num * up, n, sq * up, 0);
        assert(half_even(num * up, n) == sq * up);
        let s = doubled(num, n);
        assert(s.m == sq * up && s.e == k - 52);
        let t = shift(s.e);
        let h = (52 - k + t) / 2;
        assert(52 - k + t == 2 * h);
        lemma_pow2_adds((52 - k) as nat, t as nat);
        lemma_pow2_adds(h as nat, h as nat);
        lemma_pow2_pos(h as nat);
        let p = pow2(h as nat) as int;
        let w = pow2(t as nat) as int;
        let r = size * p;
        let x = s.m * w;
        assert(x == r * r && r > 0) by (nonlinear_arith)
            requires
                x == (sq * up) * w,
                up * w == p * p,
                sq == size * size,
                r == size * p,
                size > 0,
                p > 0,
        ;
        assert(is_root(r, x));
        lemma_root(r, x);
        assert((s.e - t) / 2 == -h);
        lemma_shifted_digits(size, h as nat);
        lemma_count(size, 32);
        lemma_nearest_below_power(size, 1, 0, 32);
    }
}

} // verus!
