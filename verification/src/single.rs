//! Single-precision rounding on integers.
//!
//! A single-precision number has 24 significant bits, and each operation on two of them gives
//! the exact result rounded to 24 significant bits, ties to the even last bit. A number that is
//! a whole multiple of a fixed fraction is held here as that multiple.
use vstd::prelude::*;
use vstd::arithmetic::power2::{lemma_pow2_adds, lemma_pow2_pos, lemma_pow2_unfold, pow2};

verus! {

/// Below this every whole number is its own rounding.
pub const SIGNIFICAND: u64 = 0x100_0000;

/// The weight of the last bit that is kept of a number whose whole part is `m`.
pub open spec fn unit(m: int) -> int
    decreases m,
{
    if m < SIGNIFICAND {
        1
    } else {
        2 * unit(m / 2)
    }
}

/// `num / den` to the nearest whole number, a tie to the even one.
pub open spec fn half_even(num: int, den: int) -> int {
    let q = num / den;
    let r = num % den;
    if 2 * r < den || (2 * r == den && q % 2 == 0) {
        q
    } else {
        q + 1
    }
}

/// Rounding to a whole number goes to the nearest one, and of two equally near ones to the even one.
pub proof fn half_even_is_the_nearest(num: int, den: int)
    requires
        den > 0,
    ensures
        -den <= 2 * (half_even(num, den) * den - num) <= den,
        2 * (half_even(num, den) * den - num) == den || 2 * (half_even(num, den) * den - num)
            == -den ==> half_even(num, den) % 2 == 0,
{
    vstd::arithmetic::div_mod::lemma_fundamental_div_mod(num, den);
    vstd::arithmetic::div_mod::lemma_mod_bound(num, den);
    let q = num / den;
    assert(den * q == q * den) by (nonlinear_arith);
    assert((q + 1) * den == q * den + den) by (nonlinear_arith);
}

/// `num / den` rounded to 24 significant bits.
pub open spec fn round_ratio(num: int, den: int) -> int {
    let u = unit(num / den);
    u * half_even(num, u * den)
}

/// `x` rounded to 24 significant bits.
pub open spec fn round_single(x: int) -> int {
    if x < 0 {
        -round_ratio(-x, 1)
    } else {
        round_ratio(x, 1)
    }
}

/// The kept weight is a power of two, and small against the number.
pub(crate) proof fn lemma_unit(m: int, e: nat)
    requires
        0 <= m < SIGNIFICAND * pow2(e),
    ensures
        exists|k: nat| k <= e && #[trigger] pow2(k) == unit(m),
        unit(m) >= 1,
        unit(m) == 1 || unit(m) * 0x80_0000 <= m,
    decreases m,
{
    if m < SIGNIFICAND {
        vstd::arithmetic::power2::lemma2_to64();
        assert(pow2(0) == unit(m));
    } else {
        if e == 0 {
            vstd::arithmetic::power2::lemma2_to64();
        }
        lemma_pow2_unfold(e);
        lemma_unit(m / 2, (e - 1) as nat);
        let k = choose|k: nat| k <= e - 1 && #[trigger] pow2(k) == unit(m / 2);
        lemma_pow2_unfold(k + 1);
        assert(pow2(k + 1) == unit(m));
    }
}

/// A number is below 2^24 kept weights.
proof fn lemma_unit_above(m: int)
    requires
        0 <= m,
    ensures
        m < SIGNIFICAND * unit(m),
    decreases m,
{
    if m >= SIGNIFICAND {
        lemma_unit_above(m / 2);
    }
}

/// Rounding keeps the order.
pub proof fn rounding_is_monotone(a: int, b: int)
    requires
        0 <= a <= b,
    ensures
        round_ratio(a, 1) <= round_ratio(b, 1),
{
    let e = lemma_pow2_above(b);
    lemma_unit(a, e);
    lemma_unit(b, e);
    lemma_unit_above(a);
    lemma_unit_above(b);
    let ua = unit(a);
    let ub = unit(b);
    assert(ua * 1 == ua && ub * 1 == ub);
    let ka = choose|k: nat| k <= e && #[trigger] pow2(k) == ua;
    let kb = choose|k: nat| k <= e && #[trigger] pow2(k) == ub;
    let qb = b / ub;
    vstd::arithmetic::div_mod::lemma_fundamental_div_mod(b, ub);
    vstd::arithmetic::div_mod::lemma_mod_bound(b, ub);
    if ka < kb {
        if ka + 1 < kb {
            vstd::arithmetic::power2::lemma_pow2_strictly_increases(ka + 1, kb);
        }
        lemma_pow2_unfold(ka + 1);
        assert(a <= 0x80_0000 * ub);
        lemma_pow2_adds(23, kb);
        vstd::arithmetic::power2::lemma2_to64();
        assert(a <= pow2(23 + kb) * 1);
        lemma_round_ratio_below(a, 1, 23 + kb);
        assert(qb >= 0x80_0000) by (nonlinear_arith)
            requires
                b == ub * qb + b % ub,
                b % ub < ub,
                ub * 0x80_0000 <= b,
                ub >= 1,
        ;
        let h = half_even(b, ub);
        assert(ub * h >= ub * 0x80_0000) by (nonlinear_arith)
            requires
                h >= 0x80_0000,
                ub >= 1,
        ;
    } else {
        if kb < ka {
            if kb + 1 < ka {
                vstd::arithmetic::power2::lemma_pow2_strictly_increases(kb + 1, ka);
            }
            lemma_pow2_unfold(kb + 1);
            assert(false);
        }
        let qa = a / ua;
        vstd::arithmetic::div_mod::lemma_fundamental_div_mod(a, ua);
        vstd::arithmetic::div_mod::lemma_mod_bound(a, ua);
        vstd::arithmetic::div_mod::lemma_div_is_ordered(a, b, ua);
        if qa == qb {
            assert(a % ua <= b % ua);
        }
        let ha = half_even(a, ua);
        let hb = half_even(b, ub);
        assert(ha <= hb);
        assert(ua * ha <= ua * hb) by (nonlinear_arith)
            requires
                ha <= hb,
                ua >= 1,
        ;
    }
}

/// Rounding moves a number by at most one part in 2^24.
pub proof fn rounding_is_close(x: int)
    ensures
        x >= 0 ==> round_single(x) >= 0 && -x <= 0x100_0000 * (round_single(x) - x) <= x,
        x <= 0 ==> round_single(x) <= 0 && x <= 0x100_0000 * (round_single(x) - x) <= -x,
{
    let m = if x < 0 {
        -x
    } else {
        x
    };
    let e = lemma_pow2_above(m);
    lemma_unit(m, e);
    let u = unit(m);
    assert(u * 1 == u);
    assert(m / 1 == m);
    vstd::arithmetic::div_mod::lemma_fundamental_div_mod(m, u);
    vstd::arithmetic::div_mod::lemma_mod_bound(m, u);
    let q = m / u;
    let h = half_even(m, u);
    if h == q + 1 {
        assert(u * h == u * q + u) by (nonlinear_arith)
            requires
                h == q + 1,
        ;
    }
    assert(-u <= 2 * (u * h - m) <= u);
    if u == 1 {
        assert(m % 1 == 0);
        assert(h == q);
    }
    assert(u * h >= 0) by (nonlinear_arith)
        requires
            u >= 1,
            h >= q,
            q == m / u,
            m >= 0,
    ;
}

proof fn lemma_unit_divides(m: int, k: nat) -> (q: int)
    requires
        0 <= m < SIGNIFICAND,
    ensures
        unit(m * pow2(k)) >= 1,
        unit(m * pow2(k)) * q == m * pow2(k),
    decreases k,
{
    let x = m * pow2(k);
    assert(x >= 0) by (nonlinear_arith)
        requires
            x == m * pow2(k),
            m >= 0,
    ;
    if x < SIGNIFICAND {
        x
    } else {
        vstd::arithmetic::power2::lemma2_to64();
        assert(m * 1 == m);
        lemma_pow2_unfold(k);
        let h = pow2((k - 1) as nat) as int;
        assert(m * (2 * h) == 2 * (m * h)) by (nonlinear_arith);
        let q = lemma_unit_divides(m, (k - 1) as nat);
        let u = unit(m * h);
        assert((2 * u) * q == 2 * (u * q)) by (nonlinear_arith);
        q
    }
}

/// A number with at most 24 significant bits is its own rounding.
pub proof fn short_numbers_stay(m: int, k: nat)
    requires
        0 <= m < SIGNIFICAND,
    ensures
        round_ratio(m * pow2(k), 1) == m * pow2(k),
{
    let x = m * pow2(k);
    let q = lemma_unit_divides(m, k);
    let u = unit(x);
    assert(u * 1 == u);
    assert(x / 1 == x);
    vstd::arithmetic::div_mod::lemma_fundamental_div_mod_converse(x, u, q, 0);
}

/// A rounded ratio is within half a kept weight of the ratio.
pub proof fn rounded_ratio_is_close(num: int, den: int, e: nat)
    requires
        0 <= num,
        0 < den,
        num / den < SIGNIFICAND * pow2(e),
    ensures
        -(pow2(e) * den) <= 2 * (round_ratio(num, den) * den - num) <= pow2(e) * den,
{
    assert(num / den >= 0) by (nonlinear_arith)
        requires
            num >= 0,
            den > 0,
    ;
    lemma_unit(num / den, e);
    let u = unit(num / den);
    let k = choose|k: nat| k <= e && #[trigger] pow2(k) == u;
    if k < e {
        vstd::arithmetic::power2::lemma_pow2_strictly_increases(k, e);
    }
    let d = u * den;
    let top = pow2(e) as int;
    assert(0 < d <= top * den) by (nonlinear_arith)
        requires
            d == u * den,
            1 <= u <= top,
            den > 0,
    ;
    vstd::arithmetic::div_mod::lemma_fundamental_div_mod(num, d);
    vstd::arithmetic::div_mod::lemma_mod_bound(num, d);
    let h = half_even(num, d);
    let q = num / d;
    assert((u * h) * den == d * h) by (nonlinear_arith)
        requires
            d == u * den,
    ;
    if h == q + 1 {
        assert(d * h == d * q + d) by (nonlinear_arith)
            requires
                h == q + 1,
        ;
    }
}

/// Some power of two bounds `m`.
proof fn lemma_pow2_above(m: int) -> (e: nat)
    requires
        0 <= m,
    ensures
        m < SIGNIFICAND * pow2(e),
    decreases m,
{
    if m < SIGNIFICAND {
        vstd::arithmetic::power2::lemma2_to64();
        0
    } else {
        let e = lemma_pow2_above(m / 2);
        lemma_pow2_unfold(e + 1);
        e + 1
    }
}

/// Rounding moves a number by less than the kept weight.
pub(crate) proof fn lemma_round_ratio_bounds(num: int, den: int)
    requires
        0 <= num,
        0 < den,
        unit(num / den) >= 1,
    ensures
        0 <= round_ratio(num, den) <= num / den + unit(num / den),
{
    let u = unit(num / den);
    let d = u * den;
    assert(d > 0) by (nonlinear_arith)
        requires
            d == u * den,
            u >= 1,
            den > 0,
    ;
    let q = num / d;
    vstd::arithmetic::div_mod::lemma_fundamental_div_mod(num, d);
    vstd::arithmetic::div_mod::lemma_mod_bound(num, d);
    vstd::arithmetic::div_mod::lemma_div_denominator(num, den, u);
    assert(den * u == d) by (nonlinear_arith)
        requires
            d == u * den,
    ;
    vstd::arithmetic::div_mod::lemma_fundamental_div_mod(num / den, u);
    vstd::arithmetic::div_mod::lemma_mod_bound(num / den, u);
    vstd::arithmetic::div_mod::lemma_div_pos_is_pos(num, d);
    assert(u * q <= num / den);
    assert(u * (q + 1) == u * q + u) by (nonlinear_arith);
    assert(u * q >= 0) by (nonlinear_arith)
        requires
            u >= 1,
            q >= 0,
    ;
}

/// Rounding does not pass a power of two.
pub(crate) proof fn lemma_round_ratio_below(num: int, den: int, p: nat)
    requires
        0 <= num,
        0 < den,
        p >= 24,
        num <= pow2(p) * den,
    ensures
        round_ratio(num, den) <= pow2(p),
{
    let m = num / den;
    lemma_pow2_pos(p);
    assert(m <= pow2(p)) by (nonlinear_arith)
        requires
            m == num / den,
            num <= pow2(p) * den,
            den > 0,
    ;
    assert(num / den >= 0) by (nonlinear_arith)
        requires
            num >= 0,
            den > 0,
    ;
    lemma_pow2_unfold(p + 1);
    vstd::arithmetic::power2::lemma2_to64();
    lemma_pow2_adds(24, (p + 1 - 24) as nat);
    lemma_unit(m, (p + 1 - 24) as nat);
    let k = choose|k: nat| k <= p + 1 - 24 && #[trigger] pow2(k) == unit(m);
    let u = unit(m);
    lemma_pow2_adds(k, (p - k) as nat);
    let top = pow2((p - k) as nat) as int;
    let d = u * den;
    assert(d > 0) by (nonlinear_arith)
        requires
            d == u * den,
            u >= 1,
            den > 0,
    ;
    assert(pow2(p) * den == top * d) by (nonlinear_arith)
        requires
            pow2(p) == u * top,
            d == u * den,
    ;
    let q = num / d;
    vstd::arithmetic::div_mod::lemma_fundamental_div_mod(num, d);
    vstd::arithmetic::div_mod::lemma_mod_bound(num, d);
    assert(q <= top) by (nonlinear_arith)
        requires
            num == d * q + num % d,
            0 <= num % d,
            num <= top * d,
            d > 0,
    ;
    if q == top {
        assert(num % d == 0) by (nonlinear_arith)
            requires
                num == d * top + num % d,
                0 <= num % d,
                num <= top * d,
        ;
    }
    let h = half_even(num, d);
    assert(h <= top);
    assert(u * h <= u * top) by (nonlinear_arith)
        requires
            h <= top,
            u >= 1,
    ;
}

/// `x` rounded to 24 significant bits.
pub fn round(x: i64) -> (r: i64)
    requires
        -0x1000_0000_0000_0000 <= x <= 0x1000_0000_0000_0000,
    ensures
        r == round_single(x as int),
        x - 0x40_0000_0000 <= r <= x + 0x40_0000_0000,
{
    let m: u64 = if x < 0 {
        (-x) as u64
    } else {
        x as u64
    };
    proof {
        vstd::arithmetic::power2::lemma2_to64();
        vstd::arithmetic::power2::lemma2_to64_rest();
        assert(SIGNIFICAND * pow2(37) > 0x1000_0000_0000_0000);
        lemma_unit(m as int, 37);
        lemma_round_ratio_bounds(m as int, 1);
    }
    let mut t: u64 = m;
    let mut u: u64 = 1;
    while t >= SIGNIFICAND
        invariant
            unit(m as int) == u * unit(t as int),
            unit(t as int) >= 1,
            unit(m as int) <= 0x2000_0000_0000_0000,
            u >= 1,
        decreases t,
    {
        assert(unit(t as int) == 2 * unit(t as int / 2));
        assert(unit(m as int) == (2 * u) * unit(t as int / 2)) by (nonlinear_arith)
            requires
                unit(m as int) == u * (2 * unit(t as int / 2)),
        ;
        assert(2 * u <= unit(m as int)) by (nonlinear_arith)
            requires
                unit(m as int) == (2 * u) * unit(t as int / 2),
                unit(t as int / 2) >= 1,
                u >= 1,
        ;
        t = t / 2;
        u = u * 2;
    }
    assert(u == unit(m as int)) by (nonlinear_arith)
        requires
            unit(m as int) == u * 1,
    ;
    let q: u64 = m / u;
    let r: u64 = m % u;
    let h: u64 = if 2 * r < u || (2 * r == u && q % 2 == 0) {
        q
    } else {
        q + 1
    };
    assert(u * 1 == u) by (nonlinear_arith);
    assert(m / 1 == m);
    assert(h == half_even(m as int, u as int));
    assert(round_ratio(m as int, 1) == u * h);
    proof {
        vstd::arithmetic::div_mod::lemma_fundamental_div_mod(m as int, u as int);
        vstd::arithmetic::div_mod::lemma_mod_bound(m as int, u as int);
        assert(u * (q + 1) == u * q + u) by (nonlinear_arith);
    }
    let v: u64 = u * h;
    if x < 0 {
        -(v as i64)
    } else {
        v as i64
    }
}

/// `num / den` rounded to 24 significant bits.
pub fn round_quotient(num: u128, den: u128) -> (r: u128)
    requires
        0 < den < 0x1_0000_0000_0000_0000_0000_0000_0000,
        num < 0x1_0000_0000_0000_0000_0000_0000_0000,
    ensures
        r == round_ratio(num as int, den as int),
        r <= 2 * (num / den) + 1,
{
    let m: u128 = num / den;
    proof {
        assert(m <= num) by (nonlinear_arith)
            requires
                m == num / den,
                den >= 1,
        ;
        lemma_pow2_adds(64, 48);
        vstd::arithmetic::power2::lemma2_to64();
        vstd::arithmetic::power2::lemma2_to64_rest();
        lemma_unit(m as int, 112);
        lemma_round_ratio_bounds(num as int, den as int);
    }
    let mut t: u128 = m;
    let mut u: u128 = 1;
    while t >= SIGNIFICAND as u128
        invariant
            unit(m as int) == u * unit(t as int),
            unit(t as int) >= 1,
            unit(m as int) <= 0x1_0000_0000_0000_0000_0000_0000_0000,
            u >= 1,
        decreases t,
    {
        assert(unit(t as int) == 2 * unit(t as int / 2));
        assert(unit(m as int) == (2 * u) * unit(t as int / 2)) by (nonlinear_arith)
            requires
                unit(m as int) == u * (2 * unit(t as int / 2)),
        ;
        assert(2 * u <= unit(m as int)) by (nonlinear_arith)
            requires
                unit(m as int) == (2 * u) * unit(t as int / 2),
                unit(t as int / 2) >= 1,
                u >= 1,
        ;
        t = t / 2;
        u = u * 2;
    }
    assert(u == unit(m as int)) by (nonlinear_arith)
        requires
            unit(m as int) == u * 1,
    ;
    proof {
        vstd::arithmetic::div_mod::lemma_fundamental_div_mod(num as int, den as int);
        vstd::arithmetic::div_mod::lemma_mod_bound(num as int, den as int);
        assert(u * den <= num || u == 1) by (nonlinear_arith)
            requires
                u == 1 || u * 0x80_0000 <= m,
                den * m <= num,
                den >= 1,
                u >= 1,
        ;
        assert(u == 1 ==> u * den == den) by (nonlinear_arith);
        assert(u * den >= 1) by (nonlinear_arith)
            requires
                u >= 1,
                den >= 1,
        ;
    }
    let d: u128 = u * den;
    let q: u128 = num / d;
    let rest: u128 = num % d;
    let h: u128 = if 2 * rest < d || (2 * rest == d && q % 2 == 0) {
        q
    } else {
        q + 1
    };
    assert(h == half_even(num as int, d as int));
    assert(u * h <= m + u);
    u * h
}

/// A single-precision number, held as the bits of its IEEE 754 form.
#[derive(Clone, Copy, Debug, PartialEq, Eq, Structural)]
pub struct Single {
    pub bits: u32,
}

impl Single {
    /// Not a number: all exponent bits set and a fraction.
    pub open spec fn is_nan(self) -> bool {
        self.bits % 0x8000_0000 > 0x7F80_0000
    }

    /// A number's place in the order: the bits without the sign grow with the magnitude, and both
    /// zeros are zero.
    pub open spec fn rank(self) -> int {
        if self.bits < 0x8000_0000 {
            self.bits as int
        } else {
            0x8000_0000 - self.bits
        }
    }

    /// Whether `self > other`; never where one is not a number.
    pub open spec fn above(self, other: Single) -> bool {
        !self.is_nan() && !other.is_nan() && self.rank() > other.rank()
    }

    /// Whether `self >= other`; never where one is not a number.
    pub open spec fn at_least(self, other: Single) -> bool {
        !self.is_nan() && !other.is_nan() && self.rank() >= other.rank()
    }

    fn number(self) -> (r: Option<i64>)
        ensures
            match r {
                Some(k) => !self.is_nan() && k == self.rank(),
                None => self.is_nan(),
            },
    {
        if self.bits % 0x8000_0000 > 0x7F80_0000 {
            None
        } else if self.bits < 0x8000_0000 {
            Some(self.bits as i64)
        } else {
            Some(0x8000_0000 - self.bits as i64)
        }
    }

    /// `self > other`.
    pub fn exceeds(self, other: Single) -> (r: bool)
        ensures
            r == self.above(other),
    {
        match (self.number(), other.number()) {
            (Some(a), Some(b)) => a > b,
            _ => false,
        }
    }

    /// `self >= other`.
    pub fn reaches(self, other: Single) -> (r: bool)
        ensures
            r == self.at_least(other),
    {
        match (self.number(), other.number()) {
            (Some(a), Some(b)) => a >= b,
            _ => false,
        }
    }
}

/// Numbers compare by their size and sign: of two that are not negative the one with the greater
/// bits is greater, of two negative ones that with the lesser, a negative one is below any other,
/// and the two zeros are equal. What is not a number compares with nothing.
pub proof fn numbers_compare_by_size(a: Single, b: Single)
    ensures
        a.bits <= 0x7F80_0000 && b.bits <= 0x7F80_0000 ==> (a.above(b) <==> a.bits > b.bits),
        0x8000_0000 <= a.bits <= 0xFF80_0000 && 0x8000_0000 <= b.bits <= 0xFF80_0000 ==> (a.above(b)
            <==> a.bits < b.bits),
        a.bits <= 0x7F80_0000 && 0x8000_0000 < b.bits <= 0xFF80_0000 ==> a.above(b) && !b.above(a),
        a.bits == 0 && b.bits == 0x8000_0000 ==> a.at_least(b) && b.at_least(a) && !a.above(b)
            && !b.above(a),
        0x7F80_0000 < a.bits < 0x8000_0000 || a.bits > 0xFF80_0000 ==> !a.above(b) && !b.above(a)
            && !a.at_least(b) && !b.at_least(a),
        a.at_least(b) ==> !b.above(a),
        !a.is_nan() && !b.is_nan() ==> a.at_least(b) || b.above(a),
{
}

} // verus!
