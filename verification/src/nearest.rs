//! Numbers rounded to a fixed number of binary digits, on integers: what the operations of
//! single-precision arithmetic give for numbers that are not negative.
//!
//! A number is `num / den * 2^e`. A single-precision number keeps 24 binary digits, and none below
//! the place of `2^-149`; each operation gives the exact result rounded to those, a tie to the even
//! last digit.
use vstd::arithmetic::div_mod::{lemma_fundamental_div_mod, lemma_mod_bound};
use vstd::arithmetic::power2::{
    lemma2_to64, lemma2_to64_rest, lemma_pow2_adds, lemma_pow2_pos, lemma_pow2_strictly_increases,
    lemma_pow2_unfold, pow2,
};
use vstd::prelude::*;

use crate::single::{half_even, half_even_is_the_nearest, Single};

verus! {

/// How many binary digits a whole number has.
pub open spec fn length(m: int) -> int
    decreases m,
{
    if m <= 0 {
        0
    } else {
        1 + length(m / 2)
    }
}

/// The place of the leading binary digit of `num / den`: the greatest `k` with
/// `2^k <= num / den`.
pub open spec fn lead(num: int, den: int) -> int
    decreases
            if num < den {
                den - num
            } else {
                0
            },
{
    if num <= 0 || den <= 0 {
        0
    } else if num >= den {
        length(num / den) - 1
    } else {
        lead(2 * num, den) - 1
    }
}

/// `num / den * 2^e` in units of `2^u`, to the nearest, a tie to the even one.
pub open spec fn in_units(num: int, den: int, e: int, u: int) -> int {
    if e >= u {
        half_even(num * pow2((e - u) as nat), den)
    } else {
        half_even(num, den * pow2((u - e) as nat))
    }
}

/// The place of the last digit that single precision keeps of `num / den * 2^e`.
pub open spec fn last_place(num: int, den: int, e: int) -> int {
    let u = lead(num, den) + e - 23;
    if u > -149 {
        u
    } else {
        -149
    }
}

/// The bits of the single-precision number nearest to `num / den * 2^e`. At `INFINITE` and beyond
/// it is too large for one.
pub open spec fn nearest(num: int, den: int, e: int) -> int {
    if num == 0 {
        0
    } else {
        let u = last_place(num, den, e);
        (u + 149) * 0x80_0000 + in_units(num, den, e, u)
    }
}

/// The bits of infinity.
pub const INFINITE: u32 = 0x7F80_0000;

/// The bits of a result, infinity where it is too large.
pub open spec fn capped(bits: int) -> int {
    if bits < INFINITE {
        bits
    } else {
        INFINITE as int
    }
}

/// The digits of the number with those bits.
pub open spec fn mantissa(bits: int) -> int {
    if bits < 0x80_0000 {
        bits
    } else {
        bits % 0x80_0000 + 0x80_0000
    }
}

/// The place of the last digit of the number with those bits.
pub open spec fn exponent(bits: int) -> int {
    if bits < 0x80_0000 {
        -149
    } else {
        bits / 0x80_0000 - 150
    }
}

/// `a * b`, all by their bits.
pub open spec fn product(a: int, b: int) -> int {
    capped(nearest(mantissa(a) * mantissa(b), 1, exponent(a) + exponent(b)))
}

/// `a + b`, all by their bits.
pub open spec fn total(a: int, b: int) -> int {
    let e = if exponent(a) < exponent(b) {
        exponent(a)
    } else {
        exponent(b)
    };
    capped(
        nearest(
            mantissa(a) * pow2((exponent(a) - e) as nat) + mantissa(b) * pow2(
                (exponent(b) - e) as nat,
            ),
            1,
            e,
        ),
    )
}

/// `a - b` for an `a` of at least `b`, all by their bits.
pub open spec fn less(a: int, b: int) -> int {
    let e = exponent(b);
    nearest(mantissa(a) * pow2((exponent(a) - e) as nat) - mantissa(b), 1, e)
}

/// `a / b`, all by their bits.
pub open spec fn per(a: int, b: int) -> int {
    capped(nearest(mantissa(a), mantissa(b), exponent(a) - exponent(b)))
}

/// A whole number as a single-precision one, by its bits.
pub open spec fn count(n: int) -> int {
    capped(nearest(n, 1, 0))
}

/// The bits of `num / den`, each first taken to single precision.
pub open spec fn ratio_bits(num: int, den: int) -> int {
    per(count(num), count(den))
}

/// The bits of 100.
pub const HUNDRED: u32 = 0x42C8_0000;

/// The bits of `num / den * 100`, each step in single precision.
pub open spec fn percent_bits(num: int, den: int) -> int {
    product(ratio_bits(num, den), HUNDRED as int)
}

/// The bits of `2^k`, for a `k` of at least -126.
pub open spec fn power_bits(k: int) -> int {
    (k + 127) * 0x80_0000
}

pub(crate) proof fn lemma_length(m: int)
    requires
        m > 0,
    ensures
        length(m) >= 1,
        pow2((length(m) - 1) as nat) <= m < pow2(length(m) as nat),
    decreases m,
{
    lemma2_to64();
    if m > 1 {
        lemma_length(m / 2);
        let l = length(m / 2);
        lemma_pow2_unfold(l as nat);
        lemma_pow2_unfold((l + 1) as nat);
    } else {
        assert(length(0) == 0);
        assert(length(1) == 1 + length(0));
    }
}

proof fn lemma_length_unique(m: int, n: int)
    requires
        n >= 1,
        pow2((n - 1) as nat) <= m < pow2(n as nat),
    ensures
        length(m) == n,
{
    lemma_pow2_pos((n - 1) as nat);
    lemma_length(m);
    let l = length(m);
    if l < n {
        if l < n - 1 {
            lemma_pow2_strictly_increases(l as nat, (n - 1) as nat);
        }
    } else if l > n {
        if n < l - 1 {
            lemma_pow2_strictly_increases(n as nat, (l - 1) as nat);
        }
    }
}

/// The leading digit is where it is said to be.
pub(crate) proof fn lemma_lead(num: int, den: int)
    requires
        0 < num,
        0 < den,
    ensures
        lead(num, den) >= 0 ==> pow2(lead(num, den) as nat) * den <= num < pow2(
            (lead(num, den) + 1) as nat,
        ) * den,
        lead(num, den) < 0 ==> den <= num * pow2((-lead(num, den)) as nat) < 2 * den,
        num >= den <==> lead(num, den) >= 0,
    decreases
            if num < den {
                den - num
            } else {
                0
            },
{
    lemma2_to64();
    if num >= den {
        let q = num / den;
        lemma_fundamental_div_mod(num, den);
        lemma_mod_bound(num, den);
        assert(q >= 1) by (nonlinear_arith)
            requires
                num == den * q + num % den,
                num % den < den,
                num >= den,
                den > 0,
        ;
        lemma_length(q);
        let l = length(q);
        let low = pow2((l - 1) as nat) as int;
        let high = pow2(l as nat) as int;
        assert(low * den <= num < high * den) by (nonlinear_arith)
            requires
                num == den * q + num % den,
                0 <= num % den < den,
                low <= q < high,
                den > 0,
        ;
    } else {
        lemma_lead(2 * num, den);
        let k = lead(2 * num, den);
        if k >= 0 {
            lemma_pow2_pos(k as nat);
            if k >= 1 {
                lemma_pow2_unfold(k as nat);
                lemma_pow2_pos((k - 1) as nat);
                let p = pow2(k as nat) as int;
                assert(p * den >= 2 * den) by (nonlinear_arith)
                    requires
                        p >= 2,
                        den > 0,
                ;
            }
            assert(num * pow2(1) == 2 * num);
        } else {
            lemma_pow2_unfold((-k + 1) as nat);
            let p = pow2((-k) as nat) as int;
            assert(num * (2 * p) == (2 * num) * p) by (nonlinear_arith);
        }
    }
}

/// Two to a small power.
pub(crate) fn power(s: u32) -> (r: u128)
    requires
        s <= 126,
    ensures
        r == pow2(s as nat),
        r < 0x8000_0000_0000_0000_0000_0000_0000_0000,
{
    let mut p: u128 = 1;
    let mut i: u32 = 0;
    proof {
        lemma2_to64();
        lemma2_to64_rest();
        lemma_pow2_adds(63, 63);
        assert(pow2(126) == 0x4000_0000_0000_0000_0000_0000_0000_0000) by (nonlinear_arith)
            requires
                pow2(126) == pow2(63) * pow2(63),
                pow2(63) == 0x8000_0000_0000_0000,
        ;
        if s < 126 {
            lemma_pow2_strictly_increases(s as nat, 126);
        }
    }
    while i < s
        invariant
            i <= s <= 126,
            p == pow2(i as nat),
            pow2(126) == 0x4000_0000_0000_0000_0000_0000_0000_0000,
        decreases s - i,
    {
        proof {
            lemma_pow2_strictly_increases(i as nat, 126);
            lemma_pow2_unfold((i + 1) as nat);
        }
        p = p * 2;
        i = i + 1;
    }
    p
}

/// How many binary digits a whole number has.
pub(crate) fn digits(m: u128) -> (r: u32)
    ensures
        r == length(m as int),
        r <= 128,
{
    let mut x: u128 = m;
    let mut n: u32 = 0;
    proof {
        lemma2_to64();
        lemma2_to64_rest();
        lemma_pow2_adds(64, 64);
        assert(pow2(128) == 0x1_0000_0000_0000_0000_0000_0000_0000_0000) by (nonlinear_arith)
            requires
                pow2(128) == pow2(64) * pow2(64),
                pow2(64) == 0x1_0000_0000_0000_0000,
        ;
    }
    while x > 0
        invariant
            n <= 128,
            length(m as int) == n + length(x as int),
            x < pow2((128 - n) as nat),
        decreases x,
    {
        proof {
            if n == 128 {
                lemma2_to64();
            }
            lemma_pow2_unfold((128 - n) as nat);
        }
        x = x / 2;
        n = n + 1;
    }
    n
}

/// `num / den` to the nearest whole number, a tie to the even one.
pub(crate) fn halved(num: u128, den: u128) -> (r: u128)
    requires
        0 < den < 0x8000_0000_0000_0000_0000_0000_0000_0000,
        num < 0x8000_0000_0000_0000_0000_0000_0000_0000,
    ensures
        r == half_even(num as int, den as int),
        r <= num + 1,
{
    let q: u128 = num / den;
    let r: u128 = num % den;
    assert(q <= num) by (nonlinear_arith)
        requires
            q == num / den,
            den >= 1,
            num >= 0,
    ;
    if 2 * r < den || (2 * r == den && q % 2 == 0) {
        q
    } else {
        q + 1
    }
}

/// The place of the leading digit of `num / den`.
pub(crate) fn leading(num: u128, den: u128) -> (r: i32)
    requires
        0 < num < 0x10_0000_0000_0000_0000_0000_0000,
        0 < den < 0x1000_0000_0000_0000,
    ensures
        r == lead(num as int, den as int),
        -60 <= r <= 127,
{
    let mut n: u128 = num;
    let mut k: i32 = 0;
    proof {
        lemma2_to64();
        lemma2_to64_rest();
    }
    while n < den
        invariant
            0 < n,
            n < den || k == 0 || n < 2 * den,
            0 < den < 0x1000_0000_0000_0000,
            -60 <= k <= 0,
            n >= pow2((-k) as nat),
            lead(num as int, den as int) == lead(n as int, den as int) + k,
            pow2(60) == 0x1000_0000_0000_0000,
        decreases
            if n < den {
                den - n
            } else {
                0
            },
    {
        proof {
            if k == -60 {
                assert(n >= pow2(60));
            }
            lemma_pow2_unfold((-k + 1) as nat);
        }
        n = n * 2;
        k = k - 1;
    }
    let d: u32 = digits(n / den);
    assert(n / den >= 1) by (nonlinear_arith)
        requires
            n >= den,
            den > 0,
    ;
    proof {
        lemma_length((n / den) as int);
    }
    d as i32 - 1 + k
}

/// Scaling by the leading digit's place keeps the number near the kept digits.
pub(crate) proof fn lemma_scaled(num: int, den: int, s: int, w: nat)
    requires
        0 < num,
        0 < den,
        0 <= s <= w - lead(num, den),
    ensures
        num * pow2(s as nat) < den * pow2((w + 1) as nat),
{
    let k = lead(num, den);
    lemma_lead(num, den);
    lemma_pow2_pos(s as nat);
    let p = pow2(s as nat) as int;
    if k >= 0 {
        lemma_pow2_adds((k + 1) as nat, s as nat);
        let q = pow2((k + 1) as nat) as int;
        assert(num * p < (q * p) * den) by (nonlinear_arith)
            requires
                num < q * den,
                p > 0,
        ;
        assert(pow2((k + 1 + s) as nat) <= pow2((w + 1) as nat)) by {
            if k + 1 + s < w + 1 {
                lemma_pow2_strictly_increases((k + 1 + s) as nat, (w + 1) as nat);
            }
        }
        let t = pow2((w + 1) as nat) as int;
        assert((q * p) * den <= den * t) by (nonlinear_arith)
            requires
                q * p <= t,
                den > 0,
        ;
    } else {
        // The shift splits into what brings the number to one, and the rest.
        let j = (-k) as nat;
        if s >= j {
            lemma_pow2_adds(j, (s - j) as nat);
            lemma_pow2_pos((s - j) as nat);
            let a = pow2(j) as int;
            let b = pow2((s - j) as nat) as int;
            assert(num * p < (2 * b) * den) by (nonlinear_arith)
                requires
                    p == a * b,
                    num * a < 2 * den,
                    b > 0,
            ;
            lemma_pow2_unfold((s - j + 1) as nat);
            assert(pow2((s - j + 1) as nat) <= pow2((w + 1) as nat)) by {
                if s - j < w {
                    lemma_pow2_strictly_increases((s - j + 1) as nat, (w + 1) as nat);
                }
            }
            let t = pow2((w + 1) as nat) as int;
            assert((2 * b) * den <= den * t) by (nonlinear_arith)
                requires
                    2 * b <= t,
                    den > 0,
            ;
        } else {
            lemma_pow2_adds(s as nat, (j - s) as nat);
            lemma_pow2_pos((j - s) as nat);
            let a = pow2(j) as int;
            let b = pow2((j - s) as nat) as int;
            assert(num * p <= num * a) by (nonlinear_arith)
                requires
                    a == p * b,
                    b >= 1,
                    num > 0,
                    p > 0,
            ;
            lemma_pow2_unfold((w + 1) as nat);
            lemma_pow2_pos(w);
            let t = pow2((w + 1) as nat) as int;
            assert(2 * den <= den * t) by (nonlinear_arith)
                requires
                    t >= 2,
                    den > 0,
            ;
        }
    }
}

/// What is at most a whole number rounds to at most it.
pub(crate) proof fn lemma_half_even_at_most(a: int, b: int, m: int)
    requires
        0 <= a <= b * m,
        0 < b,
    ensures
        0 <= half_even(a, b) <= m,
{
    lemma_fundamental_div_mod(a, b);
    lemma_mod_bound(a, b);
    let q = a / b;
    let r = a % b;
    assert(0 <= q <= m && (r > 0 ==> q < m)) by (nonlinear_arith)
        requires
            a == b * q + r,
            0 <= r < b,
            0 <= a <= b * m,
    ;
}

/// The kept digits number at most 24.
proof fn lemma_kept(num: int, den: int, e: int)
    requires
        0 < num,
        0 < den,
    ensures
        0 <= in_units(num, den, e, last_place(num, den, e)) <= 0x100_0000,
        e >= last_place(num, den, e) ==> num * pow2((e - last_place(num, den, e)) as nat) < den
            * 0x100_0000,
{
    let k = lead(num, den);
    let u = last_place(num, den, e);
    lemma2_to64();
    if e >= u {
        if k <= 23 {
            lemma_scaled(num, den, e - u, 23);
        }
        lemma_pow2_pos((e - u) as nat);
        let p = pow2((e - u) as nat) as int;
        assert(0 <= num * p) by (nonlinear_arith)
            requires
                num > 0,
                p > 0,
        ;
        lemma_half_even_at_most(num * p, den, 0x100_0000);
    } else {
        lemma_lead(num, den);
        let d = (u - e) as nat;
        lemma_pow2_pos(d);
        let p = pow2(d) as int;
        if k >= 0 {
            lemma_pow2_adds(d, 24);
            if k + 1 < d + 24 {
                lemma_pow2_strictly_increases((k + 1) as nat, d + 24);
            }
            let q = pow2((k + 1) as nat) as int;
            assert(num <= (den * p) * 0x100_0000) by (nonlinear_arith)
                requires
                    num < q * den,
                    q <= p * 0x100_0000,
                    den > 0,
            ;
        } else {
            assert(num <= (den * p) * 0x100_0000) by (nonlinear_arith)
                requires
                    0 < num < den,
                    p >= 1,
            ;
        }
        assert(den * p > 0) by (nonlinear_arith)
            requires
                den > 0,
                p > 0,
        ;
        lemma_half_even_at_most(num, den * p, 0x100_0000);
    }
}

/// `num / den * 2^e` is at most the single-precision number with those bits.
pub open spec fn within(num: int, den: int, e: int, bits: int) -> bool {
    let x = exponent(bits);
    if e >= x {
        num * pow2((e - x) as nat) <= den * mantissa(bits)
    } else {
        num <= den * (mantissa(bits) * pow2((x - e) as nat))
    }
}

/// What is at most a single-precision number rounds to at most it.
pub proof fn rounding_keeps_bounds(num: int, den: int, e: int, bits: int)
    requires
        0 <= num,
        0 < den,
        0 <= bits,
        within(num, den, e, bits),
    ensures
        0 <= nearest(num, den, e) <= bits,
{
    if num > 0 {
        let k = lead(num, den);
        let u = last_place(num, den, e);
        let x = exponent(bits);
        let m = mantissa(bits);
        assert(bits == (x + 149) * 0x80_0000 + m);
        assert(0 <= m < 0x100_0000);
        lemma_kept(num, den, e);
        lemma2_to64();
        if u == x {
            if e >= u {
                lemma_pow2_pos((e - u) as nat);
                let p = pow2((e - u) as nat) as int;
                assert(0 <= num * p) by (nonlinear_arith)
                    requires
                        num > 0,
                        p > 0,
                ;
                lemma_half_even_at_most(num * p, den, m);
            } else {
                lemma_pow2_pos((u - e) as nat);
                let p = pow2((u - e) as nat) as int;
                assert(num <= (den * p) * m && den * p > 0) by (nonlinear_arith)
                    requires
                        num <= den * (m * p),
                        den > 0,
                        p > 0,
                ;
                lemma_half_even_at_most(num, den * p, m);
            }
        } else if u > x {
            lemma_lead(num, den);
            if k >= 0 {
                let a = pow2(k as nat) as int;
                if e >= x {
                    let p = pow2((e - x) as nat) as int;
                    lemma_pow2_pos((e - x) as nat);
                    lemma_pow2_adds(k as nat, (e - x) as nat);
                    if k + e - x > 24 {
                        lemma_pow2_strictly_increases(24, (k + e - x) as nat);
                    }
                    assert(num * p > den * m) by (nonlinear_arith)
                        requires
                            num >= a * den,
                            a * p >= 0x100_0000,
                            m < 0x100_0000,
                            den > 0,
                            p > 0,
                    ;
                } else {
                    let p = pow2((x - e) as nat) as int;
                    lemma_pow2_pos((x - e) as nat);
                    lemma_pow2_adds((x - e) as nat, 24);
                    if k > x - e + 24 {
                        lemma_pow2_strictly_increases((x - e + 24) as nat, k as nat);
                    }
                    assert(num > den * (m * p)) by (nonlinear_arith)
                        requires
                            num >= a * den,
                            a >= p * 0x100_0000,
                            m < 0x100_0000,
                            den > 0,
                            p > 0,
                    ;
                }
            } else {
                let a = pow2((-k) as nat) as int;
                let p = pow2((e - x) as nat) as int;
                let b = pow2((e - x + k) as nat) as int;
                lemma_pow2_adds((-k) as nat, (e - x + k) as nat);
                if e - x + k > 24 {
                    lemma_pow2_strictly_increases(24, (e - x + k) as nat);
                }
                assert(num * p > den * m) by (nonlinear_arith)
                    requires
                        num * a >= den,
                        p == a * b,
                        b >= 0x100_0000,
                        m < 0x100_0000,
                        den > 0,
                ;
            }
        }
    }
}

/// The bits of the single-precision number nearest to `num / den * 2^e`.
pub(crate) fn nearest_bits(num: u128, den: u128, e: i32) -> (r: u32)
    requires
        num < 0x1_0000_0000_0000_0000,
        0 < den < 0x1000_0000_0000_0000,
        -1000 <= e <= 1000,
    ensures
        r == capped(nearest(num as int, den as int, e as int)),
{
    if num == 0 {
        return 0;
    }
    let k: i32 = leading(num, den);
    let mut u: i32 = k + e - 23;
    if u < -149 {
        u = -149;
    }
    proof {
        lemma_kept(num as int, den as int, e as int);
        lemma2_to64();
        lemma2_to64_rest();
    }
    let q: u128 = if e >= u {
        let p: u128 = power((e - u) as u32);
        halved(num * p, den)
    } else if u - e <= 66 {
        let p: u128 = power((u - e) as u32);
        proof {
            lemma_pow2_adds(64, 2);
            if u - e < 66 {
                lemma_pow2_strictly_increases((u - e) as nat, 66);
            }
            lemma_pow2_pos((u - e) as nat);
            assert(0 < den * p < 0x8000_0000_0000_0000_0000_0000_0000_0000) by (nonlinear_arith)
                requires
                    0 < den < 0x1000_0000_0000_0000,
                    0 < p <= 0x4_0000_0000_0000_0000,
            ;
        }
        halved(num, den * p)
    } else {
        proof {
            let d = (u - e) as nat;
            lemma_pow2_adds(64, 2);
            lemma_pow2_strictly_increases(66, d);
            let p = pow2(d) as int;
            assert(den * p > 2 * num) by (nonlinear_arith)
                requires
                    den >= 1,
                    p > 0x4_0000_0000_0000_0000,
                    num < 0x1_0000_0000_0000_0000,
            ;
            lemma_small_rounds_down(num as int, den * p);
        }
        0
    };
    let bits: i128 = (u as i128 + 149) * 0x80_0000 + q as i128;
    if bits < 0x7F80_0000 {
        bits as u32
    } else {
        INFINITE
    }
}

proof fn lemma_small_rounds_down(a: int, b: int)
    requires
        0 <= a,
        2 * a < b,
    ensures
        half_even(a, b) == 0,
{
    vstd::arithmetic::div_mod::lemma_basic_div(a, b);
    vstd::arithmetic::div_mod::lemma_small_mod(a as nat, b as nat);
}

/// The digits and the last place of a single-precision number.
pub(crate) fn parted(bits: u32) -> (r: (u128, i32))
    requires
        bits < INFINITE,
    ensures
        r.0 == mantissa(bits as int),
        r.1 == exponent(bits as int),
        r.0 < 0x100_0000,
        bits > 0 ==> r.0 > 0,
        -149 <= r.1 <= 104,
        r.1 > -149 ==> r.0 >= 0x80_0000,
{
    if bits < 0x80_0000 {
        (bits as u128, -149)
    } else {
        ((bits % 0x80_0000 + 0x80_0000) as u128, (bits / 0x80_0000) as i32 - 150)
    }
}

/// The far smaller of two numbers leaves the sum at the larger.
pub(crate) proof fn lemma_absorbed(m: int, s: int, e: int, d: nat)
    requires
        0x80_0000 <= m < 0x100_0000,
        d >= 1,
        e + d >= -149,
        0 <= s,
        2 * s < pow2(d),
    ensures
        nearest(m * pow2(d) + s, 1, e) == (e + d + 149) * 0x80_0000 + m,
{
    lemma2_to64();
    lemma_pow2_pos(d);
    let p = pow2(d) as int;
    let num = m * p + s;
    lemma_pow2_adds(23, d);
    lemma_pow2_adds(24, d);
    assert(0x80_0000 * p <= num < 0x100_0000 * p && num > 0) by (nonlinear_arith)
        requires
            num == m * p + s,
            0x80_0000 <= m < 0x100_0000,
            0 <= s,
            2 * s < p,
            p > 0,
    ;
    lemma_length_unique(num, 24 + d as int);
    assert(num / 1 == num);
    assert(lead(num, 1) == 23 + d);
    assert(last_place(num, 1, e) == e + d);
    assert(1 * pow2(d) == p);
    vstd::arithmetic::div_mod::lemma_fundamental_div_mod_converse(num, p, m, s);
}

/// `a * b`.
pub fn multiplied(a: Single, b: Single) -> (r: Single)
    requires
        a.bits < INFINITE,
        b.bits < INFINITE,
    ensures
        r.bits == product(a.bits as int, b.bits as int),
{
    let (m, x) = parted(a.bits);
    let (n, y) = parted(b.bits);
    assert(0 <= m * n < 0x1_0000_0000_0000) by (nonlinear_arith)
        requires
            0 <= m < 0x100_0000,
            0 <= n < 0x100_0000,
    ;
    Single { bits: nearest_bits(m * n, 1, x + y) }
}

/// `a / b`.
pub fn divided(a: Single, b: Single) -> (r: Single)
    requires
        a.bits < INFINITE,
        0 < b.bits < INFINITE,
    ensures
        r.bits == per(a.bits as int, b.bits as int),
{
    let (m, x) = parted(a.bits);
    let (n, y) = parted(b.bits);
    Single { bits: nearest_bits(m, n, x - y) }
}

/// `a + b`.
pub fn summed(a: Single, b: Single) -> (r: Single)
    requires
        a.bits < INFINITE,
        b.bits < INFINITE,
    ensures
        r.bits == total(a.bits as int, b.bits as int),
{
    let (m, x) = parted(a.bits);
    let (n, y) = parted(b.bits);
    proof {
        lemma2_to64();
        let one = pow2(0) as int;
        assert(m * one == m && n * one == n) by (nonlinear_arith)
            requires
                one == 1,
        ;
    }
    if x >= y {
        summed_parts(a.bits, m, x, n, y)
    } else {
        summed_parts(b.bits, n, y, m, x)
    }
}

/// The sum of two numbers by their digits, the one with the higher last place first.
fn summed_parts(bits: u32, m: u128, x: i32, n: u128, y: i32) -> (r: Single)
    requires
        bits < INFINITE,
        m == mantissa(bits as int),
        x == exponent(bits as int),
        n < 0x100_0000,
        -149 <= y <= x,
    ensures
        r.bits == capped(nearest(m * pow2((x - y) as nat) + n, 1, y as int)),
{
    proof {
        lemma2_to64();
        lemma2_to64_rest();
    }
    if x - y <= 38 {
        let p: u128 = power((x - y) as u32);
        proof {
            if x - y < 38 {
                lemma_pow2_strictly_increases((x - y) as nat, 38);
            }
            assert(0 <= m * p < 0x4000_0000_0000_0000) by (nonlinear_arith)
                requires
                    0 <= m < 0x100_0000,
                    0 <= p <= 0x40_0000_0000,
            ;
        }
        Single { bits: nearest_bits(m * p + n, 1, y) }
    } else {
        proof {
            lemma_pow2_strictly_increases(38, (x - y) as nat);
            lemma_absorbed(m as int, n as int, y as int, (x - y) as nat);
        }
        Single { bits }
    }
}

/// A whole number.
pub fn counted(n: u64) -> (r: Single)
    ensures
        r.bits == count(n as int),
{
    Single { bits: nearest_bits(n as u128, 1, 0) }
}

/// The digits of a number that is at most a power of two.
pub(crate) proof fn lemma_below_power(bits: int, k: int)
    requires
        -126 <= k,
        0 <= bits <= power_bits(k),
    ensures
        -149 <= exponent(bits) <= k - 23,
        0 <= mantissa(bits) < 0x100_0000,
        mantissa(bits) <= pow2((k - exponent(bits)) as nat),
{
    let x = exponent(bits);
    lemma2_to64();
    if x < k - 23 {
        if k - x > 24 {
            lemma_pow2_strictly_increases(24, (k - x) as nat);
        }
    }
}

/// A power of two bounds what rounds from below it.
pub(crate) proof fn lemma_nearest_below_power(num: int, den: int, e: int, k: int)
    requires
        0 <= num,
        0 < den,
        -126 <= k,
        e <= k - 23,
        num <= den * pow2((k - e) as nat),
    ensures
        0 <= nearest(num, den, e) <= power_bits(k),
{
    let bits = power_bits(k);
    let x = k - 23;
    assert(exponent(bits) == x);
    assert(mantissa(bits) == 0x80_0000);
    lemma2_to64();
    lemma_pow2_adds(23, (x - e) as nat);
    let p = pow2((x - e) as nat) as int;
    if e == x {
        assert(num * 1 == num);
    }
    rounding_keeps_bounds(num, den, e, bits);
}

/// A product of numbers at most `2^k` and `2^l` is at most `2^(k + l)`.
pub(crate) proof fn lemma_product_below(a: int, b: int, k: int, l: int)
    requires
        -126 <= k,
        -126 <= l,
        -126 <= k + l < 128,
        0 <= a <= power_bits(k),
        0 <= b <= power_bits(l),
    ensures
        0 <= product(a, b) <= power_bits(k + l),
{
    lemma_below_power(a, k);
    lemma_below_power(b, l);
    let p = (k - exponent(a)) as nat;
    let q = (l - exponent(b)) as nat;
    let m = mantissa(a);
    let n = mantissa(b);
    lemma_pow2_adds(p, q);
    let s = pow2(p) as int;
    let t = pow2(q) as int;
    assert(0 <= m * n <= 1 * (s * t)) by (nonlinear_arith)
        requires
            0 <= m <= s,
            0 <= n <= t,
    ;
    lemma_nearest_below_power(m * n, 1, exponent(a) + exponent(b), k + l);
}

/// A sum of two numbers at most `2^k` is at most `2^(k + 1)`.
pub(crate) proof fn lemma_total_below(a: int, b: int, k: int)
    requires
        -126 <= k < 127,
        0 <= a <= power_bits(k),
        0 <= b <= power_bits(k),
    ensures
        0 <= total(a, b) <= power_bits(k + 1),
{
    lemma_below_power(a, k);
    lemma_below_power(b, k);
    let e = if exponent(a) < exponent(b) {
        exponent(a)
    } else {
        exponent(b)
    };
    let m = mantissa(a) * pow2((exponent(a) - e) as nat);
    let n = mantissa(b) * pow2((exponent(b) - e) as nat);
    lemma_shifted(mantissa(a), exponent(a), e, k);
    lemma_shifted(mantissa(b), exponent(b), e, k);
    lemma_pow2_unfold((k + 1 - e) as nat);
    lemma_nearest_below_power(m + n, 1, e, k + 1);
}

proof fn lemma_shifted(m: int, x: int, e: int, k: int)
    requires
        e <= x <= k,
        0 <= m <= pow2((k - x) as nat),
    ensures
        0 <= m * pow2((x - e) as nat) <= pow2((k - e) as nat),
{
    lemma_pow2_adds((k - x) as nat, (x - e) as nat);
    let p = pow2((x - e) as nat) as int;
    let q = pow2((k - x) as nat) as int;
    lemma_pow2_pos((x - e) as nat);
    assert(0 <= m * p <= q * p) by (nonlinear_arith)
        requires
            0 <= m <= q,
            p > 0,
    ;
}

/// A quotient of a number at most `2^k` by one of at least a half is at most `2^(k + 1)`.
pub(crate) proof fn lemma_per_below(a: int, b: int, k: int)
    requires
        0 <= k < 127,
        0 <= a <= power_bits(k),
        power_bits(-1) <= b < INFINITE,
    ensures
        0 <= per(a, b) <= power_bits(k + 1),
{
    lemma_below_power(a, k);
    lemma2_to64();
    let x = exponent(a);
    let y = exponent(b);
    let m = mantissa(a);
    let n = mantissa(b);
    let e = x - y;
    assert(y >= -24);
    assert(0x80_0000 <= n < 0x100_0000);
    if e <= k - 22 {
        // The dividend is at most `2^(k - x)`, the divisor's digits at least `2^23`.
        lemma_pow2_adds((k - x) as nat, (y + 24) as nat);
        lemma_pow2_adds((k + 1 - e) as nat, 23);
        lemma_pow2_pos((y + 24) as nat);
        let p = pow2((k - x) as nat) as int;
        let q = pow2((y + 24) as nat) as int;
        let r = pow2((k + 1 - e) as nat) as int;
        assert(m <= n * r) by (nonlinear_arith)
            requires
                m <= p,
                q >= 1,
                p * q == r * 0x80_0000,
                n >= 0x80_0000,
                p >= 0,
                r >= 0,
        ;
        lemma_nearest_below_power(m, n, e, k + 1);
    } else {
        let bits = power_bits(k + 1);
        let z = k - 22;
        assert(exponent(bits) == z);
        assert(mantissa(bits) == 0x80_0000);
        lemma2_to64_rest();
        lemma_pow2_adds((k - x) as nat, (e - z) as nat);
        if 22 - y < 46 {
            lemma_pow2_strictly_increases((22 - y) as nat, 46);
        }
        let p = pow2((k - x) as nat) as int;
        let q = pow2((e - z) as nat) as int;
        assert(m * q <= n * 0x80_0000) by (nonlinear_arith)
            requires
                0 <= m <= p,
                0 <= q,
                p * q <= 0x4000_0000_0000,
                n >= 0x80_0000,
        ;
        rounding_keeps_bounds(m, n, e, bits);
    }
}

/// A whole number's single-precision number.
pub(crate) proof fn lemma_count(n: int, k: int)
    requires
        0 <= n <= pow2(k as nat),
        23 <= k < 128,
    ensures
        0 <= count(n) <= power_bits(k),
        n > 0 ==> count(n) >= power_bits(-1),
{
    assert(1 * pow2(k as nat) == pow2(k as nat));
    lemma_nearest_below_power(n, 1, 0, k);
    if n > 0 {
        lemma_kept(n, 1, 0);
        lemma_lead(n, 1);
    }
}

/// `num / den`, each first taken to single precision.
pub fn ratio(num: u64, den: u64) -> (r: Single)
    requires
        den > 0,
    ensures
        r.bits == ratio_bits(num as int, den as int),
        r.bits <= power_bits(65),
{
    proof {
        lemma2_to64_rest();
        lemma_count(num as int, 64);
        lemma_count(den as int, 64);
        lemma_per_below(count(num as int), count(den as int), 64);
    }
    divided(counted(num), counted(den))
}

/// `num / den * 100`, each step in single precision.
pub fn percent(num: u64, den: u64) -> (r: Single)
    requires
        den > 0,
    ensures
        r.bits == percent_bits(num as int, den as int),
{
    multiplied(ratio(num, den), Single { bits: HUNDRED })
}

/// The digits of the lesser of two numbers, against those of the greater at its place.
pub(crate) proof fn lemma_order(a: int, b: int)
    requires
        0 <= b <= a,
    ensures
        exponent(b) <= exponent(a),
        0 <= mantissa(b) <= mantissa(a) * pow2((exponent(a) - exponent(b)) as nat),
{
    let d = exponent(a) - exponent(b);
    lemma2_to64();
    let m = mantissa(a);
    if d > 0 {
        lemma_pow2_unfold(d as nat);
        lemma_pow2_pos((d - 1) as nat);
        let p = pow2(d as nat) as int;
        assert(m * p >= 0x100_0000) by (nonlinear_arith)
            requires
                m >= 0x80_0000,
                p >= 2,
        ;
    } else {
        let p = pow2(0) as int;
        assert(m * p == m) by (nonlinear_arith)
            requires
                p == 1,
        ;
    }
}

/// A difference is at most what was taken from.
pub(crate) proof fn lemma_less_below(a: int, b: int)
    requires
        0 <= b <= a,
    ensures
        0 <= less(a, b) <= a,
{
    lemma_order(a, b);
    let e = exponent(b);
    let x = exponent(a);
    let p = pow2((x - e) as nat) as int;
    let num = mantissa(a) * p - mantissa(b);
    lemma2_to64();
    if x == e {
        assert(mantissa(a) * 1 == mantissa(a) && num * 1 == num && 1 * mantissa(a) == mantissa(a));
        let one = pow2(0) as int;
        assert(num * one == num && mantissa(a) * one == mantissa(a)) by (nonlinear_arith)
            requires
                one == 1,
        ;
    }
    rounding_keeps_bounds(num, 1, e, a);
}

/// Taking away a far smaller number leaves the larger.
proof fn lemma_unmoved(m: int, s: int, e: int, d: nat)
    requires
        0x80_0000 <= m < 0x100_0000,
        d >= 2,
        e >= -149,
        0 <= s,
        4 * s < pow2(d),
    ensures
        nearest(m * pow2(d) - s, 1, e) == (e + d + 149) * 0x80_0000 + m,
{
    let p = pow2(d) as int;
    lemma_pow2_pos(d);
    if s == 0 {
        lemma_absorbed(m, 0, e, d);
    } else if m == 0x80_0000 {
        lemma2_to64();
        lemma_pow2_unfold(d);
        let h = pow2((d - 1) as nat) as int;
        lemma_pow2_pos((d - 1) as nat);
        lemma_pow2_adds(23, (d - 1) as nat);
        lemma_pow2_adds(24, (d - 1) as nat);
        let num = m * p - s;
        assert(m * p == 0x100_0000 * h);
        lemma_length_unique(num, 23 + d as int);
        assert(num / 1 == num);
        assert(lead(num, 1) == 22 + d);
        assert(last_place(num, 1, e) == e + d - 1);
        assert(1 * h == h);
        vstd::arithmetic::div_mod::lemma_fundamental_div_mod_converse(num, h, 0xFF_FFFF, h - s);
    } else {
        lemma2_to64();
        lemma_pow2_adds(23, d);
        lemma_pow2_adds(24, d);
        let num = m * p - s;
        assert(0x80_0000 * p <= num < 0x100_0000 * p && num == (m - 1) * p + (p - s))
            by (nonlinear_arith)
            requires
                num == m * p - s,
                0x80_0000 < m < 0x100_0000,
                0 < s,
                4 * s < p,
        ;
        lemma_length_unique(num, 24 + d as int);
        assert(num / 1 == num);
        assert(lead(num, 1) == 23 + d);
        assert(last_place(num, 1, e) == e + d);
        assert(1 * p == p);
        vstd::arithmetic::div_mod::lemma_fundamental_div_mod_converse(num, p, m - 1, p - s);
    }
}

/// `a - b`.
pub fn lessened(a: Single, b: Single) -> (r: Single)
    requires
        b.bits <= a.bits < INFINITE,
    ensures
        r.bits == less(a.bits as int, b.bits as int),
{
    let (m, x) = parted(a.bits);
    let (n, y) = parted(b.bits);
    proof {
        lemma2_to64();
        lemma2_to64_rest();
        lemma_order(a.bits as int, b.bits as int);
        lemma_less_below(a.bits as int, b.bits as int);
    }
    if x - y <= 38 {
        let p: u128 = power((x - y) as u32);
        proof {
            if x - y < 38 {
                lemma_pow2_strictly_increases((x - y) as nat, 38);
            }
            assert(0 <= m * p < 0x4000_0000_0000_0000) by (nonlinear_arith)
                requires
                    0 <= m < 0x100_0000,
                    0 <= p <= 0x40_0000_0000,
            ;
        }
        Single { bits: nearest_bits(m * p - n, 1, y) }
    } else {
        proof {
            lemma_pow2_strictly_increases(38, (x - y) as nat);
            lemma_unmoved(m as int, n as int, y as int, (x - y) as nat);
        }
        a
    }
}

/// Rounding to a whole number of units at most doubles.
proof fn lemma_half_even_doubles(a: int, b: int)
    requires
        0 <= a,
        0 < b,
    ensures
        0 <= half_even(a, b),
        half_even(a, b) * b <= 2 * a,
{
    lemma_fundamental_div_mod(a, b);
    lemma_mod_bound(a, b);
    let q = a / b;
    let r = a % b;
    let h = half_even(a, b);
    assert(q >= 0) by (nonlinear_arith)
        requires
            a == b * q + r,
            0 <= a,
            r < b,
            b > 0,
    ;
    if h == q {
        assert(h * b <= 2 * a) by (nonlinear_arith)
            requires
                a == b * q + r,
                h == q,
                0 <= r,
                q >= 0,
                b > 0,
        ;
    } else {
        assert(h * b <= 2 * a) by (nonlinear_arith)
            requires
                a == b * q + r,
                h == q + 1,
                2 * r >= b,
                q >= 0,
                b > 0,
        ;
    }
}

/// Its digits give the number back.
proof fn lemma_decoded(num: int, e: int)
    requires
        0 < num,
    ensures
        ({
            let s = nearest(num, 1, e);
            let u = last_place(num, 1, e);
            let q = in_units(num, 1, e, u);
            &&& s >= 0
            &&& u >= -149
            &&& (exponent(s) == u && mantissa(s) == q || exponent(s) == u + 1 && 2 * mantissa(s)
                == q)
        }),
{
    let u = last_place(num, 1, e);
    let q = in_units(num, 1, e, u);
    lemma_kept(num, 1, e);
    if u > -149 {
        // The leading digit is kept, so there are at least 24.
        let k = lead(num, 1);
        lemma_lead(num, 1);
        lemma2_to64();
        if e >= u {
            lemma_pow2_adds(k as nat, (e - u) as nat);
            lemma_pow2_pos((e - u) as nat);
            let p = pow2((e - u) as nat) as int;
            let a = pow2(k as nat) as int;
            assert(num * p >= 0x80_0000) by (nonlinear_arith)
                requires
                    num >= a * 1,
                    a * p == 0x80_0000,
                    p > 0,
            ;
            assert((num * p) / 1 == num * p);
            assert((num * p) % 1 == 0);
        } else {
            let d = (u - e) as nat;
            lemma_pow2_adds(23, d);
            lemma_pow2_pos(d);
            let p = pow2(d) as int;
            assert(1 * p == p);
            lemma_fundamental_div_mod(num, p);
            lemma_mod_bound(num, p);
            let w = num / p;
            assert(w >= 0x80_0000) by (nonlinear_arith)
                requires
                    num == p * w + num % p,
                    num % p < p,
                    num >= 0x80_0000 * p,
                    p > 0,
            ;
        }
    }
}

/// Rounding at most doubles a number. Both are taken at a place `y` below both.
pub(crate) proof fn lemma_at_most_twice(num: int, e: int, y: int)
    requires
        0 <= num,
        y <= e,
        y <= -149,
    ensures
        ({
            let s = nearest(num, 1, e);
            &&& s >= 0
            &&& 0 <= mantissa(s) * pow2((exponent(s) - y) as nat) <= 2 * (num * pow2(
                (e - y) as nat,
            ))
        }),
{
    lemma_pow2_pos((e - y) as nat);
    let f = pow2((e - y) as nat) as int;
    assert(num * f >= 0) by (nonlinear_arith)
        requires
            num >= 0,
            f > 0,
    ;
    if num > 0 {
        let s = nearest(num, 1, e);
        let u = last_place(num, 1, e);
        let q = in_units(num, 1, e, u);
        lemma_decoded(num, e);
        let g = pow2((u - y) as nat) as int;
        lemma_pow2_pos((u - y) as nat);
        lemma_pow2_unfold((u + 1 - y) as nat);
        let m = mantissa(s);
        if exponent(s) == u + 1 {
            assert(m * (2 * g) == q * g) by (nonlinear_arith)
                requires
                    2 * m == q,
            ;
        }
        if e >= u {
            let p = pow2((e - u) as nat) as int;
            lemma_pow2_pos((e - u) as nat);
            lemma_pow2_adds((e - u) as nat, (u - y) as nat);
            assert(0 <= num * p) by (nonlinear_arith)
                requires
                    num > 0,
                    p > 0,
            ;
            lemma_half_even_doubles(num * p, 1);
            let w = num * p;
            assert(num * f == w * g) by (nonlinear_arith)
                requires
                    w == num * p,
                    f == p * g,
            ;
            assert(0 <= q * g <= 2 * (w * g)) by (nonlinear_arith)
                requires
                    0 <= q <= 2 * w,
                    g > 0,
            ;
        } else {
            let p = pow2((u - e) as nat) as int;
            lemma_pow2_pos((u - e) as nat);
            lemma_pow2_adds((u - e) as nat, (e - y) as nat);
            assert(1 * p == p);
            lemma_half_even_doubles(num, p);
            let w = q * p;
            assert(0 <= w && q * g == w * f) by (nonlinear_arith)
                requires
                    w == q * p,
                    q >= 0,
                    p > 0,
                    g == p * f,
            ;
            assert(0 <= w * f <= 2 * (num * f)) by (nonlinear_arith)
                requires
                    0 <= w <= 2 * num,
                    f > 0,
            ;
        }
    } else {
        let p = pow2((exponent(0) - y) as nat) as int;
        assert(0 * p == 0) by (nonlinear_arith);
    }
}

/// A number times one of at most 1 is at most the number.
pub(crate) proof fn lemma_product_shrinks(a: int, c: int)
    requires
        0 <= a,
        0 <= c <= power_bits(0),
    ensures
        0 <= product(a, c) <= a,
{
    lemma_below_power(c, 0);
    let m = mantissa(a);
    let n = mantissa(c);
    let x = exponent(a);
    let y = exponent(c);
    let p = pow2((-y) as nat) as int;
    assert(0 <= m * n <= 1 * (m * p)) by (nonlinear_arith)
        requires
            0 <= m,
            0 <= n <= p,
    ;
    rounding_keeps_bounds(m * n, 1, x + y, a);
}

proof fn lemma_half_even_at_least(a: int, b: int, m: int)
    requires
        0 < b,
        b * m <= a,
    ensures
        m <= half_even(a, b),
{
    lemma_fundamental_div_mod(a, b);
    lemma_mod_bound(a, b);
    let q = a / b;
    let r = a % b;
    assert(m <= q) by (nonlinear_arith)
        requires
            a == b * q + r,
            0 <= r < b,
            b * m <= a,
    ;
}

/// Where the leading digit is kept, the kept digits are 24.
proof fn lemma_all_digits(num: int, den: int, e: int)
    requires
        0 < num,
        0 < den,
        lead(num, den) + e - 23 >= -149,
    ensures
        0x80_0000 <= in_units(num, den, e, last_place(num, den, e)),
{
    let k = lead(num, den);
    let u = last_place(num, den, e);
    lemma_lead(num, den);
    lemma2_to64();
    if e >= u {
        let s = (23 - k) as nat;
        let p = pow2(s) as int;
        lemma_pow2_pos(s);
        if k >= 0 {
            lemma_pow2_adds(k as nat, s);
            let q = pow2(k as nat) as int;
            assert(den * 0x80_0000 <= num * p) by (nonlinear_arith)
                requires
                    q * den <= num,
                    q * p == 0x80_0000,
                    p > 0,
            ;
        } else {
            lemma_pow2_adds((-k) as nat, 23);
            let q = pow2((-k) as nat) as int;
            assert(den * 0x80_0000 <= num * p) by (nonlinear_arith)
                requires
                    den <= num * q,
                    q * 0x80_0000 == p,
            ;
        }
        lemma_half_even_at_least(num * p, den, 0x80_0000);
    } else {
        let s = (u - e) as nat;
        let p = pow2(s) as int;
        lemma_pow2_pos(s);
        lemma_pow2_adds(23, s);
        assert(k == 23 + s);
        let q = pow2(k as nat) as int;
        assert((den * p) * 0x80_0000 <= num) by (nonlinear_arith)
            requires
                q * den <= num,
                q == 0x80_0000 * p,
        ;
        assert(den * p > 0) by (nonlinear_arith)
            requires
                den > 0,
                p > 0,
        ;
        lemma_half_even_at_least(num, den * p, 0x80_0000);
    }
}

/// The digits and the place of a rounded number are the kept digits at the last kept place, or half
/// of them one place higher where rounding carried into another digit.
proof fn lemma_rounded_parts(num: int, den: int, e: int)
    requires
        0 < num,
        0 < den,
    ensures
        ({
            let b = nearest(num, den, e);
            let u = last_place(num, den, e);
            let k = in_units(num, den, e, u);
            (exponent(b) == u && mantissa(b) == k) || (exponent(b) == u + 1 && 2 * mantissa(b) == k)
        }),
{
    let u = last_place(num, den, e);
    let k = in_units(num, den, e, u);
    lemma_kept(num, den, e);
    if u > -149 {
        lemma_all_digits(num, den, e);
    }
}

/// A rounded number is the one with 24 binary digits (fewer only at the least place) that is nearest
/// to the exact one: it is off by at most half of its last place.
pub proof fn rounding_is_to_the_nearest(num: int, den: int, e: int)
    requires
        0 < num,
        0 < den,
    ensures
        ({
            let m = mantissa(nearest(num, den, e));
            let x = exponent(nearest(num, den, e));
            &&& e >= x ==> -den <= 2 * (m * den - num * pow2((e - x) as nat)) <= den
            &&& e < x ==> {
                let d = den * pow2((x - e) as nat);
                -d <= 2 * (m * d - num) <= d
            }
            &&& m < 0x100_0000
            &&& m >= 0x80_0000 || x == -149
        }),
{
    let b = nearest(num, den, e);
    let m = mantissa(b);
    let x = exponent(b);
    let u = last_place(num, den, e);
    let k = in_units(num, den, e, u);
    lemma_rounded_parts(num, den, e);
    lemma_kept(num, den, e);
    if e >= u {
        let p = pow2((e - u) as nat) as int;
        half_even_is_the_nearest(num * p, den);
        if x == u + 1 {
            assert((2 * m) * den == 2 * (m * den)) by (nonlinear_arith);
            if e >= x {
                let q = pow2((e - x) as nat) as int;
                lemma_pow2_unfold((e - u) as nat);
                assert(num * p == 2 * (num * q)) by (nonlinear_arith)
                    requires
                        p == 2 * q,
                ;
            } else {
                lemma2_to64();
                assert(e == u);
                assert(num * p == num) by (nonlinear_arith)
                    requires
                        p == 1,
                ;
                let d = den * pow2(1);
                assert(d == 2 * den);
                assert(m * d == 2 * (m * den)) by (nonlinear_arith)
                    requires
                        d == 2 * den,
                ;
            }
        }
    } else {
        let p = pow2((u - e) as nat) as int;
        lemma_pow2_pos((u - e) as nat);
        let d = den * p;
        assert(d > 0) by (nonlinear_arith)
            requires
                d == den * p,
                den > 0,
                p > 0,
        ;
        half_even_is_the_nearest(num, d);
        if x == u + 1 {
            let q = pow2((x - e) as nat) as int;
            lemma_pow2_unfold((x - e) as nat);
            let c = den * q;
            assert(c == 2 * d) by (nonlinear_arith)
                requires
                    c == den * q,
                    q == 2 * p,
                    d == den * p,
            ;
            assert(m * c == (2 * m) * d) by (nonlinear_arith)
                requires
                    c == 2 * d,
            ;
        }
    }
}

pub(crate) proof fn lemma_not_negative(num: int, den: int, e: int)
    requires
        0 <= num,
        0 < den,
    ensures
        0 <= nearest(num, den, e),
{
    if num > 0 {
        lemma_kept(num, den, e);
    }
}

/// Whether the number with bits `b` is nearest to `num / den * 2^e` among those with 24 binary
/// digits: it is off by at most half of its last place.
pub open spec fn is_nearest(b: int, num: int, den: int, e: int) -> bool {
    let m = mantissa(b);
    let x = exponent(b);
    if e >= x {
        -den <= 2 * (m * den - num * pow2((e - x) as nat)) <= den
    } else {
        let d = den * pow2((x - e) as nat);
        -d <= 2 * (m * d - num) <= d
    }
}

proof fn lemma_is_nearest(num: int, den: int, e: int)
    requires
        0 <= num,
        0 < den,
    ensures
        nearest(num, den, e) < INFINITE ==> is_nearest(nearest(num, den, e), num, den, e),
{
    if num > 0 {
        rounding_is_to_the_nearest(num, den, e);
    } else {
        let x = -149int;
        if e >= x {
            assert(0 * pow2((e - x) as nat) == 0) by (nonlinear_arith);
            assert(0 * den == 0) by (nonlinear_arith);
        } else {
            let d = den * pow2((x - e) as nat);
            lemma_pow2_pos((x - e) as nat);
            assert(d > 0) by (nonlinear_arith)
                requires
                    d == den * pow2((x - e) as nat),
                    den > 0,
                    pow2((x - e) as nat) > 0,
            ;
            assert(0 * d == 0) by (nonlinear_arith);
        }
    }
}

proof fn lemma_parts_are_not_negative(a: int)
    requires
        0 <= a,
    ensures
        0 <= mantissa(a),
        a > 0 ==> mantissa(a) > 0,
{
}

/// Each operation gives the single-precision number nearest to the exact result on what its
/// operands stand for, where that is not too large: a whole number, a product, a quotient, a sum.
pub proof fn operations_are_exact_to_the_last_digit(a: int, b: int, n: int, e: int)
    requires
        0 <= a < INFINITE,
        0 <= b < INFINITE,
        0 <= n,
        e <= exponent(a),
        e <= exponent(b),
        e == exponent(a) || e == exponent(b),
    ensures
        count(n) < INFINITE ==> is_nearest(count(n), n, 1, 0),
        product(a, b) < INFINITE ==> is_nearest(
            product(a, b),
            mantissa(a) * mantissa(b),
            1,
            exponent(a) + exponent(b),
        ),
        b > 0 && per(a, b) < INFINITE ==> is_nearest(
            per(a, b),
            mantissa(a),
            mantissa(b),
            exponent(a) - exponent(b),
        ),
        total(a, b) < INFINITE ==> is_nearest(
            total(a, b),
            mantissa(a) * pow2((exponent(a) - e) as nat) + mantissa(b) * pow2(
                (exponent(b) - e) as nat,
            ),
            1,
            e,
        ),
{
    lemma_parts_are_not_negative(a);
    lemma_parts_are_not_negative(b);
    let m = mantissa(a);
    let k = mantissa(b);
    assert(0 <= m * k) by (nonlinear_arith)
        requires
            0 <= m,
            0 <= k,
    ;
    let p = pow2((exponent(a) - e) as nat) as int;
    let q = pow2((exponent(b) - e) as nat) as int;
    lemma_pow2_pos((exponent(a) - e) as nat);
    lemma_pow2_pos((exponent(b) - e) as nat);
    assert(0 <= m * p + k * q) by (nonlinear_arith)
        requires
            0 <= m,
            0 <= k,
            0 < p,
            0 < q,
    ;
    lemma_is_nearest(n, 1, 0);
    lemma_is_nearest(m * k, 1, exponent(a) + exponent(b));
    lemma_is_nearest(m * p + k * q, 1, e);
    if b > 0 {
        lemma_is_nearest(m, k, exponent(a) - exponent(b));
    }
}

/// None of anything is no percent, and all of it is a hundred.
pub proof fn percent_of_none_and_of_all(n: int)
    requires
        0 < n <= u64::MAX,
    ensures
        ratio_bits(0, n) == 0,
        ratio_bits(n, n) == 0x3F80_0000,
        percent_bits(0, n) == 0,
        percent_bits(n, n) == HUNDRED,
{
    lemma2_to64();
    lemma2_to64_rest();
    lemma_count(n, 64);
    let c = count(n);
    let m = mantissa(c);
    assert(count(0) == 0);
    assert(mantissa(0) == 0);
    assert(ratio_bits(0, n) == 0);
    assert(0 * mantissa(HUNDRED as int) == 0) by (nonlinear_arith);
    assert(m > 0);
    assert(lead(m, m) == 0) by {
        assert(m / m == 1) by (nonlinear_arith)
            requires
                m > 0,
        ;
        assert(length(1) == 1 + length(0));
    }
    assert(last_place(m, m, 0) == -23);
    vstd::arithmetic::div_mod::lemma_fundamental_div_mod_converse(m * 0x80_0000, m, 0x80_0000, 0);
    assert(half_even(m * 0x80_0000, m) == 0x80_0000);
    let one = ratio_bits(n, n);
    assert(one == 0x3F80_0000);
    assert(mantissa(one) == 0x80_0000 && exponent(one) == -23);
    assert(mantissa(HUNDRED as int) == 0xC8_0000 && exponent(HUNDRED as int) == -17);
    lemma_absorbed(0xC8_0000, 0, -40, 23);
    assert(0x80_0000 * 0xC8_0000 == 0xC8_0000 * pow2(23) + 0);
}

/// What the number with those bits stands for, in units of `2^-149`.
pub open spec fn value(bits: int) -> int {
    mantissa(bits) * pow2((exponent(bits) + 149) as nat)
}

/// A rounded whole multiple of the least unit is off by at most one part in 2^24.
pub(crate) proof fn lemma_value_close(num: int, e: int)
    requires
        0 <= num,
        e >= -149,
    ensures
        ({
            let r = nearest(num, 1, e);
            let exact = num * pow2((e + 149) as nat);
            &&& value(r) >= 0
            &&& -value(r) <= 0x100_0000 * (value(r) - exact) <= value(r)
        }),
{
    let r = nearest(num, 1, e);
    let p = pow2((e + 149) as nat) as int;
    lemma_pow2_pos((e + 149) as nat);
    if num == 0 {
        assert(mantissa(0) == 0);
        let z = pow2((exponent(0) + 149) as nat) as int;
        assert(0 * z == 0 && 0 * p == 0) by (nonlinear_arith);
    } else {
        rounding_is_to_the_nearest(num, 1, e);
        let m = mantissa(r);
        let x = exponent(r);
        lemma_kept(num, 1, e);
        assert(x >= -149);
        if e >= x {
            let d = pow2((e - x) as nat) as int;
            assert(m * 1 == m);
            assert(m == num * d);
            lemma_pow2_adds((e - x) as nat, (x + 149) as nat);
            let q = pow2((x + 149) as nat) as int;
            lemma_pow2_pos((x + 149) as nat);
            assert(m * q == num * p && m * q >= 0) by (nonlinear_arith)
                requires
                    m == num * d,
                    p == d * q,
                    num >= 0,
                    d * q > 0,
            ;
        } else {
            let d = pow2((x - e) as nat) as int;
            assert(1 * d == d);
            lemma_pow2_pos((x - e) as nat);
            lemma_pow2_adds((x - e) as nat, (e + 149) as nat);
            let q = pow2((x + 149) as nat) as int;
            let off = m * d - num;
            assert(m * q - num * p == off * p) by (nonlinear_arith)
                requires
                    q == d * p,
                    off == m * d - num,
            ;
            assert(-(d * p) <= 2 * (off * p) <= d * p) by (nonlinear_arith)
                requires
                    -d <= 2 * off <= d,
                    p > 0,
            ;
            assert(0x80_0000 * (d * p) <= m * q) by (nonlinear_arith)
                requires
                    m >= 0x80_0000,
                    q == d * p,
                    q >= 0,
            ;
        }
    }
}

/// A rounded product with a number of `c` digits at place `-k` is off by at most one part in 2^24,
/// and half of the least unit.
pub(crate) proof fn lemma_value_scaled(a: int, c: int, k: nat)
    requires
        0 <= a < INFINITE,
        0 < c < 0x100_0000,
    ensures
        ({
            let r = nearest(mantissa(a) * c, 1, exponent(a) - k);
            let whole = pow2(k) as int;
            let diff = value(r) * whole - value(a) * c;
            &&& value(r) >= 0
            &&& -(value(r) * whole + 0x100_0000 * whole) <= 0x100_0000 * diff
            &&& 0x100_0000 * diff <= value(r) * whole + 0x100_0000 * whole
        }),
{
    let n = mantissa(a) * c;
    let y = exponent(a);
    let e = y - k;
    let r = nearest(n, 1, e);
    let whole = pow2(k) as int;
    let p = pow2((y + 149) as nat) as int;
    lemma_pow2_pos(k);
    lemma_pow2_pos((y + 149) as nat);
    assert(n >= 0) by (nonlinear_arith)
        requires
            n == mantissa(a) * c,
            mantissa(a) >= 0,
            c > 0,
    ;
    assert(value(a) * c == n * p) by (nonlinear_arith)
        requires
            value(a) == mantissa(a) * p,
            n == mantissa(a) * c,
    ;
    if n == 0 {
        assert(mantissa(0) == 0);
        let z = pow2((exponent(0) + 149) as nat) as int;
        assert(0 * z == 0 && 0 * p == 0 && 0 * whole == 0) by (nonlinear_arith);
    } else {
        rounding_is_to_the_nearest(n, 1, e);
        lemma_kept(n, 1, e);
        let m = mantissa(r);
        let x = exponent(r);
        assert(x >= -149);
        let q = pow2((x + 149) as nat) as int;
        lemma_pow2_pos((x + 149) as nat);
        lemma_pow2_adds((x + 149) as nat, k);
        let t = pow2((x + 149 + k) as nat) as int;
        assert((m * q) * whole == m * t) by (nonlinear_arith)
            requires
                t == q * whole,
        ;
        assert(m * q >= 0 && m * t >= 0) by (nonlinear_arith)
            requires
                m >= 0,
                q > 0,
                t == q * whole,
                whole > 0,
        ;
        if e >= x {
            let d = pow2((e - x) as nat) as int;
            assert(m * 1 == m);
            assert(m == n * d);
            lemma_pow2_adds((e - x) as nat, (x + 149 + k) as nat);
            assert(m * t == n * p) by (nonlinear_arith)
                requires
                    m == n * d,
                    p == d * t,
            ;
        } else {
            let d = pow2((x - e) as nat) as int;
            assert(1 * d == d);
            lemma_pow2_pos((x - e) as nat);
            lemma_pow2_adds((x - e) as nat, (y + 149) as nat);
            let off = m * d - n;
            assert(m * t - n * p == off * p) by (nonlinear_arith)
                requires
                    t == d * p,
                    off == m * d - n,
            ;
            assert(-t <= 2 * (off * p) <= t) by (nonlinear_arith)
                requires
                    -d <= 2 * off <= d,
                    p > 0,
                    t == d * p,
            ;
            if m >= 0x80_0000 {
                assert(0x80_0000 * t <= m * t) by (nonlinear_arith)
                    requires
                        m >= 0x80_0000,
                        t >= 0,
                ;
            } else {
                assert(x == -149);
                lemma2_to64();
                assert(t == whole);
            }
        }
    }
}

/// A difference, and a sum, of what two numbers stand for, to one part in 2^24.
pub(crate) proof fn lemma_values_add(a: int, b: int)
    requires
        0 <= b <= a < INFINITE,
    ensures
        value(b) <= value(a),
        value(less(a, b)) >= 0,
        -value(less(a, b)) <= 0x100_0000 * (value(less(a, b)) - (value(a) - value(b))),
        0x100_0000 * (value(less(a, b)) - (value(a) - value(b))) <= value(less(a, b)),
        total(a, b) < INFINITE ==> {
            let t = value(total(a, b));
            -t <= 0x100_0000 * (t - (value(a) + value(b))) <= t
        },
        total(b, a) == total(a, b),
{
    lemma_order(a, b);
    let x = exponent(a);
    let e = exponent(b);
    let p = pow2((x - e) as nat) as int;
    let u = pow2((e + 149) as nat) as int;
    lemma_pow2_pos((e + 149) as nat);
    lemma_pow2_adds((x - e) as nat, (e + 149) as nat);
    let v = pow2((x + 149) as nat) as int;
    let m = mantissa(a);
    let n = mantissa(b);
    assert((m * p - n) * u == m * v - n * u) by (nonlinear_arith)
        requires
            v == p * u,
    ;
    assert((m * p + n) * u == m * v + n * u) by (nonlinear_arith)
        requires
            v == p * u,
    ;
    assert(0 <= (m * p - n) * u) by (nonlinear_arith)
        requires
            n <= m * p,
            u > 0,
    ;
    lemma_value_close(m * p - n, e);
    lemma2_to64();
    let one = pow2(0) as int;
    assert(n * one == n) by (nonlinear_arith)
        requires
            one == 1,
    ;
    if x == e {
        assert(m * one == m) by (nonlinear_arith)
            requires
                one == 1,
        ;
    }
    lemma_value_close(m * p + n, e);
}

/// Writing a number's digits further left, at a place as much further right, changes nothing.
pub(crate) proof fn lemma_shifted_digits(n: int, h: nat)
    requires
        0 < n < 0x100_0000,
        h >= 24,
    ensures
        nearest(n * pow2(h), 1, -(h as int)) == nearest(n, 1, 0),
{
    let p = pow2(h) as int;
    lemma_pow2_pos(h);
    lemma_length(n);
    lemma2_to64();
    let l = length(n);
    if l > 25 {
        lemma_pow2_strictly_increases(24, (l - 1) as nat);
    }
    assert(l <= 24);
    lemma_pow2_adds((l - 1) as nat, h);
    lemma_pow2_adds(l as nat, h);
    let lo = pow2((l - 1) as nat) as int;
    let hi = pow2(l as nat) as int;
    let x = n * p;
    assert(lo * p <= x < hi * p && x > 0) by (nonlinear_arith)
        requires
            lo <= n < hi,
            n > 0,
            p > 0,
            x == n * p,
    ;
    lemma_length_unique(x, l + h);
    assert(x / 1 == x && n / 1 == n);
    let u = l - 24;
    assert(last_place(n, 1, 0) == u);
    assert(last_place(x, 1, -(h as int)) == u);
    let s = pow2((-u) as nat) as int;
    let d = pow2((u + h) as nat) as int;
    lemma_pow2_adds((u + h) as nat, (-u) as nat);
    lemma_pow2_pos((u + h) as nat);
    assert(x == d * (n * s)) by (nonlinear_arith)
        requires
            x == n * p,
            p == d * s,
    ;
    vstd::arithmetic::div_mod::lemma_fundamental_div_mod_converse(x, d, n * s, 0);
    assert(half_even(x, 1 * d) == n * s);
    assert(half_even(n * s, 1) == n * s) by {
        assert((n * s) / 1 == n * s && (n * s) % 1 == 0);
    }
}

} // verus!
