//! ITU-T G.711 companding (mu-law and a-law).
use vstd::prelude::*;

use crate::sip::G711Kind;

verus! {

/// The width of companding segment `seg` relative to the first one: `2^seg` for `0 <= seg <= 7`.
pub open spec fn scale(seg: int) -> int {
    if seg <= 0 {
        1
    } else if seg == 1 {
        2
    } else if seg == 2 {
        4
    } else if seg == 3 {
        8
    } else if seg == 4 {
        16
    } else if seg == 5 {
        32
    } else if seg == 6 {
        64
    } else {
        128
    }
}

/// The segment of magnitude `m` when segment `s` ends below `first * 2^s`; 8 is past the last one.
pub open spec fn segment(m: int, first: int) -> int {
    if m < first {
        0
    } else if m < 2 * first {
        1
    } else if m < 4 * first {
        2
    } else if m < 8 * first {
        3
    } else if m < 16 * first {
        4
    } else if m < 32 * first {
        5
    } else if m < 64 * first {
        6
    } else if m < 128 * first {
        7
    } else {
        8
    }
}

/// The sample that mu-law code `b` stands for: the code is stored complemented, its top bit is
/// the sign, the next three bits the segment and the low four the step in the segment.
pub open spec fn ulaw_sample(b: u8) -> int {
    let c = 255 - b;
    let magnitude = (8 * (c % 16) + 132) * scale((c / 16) % 8) - 132;
    if c >= 128 {
        -magnitude
    } else {
        magnitude
    }
}

/// The 14-bit magnitude of `pcm`, clipped to 8159 and biased by 33. A negative sample is
/// divided by four rounding down, so its magnitude is rounded up.
pub open spec fn ulaw_magnitude(pcm: int) -> int {
    let m = if pcm < 0 {
        -(pcm / 4)
    } else {
        pcm / 4
    };
    (if m > 8159 {
        8159
    } else {
        m
    }) + 33
}

/// The mu-law code of `pcm`.
pub open spec fn ulaw_code(pcm: int) -> int {
    let m = ulaw_magnitude(pcm);
    let seg = segment(m, 64);
    let c = if seg == 8 {
        127
    } else {
        16 * seg + (m / (2 * scale(seg))) % 16
    };
    // The sign bit is the top bit of the complemented code.
    if pcm < 0 {
        127 - c
    } else {
        255 - c
    }
}

/// The sample that a-law code `b` stands for: every other bit is stored inverted, the top bit is
/// set for a positive sample, then come the segment and the step.
pub open spec fn alaw_sample(b: u8) -> int {
    let c = (b ^ 0x55) as int;
    let seg = (c / 16) % 8;
    let magnitude = if seg == 0 {
        16 * (c % 16) + 8
    } else {
        (16 * (c % 16) + 264) * scale(seg - 1)
    };
    if c >= 128 {
        magnitude
    } else {
        -magnitude
    }
}

/// The 13-bit magnitude of `pcm`; a negative sample counts from minus one.
pub open spec fn alaw_magnitude(pcm: int) -> int {
    if pcm < 0 {
        -(pcm / 8) - 1
    } else {
        pcm / 8
    }
}

/// The a-law code of `pcm` before every other bit is inverted.
pub open spec fn alaw_plain_code(pcm: int) -> int {
    let m = alaw_magnitude(pcm);
    let seg = segment(m, 32);
    let c = if seg == 8 {
        127
    } else if seg < 2 {
        16 * seg + (m / 2) % 16
    } else {
        16 * seg + (m / scale(seg)) % 16
    };
    if pcm < 0 {
        c
    } else {
        c + 128
    }
}

/// The a-law code of `pcm`.
pub open spec fn alaw_code(pcm: int) -> u8 {
    (alaw_plain_code(pcm) as u8) ^ 0x55
}

/// The sample that code `b` stands for under `kind`.
pub open spec fn sample_of(kind: G711Kind, b: u8) -> int {
    match kind {
        G711Kind::Ulaw => ulaw_sample(b),
        G711Kind::Alaw => alaw_sample(b),
    }
}

/// The code of sample `pcm` under `kind`.
pub open spec fn code_of(kind: G711Kind, pcm: i16) -> int {
    match kind {
        G711Kind::Ulaw => ulaw_code(pcm as int),
        G711Kind::Alaw => alaw_code(pcm as int) as int,
    }
}

/// The segment of `val` when the first segment ends below `first`.
fn search(val: i32, first: i32) -> (r: usize)
    requires
        first == 32 || first == 64,
    ensures
        r == segment(val as int, first as int),
        r <= 8,
{
    let mut end: i32 = first;
    let mut seg: usize = 0;
    while seg < 8
        invariant
            seg <= 8,
            first == 32 || first == 64,
            seg < 8 ==> end == first * scale(seg as int),
            seg > 0 ==> val >= first * scale(seg - 1),
        decreases 8 - seg,
    {
        if val < end {
            return seg;
        }
        end = end * 2;
        seg = seg + 1;
    }
    seg
}

/// `2^seg`.
fn scale_of(seg: usize) -> (r: i32)
    requires
        seg <= 7,
    ensures
        r == scale(seg as int),
{
    let mut r: i32 = 1;
    let mut i: usize = 0;
    while i < seg
        invariant
            i <= seg <= 7,
            r == scale(i as int),
        decreases seg - i,
    {
        r = r * 2;
        i = i + 1;
    }
    r
}

/// PCM16 -> mu-law.
pub fn encode_ulaw(pcm: i16) -> (r: u8)
    ensures
        r == ulaw_code(pcm as int),
{
    let v: i32 = pcm as i32;
    let mut m: i32 = if v < 0 {
        (3 - v) / 4
    } else {
        v / 4
    };
    if m > 8159 {
        m = 8159;
    }
    m = m + 33;
    let seg: usize = search(m, 64);
    let c: i32 = if seg >= 8 {
        127
    } else {
        let width: i32 = 2 * scale_of(seg);
        16 * (seg as i32) + (m / width) % 16
    };
    if v < 0 {
        (127 - c) as u8
    } else {
        (255 - c) as u8
    }
}

/// mu-law -> PCM16.
pub fn decode_ulaw(u: u8) -> (r: i16)
    ensures
        r == ulaw_sample(u),
{
    let c: i32 = 255 - (u as i32);
    let seg: usize = ((c / 16) % 8) as usize;
    let base: i32 = 8 * (c % 16) + 132;
    let width: i32 = scale_of(seg);
    assert(base * width <= 252 * 128) by (nonlinear_arith)
        requires
            0 <= base <= 252,
            0 <= width <= 128,
    ;
    assert(base * width >= 0) by (nonlinear_arith)
        requires
            0 <= base,
            0 <= width,
    ;
    let magnitude: i32 = base * width - 132;
    if c >= 128 {
        (-magnitude) as i16
    } else {
        magnitude as i16
    }
}

/// PCM16 -> a-law.
pub fn encode_alaw(pcm: i16) -> (r: u8)
    ensures
        r == alaw_code(pcm as int),
{
    let v: i32 = pcm as i32;
    let m: i32 = if v < 0 {
        (7 - v) / 8 - 1
    } else {
        v / 8
    };
    let seg: usize = search(m, 32);
    let c: i32 = if seg >= 8 {
        127
    } else if seg < 2 {
        16 * (seg as i32) + (m / 2) % 16
    } else {
        let width: i32 = scale_of(seg);
        16 * (seg as i32) + (m / width) % 16
    };
    let plain: i32 = if v < 0 {
        c
    } else {
        c + 128
    };
    (plain as u8) ^ 0x55
}

/// a-law -> PCM16.
pub fn decode_alaw(a: u8) -> (r: i16)
    ensures
        r == alaw_sample(a),
{
    let c: i32 = (a ^ 0x55) as i32;
    let seg: usize = ((c / 16) % 8) as usize;
    let magnitude: i32 = if seg == 0 {
        16 * (c % 16) + 8
    } else {
        let base: i32 = 16 * (c % 16) + 264;
        let width: i32 = scale_of(seg - 1);
        assert(0 <= base * width <= 504 * 64) by (nonlinear_arith)
            requires
                0 <= base <= 504,
                0 <= width <= 64,
        ;
        base * width
    };
    if c >= 128 {
        magnitude as i16
    } else {
        (-magnitude) as i16
    }
}

/// Decode a G.711 payload to PCM16 samples.
pub fn decode(kind: G711Kind, payload: &[u8]) -> (r: Vec<i16>)
    ensures
        r@.len() == payload@.len(),
        forall|i: int| 0 <= i < r@.len() ==> #[trigger] r@[i] == sample_of(kind, payload@[i]),
{
    let mut out: Vec<i16> = Vec::with_capacity(payload.len());
    let mut i: usize = 0;
    while i < payload.len()
        invariant
            i <= payload@.len(),
            out@.len() == i,
            forall|j: int| 0 <= j < i ==> #[trigger] out@[j] == sample_of(kind, payload@[j]),
        decreases payload@.len() - i,
    {
        let s: i16 = match kind {
            G711Kind::Ulaw => decode_ulaw(payload[i]),
            G711Kind::Alaw => decode_alaw(payload[i]),
        };
        out.push(s);
        i = i + 1;
    }
    out
}

/// Encode PCM16 samples to a G.711 payload.
pub fn encode(kind: G711Kind, pcm: &[i16]) -> (r: Vec<u8>)
    ensures
        r@.len() == pcm@.len(),
        forall|i: int| 0 <= i < r@.len() ==> #[trigger] r@[i] == code_of(kind, pcm@[i]),
{
    let mut out: Vec<u8> = Vec::with_capacity(pcm.len());
    let mut i: usize = 0;
    while i < pcm.len()
        invariant
            i <= pcm@.len(),
            out@.len() == i,
            forall|j: int| 0 <= j < i ==> #[trigger] out@[j] == code_of(kind, pcm@[j]),
        decreases pcm@.len() - i,
    {
        let b: u8 = match kind {
            G711Kind::Ulaw => encode_ulaw(pcm[i]),
            G711Kind::Alaw => encode_alaw(pcm[i]),
        };
        out.push(b);
        i = i + 1;
    }
    out
}

proof fn lemma_zero_codes()
    ensures
        ulaw_code(0) == 0xFF,
        alaw_code(0) == 0xD5,
{
    assert(scale(0) == 1);
    assert(33int / (2 * scale(0)) == 33int / 2int);
    assert(segment(33, 64) == 0);
    assert(ulaw_magnitude(0) == 33);
    assert(128u8 ^ 0x55u8 == 0xD5u8) by (bit_vector);
}

/// The byte that encodes digital silence for this codec.
pub fn silence_byte(kind: G711Kind) -> (r: u8)
    ensures
        r == code_of(kind, 0),
{
    proof {
        lemma_zero_codes();
    }
    match kind {
        G711Kind::Ulaw => 0xFF,
        G711Kind::Alaw => 0xD5,
    }
}

/// Re-encoding a decoded mu-law code gives the code back; the one exception is the code of
/// negative zero, which comes back as the code of zero.
pub proof fn ulaw_reencode(b: u8)
    ensures
        ulaw_code(ulaw_sample(b)) == (if b == 0x7F {
            0xFF
        } else {
            b as int
        }),
{
    let c = 255 - b;
    let q = c % 16;
    let seg = (c / 16) % 8;
    assert(c == 128 * (c / 128) + 16 * seg + q);
    let s = scale(seg);
    let m = (2 * q + 33) * s;
    assert((8 * q + 132) * s == 4 * m) by (nonlinear_arith)
        requires
            m == (2 * q + 33) * s,
    ;
    assert(ulaw_magnitude(ulaw_sample(b)) == m);
    assert((m / (2 * s)) % 16 == q) by {
        // m / 2s == q + 16, since m lies half a step above (q + 16) * 2s.
        assert(m == (q + 16) * (2 * s) + s) by (nonlinear_arith)
            requires
                m == (2 * q + 33) * s,
        ;
        vstd::arithmetic::div_mod::lemma_fundamental_div_mod_converse(m, 2 * s, q + 16, s);
    }
    assert(segment(m, 64) == seg);
}

/// Re-encoding a decoded a-law code gives the code back.
pub proof fn alaw_reencode(b: u8)
    ensures
        alaw_code(alaw_sample(b)) == b,
{
    let plain = b ^ 0x55u8;
    assert((b ^ 0x55u8) ^ 0x55u8 == b) by (bit_vector);
    let c = plain as int;
    let q = c % 16;
    let seg = (c / 16) % 8;
    assert(c == 128 * (c / 128) + 16 * seg + q);
    let pcm = alaw_sample(b);
    if seg >= 2 {
        let s = scale(seg - 1);
        assert(scale(seg) == 2 * s);
        let t = (2 * q + 33) * s;
        assert((16 * q + 264) * s == 8 * t) by (nonlinear_arith)
            requires
                t == (2 * q + 33) * s,
        ;
        let m = if pcm < 0 {
            t - 1
        } else {
            t
        };
        assert(alaw_magnitude(pcm) == m);
        let r = m - (q + 16) * (2 * s);
        assert(t == (q + 16) * (2 * s) + s) by (nonlinear_arith)
            requires
                t == (2 * q + 33) * s,
        ;
        vstd::arithmetic::div_mod::lemma_fundamental_div_mod_converse(m, 2 * s, q + 16, r);
        assert(segment(m, 32) == seg);
    }
    assert(alaw_plain_code(pcm) == c);
}

/// Decoding, re-encoding and decoding again reproduces the decoded sample, for every code of
/// both laws.
pub proof fn decode_is_stable_under_reencode(kind: G711Kind, b: u8, pcm: i16)
    requires
        pcm == sample_of(kind, b),
    ensures
        0 <= code_of(kind, pcm) <= 255,
        sample_of(kind, code_of(kind, pcm) as u8) == pcm,
{
    match kind {
        G711Kind::Ulaw => ulaw_reencode(b),
        G711Kind::Alaw => alaw_reencode(b),
    }
}

/// The silence byte stands for a sample within one step of zero.
pub proof fn silence_is_near_zero(kind: G711Kind)
    ensures
        -16 < sample_of(kind, code_of(kind, 0) as u8) < 16,
        kind == G711Kind::Ulaw ==> sample_of(kind, code_of(kind, 0) as u8) == 0,
{
    lemma_zero_codes();
    assert(0xD5u8 ^ 0x55u8 == 128u8) by (bit_vector);
    assert(132 * scale(0) == 132);
}

proof fn lemma_ulaw_close(pcm: i16)
    ensures
        0 <= ulaw_code(pcm as int) <= 255,
        ({
            let x = ulaw_sample(ulaw_code(pcm as int) as u8);
            let size = if pcm < 0 {
                -(pcm as int)
            } else {
                pcm as int
            };
            -(size + 256) <= 32 * (x - pcm) <= size + 256
        }),
{
    let m = ulaw_magnitude(pcm as int);
    let seg = segment(m, 64);
    assert(33 <= m <= 8192);
    if seg < 8 {
        let w = 2 * scale(seg);
        let k = m / w;
        vstd::arithmetic::div_mod::lemma_fundamental_div_mod(m, w);
        if seg == 0 {
            assert(w == 2 && 16 <= m / 2 < 32);
        } else if seg == 1 {
            assert(w == 4 && 16 <= m / 4 < 32);
        } else if seg == 2 {
            assert(w == 8 && 16 <= m / 8 < 32);
        } else if seg == 3 {
            assert(w == 16 && 16 <= m / 16 < 32);
        } else if seg == 4 {
            assert(w == 32 && 16 <= m / 32 < 32);
        } else if seg == 5 {
            assert(w == 64 && 16 <= m / 64 < 32);
        } else if seg == 6 {
            assert(w == 128 && 16 <= m / 128 < 32);
        } else {
            assert(w == 256 && 16 <= m / 256 < 32);
        }
        let q = k % 16;
        assert(q == k - 16);
        let c = 16 * seg + q;
        assert(c / 16 == seg && c % 16 == q);
        assert((8 * q + 132) * scale(seg) == 4 * (scale(seg) * (2 * q + 33))) by (nonlinear_arith);
        assert(scale(seg) * (2 * q + 33) == (2 * scale(seg)) * (q + 16) + scale(seg))
            by (nonlinear_arith);
        if pcm < 0 {
            assert(255 - ulaw_code(pcm as int) == 128 + c);
            assert((128 + c) % 16 == q && ((128 + c) / 16) % 8 == seg);
        } else {
            assert(255 - ulaw_code(pcm as int) == c);
            assert(c % 16 == q && (c / 16) % 8 == seg);
        }
    } else {
        assert(127int % 16 == 15 && (127int / 16) % 8 == 7);
        assert(255int % 16 == 15 && (255int / 16) % 8 == 7);
        assert((8 * 15 + 132) * scale(7) == 252 * 128);
    }
}

proof fn lemma_alaw_close(pcm: i16)
    ensures
        ({
            let x = alaw_sample(alaw_code(pcm as int));
            let size = if pcm < 0 {
                -(pcm as int)
            } else {
                pcm as int
            };
            -(size + 256) <= 32 * (x - pcm) <= size + 256
        }),
{
    let m = alaw_magnitude(pcm as int);
    let seg = segment(m, 32);
    assert(0 <= m <= 4095);
    assert(seg < 8);
    let plain = alaw_plain_code(pcm as int);
    let q = if seg < 2 {
        (m / 2) % 16
    } else {
        (m / scale(seg)) % 16
    };
    if seg == 0 {
        assert(m / 2 < 16);
    } else if seg == 1 {
        assert(16 <= m / 2 < 32);
    } else if seg == 2 {
        assert(scale(seg) == 4 && 16 <= m / 4 < 32);
    } else if seg == 3 {
        assert(scale(seg) == 8 && 16 <= m / 8 < 32);
    } else if seg == 4 {
        assert(scale(seg) == 16 && 16 <= m / 16 < 32);
    } else if seg == 5 {
        assert(scale(seg) == 32 && 16 <= m / 32 < 32);
    } else if seg == 6 {
        assert(scale(seg) == 64 && 16 <= m / 64 < 32);
    } else {
        assert(scale(seg) == 128 && 16 <= m / 128 < 32);
    }
    let c = 16 * seg + q;
    assert(0 <= q < 16);
    assert(c / 16 == seg && c % 16 == q);
    assert((128 + c) % 16 == q && ((128 + c) / 16) % 8 == seg);
    assert(0 <= plain <= 255);
    let b = plain as u8;
    assert((b ^ 0x55u8) ^ 0x55u8 == b) by (bit_vector);
    assert((alaw_code(pcm as int) ^ 0x55u8) as int == plain);
    if seg >= 1 {
        let s = scale(seg - 1);
        assert((16 * q + 264) * s == 16 * (s * q) + 264 * s) by (nonlinear_arith);
        if seg == 1 {
            assert(s == 1);
        } else if seg == 2 {
            assert(s == 2);
        } else if seg == 3 {
            assert(s == 4);
        } else if seg == 4 {
            assert(s == 8);
        } else if seg == 5 {
            assert(s == 16);
        } else if seg == 6 {
            assert(s == 32);
        } else {
            assert(s == 64);
        }
    }
}

/// Coding is faithful: what the phone decodes is the sample that was encoded, to within a
/// thirty-second of its size and eight.
pub proof fn coding_is_close(kind: G711Kind, pcm: i16)
    ensures
        0 <= code_of(kind, pcm) <= 255,
        ({
            let x = sample_of(kind, code_of(kind, pcm) as u8);
            let size = if pcm < 0 {
                -(pcm as int)
            } else {
                pcm as int
            };
            -(size + 256) <= 32 * (x - pcm) <= size + 256
        }),
{
    match kind {
        G711Kind::Ulaw => lemma_ulaw_close(pcm),
        G711Kind::Alaw => lemma_alaw_close(pcm),
    }
}

/// Each code of a law stands for a sample of its own, but for the two mu-law codes of zero.
pub proof fn codes_differ(kind: G711Kind, a: u8, b: u8)
    requires
        a != b,
        kind == G711Kind::Ulaw ==> a != 0x7F && b != 0x7F,
    ensures
        sample_of(kind, a) != sample_of(kind, b),
{
    match kind {
        G711Kind::Ulaw => {
            ulaw_reencode(a);
            ulaw_reencode(b);
        },
        G711Kind::Alaw => {
            alaw_reencode(a);
            alaw_reencode(b);
        },
    }
}

} // verus!
