//! Sample-rate conversion. `up_8k_16k` is a pure per-frame linear upsampler. `Downsampler` is
//! stateful: it carries its filter history across the pacer's 20 ms blocks, so that the audio
//! that a person hears has no periodic edge transient.
use vstd::prelude::*;

use crate::single::{round, round_single, rounding_is_close};

verus! {

/// The number of taps of the low-pass filter.
pub const TAPS: usize = 23;

/// One, in the filter's fixed fraction.
pub const FIR_ONE: i64 = 0x100_0000_0000;

/// The taps of a windowed-sinc low-pass filter with its cutoff at 3.4 kHz for 24 kHz input (a
/// Hamming window, gain one at zero frequency): each is a single-precision number, in units of
/// `1 / FIR_ONE`.
pub const LOWPASS: [i64; 23] = [
    -911596480,
    1724922112,
    5873697280,
    7757626368,
    -912411648,
    -22379536384,
    -40910897152,
    -26001666048,
    44526604288,
    158569447424,
    266753622016,
    311332077568,
    266753605632,
    158569431040,
    44526596096,
    -26001664000,
    -40910888960,
    -22379532288,
    -912411456,
    7757626368,
    5873692672,
    1724921600,
    -911596480,
];

/// Division by two that rounds towards zero.
pub open spec fn halve(x: int) -> int {
    if x < 0 {
        -((-x) / 2)
    } else {
        x / 2
    }
}

/// The two output samples per input sample: the sample itself, then the mean with its successor,
/// rounded towards zero; the last sample is held.
pub open spec fn upsampled(input: Seq<i16>, k: int) -> int {
    let i = k / 2;
    if k % 2 == 0 {
        input[i] as int
    } else if i + 1 < input.len() {
        halve(input[i] + input[i + 1])
    } else {
        input[i] as int
    }
}

/// Upsample 8 kHz -> 16 kHz by linear interpolation. Output length = 2 * input.
pub fn up_8k_16k(input: &[i16]) -> (r: Vec<i16>)
    ensures
        r@.len() == 2 * input@.len(),
        forall|k: int| 0 <= k < r@.len() ==> #[trigger] r@[k] == upsampled(input@, k),
        // Every sample stays, at twice its place.
        forall|i: int| 0 <= i < input@.len() ==> r@[2 * i] == #[trigger] input@[i],
        // Between two of them lies their mean, cut off towards zero, and the last one is held.
        forall|i: int, j: int|
            #![trigger input@[i], input@[j]]
            0 <= i < j < input@.len() && j == i + 1 ==> -1 <= 2 * r@[2 * i + 1] - (input@[i]
                + input@[j]) <= 1 && is_mean(
                r@[2 * i + 1] as int,
                input@[i] as int,
                input@[j] as int,
            ),
        input@.len() > 0 ==> r@[2 * input@.len() - 1] == input@[input@.len() - 1],
{
    let mut out: Vec<i16> = Vec::new();
    let mut i: usize = 0;
    while i < input.len()
        invariant
            i <= input@.len(),
            out@.len() == 2 * i,
            forall|k: int| 0 <= k < out@.len() ==> #[trigger] out@[k] == upsampled(input@, k),
        decreases input@.len() - i,
    {
        let cur: i32 = input[i] as i32;
        let next: i32 = if i + 1 < input.len() {
            input[i + 1] as i32
        } else {
            cur
        };
        let sum: i32 = cur + next;
        let mean: i32 = if sum < 0 {
            -((-sum) / 2)
        } else {
            sum / 2
        };
        out.push(cur as i16);
        out.push(mean as i16);
        i = i + 1;
    }
    proof {
        lemma_interpolated(input@, out@);
    }
    out
}

/// Whether `x` is the mean of `a` and `b`, cut off towards zero: twice it is their sum or the
/// nearest even number that is not further from zero. So it lies between the two.
pub open spec fn is_mean(x: int, a: int, b: int) -> bool {
    if a + b >= 0 {
        2 * x <= a + b < 2 * x + 2
    } else {
        2 * x - 2 < a + b <= 2 * x
    }
}

proof fn lemma_interpolated(input: Seq<i16>, out: Seq<i16>)
    requires
        out.len() == 2 * input.len(),
        forall|k: int| 0 <= k < out.len() ==> #[trigger] out[k] == upsampled(input, k),
    ensures
        forall|i: int| 0 <= i < input.len() ==> out[2 * i] == #[trigger] input[i],
        forall|i: int, j: int|
            #![trigger input[i], input[j]]
            0 <= i < j < input.len() && j == i + 1 ==> -1 <= 2 * out[2 * i + 1] - (input[i]
                + input[j]) <= 1 && is_mean(
                out[2 * i + 1] as int,
                input[i] as int,
                input[j] as int,
            ),
        input.len() > 0 ==> out[2 * input.len() - 1] == input[input.len() - 1],
{
    assert forall|i: int| 0 <= i < input.len() implies out[2 * i] == #[trigger] input[i] by {
        assert(out[2 * i] == upsampled(input, 2 * i));
        upsampling_interpolates(input, i);
    }
    assert forall|i: int, j: int|
        #![trigger input[i], input[j]]
        0 <= i < j < input.len() && j == i + 1 implies -1 <= 2 * out[2 * i + 1] - (input[i]
        + input[j]) <= 1 && is_mean(out[2 * i + 1] as int, input[i] as int, input[j] as int) by {
        assert(out[2 * i + 1] == upsampled(input, 2 * i + 1));
        upsampling_interpolates(input, i);
    }
    if input.len() > 0 {
        let n = input.len() as int;
        assert(out[2 * n - 1] == upsampled(input, 2 * (n - 1) + 1));
        upsampling_interpolates(input, n - 1);
    }
}

/// Upsampling is linear interpolation: every input sample is at twice its place, and each inserted
/// one is the mean of the two beside it and lies between them. The last sample is held.
pub proof fn upsampling_interpolates(input: Seq<i16>, i: int)
    requires
        0 <= i < input.len(),
    ensures
        upsampled(input, 2 * i) == input[i],
        i + 1 < input.len() ==> {
            let x = upsampled(input, 2 * i + 1);
            let a = input[i] as int;
            let b = input[i + 1] as int;
            &&& -1 <= 2 * x - (a + b) <= 1
            &&& is_mean(x, a, b)
            &&& (a <= x <= b || b <= x <= a)
        },
        i + 1 == input.len() ==> upsampled(input, 2 * i + 1) == input[i],
{
}

/// What is inserted depends on the two samples beside it alone.
pub proof fn upsampling_is_local(one: Seq<i16>, two: Seq<i16>, i: int)
    requires
        0 <= i,
        i + 1 < one.len(),
        i + 1 < two.len(),
        one[i] == two[i],
        one[i + 1] == two[i + 1],
    ensures
        upsampled(one, 2 * i) == upsampled(two, 2 * i),
        upsampled(one, 2 * i + 1) == upsampled(two, 2 * i + 1),
{
}

/// Upsampling a constant signal gives the same constant.
pub proof fn upsample_keeps_constant(input: Seq<i16>, level: i16, k: int)
    requires
        forall|i: int| 0 <= i < input.len() ==> #[trigger] input[i] == level,
        0 <= k < 2 * input.len(),
    ensures
        upsampled(input, k) == level,
{
    assert(input[k / 2] == level);
    if k / 2 + 1 < input.len() {
        assert(input[k / 2 + 1] == level);
    }
}

/// The filter's running sum after `j` taps over `window`: each product and each sum is rounded to
/// single precision.
pub open spec fn fir_sum(window: Seq<i16>, j: int) -> int
    decreases j,
{
    if j <= 0 {
        0
    } else {
        round_single(
            fir_sum(window, j - 1) + round_single(LOWPASS@[j - 1] * window[j - 1]),
        )
    }
}

/// The whole number nearest to `acc / FIR_ONE` (a tie away from zero), held to the range of a
/// sample.
pub open spec fn to_sample(acc: int) -> int {
    let half = FIR_ONE as int / 2;
    let v = if acc < 0 {
        -((half - acc) / (FIR_ONE as int))
    } else {
        (acc + half) / (FIR_ONE as int)
    };
    if v < -32768 {
        -32768
    } else if v > 32767 {
        32767
    } else {
        v
    }
}

/// The filter's output for the last `TAPS` input samples.
pub open spec fn fir(window: Seq<i16>) -> i16 {
    to_sample(fir_sum(window, TAPS as int)) as i16
}

/// What a downsampler remembers: the last `TAPS` input samples, and the number of input samples
/// so far modulo three. It emits a sample on those that come at zero.
pub struct FirState {
    pub window: Seq<i16>,
    pub phase: int,
}

impl FirState {
    /// A downsampler that has seen nothing but silence.
    pub open spec fn silent() -> FirState {
        FirState { window: Seq::new(TAPS as nat, |i: int| 0i16), phase: 0 }
    }

    pub open spec fn wf(self) -> bool {
        &&& self.window.len() == TAPS
        &&& 0 <= self.phase < 3
    }

    /// The state after `block`.
    pub open spec fn after(self, block: Seq<i16>) -> FirState {
        let all = self.window + block;
        FirState {
            window: all.subrange(block.len() as int, block.len() + TAPS),
            phase: (self.phase + block.len()) % 3,
        }
    }

    /// The index in the next block of the first sample that comes at phase zero.
    pub open spec fn first(self) -> int {
        (3 - self.phase) % 3
    }

    /// How many samples a block of `n` gives.
    pub open spec fn count(self, n: int) -> int {
        if n <= self.first() {
            0
        } else {
            (n - self.first() + 2) / 3
        }
    }

    /// The `k`th output: the filter over the window that ends in the `k`th sample at phase zero.
    pub open spec fn output(self, block: Seq<i16>, k: int) -> i16 {
        let i = 3 * k + self.first();
        fir((self.window + block).subrange(i + 1, i + 1 + TAPS))
    }

    /// The decimated block.
    pub open spec fn outputs(self, block: Seq<i16>) -> Seq<i16> {
        Seq::new(self.count(block.len() as int) as nat, |k: int| self.output(block, k))
    }
}

proof fn lemma_counts(st: FirState, a: Seq<i16>, b: Seq<i16>)
    requires
        st.wf(),
    ensures
        st.after(a).phase == (st.phase + a.len()) % 3,
        st.count(a.len() as int) + st.after(a).count(b.len() as int) == st.count(
            (a + b).len() as int,
        ),
        b.len() > 0 ==> st.after(a).first() + a.len() == 3 * st.count(a.len() as int) + st.first(),
        ((st.phase + a.len()) % 3 + b.len()) % 3 == (st.phase + a.len() + b.len()) % 3,
{
}

/// Feeding two blocks one after the other gives what their concatenation gives, and leaves the
/// same state.
#[verifier::rlimit(60)]
#[verifier::spinoff_prover]
pub proof fn downsampling_is_continuous(st: FirState, a: Seq<i16>, b: Seq<i16>)
    requires
        st.wf(),
    ensures
        st.outputs(a) + st.after(a).outputs(b) == st.outputs(a + b),
        st.after(a).after(b) == st.after(a + b),
{
    let mid = st.after(a);
    let ab = a + b;
    lemma_counts(st, a, b);
    assert(mid.after(b).window =~= st.after(ab).window);
    let left = st.outputs(a) + mid.outputs(b);
    let right = st.outputs(ab);
    let na = st.count(a.len() as int);
    assert(left.len() == right.len());
    assert forall|k: int| 0 <= k < right.len() implies left[k] == right[k] by {
        let i = 3 * k + st.first();
        let w = (st.window + ab).subrange(i + 1, i + 1 + TAPS);
        if k < na {
            assert((st.window + a).subrange(i + 1, i + 1 + TAPS) =~= w);
        } else {
            let j = 3 * (k - na) + mid.first();
            assert(j + a.len() == i);
            assert((mid.window + b).subrange(j + 1, j + 1 + TAPS) =~= w);
        }
    }
    assert(left =~= right);
}

/// From silence on, every third sample comes out filtered, from the first one on: the `k`th output is
/// the filter over the samples up to the one at `3k`, newest last, with silence before the start.
pub proof fn every_third_sample_is_filtered(block: Seq<i16>, k: int, window: Seq<i16>)
    requires
        window.len() == 23,
        0 <= 3 * k < block.len(),
        forall|j: int|
            0 <= j < 23 ==> #[trigger] window[j] == (if 3 * k + j - 22 >= 0 {
                block[3 * k + j - 22]
            } else {
                0
            }),
    ensures
        k < FirState::silent().outputs(block).len(),
        FirState::silent().outputs(block)[k] == fir(window),
        3 * FirState::silent().outputs(block).len() >= block.len(),
        3 * FirState::silent().outputs(block).len() < block.len() + 3,
{
    let st = FirState::silent();
    let all = st.window + block;
    let w = all.subrange(3 * k + 1, 3 * k + 1 + TAPS);
    assert forall|j: int| 0 <= j < 23 implies w[j] == window[j] by {
        assert(window[j] == (if 3 * k + j - 22 >= 0 {
            block[3 * k + j - 22]
        } else {
            0
        }));
    }
    assert(w =~= window);
}

/// A block whose length is a multiple of three gives a third of its length, and keeps the phase.
pub proof fn downsampling_thirds_length(st: FirState, block: Seq<i16>)
    requires
        st.wf(),
        block.len() % 3 == 0,
    ensures
        st.outputs(block).len() == block.len() / 3,
        st.after(block).phase == st.phase,
{
}

/// Once the window holds only silence, the output is silence.
pub proof fn silence_gives_silence(window: Seq<i16>)
    requires
        window.len() == TAPS,
        forall|i: int| 0 <= i < TAPS ==> #[trigger] window[i] == 0,
    ensures
        fir(window) == 0,
{
    lemma_silent_sum(window, TAPS as int);
}

proof fn lemma_silent_sum(window: Seq<i16>, j: int)
    requires
        0 <= j <= TAPS,
        window.len() == TAPS,
        forall|i: int| 0 <= i < TAPS ==> #[trigger] window[i] == 0,
    ensures
        fir_sum(window, j) == 0,
    decreases j,
{
    if j > 0 {
        lemma_silent_sum(window, j - 1);
        assert(window[j - 1] == 0);
        assert(LOWPASS@[j - 1] * 0 == 0);
        assert(crate::single::unit(0) == 1);
        assert(round_single(0) == 0);
    }
}

/// The exact sum of the first `j` taps, each times its sample.
pub open spec fn convolution(window: Seq<i16>, j: int) -> int
    decreases j,
{
    if j <= 0 {
        0
    } else {
        convolution(window, j - 1) + LOWPASS@[j - 1] * window[j - 1]
    }
}

proof fn lemma_near_convolution(window: Seq<i16>, j: int)
    requires
        0 <= j <= TAPS,
        window.len() == TAPS,
    ensures
        -(0x41_0000_0000_0000 * j) <= fir_sum(window, j) <= 0x41_0000_0000_0000 * j,
        -(0x6_8000_0000 * j) <= fir_sum(window, j) - convolution(window, j) <= 0x6_8000_0000 * j,
    decreases j,
{
    if j > 0 {
        lemma_near_convolution(window, j - 1);
        let h = LOWPASS@[j - 1] as int;
        let w = window[j - 1] as int;
        assert(-0x80_0000_0000 <= h <= 0x80_0000_0000);
        assert(-0x40_0000_0000_0000 <= h * w <= 0x40_0000_0000_0000) by (nonlinear_arith)
            requires
                -0x80_0000_0000 <= h <= 0x80_0000_0000,
                -0x8000 <= w <= 0x7fff,
        ;
        rounding_is_close(h * w);
        let before = fir_sum(window, j - 1);
        rounding_is_close(before + round_single(h * w));
    }
}

/// The filter's output is the exact convolution of the last samples with the taps, in whole steps
/// of a sample: it is off by less than two, and held to the range of a sample beyond it.
pub proof fn filter_convolves(window: Seq<i16>)
    requires
        window.len() == TAPS,
    ensures
        ({
            let exact = convolution(window, 23);
            let v = fir(window) as int;
            &&& -32766 * FIR_ONE <= exact <= 32765 * FIR_ONE ==> -2 * FIR_ONE < v * FIR_ONE - exact
                < 2 * FIR_ONE
            &&& exact > 32765 * FIR_ONE ==> v >= 32764
            &&& exact < -32766 * FIR_ONE ==> v <= -32765
        }),
{
    lemma_near_convolution(window, 23);
}

/// The filter passes a constant signal: its gain at zero frequency is one.
pub proof fn constant_signal_passes(window: Seq<i16>, level: i16)
    requires
        window.len() == TAPS,
        forall|i: int| 0 <= i < TAPS ==> #[trigger] window[i] == level,
    ensures
        -3 <= fir(window) - level <= 3,
{
    lemma_constant(window, level, 23);
    reveal_with_fuel(tap_sum, 24);
    assert(tap_sum(23) == FIR_ONE + 41792);
    assert(level * (FIR_ONE + 41792) == FIR_ONE * level + 41792 * level) by (nonlinear_arith);
    filter_convolves(window);
}

/// The sum of the first `j` taps.
pub open spec fn tap_sum(j: int) -> int
    decreases j,
{
    if j <= 0 {
        0
    } else {
        tap_sum(j - 1) + LOWPASS@[j - 1]
    }
}

proof fn lemma_constant(window: Seq<i16>, level: i16, j: int)
    requires
        0 <= j <= TAPS,
        window.len() == TAPS,
        forall|i: int| 0 <= i < TAPS ==> #[trigger] window[i] == level,
    ensures
        convolution(window, j) == level * tap_sum(j),
    decreases j,
{
    if j > 0 {
        lemma_constant(window, level, j - 1);
        let a = tap_sum(j - 1);
        let b = LOWPASS@[j - 1] as int;
        let l = level as int;
        assert(l * (a + b) == l * a + b * l) by (nonlinear_arith);
    } else {
        assert(level * 0 == 0);
    }
}

/// The taps are the same from both ends, up to their last digits, so that no frequency is delayed
/// more than another.
pub proof fn filter_is_symmetric(i: int)
    requires
        0 <= i < TAPS,
    ensures
        -0x8000 <= LOWPASS@[i] - LOWPASS@[22 - i] <= 0x8000,
{
}

/// Stateful 24 kHz -> 8 kHz downsampler: low-pass filter, then decimation by three.
pub struct Downsampler {
    win: Vec<i16>,
    phase: usize,
}

impl View for Downsampler {
    type V = FirState;

    closed spec fn view(&self) -> FirState {
        FirState { window: self.win@, phase: self.phase as int }
    }
}

/// The filter over `win`.
fn filter(win: &Vec<i16>) -> (r: i16)
    requires
        win@.len() == TAPS,
    ensures
        r == fir(win@),
{
    let taps: [i64; 23] = LOWPASS;
    let mut acc: i64 = 0;
    let mut j: usize = 0;
    while j < TAPS
        invariant
            j <= TAPS,
            win@.len() == TAPS,
            taps == LOWPASS,
            acc == fir_sum(win@, j as int),
            -(0x41_0000_0000_0000 * j) <= acc <= 0x41_0000_0000_0000 * j,
        decreases TAPS - j,
    {
        let h: i64 = taps[j];
        let w: i64 = win[j] as i64;
        assert(-0x80_0000_0000 <= h <= 0x80_0000_0000);
        assert(-0x40_0000_0000_0000 <= h * w <= 0x40_0000_0000_0000) by (nonlinear_arith)
            requires
                -0x80_0000_0000 <= h <= 0x80_0000_0000,
                -0x8000 <= w <= 0x7fff,
        ;
        let term: i64 = round(h * w);
        acc = round(acc + term);
        j = j + 1;
    }
    let half: i64 = FIR_ONE / 2;
    let v: i64 = if acc < 0 {
        -((half - acc) / FIR_ONE)
    } else {
        (acc + half) / FIR_ONE
    };
    if v < -32768 {
        -32768
    } else if v > 32767 {
        32767
    } else {
        v as i16
    }
}

impl Downsampler {
    pub fn new() -> (r: Self)
        ensures
            r@ == FirState::silent(),
            r@.wf(),
    {
        let mut win: Vec<i16> = Vec::with_capacity(TAPS);
        let mut i: usize = 0;
        while i < TAPS
            invariant
                i <= TAPS,
                win@ == Seq::new(i as nat, |j: int| 0i16),
            decreases TAPS - i,
        {
            win.push(0);
            i = i + 1;
            assert(win@ =~= Seq::new(i as nat, |j: int| 0i16));
        }
        Self { win, phase: 0 }
    }

    /// Feed a block of 24 kHz samples; return the decimated 8 kHz samples.
    pub fn process(&mut self, block: &[i16]) -> (r: Vec<i16>)
        requires
            old(self)@.wf(),
        ensures
            final(self)@ == old(self)@.after(block@),
            final(self)@.wf(),
            r@ == old(self)@.outputs(block@),
    {
        let ghost start = self@;
        let ghost all = start.window + block@;
        let mut out: Vec<i16> = Vec::new();
        let mut i: usize = 0;
        while i < block.len()
            invariant
                start.wf(),
                start == old(self)@,
                all == start.window + block@,
                i <= block@.len(),
                self.win@ == all.subrange(i as int, i + TAPS),
                self.phase == (start.phase + i) % 3,
                self.phase < 3,
                out@.len() == start.count(i as int),
                forall|k: int|
                    0 <= k < out@.len() ==> #[trigger] out@[k] == start.output(block@, k),
            decreases block@.len() - i,
        {
            self.win.remove(0);
            self.win.push(block[i]);
            proof {
                assert(self.win@ =~= all.subrange(i + 1, i + 1 + TAPS));
            }
            if self.phase == 0 {
                let v: i16 = filter(&self.win);
                proof {
                    assert(i as int == 3 * out@.len() + start.first());
                    assert(v == start.output(block@, out@.len() as int));
                }
                out.push(v);
            }
            self.phase = if self.phase == 2 {
                0
            } else {
                self.phase + 1
            };
            i = i + 1;
        }
        assert(out@ =~= start.outputs(block@));
        out
    }
}

} // verus!
