//! A callee's audio profile, from a stream of classified frames.
use vstd::arithmetic::power2::{
    lemma2_to64, lemma2_to64_rest, lemma_pow2_adds, lemma_pow2_pos, lemma_pow2_unfold, pow2,
};
use vstd::prelude::*;

use super::FrameClass;
use crate::nearest::{
    count, counted, divided, exponent, lemma_absorbed, lemma_below_power, lemma_count,
    lemma_nearest_below_power, lemma_total_below, mantissa, per, power_bits, ratio, ratio_bits,
    summed, total,
};
use crate::single::Single;

verus! {

/// This much trailing silence ends the first utterance.
pub const UTTERANCE_GAP_MS: u64 = 500;

/// Summary of the callee's audio over a call.
#[derive(Clone, Copy, Debug, PartialEq, Eq, Structural)]
pub struct CalleeProfile {
    /// Time to the first speech frame; `None` if the callee never spoke.
    pub onset_ms: Option<u64>,
    /// Length of the first utterance.
    pub first_utterance_ms: u64,
    /// Speech frames / total frames.
    pub speech_ratio: Single,
    /// Longest continuous speech run.
    pub longest_speech_run_ms: u64,
    /// Longest continuous silence gap.
    pub longest_pause_ms: u64,
    /// Total analyzed duration.
    pub total_ms: u64,
    /// Mean speech probability, when the frames carry one.
    pub mean_speech_prob: Option<Single>,
    /// Share of frames that are loud but not speech, when the frames carry a probability.
    pub nonspeech_energy_ratio: Option<Single>,
}

/// Speech frames among the first `n`.
pub open spec fn spoken(f: Seq<FrameClass>, n: int) -> int
    decreases n,
{
    if n <= 0 {
        0
    } else {
        spoken(f, n - 1) + (if f[n - 1].speech {
            1int
        } else {
            0
        })
    }
}

/// The number of frames of one kind (speech or not) that end the first `n`.
pub open spec fn run(f: Seq<FrameClass>, speech: bool, n: int) -> int
    decreases n,
{
    if n <= 0 || f[n - 1].speech != speech {
        0
    } else {
        1 + run(f, speech, n - 1)
    }
}

/// The longest run of one kind among the first `n`.
pub open spec fn longest(f: Seq<FrameClass>, speech: bool, n: int) -> int
    decreases n,
{
    if n <= 0 {
        0
    } else {
        let r = run(f, speech, n);
        if r > longest(f, speech, n - 1) {
            r
        } else {
            longest(f, speech, n - 1)
        }
    }
}

/// The place of the first speech frame among the first `n`.
pub open spec fn onset(f: Seq<FrameClass>, n: int) -> Option<int>
    decreases n,
{
    if n <= 0 {
        None
    } else if onset(f, n - 1) is Some {
        onset(f, n - 1)
    } else if f[n - 1].speech {
        Some(n - 1)
    } else {
        None
    }
}

/// Whether the first utterance has ended within the first `n` frames: after some speech came a
/// silence that lasted the gap.
pub open spec fn utterance_over(f: Seq<FrameClass>, frame_ms: int, n: int) -> bool
    decreases n,
{
    n > 0 && (utterance_over(f, frame_ms, n - 1) || (!f[n - 1].speech && onset(f, n - 1) is Some
        && run(f, false, n) * frame_ms >= UTTERANCE_GAP_MS))
}

/// Speech frames of the first utterance among the first `n`.
pub open spec fn utterance(f: Seq<FrameClass>, frame_ms: int, n: int) -> int
    decreases n,
{
    if n <= 0 {
        0
    } else {
        utterance(f, frame_ms, n - 1) + (if f[n - 1].speech && !utterance_over(
            f,
            frame_ms,
            n - 1,
        ) {
            1int
        } else {
            0
        })
    }
}

/// Whether any of the first `n` frames carries a probability.
pub open spec fn rated(f: Seq<FrameClass>, n: int) -> bool
    decreases n,
{
    n > 0 && (rated(f, n - 1) || f[n - 1].speech_prob is Some)
}

/// Frames among the first `n` that carry a probability and are loud but not speech.
pub open spec fn loud_nonspeech(f: Seq<FrameClass>, floor: Single, n: int) -> int
    decreases n,
{
    if n <= 0 {
        0
    } else {
        loud_nonspeech(f, floor, n - 1) + (if f[n - 1].speech_prob is Some && !f[n - 1].speech
            && f[n - 1].rms.at_least(floor) {
            1int
        } else {
            0
        })
    }
}

/// Every probability that a frame carries is at most 1.
pub open spec fn rated_soundly(f: Seq<FrameClass>) -> bool {
    forall|i: int|
        0 <= i < f.len() ==> ((#[trigger] f[i]).speech_prob is Some ==> f[i].speech_prob->Some_0.bits
            <= power_bits(0))
}

/// The bits of the sum of the probabilities among the first `n` frames.
pub open spec fn prob_sum(f: Seq<FrameClass>, n: int) -> int
    decreases n,
{
    if n <= 0 {
        0
    } else {
        match f[n - 1].speech_prob {
            Some(p) => total(prob_sum(f, n - 1), p.bits as int),
            None => prob_sum(f, n - 1),
        }
    }
}

/// The profile of a stream of frames, each `frame_ms` long.
pub open spec fn profile_of(f: Seq<FrameClass>, frame_ms: int, floor: Single) -> CalleeProfile {
    let n = f.len() as int;
    CalleeProfile {
        onset_ms: match onset(f, n) {
            Some(i) => Some((i * frame_ms) as u64),
            None => None,
        },
        first_utterance_ms: (utterance(f, frame_ms, n) * frame_ms) as u64,
        speech_ratio: Single {
            bits: (if n == 0 {
                0
            } else {
                ratio_bits(spoken(f, n), n)
            }) as u32,
        },
        longest_speech_run_ms: (longest(f, true, n) * frame_ms) as u64,
        longest_pause_ms: (longest(f, false, n) * frame_ms) as u64,
        total_ms: (n * frame_ms) as u64,
        mean_speech_prob: if rated(f, n) {
            Some(Single { bits: per(prob_sum(f, n), count(n)) as u32 })
        } else {
            None
        },
        nonspeech_energy_ratio: if rated(f, n) {
            Some(Single { bits: ratio_bits(loud_nonspeech(f, floor, n), n) as u32 })
        } else {
            None
        },
    }
}

/// Every count is at most the number of frames.
proof fn lemma_counts(f: Seq<FrameClass>, frame_ms: int, floor: Single, n: int)
    requires
        0 <= n <= f.len(),
    ensures
        0 <= spoken(f, n) <= n,
        0 <= run(f, true, n) <= n,
        0 <= run(f, false, n) <= n,
        0 <= longest(f, true, n) <= n,
        0 <= longest(f, false, n) <= n,
        0 <= utterance(f, frame_ms, n) <= n,
        0 <= loud_nonspeech(f, floor, n) <= n,
        onset(f, n) is Some ==> 0 <= onset(f, n)->Some_0 < n,
        onset(f, n) is Some <==> spoken(f, n) > 0,
    decreases n,
{
    if n > 0 {
        lemma_counts(f, frame_ms, floor, n - 1);
    }
}

fn times(count: u64, frame_ms: u64, Ghost(n): Ghost<int>) -> (r: u64)
    requires
        count <= n,
        n * frame_ms <= u64::MAX,
    ensures
        r == count * frame_ms,
{
    assert(count * frame_ms <= n * frame_ms) by (nonlinear_arith)
        requires
            count <= n,
            0 <= frame_ms,
    ;
    count * frame_ms
}

/// A sum of probabilities grows to 2^25 at most: there, and already at 2^24, the next is too small
/// to be seen.
proof fn lemma_sum_bounded(a: int, p: int)
    requires
        0 <= a <= power_bits(25),
        0 <= p <= power_bits(0),
    ensures
        0 <= total(a, p) <= power_bits(25),
{
    if a <= power_bits(24) {
        lemma_total_below(a, p, 24);
    } else {
        lemma2_to64();
        lemma_below_power(p, 0);
        let x = exponent(a);
        let y = exponent(p);
        let m = mantissa(a);
        let n = mantissa(p);
        let one = pow2(0) as int;
        assert(n * one == n) by (nonlinear_arith)
            requires
                one == 1,
        ;
        lemma_pow2_unfold((1 - y) as nat);
        lemma_pow2_unfold((2 - y) as nat);
        lemma_pow2_pos((1 - y) as nat);
        if a == power_bits(25) {
            assert(x == 2 && m == 0x80_0000);
            lemma_absorbed(m, n, y, (2 - y) as nat);
        } else {
            assert(x == 1 && m < 0x100_0000);
            let q = pow2((1 - y) as nat) as int;
            lemma_pow2_adds(24, (1 - y) as nat);
            assert(0 <= m * q <= 0xFF_FFFF * q) by (nonlinear_arith)
                requires
                    0 <= m <= 0xFF_FFFF,
                    q > 0,
            ;
            assert(m * q + n <= 1 * pow2((25 - y) as nat));
            lemma_nearest_below_power(m * q + n, 1, y, 25);
        }
    }
}

/// Measure a stream of frames.
pub fn extract_profile(
    frames: &[FrameClass],
    frame_ms: u64,
    nonspeech_rms_floor: Single,
) -> (r: CalleeProfile)
    requires
        frames@.len() * frame_ms <= u64::MAX,
        frames@.len() <= u64::MAX,
        rated_soundly(frames@),
    ensures
        r == profile_of(frames@, frame_ms as int, nonspeech_rms_floor),
{
    let ghost f = frames@;
    let ghost n = frames@.len() as int;
    let ghost ms = frame_ms as int;
    let total: u64 = frames.len() as u64;
    let mut speech_frames: u64 = 0;
    let mut onset_frame: Option<u64> = None;
    let mut first_utterance: u64 = 0;
    let mut first_done: bool = false;
    let mut speech_run: u64 = 0;
    let mut longest_speech: u64 = 0;
    let mut pause_run: u64 = 0;
    let mut longest_pause: u64 = 0;
    let mut has_prob: bool = false;
    let mut sum: Single = Single { bits: 0 };
    let mut loud: u64 = 0;
    let mut i: usize = 0;
    while i < frames.len()
        invariant
            f == frames@,
            n == f.len(),
            ms == frame_ms,
            n <= u64::MAX,
            n * ms <= u64::MAX,
            i <= n,
            speech_frames == spoken(f, i as int),
            match onset_frame {
                Some(o) => onset(f, i as int) == Some(o as int),
                None => onset(f, i as int) is None,
            },
            first_utterance == utterance(f, ms, i as int),
            first_done == utterance_over(f, ms, i as int),
            speech_run == run(f, true, i as int),
            longest_speech == longest(f, true, i as int),
            pause_run == run(f, false, i as int),
            longest_pause == longest(f, false, i as int),
            has_prob == rated(f, i as int),
            rated_soundly(f),
            sum.bits == prob_sum(f, i as int),
            sum.bits <= power_bits(25),
            loud == loud_nonspeech(f, nonspeech_rms_floor, i as int),
            speech_run <= i,
            pause_run <= i,
            speech_frames <= i,
            first_utterance <= i,
            loud <= i,
        decreases n - i,
    {
        let frame: FrameClass = frames[i];
        if let Some(p) = frame.speech_prob {
            has_prob = true;
            proof {
                lemma_sum_bounded(sum.bits as int, p.bits as int);
            }
            sum = summed(sum, p);
            if !frame.speech && frame.rms.reaches(nonspeech_rms_floor) {
                loud = loud + 1;
            }
        }
        if frame.speech {
            speech_frames = speech_frames + 1;
            if onset_frame.is_none() {
                onset_frame = Some(i as u64);
            }
            speech_run = speech_run + 1;
            if speech_run > longest_speech {
                longest_speech = speech_run;
            }
            pause_run = 0;
            if !first_done {
                first_utterance = first_utterance + 1;
            }
        } else {
            speech_run = 0;
            pause_run = pause_run + 1;
            if pause_run > longest_pause {
                longest_pause = pause_run;
            }
            if onset_frame.is_some() && !first_done {
                let silent_ms: u64 = times(pause_run, frame_ms, Ghost(n));
                if silent_ms >= UTTERANCE_GAP_MS {
                    first_done = true;
                }
            }
        }
        proof {
            lemma_counts(f, ms, nonspeech_rms_floor, i as int);
            lemma_counts(f, ms, nonspeech_rms_floor, i + 1);
        }
        i = i + 1;
    }
    proof {
        lemma_counts(f, ms, nonspeech_rms_floor, n);
    }
    let onset_ms: Option<u64> = match onset_frame {
        Some(o) => Some(times(o, frame_ms, Ghost(n))),
        None => None,
    };
    CalleeProfile {
        onset_ms,
        first_utterance_ms: times(first_utterance, frame_ms, Ghost(n)),
        speech_ratio: if total == 0 {
            Single { bits: 0 }
        } else {
            ratio(speech_frames, total)
        },
        longest_speech_run_ms: times(longest_speech, frame_ms, Ghost(n)),
        longest_pause_ms: times(longest_pause, frame_ms, Ghost(n)),
        total_ms: times(total, frame_ms, Ghost(n)),
        mean_speech_prob: if has_prob {
            proof {
                lemma2_to64_rest();
                lemma_count(n, 64);
            }
            Some(divided(sum, counted(total)))
        } else {
            None
        },
        nonspeech_energy_ratio: if has_prob {
            Some(ratio(loud, total))
        } else {
            None
        },
    }
}

/// No speech, no onset and no utterance; and no run is longer than the whole.
pub proof fn silent_profile(f: Seq<FrameClass>, frame_ms: int, n: int)
    requires
        0 <= n <= f.len(),
        forall|i: int| 0 <= i < f.len() ==> !(#[trigger] f[i]).speech,
    ensures
        onset(f, n) is None,
        spoken(f, n) == 0,
        utterance(f, frame_ms, n) == 0,
        longest(f, true, n) == 0,
        run(f, false, n) == n,
        longest(f, false, n) == n,
    decreases n,
{
    if n > 0 {
        silent_profile(f, frame_ms, n - 1);
        assert(!f[n - 1].speech);
    }
}

/// Counting goes over every frame once: the speech frames are those that are speech, and the loud
/// ones without speech those that carry a probability, are no speech and reach the floor.
pub proof fn frames_are_counted_once(f: Seq<FrameClass>, floor: Single, n: int)
    requires
        0 <= n <= f.len(),
    ensures
        spoken(f, n) == f.take(n).filter(|c: FrameClass| c.speech).len(),
        loud_nonspeech(f, floor, n) == f.take(n).filter(
            |c: FrameClass| c.speech_prob is Some && !c.speech && c.rms.at_least(floor),
        ).len(),
        rated(f, n) <==> exists|i: int| 0 <= i < n && (#[trigger] f[i]).speech_prob is Some,
    decreases n,
{
    reveal(Seq::filter);
    if n > 0 {
        frames_are_counted_once(f, floor, n - 1);
        assert(f.take(n) =~= f.take(n - 1).push(f[n - 1]));
        f.take(n - 1).lemma_filter_push(f[n - 1], |c: FrameClass| c.speech);
        f.take(n - 1).lemma_filter_push(
            f[n - 1],
            |c: FrameClass| c.speech_prob is Some && !c.speech && c.rms.at_least(floor),
        );
    } else {
        assert(f.take(0) =~= Seq::empty());
    }
}

/// The onset is the first speech frame: none comes before it, and there is none where no frame is
/// speech.
pub proof fn onset_is_the_first_speech(f: Seq<FrameClass>, n: int)
    requires
        0 <= n <= f.len(),
    ensures
        match onset(f, n) {
            Some(i) => 0 <= i < n && f[i].speech && forall|j: int|
                0 <= j < i ==> !(#[trigger] f[j]).speech,
            None => forall|j: int| 0 <= j < n ==> !(#[trigger] f[j]).speech,
        },
    decreases n,
{
    if n > 0 {
        onset_is_the_first_speech(f, n - 1);
    }
}

/// Whether the frames from `a` up to `b` are all of one kind.
pub open spec fn unbroken(f: Seq<FrameClass>, speech: bool, a: int, b: int) -> bool {
    forall|i: int| a <= i < b ==> (#[trigger] f[i]).speech == speech
}

proof fn lemma_run(f: Seq<FrameClass>, speech: bool, n: int)
    requires
        0 <= n <= f.len(),
    ensures
        0 <= run(f, speech, n) <= n,
        unbroken(f, speech, n - run(f, speech, n), n),
        run(f, speech, n) < n ==> f[n - run(f, speech, n) - 1].speech != speech,
    decreases n,
{
    if n > 0 && f[n - 1].speech == speech {
        lemma_run(f, speech, n - 1);
    }
}

/// The longest run of a kind is the length of some unbroken stretch of it, and no unbroken stretch
/// is longer.
pub proof fn longest_run_is_the_longest(f: Seq<FrameClass>, speech: bool, n: int, a: int, b: int)
    requires
        0 <= n <= f.len(),
        0 <= a <= b <= n,
    ensures
        unbroken(f, speech, a, b) ==> b - a <= longest(f, speech, n),
        exists|i: int, j: int|
            0 <= i <= j <= n && j - i == longest(f, speech, n) && #[trigger] unbroken(
                f,
                speech,
                i,
                j,
            ),
    decreases n,
{
    if n == 0 {
        assert(unbroken(f, speech, 0, 0));
    } else {
        lemma_run(f, speech, n);
        let l = longest(f, speech, n);
        if b == n {
            longest_run_is_the_longest(f, speech, n - 1, 0, 0);
            if unbroken(f, speech, a, b) && b - a > run(f, speech, n) {
                let k = n - run(f, speech, n) - 1;
                assert(f[k].speech != speech);
            }
        } else {
            longest_run_is_the_longest(f, speech, n - 1, a, b);
        }
        if l == run(f, speech, n) {
            assert(unbroken(f, speech, n - l, n));
        }
    }
}

/// Whether half a second of silence, after some speech, ends just before frame `k`.
pub open spec fn gap_ends(f: Seq<FrameClass>, frame_ms: int, k: int) -> bool {
    exists|s: int, a: int|
        0 <= s < a < k && (#[trigger] f[s]).speech && #[trigger] unbroken(f, false, a, k) && (k - a)
            * frame_ms >= 500
}

proof fn lemma_gap(f: Seq<FrameClass>, frame_ms: int, n: int)
    requires
        0 < n <= f.len(),
        0 <= frame_ms,
    ensures
        gap_ends(f, frame_ms, n) <==> (!f[n - 1].speech && onset(f, n - 1) is Some && run(
            f,
            false,
            n,
        ) * frame_ms >= 500),
{
    let r = run(f, false, n);
    lemma_run(f, false, n);
    onset_is_the_first_speech(f, n - 1);
    if gap_ends(f, frame_ms, n) {
        let (s, a) = choose|s: int, a: int|
            0 <= s < a < n && (#[trigger] f[s]).speech && #[trigger] unbroken(f, false, a, n) && (n
                - a) * frame_ms >= 500;
        assert(!f[n - 1].speech);
        assert(f[s].speech);
        assert(r >= n - a) by {
            if r < n - a {
                assert(f[n - r - 1].speech);
            }
        }
        assert((n - a) * frame_ms <= r * frame_ms) by (nonlinear_arith)
            requires
                n - a <= r,
                0 <= frame_ms,
        ;
    }
    if !f[n - 1].speech && onset(f, n - 1) is Some && r * frame_ms >= 500 {
        let s = onset(f, n - 1)->Some_0;
        let a = n - r;
        assert(f[s].speech);
        assert(s < a);
        assert(unbroken(f, false, a, n));
        assert(n - a == r);
    }
}

/// The first utterance is the speech up to the first half second of silence after it began: all of
/// the speech where no such silence comes, and none of what is said after one.
pub proof fn first_utterance_ends_at_the_first_gap(
    f: Seq<FrameClass>,
    frame_ms: int,
    n: int,
    k: int,
)
    requires
        0 <= k <= n <= f.len(),
        0 <= frame_ms,
        forall|j: int| 0 < j < k ==> !(#[trigger] gap_ends(f, frame_ms, j)),
        k < n ==> k > 0 && gap_ends(f, frame_ms, k),
    ensures
        k == n && !(n > 0 && gap_ends(f, frame_ms, n)) ==> !utterance_over(f, frame_ms, n),
        k > 0 && gap_ends(f, frame_ms, k) ==> utterance_over(f, frame_ms, n),
        utterance(f, frame_ms, n) == spoken(f, k),
    decreases n,
{
    if n > 0 {
        lemma_gap(f, frame_ms, n);
        if k == n {
            if k > 1 {
                assert(!gap_ends(f, frame_ms, k - 1));
            }
            first_utterance_ends_at_the_first_gap(f, frame_ms, n - 1, n - 1);
        } else {
            first_utterance_ends_at_the_first_gap(f, frame_ms, n - 1, k);
        }
    }
}

/// A profile tells times: the number of frames of each measure times the length of a frame.
pub proof fn profile_tells_times(f: Seq<FrameClass>, frame_ms: int, floor: Single)
    requires
        0 <= frame_ms,
        f.len() * frame_ms <= u64::MAX,
    ensures
        ({
            let p = profile_of(f, frame_ms, floor);
            let n = f.len() as int;
            &&& p.total_ms == n * frame_ms
            &&& p.longest_speech_run_ms == longest(f, true, n) * frame_ms
            &&& p.longest_pause_ms == longest(f, false, n) * frame_ms
            &&& p.first_utterance_ms == utterance(f, frame_ms, n) * frame_ms
            &&& p.onset_ms is Some <==> onset(f, n) is Some
            &&& p.onset_ms is Some ==> p.onset_ms->Some_0 == onset(f, n)->Some_0 * frame_ms
            &&& p.longest_speech_run_ms <= p.total_ms
            &&& p.longest_pause_ms <= p.total_ms
            &&& p.first_utterance_ms <= p.total_ms
            &&& p.mean_speech_prob is Some <==> p.nonspeech_energy_ratio is Some
        }),
{
    let n = f.len() as int;
    lemma_counts(f, frame_ms, floor, n);
    let a = longest(f, true, n);
    let b = longest(f, false, n);
    let c = utterance(f, frame_ms, n);
    let d = match onset(f, n) {
        Some(i) => i,
        None => 0,
    };
    assert(0 <= a * frame_ms <= n * frame_ms && 0 <= b * frame_ms <= n * frame_ms && 0 <= c
        * frame_ms <= n * frame_ms && 0 <= d * frame_ms <= n * frame_ms) by (nonlinear_arith)
        requires
            0 <= a <= n,
            0 <= b <= n,
            0 <= c <= n,
            0 <= d <= n,
            0 <= frame_ms,
    ;
}

} // verus!
