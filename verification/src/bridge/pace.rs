//! Downlink (model to phone) jitter buffer and 20 ms pacer. Holds 24 kHz PCM, feeds the stateful
//! downsampler one 480-sample (20 ms) block per frame, and emits 160-sample 8 kHz frames. On
//! underrun the block is silence: the downsampler is always fed 480 samples, so its filter state
//! stays continuous.
//!
//! Playout holds (silence) until the prebuffer has accumulated, absorbing jitter before a turn
//! starts speaking. If the buffer runs dry in the middle of a turn, playout pauses again and waits
//! for a smaller refill, so a brief stall does not force a full prefill.
use std::collections::VecDeque;

use vstd::prelude::*;

use super::resample::{Downsampler, FirState};
use crate::single::{
    lemma_round_ratio_below, round_quotient, round_ratio, round_single, rounded_ratio_is_close,
    rounding_is_close, rounding_is_monotone, short_numbers_stay,
};

verus! {

/// Input samples per 20 ms frame at 24 kHz.
pub const IN_PER_FRAME: usize = 480;

/// Samples per millisecond at 24 kHz.
pub const SAMPLES_PER_MS: u64 = 24;

/// One, in the fixed fraction of the fade.
pub const FADE_ONE: u128 = 0x1_0000_0000_0000_0000;

/// Sample `s` at place `i` of a fade over `n` samples: times `1 - i / n`, cut off towards zero,
/// each step in single precision.
pub open spec fn fade_sample(s: int, i: int, n: int) -> int {
    let back = round_ratio(round_ratio(i, 1) * FADE_ONE, round_ratio(n, 1));
    let gain = round_ratio(FADE_ONE - back, 1);
    if s < 0 {
        -(round_ratio(-s * gain, 1) / (FADE_ONE as int))
    } else {
        let v = round_ratio(s * gain, 1) / (FADE_ONE as int);
        if v > 32767 {
            32767
        } else {
            v
        }
    }
}

/// What a pacer holds.
#[verifier::ext_equal]
pub struct Pacer {
    /// Buffered 24 kHz samples, oldest first.
    pub buf: Seq<i16>,
    /// The downsampler.
    pub fir: FirState,
    /// Samples to buffer before a turn's playout starts.
    pub prebuffer: int,
    /// Samples to buffer before playout resumes after an underrun in a turn.
    pub resume: int,
    /// Samples to buffer before playout starts next.
    pub fill_target: int,
    pub playing: bool,
    /// A fade has made a full prefill due, which is not met yet.
    pub rearmed: bool,
    pub expecting: bool,
    pub underruns: int,
    pub starved_ms: int,
}

impl Pacer {
    pub open spec fn wf(self) -> bool {
        self.fir.wf()
    }

    /// The 20 ms of silence that the downsampler is fed while nothing plays.
    pub open spec fn quiet() -> Seq<i16> {
        Seq::new(IN_PER_FRAME as nat, |i: int| 0i16)
    }

    pub open spec fn fresh(prebuffer_ms: int, resume_ms: int) -> Pacer {
        Pacer {
            buf: Seq::empty(),
            fir: FirState::silent(),
            prebuffer: prebuffer_ms * SAMPLES_PER_MS,
            resume: resume_ms * SAMPLES_PER_MS,
            fill_target: prebuffer_ms * SAMPLES_PER_MS,
            playing: false,
            rearmed: false,
            expecting: false,
            underruns: 0,
            starved_ms: 0,
        }
    }

    /// Everything buffered dropped, the filter silenced, a full prefill due.
    pub open spec fn cleared(self) -> Pacer {
        Pacer {
            buf: Seq::empty(),
            fir: FirState::silent(),
            playing: false,
            rearmed: false,
            fill_target: self.prebuffer,
            ..self
        }
    }

    /// How many buffered samples a fade of `fade_ms` keeps.
    pub open spec fn fade_len(self, fade_ms: int) -> int {
        let n = fade_ms * SAMPLES_PER_MS;
        if n < self.buf.len() {
            n
        } else {
            self.buf.len() as int
        }
    }

    /// The next `fade_ms` ramped down to silence and the rest dropped.
    pub open spec fn faded(self, fade_ms: int) -> Pacer {
        let n = self.fade_len(fade_ms);
        if n == 0 {
            self.cleared()
        } else {
            Pacer {
                buf: Seq::new(n as nat, |i: int| fade_sample(self.buf[i] as int, i, n) as i16),
                playing: true,
                rearmed: true,
                fill_target: self.prebuffer,
                ..self
            }
        }
    }

    /// A turn begins to be expected: a fresh prefill is due. Otherwise only the flag changes.
    pub open spec fn with_expecting(self, expecting: bool) -> Pacer {
        if expecting && !self.expecting {
            Pacer {
                playing: false,
                rearmed: false,
                fill_target: self.prebuffer,
                expecting,
                ..self
            }
        } else {
            Pacer { expecting, ..self }
        }
    }

    /// Whether the next frame carries audio: playout runs or has enough to start, and a whole
    /// block is buffered.
    pub open spec fn plays_next(self) -> bool {
        &&& self.buf.len() >= IN_PER_FRAME
        &&& self.playing || self.buf.len() >= self.fill_target
    }

    /// Whether playout runs dry on the next frame.
    pub open spec fn runs_dry(self) -> bool {
        self.playing && self.buf.len() < IN_PER_FRAME
    }

    /// What the downsampler is fed for the next frame.
    pub open spec fn next_block(self) -> Seq<i16> {
        if self.plays_next() {
            self.buf.subrange(0, IN_PER_FRAME as int)
        } else {
            Pacer::quiet()
        }
    }

    /// The next frame.
    pub open spec fn frame(self) -> Seq<i16> {
        self.fir.outputs(self.next_block())
    }

    /// The state after one frame.
    pub open spec fn advanced(self) -> Pacer {
        let fir = self.fir.after(self.next_block());
        if self.plays_next() {
            Pacer {
                buf: self.buf.subrange(IN_PER_FRAME as int, self.buf.len() as int),
                fir,
                playing: true,
                rearmed: self.rearmed && self.playing,
                ..self
            }
        } else {
            let starved = if self.expecting {
                20int
            } else {
                0
            };
            let dry = if self.runs_dry() && self.expecting {
                1int
            } else {
                0
            };
            Pacer {
                fir,
                playing: false,
                fill_target: if self.runs_dry() && self.rearmed {
                    self.prebuffer
                } else if self.runs_dry() {
                    self.resume
                } else {
                    self.fill_target
                },
                underruns: self.underruns + dry,
                starved_ms: self.starved_ms + starved,
                ..self
            }
        }
    }
}

/// The downlink pacer.
pub struct Downlink {
    buf: VecDeque<i16>,
    down: Downsampler,
    prebuffer: u64,
    resume: u64,
    fill_target: u64,
    playing: bool,
    rearmed: bool,
    expecting: bool,
    underruns: u64,
    starved_ms: u64,
}

impl View for Downlink {
    type V = Pacer;

    closed spec fn view(&self) -> Pacer {
        Pacer {
            buf: self.buf@,
            fir: self.down@,
            prebuffer: self.prebuffer as int,
            resume: self.resume as int,
            fill_target: self.fill_target as int,
            playing: self.playing,
            rearmed: self.rearmed,
            expecting: self.expecting,
            underruns: self.underruns as int,
            starved_ms: self.starved_ms as int,
        }
    }
}

/// One sample of a fade.
fn fade_one(s: i16, i: u64, n: u64) -> (r: i16)
    requires
        i < n < 0x20_0000_0000,
    ensures
        r == fade_sample(s as int, i as int, n as int),
{
    let i1: u128 = round_quotient(i as u128, 1);
    let n1: u128 = round_quotient(n as u128, 1);
    assert(i as int / 1 == i);
    assert(n as int / 1 == n);
    proof {
        rounding_is_monotone(i as int, n as int);
        rounding_is_monotone(1, n as int);
        assert(round_ratio(1, 1) == 1) by {
            assert(crate::single::unit(1) == 1);
        }
        vstd::arithmetic::power2::lemma2_to64();
        vstd::arithmetic::power2::lemma2_to64_rest();
        assert(i1 * FADE_ONE <= vstd::arithmetic::power2::pow2(64) * n1);
        lemma_round_ratio_below(i1 * FADE_ONE, n1 as int, 64);
    }
    let back: u128 = round_quotient(i1 * FADE_ONE, n1);
    proof {
        assert((FADE_ONE - back) / 1 == FADE_ONE - back);
        lemma_round_ratio_below(FADE_ONE - back, 1, 64);
    }
    let gain: u128 = round_quotient(FADE_ONE - back, 1);
    let magnitude: u128 = if s < 0 {
        (-(s as i32)) as u128
    } else {
        s as u128
    };
    proof {
        assert(magnitude * gain <= 0x8000 * FADE_ONE) by (nonlinear_arith)
            requires
                magnitude <= 0x8000,
                gain <= FADE_ONE,
        ;
        vstd::arithmetic::power2::lemma_pow2_adds(64, 15);
        lemma_round_ratio_below(magnitude * gain, 1, 79);
    }
    let v: u128 = round_quotient(magnitude * gain, 1) / FADE_ONE;
    assert(v <= 0x8000);
    if s < 0 {
        (-(v as i32)) as i16
    } else if v > 32767 {
        32767
    } else {
        v as i16
    }
}

impl Downlink {
    pub fn new(prebuffer_ms: u32, resume_ms: u32) -> (r: Self)
        ensures
            r@ == Pacer::fresh(prebuffer_ms as int, resume_ms as int),
            r@.wf(),
    {
        let prebuffer: u64 = prebuffer_ms as u64 * SAMPLES_PER_MS;
        let resume: u64 = resume_ms as u64 * SAMPLES_PER_MS;
        let r = Self {
            buf: VecDeque::new(),
            down: Downsampler::new(),
            prebuffer,
            resume,
            fill_target: prebuffer,
            playing: false,
            rearmed: false,
            expecting: false,
            underruns: 0,
            starved_ms: 0,
        };
        assert(r.buf@ =~= Seq::empty());
        r
    }

    /// Append model output (PCM16 @ 24 kHz).
    pub fn push(&mut self, samples: &[i16])
        ensures
            final(self)@ == (Pacer { buf: old(self)@.buf + samples@, ..old(self)@ }),
    {
        let mut i: usize = 0;
        while i < samples.len()
            invariant
                i <= samples@.len(),
                self@ == (Pacer { buf: old(self)@.buf + samples@.subrange(0, i as int), ..old(self)@ }),
            decreases samples@.len() - i,
        {
            self.buf.push_back(samples[i]);
            i = i + 1;
            assert(samples@.subrange(0, i as int) =~= samples@.subrange(0, i - 1).push(
                samples@[i - 1],
            ));
            assert(self@.buf =~= old(self)@.buf + samples@.subrange(0, i as int));
        }
        assert(samples@.subrange(0, i as int) =~= samples@);
        assert(old(self)@.buf + samples@.subrange(0, 0) =~= old(self)@.buf);
    }

    /// Barge-in: drop buffered audio, reset the downsampler's filter state (so the phone hears
    /// silence immediately instead of a ring-out tail), and re-arm a full prefill for the next
    /// turn.
    pub fn clear(&mut self)
        ensures
            final(self)@ == old(self)@.cleared(),
            final(self)@.wf(),
    {
        self.buf.clear();
        self.down = Downsampler::new();
        self.playing = false;
        self.rearmed = false;
        self.fill_target = self.prebuffer;
        assert(self.buf@ =~= Seq::empty());
    }

    /// Barge-in with a short fade instead of a hard cut: ramp the next `fade_ms` of buffered
    /// audio linearly down to silence and drop everything after it. The downsampler keeps its
    /// filter state so the faded tail plays through it continuously. Re-arms a full prefill for
    /// the next turn. Clears when there is nothing to fade.
    pub fn interrupt_fade(&mut self, fade_ms: u32)
        requires
            old(self)@.wf(),
        ensures
            final(self)@ == old(self)@.faded(fade_ms as int),
            final(self)@.wf(),
    {
        let want: u64 = fade_ms as u64 * SAMPLES_PER_MS;
        let have: usize = self.buf.len();
        let n: usize = if want < have as u64 {
            want as usize
        } else {
            have
        };
        if n == 0 {
            self.clear();
            return;
        }
        let mut faded: VecDeque<i16> = VecDeque::new();
        let mut i: usize = 0;
        while i < n
            invariant
                i <= n,
                n <= self.buf@.len(),
                n < 0x20_0000_0000,
                faded@.len() == i,
                self@ == old(self)@,
                forall|j: int|
                    0 <= j < i ==> #[trigger] faded@[j] == fade_sample(
                        self.buf@[j] as int,
                        j,
                        n as int,
                    ),
            decreases n - i,
        {
            let s: i16 = self.buf[i];
            faded.push_back(fade_one(s, i as u64, n as u64));
            i = i + 1;
        }
        assert(faded@ =~= old(self)@.faded(fade_ms as int).buf);
        self.buf = faded;
        self.playing = true;
        self.rearmed = true;
        self.fill_target = self.prebuffer;
    }

    /// Arm or disarm underrun accounting for an active model turn. A rising edge re-arms a fresh
    /// prefill, so each turn's audio is buffered before playout.
    pub fn set_expecting(&mut self, expecting: bool)
        ensures
            final(self)@ == old(self)@.with_expecting(expecting),
    {
        if expecting && !self.expecting {
            self.playing = false;
            self.rearmed = false;
            self.fill_target = self.prebuffer;
        }
        self.expecting = expecting;
    }

    /// Count of underruns within a turn: the buffer ran dry after playout had started.
    pub fn underruns(&self) -> (r: u64)
        ensures
            r == self@.underruns,
    {
        self.underruns
    }

    /// Total silence (ms) inserted while a turn was expected, the prefill hold of each turn
    /// among it.
    pub fn starved_ms(&self) -> (r: u64)
        ensures
            r == self@.starved_ms,
    {
        self.starved_ms
    }

    /// True while buffered downlink audio remains to be played out.
    pub fn pending(&self) -> (r: bool)
        ensures
            r == (self@.buf.len() > 0),
    {
        self.buf.len() > 0
    }

    /// True once the prefill target has been met and buffered audio is being emitted, false
    /// while holding for prefill or resume, or after an underrun.
    pub fn playing(&self) -> (r: bool)
        ensures
            r == self@.playing,
    {
        self.playing
    }

    /// Produce one 20 ms frame (160 samples @ 8 kHz).
    pub fn next_frame(&mut self) -> (r: Vec<i16>)
        requires
            old(self)@.wf(),
            old(self)@.underruns < u64::MAX,
            old(self)@.starved_ms <= u64::MAX - 20,
        ensures
            r@ == old(self)@.frame(),
            r@.len() == 160,
            final(self)@ == old(self)@.advanced(),
            final(self)@.wf(),
    {
        let have: u64 = self.buf.len() as u64;
        if !self.playing {
            if have >= self.fill_target && have >= IN_PER_FRAME as u64 {
                self.playing = true;
                self.rearmed = false;
            } else {
                if self.expecting {
                    self.starved_ms = self.starved_ms + 20;
                }
                return self.silence_frame();
            }
        }
        if have >= IN_PER_FRAME as u64 {
            let mut block: Vec<i16> = Vec::with_capacity(IN_PER_FRAME);
            let ghost start = self@;
            while block.len() < IN_PER_FRAME
                invariant
                    start == (Pacer {
                        playing: true,
                        rearmed: old(self)@.rearmed && old(self)@.playing,
                        ..old(self)@
                    }),
                    start.buf.len() >= IN_PER_FRAME,
                    block@.len() <= IN_PER_FRAME,
                    block@ == start.buf.subrange(0, block@.len() as int),
                    self@ == (Pacer {
                        buf: start.buf.subrange(block@.len() as int, start.buf.len() as int),
                        ..start
                    }),
                decreases IN_PER_FRAME - block@.len(),
            {
                let ghost before = block@.len() as int;
                match self.buf.pop_front() {
                    Some(s) => {
                        block.push(s);
                        assert(block@ =~= start.buf.subrange(0, before + 1));
                        assert(self.buf@ =~= start.buf.subrange(
                            before + 1,
                            start.buf.len() as int,
                        ));
                    },
                    None => {},
                }
            }
            self.down.process(block.as_slice())
        } else {
            if self.expecting {
                self.underruns = self.underruns + 1;
                self.starved_ms = self.starved_ms + 20;
            }
            self.playing = false;
            self.fill_target = if self.rearmed {
                self.prebuffer
            } else {
                self.resume
            };
            self.silence_frame()
        }
    }

    /// Feed 480 zeros so the downsampler's filter state stays continuous.
    fn silence_frame(&mut self) -> (r: Vec<i16>)
        requires
            old(self)@.wf(),
        ensures
            r@ == old(self)@.fir.outputs(Pacer::quiet()),
            r@.len() == 160,
            final(self)@ == (Pacer { fir: old(self)@.fir.after(Pacer::quiet()), ..old(self)@ }),
            final(self)@.wf(),
    {
        let block: [i16; 480] = [0i16; 480];
        assert(block@ =~= Pacer::quiet());
        self.down.process(block.as_slice())
    }
}

/// Every frame has 160 samples: 20 ms at 8 kHz.
pub proof fn frames_are_20ms(p: Pacer)
    requires
        p.wf(),
    ensures
        p.frame().len() == 160,
{
}

/// Each frame takes exactly one 20 ms block out of the buffer, or none.
pub proof fn frame_consumes_one_block(p: Pacer)
    requires
        p.wf(),
    ensures
        p.advanced().wf(),
        p.plays_next() ==> p.buf == p.next_block() + p.advanced().buf,
        !p.plays_next() ==> p.advanced().buf == p.buf,
{
    if p.plays_next() {
        assert(p.buf =~= p.next_block() + p.advanced().buf);
    }
}

/// Underruns and starved time are counted only while a turn is expected.
pub proof fn counts_only_while_expecting(p: Pacer)
    ensures
        !p.expecting ==> p.advanced().underruns == p.underruns && p.advanced().starved_ms
            == p.starved_ms,
        p.advanced().underruns == p.underruns + 1 <==> p.expecting && p.runs_dry(),
        p.advanced().underruns == p.underruns || p.advanced().underruns == p.underruns + 1,
{
}

/// Playout holds until the prefill target is met.
pub proof fn prefill_holds_playout(p: Pacer)
    requires
        p.wf(),
        !p.playing,
        p.buf.len() < p.fill_target,
    ensures
        p.frame() == p.fir.outputs(Pacer::quiet()),
        !p.advanced().playing,
        p.advanced().buf == p.buf,
        p.advanced().fill_target == p.fill_target,
{
}

/// After a clear nothing is left to play: the next frame is silence, whatever was playing, and a
/// full prefill is due before audio plays again.
pub proof fn clear_silences_and_rearms(p: Pacer, more: Seq<i16>)
    requires
        more.len() < p.prebuffer,
    ensures
        p.cleared().buf.len() == 0,
        forall|k: int| 0 <= k < 160 ==> #[trigger] p.cleared().frame()[k] == 0,
        !(Pacer { buf: p.cleared().buf + more, ..p.cleared() }).plays_next(),
{
    let c = p.cleared();
    assert(!c.plays_next());
    assert forall|k: int| 0 <= k < 160 implies #[trigger] c.frame()[k] == 0 by {
        let i = 3 * k + c.fir.first();
        let w = (c.fir.window + Pacer::quiet()).subrange(
            i + 1,
            i + 1 + super::resample::TAPS,
        );
        super::resample::silence_gives_silence(w);
    }
}

/// The state after `n` frames.
pub open spec fn played(p: Pacer, n: nat) -> Pacer
    decreases n,
{
    if n == 0 {
        p
    } else {
        played(p, (n - 1) as nat).advanced()
    }
}

/// The state after some chunks of audio, a frame following each.
pub open spec fn fed(p: Pacer, chunks: Seq<Seq<i16>>) -> Pacer
    decreases chunks.len(),
{
    if chunks.len() == 0 {
        p
    } else {
        let q = fed(p, chunks.drop_last());
        (Pacer { buf: q.buf + chunks.last(), ..q }).advanced()
    }
}

/// The faded tail plays block by block.
proof fn lemma_tail(f: Pacer, n: nat)
    requires
        f.playing,
        f.rearmed,
        n * IN_PER_FRAME <= f.buf.len(),
    ensures
        played(f, n).playing,
        played(f, n).rearmed,
        played(f, n).buf.len() == f.buf.len() - n * IN_PER_FRAME,
        played(f, n).prebuffer == f.prebuffer,
    decreases n,
{
    if n > 0 {
        lemma_tail(f, (n - 1) as nat);
    }
}

/// Whether two pacers play alike from here on: all that decides about frames is the same in both.
/// What they count may differ.
pub open spec fn alike(p: Pacer, q: Pacer) -> bool {
    &&& p.buf == q.buf
    &&& p.fir == q.fir
    &&& p.prebuffer == q.prebuffer
    &&& p.resume == q.resume
    &&& p.fill_target == q.fill_target
    &&& p.playing == q.playing
    &&& p.rearmed == q.rearmed
}

proof fn lemma_alike(p: Pacer, q: Pacer, n: nat)
    requires
        alike(p, q),
    ensures
        alike(played(p, n), played(q, n)),
        played(p, n).frame() == played(q, n).frame(),
    decreases n,
{
    if n > 0 {
        lemma_alike(p, q, (n - 1) as nat);
    }
}

/// The end of a turn changes nothing that plays: every later frame is the one that would have come
/// anyway, whatever is buffered, and the same goes for a turn that is still expected.
pub proof fn turn_end_plays_on(p: Pacer, n: nat)
    ensures
        p.with_expecting(false).buf == p.buf,
        p.with_expecting(false).playing == p.playing,
        played(p.with_expecting(false), n).frame() == played(p, n).frame(),
        p.expecting ==> played(p.with_expecting(true), n).frame() == played(p, n).frame(),
        p.with_expecting(false).underruns == p.underruns,
        p.with_expecting(false).starved_ms == p.starved_ms,
{
    lemma_alike(p.with_expecting(false), p, n);
    if p.expecting {
        lemma_alike(p.with_expecting(true), p, n);
    }
}

proof fn lemma_plays_out(p: Pacer, k: nat)
    requires
        p.playing,
        k * IN_PER_FRAME <= p.buf.len(),
    ensures
        played(p, k).playing,
        played(p, k).buf == p.buf.skip(k * IN_PER_FRAME),
    decreases k,
{
    if k > 0 {
        lemma_plays_out(p, (k - 1) as nat);
        let q = played(p, (k - 1) as nat);
        assert(q.plays_next());
        assert(q.advanced().buf =~= p.buf.skip(k * IN_PER_FRAME));
    } else {
        assert(p.buf.skip(0) =~= p.buf);
    }
}

/// Once playout runs, every whole buffered block is played, in order and with nothing between: the
/// `k`th frame from here carries the `k`th block, whether or not the turn has ended meanwhile.
pub proof fn buffered_audio_plays_in_order(p: Pacer, k: nat)
    requires
        p.playing,
        (k + 1) * IN_PER_FRAME <= p.buf.len(),
    ensures
        ({
            let block = p.buf.subrange(k * IN_PER_FRAME, (k + 1) * IN_PER_FRAME);
            &&& played(p, k).plays_next()
            &&& played(p, k).next_block() == block
            &&& played(p.with_expecting(false), k).next_block() == block
            &&& played(p, k).frame() == played(p, k).fir.outputs(block)
            &&& played(p, k + 1).fir == played(p, k).fir.after(block)
        }),
{
    lemma_plays_out(p, k);
    lemma_alike(p.with_expecting(false), p, k);
    assert(played(p, k).next_block() =~= p.buf.subrange(
        k * IN_PER_FRAME,
        (k + 1) * IN_PER_FRAME,
    ));
    assert(played(p, k + 1) == played(p, k).advanced());
}

/// New audio joins the end of what waits, and holds up nothing: what was going to play next still
/// does.
pub proof fn new_audio_waits_its_turn(p: Pacer, more: Seq<i16>)
    requires
        p.plays_next(),
    ensures
        (Pacer { buf: p.buf + more, ..p }).plays_next(),
        (Pacer { buf: p.buf + more, ..p }).frame() == p.frame(),
        (Pacer { buf: p.buf + more, ..p }).advanced().buf == p.advanced().buf + more,
{
    let q = Pacer { buf: p.buf + more, ..p };
    assert(q.next_block() =~= p.next_block());
    assert(q.advanced().buf =~= p.advanced().buf + more);
}

/// A new turn is buffered afresh: until a whole prefill has gathered nothing plays, and with one
/// (and a whole block) the next frame carries audio.
pub proof fn new_turn_is_buffered_first(p: Pacer, more: Seq<i16>)
    requires
        !p.expecting,
    ensures
        ({
            let q = Pacer { buf: p.buf + more, ..p.with_expecting(true) };
            &&& q.plays_next() <==> p.buf.len() + more.len() >= p.prebuffer && p.buf.len()
                + more.len() >= IN_PER_FRAME
            &&& p.with_expecting(true).buf == p.buf
            &&& !q.plays_next() ==> q.frame() == q.fir.outputs(Pacer::quiet())
        }),
{
}

/// A stall in a turn pauses playout, and the smaller refill starts it again; audio that is short of
/// it, or of a whole block, does not. A dry frame is counted once, while a turn is expected.
pub proof fn stall_resumes_at_the_smaller_level(p: Pacer, more: Seq<i16>)
    requires
        p.playing,
        p.buf.len() < IN_PER_FRAME,
        !p.rearmed,
    ensures
        ({
            let s = p.advanced();
            let q = Pacer { buf: s.buf + more, ..s };
            &&& !s.playing
            &&& s.buf == p.buf
            &&& p.frame() == p.fir.outputs(Pacer::quiet())
            &&& q.plays_next() <==> p.buf.len() + more.len() >= p.resume && p.buf.len()
                + more.len() >= IN_PER_FRAME
            &&& s.underruns == p.underruns + (if p.expecting {
                1int
            } else {
                0
            })
            &&& s.starved_ms == p.starved_ms + (if p.expecting {
                20int
            } else {
                0
            })
        }),
{
}

/// How much audio some chunks hold.
pub open spec fn amount(chunks: Seq<Seq<i16>>) -> int
    decreases chunks.len(),
{
    if chunks.len() == 0 {
        0
    } else {
        amount(chunks.drop_last()) + chunks.last().len()
    }
}

/// A fade re-arms a full prefill: once the faded tail has played out, no audio plays while what
/// has come since is less than the whole prefill, however it comes.
pub proof fn fade_rearms_the_prefill(p: Pacer, fade_ms: int, chunks: Seq<Seq<i16>>, next: Seq<i16>)
    requires
        0 <= fade_ms,
        p.faded(fade_ms).buf.len() > 0,
        ({
            let f = p.faded(fade_ms);
            let spent = played(f, f.buf.len() / IN_PER_FRAME as nat + 1);
            spent.buf.len() + amount(chunks) + next.len() < p.prebuffer
        }),
    ensures
        ({
            let f = p.faded(fade_ms);
            let spent = played(f, f.buf.len() / IN_PER_FRAME as nat + 1);
            let q = fed(spent, chunks);
            &&& spent.buf.len() < IN_PER_FRAME
            &&& q.buf.len() == spent.buf.len() + amount(chunks)
            &&& !q.playing
            &&& q.rearmed
            &&& q.fill_target == p.prebuffer
            &&& q.prebuffer == p.prebuffer
            &&& !(Pacer { buf: q.buf + next, ..q }).plays_next()
        }),
    decreases chunks.len(),
{
    let f = p.faded(fade_ms);
    let tail = f.buf.len() / IN_PER_FRAME as nat;
    if chunks.len() == 0 {
        lemma_tail(f, tail);
        assert(played(f, tail + 1) == played(f, tail).advanced());
    } else {
        fade_rearms_the_prefill(p, fade_ms, chunks.drop_last(), chunks.last());
    }
}

/// A fade keeps at most the asked-for head, and with nothing buffered it is a clear.
pub proof fn fade_drops_the_rest(p: Pacer, fade_ms: int)
    requires
        0 <= fade_ms,
    ensures
        p.faded(fade_ms).buf.len() <= fade_ms * SAMPLES_PER_MS,
        p.faded(fade_ms).buf.len() <= p.buf.len(),
        p.faded(fade_ms).fill_target == p.prebuffer,
        p.buf.len() == 0 ==> p.faded(fade_ms) == p.cleared(),
{
}

/// The two roundings that make up the gain of a fade.
proof fn lemma_fade_gain(i: int, n: int)
    requires
        0 <= i < n < 0x20_0000_0000,
    ensures
        ({
            let back = round_ratio(round_ratio(i, 1) * FADE_ONE, round_ratio(n, 1));
            let gain = round_ratio(FADE_ONE - back, 1);
            &&& 0 <= back <= FADE_ONE
            &&& 0 <= gain <= FADE_ONE
            &&& i == 0 ==> gain == FADE_ONE
        }),
{
    let i1 = round_ratio(i, 1);
    let n1 = round_ratio(n, 1);
    rounding_is_monotone(0, i);
    rounding_is_monotone(i, n);
    rounding_is_monotone(1, n);
    vstd::arithmetic::power2::lemma2_to64();
    vstd::arithmetic::power2::lemma2_to64_rest();
    short_numbers_stay(0, 0);
    short_numbers_stay(1, 0);
    short_numbers_stay(1, 64);
    assert(0 * 1 == 0 && 1 * 1 == 1);
    let num = i1 * FADE_ONE;
    assert(0 <= num <= vstd::arithmetic::power2::pow2(64) * n1);
    lemma_round_ratio_below(num, n1, 64);
    assert(num / n1 >= 0) by (nonlinear_arith)
        requires
            num >= 0,
            n1 > 0,
    ;
    assert(num / n1 <= FADE_ONE) by (nonlinear_arith)
        requires
            num <= FADE_ONE * n1,
            n1 > 0,
    ;
    vstd::arithmetic::power2::lemma_pow2_adds(24, 41);
    crate::single::lemma_unit(num / n1, 41);
    crate::single::lemma_round_ratio_bounds(num, n1);
    let back = round_ratio(num, n1);
    rounding_is_monotone(0, FADE_ONE - back);
    rounding_is_monotone(FADE_ONE - back, FADE_ONE as int);
    if i == 0 {
        assert(num == 0);
        let u = crate::single::unit(0int / n1);
        assert(0int / n1 == 0) by (nonlinear_arith)
            requires
                n1 > 0,
        ;
        assert(u == 1);
        assert(u * n1 == n1);
        assert(0int % n1 == 0) by (nonlinear_arith)
            requires
                n1 > 0,
        ;
        assert(back == 0);
    }
}

/// A fade starts at the full level, never makes a sample louder, and never turns its sign.
pub proof fn fade_only_softens(s: i16, i: int, n: int)
    requires
        0 <= i < n < 0x20_0000_0000,
    ensures
        i == 0 ==> fade_sample(s as int, i, n) == s,
        s >= 0 ==> 0 <= fade_sample(s as int, i, n) <= s,
        s < 0 ==> s <= fade_sample(s as int, i, n) <= 0,
{
    lemma_fade_gain(i, n);
    let back = round_ratio(round_ratio(i, 1) * FADE_ONE, round_ratio(n, 1));
    let gain = round_ratio(FADE_ONE - back, 1);
    let size = if s < 0 {
        -(s as int)
    } else {
        s as int
    };
    vstd::arithmetic::power2::lemma2_to64_rest();
    short_numbers_stay(size, 64);
    assert(0 <= size * gain <= size * FADE_ONE) by (nonlinear_arith)
        requires
            0 <= size,
            0 <= gain <= FADE_ONE,
    ;
    rounding_is_monotone(0, size * gain);
    rounding_is_monotone(size * gain, size * FADE_ONE);
    short_numbers_stay(0, 0);
    let r = round_ratio(size * gain, 1);
    assert(0 <= r <= size * FADE_ONE);
    let v = r / (FADE_ONE as int);
    assert(0 <= v <= size);
}

/// A fade is a straight ramp down to silence: at place `i` of `n` a sample has `1 - i / n` of its
/// size, to within two.
#[verifier::rlimit(40)]
pub proof fn fade_is_a_ramp(s: i16, i: int, n: int)
    requires
        0 <= i < n < 0x100_0000,
    ensures
        -2 * n < fade_sample(s as int, i, n) * n - s * (n - i) < 2 * n,
{
    let one = FADE_ONE as int;
    vstd::arithmetic::power2::lemma2_to64();
    vstd::arithmetic::power2::lemma2_to64_rest();
    lemma_fade_gain(i, n);
    short_numbers_stay(i, 0);
    short_numbers_stay(n, 0);
    assert(i * 1 == i && n * 1 == n);
    let num = i * one;
    assert(num / n < one) by (nonlinear_arith)
        requires
            num == i * one,
            0 <= i < n,
            one > 0,
    ;
    vstd::arithmetic::power2::lemma_pow2_adds(24, 40);
    rounded_ratio_is_close(num, n, 40);
    let back = round_ratio(num, n);
    let left = one - back;
    let gain = round_ratio(left, 1);
    rounding_is_close(left);
    assert(round_single(left) == gain);
    // The gain is close to what is left, in parts of `n`.
    let off = gain * n - (n - i) * one;
    assert(off == (gain - left) * n + (left * n - (n - i) * one)) by (nonlinear_arith)
        requires
            off == gain * n - (n - i) * one,
    ;
    assert(left * n - (n - i) * one == -(back * n - i * one)) by (nonlinear_arith)
        requires
            left == one - back,
    ;
    assert(-0x100_0000_0000 <= gain - left <= 0x100_0000_0000);
    assert(-(0x100_0000_0000 * n) <= (gain - left) * n <= 0x100_0000_0000 * n)
        by (nonlinear_arith)
        requires
            -0x100_0000_0000 <= gain - left <= 0x100_0000_0000,
            n > 0,
    ;
    assert(-(0x200_0000_0000 * n) <= off <= 0x200_0000_0000 * n);
    let size = if s < 0 {
        -(s as int)
    } else {
        s as int
    };
    let p = size * gain;
    assert(0 <= p <= 0x8000 * one) by (nonlinear_arith)
        requires
            p == size * gain,
            0 <= size <= 0x8000,
            0 <= gain <= one,
    ;
    rounding_is_close(p);
    let r = round_ratio(p, 1);
    assert(round_single(p) == r);
    assert(-0x80_0000_0000_0000 <= r - p <= 0x80_0000_0000_0000);
    let v = r / one;
    assert(v * one <= r < v * one + one);
    let want = size * (n - i);
    // In parts of `n` and of one.
    assert(p * n - want * one == size * off) by (nonlinear_arith)
        requires
            p == size * gain,
            want == size * (n - i),
            off == gain * n - (n - i) * one,
    ;
    assert(-(0x100_0000_0000_0000 * n) <= size * off <= 0x100_0000_0000_0000 * n)
        by (nonlinear_arith)
        requires
            0 <= size <= 0x8000,
            -(0x200_0000_0000 * n) <= off <= 0x200_0000_0000 * n,
            n > 0,
    ;
    assert((v * n - want) * one == (v * one - r) * n + (r - p) * n + (p * n - want * one))
        by (nonlinear_arith);
    assert(-(one * n) <= (v * one - r) * n <= 0) by (nonlinear_arith)
        requires
            -one <= v * one - r <= 0,
            n > 0,
    ;
    assert(-(0x80_0000_0000_0000 * n) <= (r - p) * n <= 0x80_0000_0000_0000 * n)
        by (nonlinear_arith)
        requires
            -0x80_0000_0000_0000 <= r - p <= 0x80_0000_0000_0000,
            n > 0,
    ;
    let d = v * n - want;
    assert(-(2 * n) < d < 2 * n) by (nonlinear_arith)
        requires
            -(one * n) - 0x180_0000_0000_0000 * n <= d * one <= 0x180_0000_0000_0000 * n,
            one == 0x1_0000_0000_0000_0000,
            n > 0,
    ;
    fade_only_softens(s, i, n);
    if s < 0 {
        assert((-v) * n - (-size) * (n - i) == -d) by (nonlinear_arith)
            requires
                d == v * n - want,
                want == size * (n - i),
        ;
    } else {
        assert(v <= 32767) by {
            assert(p <= size * one) by (nonlinear_arith)
                requires
                    p == size * gain,
                    0 <= size,
                    gain <= one,
            ;
            short_numbers_stay(size, 64);
            rounding_is_monotone(p, size * one);
        }
    }
}

/// A start forgets an earlier fade: however long playout then runs, the stall that ends it waits for
/// the smaller refill alone.
pub proof fn start_forgets_the_fade(p: Pacer, n: nat)
    requires
        !p.playing,
        n > 0,
        forall|k: nat| k < n ==> (#[trigger] played(p, k)).plays_next(),
    ensures
        ({
            let q = played(p, n);
            &&& q.playing
            &&& !q.rearmed
            &&& q.resume == p.resume
            &&& q.runs_dry() ==> q.advanced().fill_target == p.resume
        }),
    decreases n,
{
    assert(played(p, (n - 1) as nat).plays_next());
    if n > 1 {
        start_forgets_the_fade(p, (n - 1) as nat);
    } else {
        assert(played(p, 0) == p);
    }
}

} // verus!
