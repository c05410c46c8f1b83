//! Per-frame speech classification backends.
use vstd::prelude::*;

use super::FrameClass;
use crate::config::VadConfig;
use crate::level::{rms, rms_bits};
use crate::nearest::power_bits;
use crate::single::Single;
use crate::vad::{Onset, Vad};

verus! {

/// Classifies fixed 20 ms PCM16 frames as speech or not.
pub trait SpeechFramer: Sized {
    /// Whether the backend can take a frame.
    spec fn ready(&self, frame: Seq<i16>) -> bool;

    /// Whether a frame is given that class, and leaves the backend as `next`.
    spec fn takes(&self, frame: Seq<i16>, class: FrameClass, next: Self) -> bool;

    fn classify(&mut self, frame: &[i16]) -> (r: FrameClass)
        requires
            old(self).ready(frame@),
        ensures
            old(self).takes(frame@, r, *final(self)),
    ;
}

/// Classifies frames by energy. It gives no speech probability.
pub struct EnergyFramer {
    vad: Vad,
}

impl View for EnergyFramer {
    type V = Onset;

    closed spec fn view(&self) -> Onset {
        self.vad@
    }
}

impl EnergyFramer {
    pub fn new(cfg: VadConfig) -> (r: Self)
        ensures
            r@ == Onset::fresh(cfg),
            r@.wf(),
    {
        EnergyFramer { vad: Vad::new(cfg) }
    }
}

/// The class of the frame that a detection last observed: speech where its level reaches the
/// threshold over the floor as that frame left it.
pub open spec fn energy_class(s: Onset) -> FrameClass {
    FrameClass {
        speech: s.last_rms.at_least(s.threshold()),
        speech_prob: None,
        rms: s.last_rms,
    }
}

impl SpeechFramer for EnergyFramer {
    open spec fn ready(&self, frame: Seq<i16>) -> bool {
        self@.wf() && frame.len() < 0x8_0000_0000_0000
    }

    open spec fn takes(&self, frame: Seq<i16>, class: FrameClass, next: Self) -> bool {
        &&& next@ == self@.after(frame)
        &&& next@.wf()
        &&& class == energy_class(next@)
    }

    fn classify(&mut self, frame: &[i16]) -> (r: FrameClass) {
        let _ = self.vad.observe(frame);
        FrameClass {
            speech: self.vad.is_speech_frame(),
            speech_prob: None,
            rms: self.vad.last_rms(),
        }
    }
}

/// The bits of 0.5, above which a probability reads as speech.
pub const SPEECH_PROB: u32 = 0x3F00_0000;

/// What a model that scores fixed windows has still to score, and its last score.
#[verifier::ext_equal]
pub struct Windowed {
    pub window: int,
    /// The samples that fill no window yet.
    pub waiting: Seq<i16>,
    pub prob: Single,
}

impl Windowed {
    pub open spec fn wf(self) -> bool {
        self.window > 0 && self.prob.bits <= power_bits(0)
    }

    pub open spec fn fed(self, frame: Seq<i16>) -> Windowed {
        Windowed { waiting: self.waiting + frame, ..self }
    }

    /// The next window to score.
    pub open spec fn ready(self) -> bool {
        self.waiting.len() >= self.window
    }

    pub open spec fn first(self) -> Seq<i16> {
        self.waiting.take(self.window)
    }

    pub open spec fn rest(self) -> Windowed {
        Windowed { waiting: self.waiting.skip(self.window), ..self }
    }

    /// A score replaces the last one; a model that failed leaves it.
    pub open spec fn scored(self, prob: Option<Single>) -> Windowed {
        match prob {
            Some(p) => Windowed { prob: p, ..self },
            None => self,
        }
    }

    /// The class of a frame under the last score.
    pub open spec fn class(self, frame: Seq<i16>) -> FrameClass {
        FrameClass {
            speech: self.prob.above(Single { bits: SPEECH_PROB }),
            speech_prob: Some(self.prob),
            rms: Single { bits: rms_bits(frame) as u32 },
        }
    }
}

/// No sample is lost or scored twice: the windows in their order, and what still waits, are what
/// was fed.
pub proof fn windows_keep_every_sample(s: Windowed, frame: Seq<i16>)
    requires
        s.wf(),
    ensures
        s.fed(frame).waiting == s.waiting + frame,
        s.ready() ==> s.first() + s.rest().waiting == s.waiting && s.first().len() == s.window,
{
    if s.ready() {
        assert(s.first() + s.rest().waiting =~= s.waiting);
    }
}

/// Brings frames of any length to the fixed windows that a neural model scores, and holds the last
/// probability between windows. The model is run by the caller.
pub struct SileroFramer {
    window: usize,
    buf: Vec<i16>,
    last_prob: Single,
}

impl View for SileroFramer {
    type V = Windowed;

    closed spec fn view(&self) -> Windowed {
        Windowed { window: self.window as int, waiting: self.buf@, prob: self.last_prob }
    }
}

impl SileroFramer {
    /// `window` is the number of samples that the model scores at a time.
    pub fn new(window: usize) -> (r: Self)
        requires
            window > 0,
        ensures
            r@ == (Windowed {
                window: window as int,
                waiting: Seq::empty(),
                prob: Single { bits: 0 },
            }),
            r@.wf(),
    {
        SileroFramer { window, buf: Vec::new(), last_prob: Single { bits: 0 } }
    }

    /// Takes a frame in.
    pub fn feed(&mut self, frame: &[i16])
        requires
            old(self)@.wf(),
        ensures
            final(self)@ == old(self)@.fed(frame@),
            final(self)@.wf(),
    {
        self.buf.extend_from_slice(frame);
        assert(self.buf@ =~= old(self).buf@ + frame@);
    }

    /// The next window to score, once it is full.
    pub fn next_window(&mut self) -> (r: Option<Vec<i16>>)
        requires
            old(self)@.wf(),
        ensures
            match r {
                Some(w) => {
                    &&& old(self)@.ready()
                    &&& w@ == old(self)@.first()
                    &&& final(self)@ == old(self)@.rest()
                },
                None => !old(self)@.ready() && final(self)@ == old(self)@,
            },
            final(self)@.wf(),
    {
        if self.buf.len() < self.window {
            return None;
        }
        let mut full: Vec<i16> = self.buf.split_off(self.window);
        std::mem::swap(&mut self.buf, &mut full);
        assert(full@ =~= old(self)@.first());
        assert(self.buf@ =~= old(self)@.rest().waiting);
        Some(full)
    }

    /// What the model gave for a window; `None` where it failed, which holds the last probability.
    pub fn score(&mut self, prob: Option<Single>)
        requires
            old(self)@.wf(),
            prob is Some ==> prob->Some_0.bits <= power_bits(0),
        ensures
            final(self)@ == old(self)@.scored(prob),
            final(self)@.wf(),
    {
        if let Some(p) = prob {
            self.last_prob = p;
        }
    }

    /// The class of the frame that was last fed, once its windows are scored.
    pub fn class(&self, frame: &[i16]) -> (r: FrameClass)
        requires
            self@.wf(),
            frame@.len() < 0x8_0000_0000_0000,
        ensures
            r == self@.class(frame@),
    {
        FrameClass {
            speech: self.last_prob.exceeds(Single { bits: SPEECH_PROB }),
            speech_prob: Some(self.last_prob),
            rms: rms(frame),
        }
    }
}

/// A frame is speech exactly where the last probability is over one half; a failed score leaves both
/// as they were.
pub proof fn speech_is_over_one_half(s: Windowed, frame: Seq<i16>, p: Single)
    requires
        s.wf(),
        p.bits <= power_bits(0),
    ensures
        s.class(frame).speech <==> s.prob.bits > 0x3F00_0000,
        s.class(frame).speech_prob == Some(s.prob),
        s.scored(None).class(frame) == s.class(frame),
        s.scored(Some(p)).class(frame).speech <==> p.bits > 0x3F00_0000,
        s.scored(Some(p)).waiting == s.waiting,
{
}

} // verus!
