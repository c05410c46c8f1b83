//! Answering-machine and non-live detection: tell a live human from a machine (voicemail, a menu,
//! or hold with background audio).
use vstd::prelude::*;

use crate::single::Single;

pub mod detector;
pub mod eval;
pub mod features;
pub mod framer;

verus! {

/// What the far end is, from the callee-audio profile.
#[derive(Clone, Copy, Debug, PartialEq, Eq, Structural)]
pub enum AmdClass {
    Human,
    Voicemail,
    Ivr,
    Hold,
}

impl AmdClass {
    /// All variants, in a stable order: the axes of the confusion matrix.
    pub const ALL: [AmdClass; 4] = [
        AmdClass::Human,
        AmdClass::Voicemail,
        AmdClass::Ivr,
        AmdClass::Hold,
    ];

    /// Place in the stable order.
    pub open spec fn place(self) -> int {
        match self {
            AmdClass::Human => 0,
            AmdClass::Voicemail => 1,
            AmdClass::Ivr => 2,
            AmdClass::Hold => 3,
        }
    }

    /// The class at a place of the stable order.
    pub open spec fn at(i: int) -> AmdClass {
        if i == 0 {
            AmdClass::Human
        } else if i == 1 {
            AmdClass::Voicemail
        } else if i == 2 {
            AmdClass::Ivr
        } else {
            AmdClass::Hold
        }
    }

    /// The class's label.
    pub open spec fn name(self) -> Seq<char> {
        match self {
            AmdClass::Human => "human"@,
            AmdClass::Voicemail => "voicemail"@,
            AmdClass::Ivr => "ivr"@,
            AmdClass::Hold => "hold"@,
        }
    }

    /// The actionable axis: anything that is not a live human is a machine.
    pub fn is_machine(&self) -> (r: bool)
        ensures
            r == (*self != AmdClass::Human),
    {
        match self {
            AmdClass::Human => false,
            _ => true,
        }
    }

    /// Place in the stable order: the confusion-matrix index.
    pub fn index(self) -> (r: usize)
        ensures
            r == self.place(),
            r < 4,
    {
        match self {
            AmdClass::Human => 0,
            AmdClass::Voicemail => 1,
            AmdClass::Ivr => 2,
            AmdClass::Hold => 3,
        }
    }

    /// Short lowercase label for reports.
    pub fn label(self) -> (r: &'static str)
        ensures
            r@ == self.name(),
    {
        match self {
            AmdClass::Human => "human",
            AmdClass::Voicemail => "voicemail",
            AmdClass::Ivr => "ivr",
            AmdClass::Hold => "hold",
        }
    }
}

/// The place of a class names it.
pub proof fn places_name_classes(c: AmdClass, i: int)
    requires
        0 <= i < 4,
    ensures
        AmdClass::at(c.place()) == c,
        AmdClass::at(i).place() == i,
        0 <= c.place() < 4,
{
}

/// One 20 ms frame, classified.
#[derive(Clone, Copy, Debug, PartialEq, Eq, Structural)]
pub struct FrameClass {
    /// Whether this frame is speech.
    pub speech: bool,
    /// Speech probability (0..1) when the backend provides one.
    pub speech_prob: Option<Single>,
    /// Frame RMS amplitude.
    pub rms: Single,
}

} // verus!
