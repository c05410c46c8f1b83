//! A verdict from a callee's audio profile.
use vstd::prelude::*;

use super::features::CalleeProfile;
use super::AmdClass;
use crate::single::Single;

verus! {

/// A classification with a rough confidence (0..1).
#[derive(Clone, Copy, Debug, PartialEq, Eq, Structural)]
pub struct AmdVerdict {
    pub class: AmdClass,
    pub confidence: Single,
}

/// Turns a callee profile into a verdict.
pub trait AmdDetector {
    fn classify(&self, p: &CalleeProfile) -> AmdVerdict;
}

/// The bits of 0.4.
pub const HOLD_RATIO: u32 = 0x3ECC_CCCD;

/// The bits of 0.7.
pub const GREETING_CONFIDENCE: u32 = 0x3F33_3333;

/// The bits of 0.6.
pub const HUMAN_CONFIDENCE: u32 = 0x3F19_999A;

/// The bits of 1.0.
pub const CERTAIN: u32 = 0x3F80_0000;

/// Thresholds of the heuristic detector.
#[derive(Clone, Copy, Debug, PartialEq, Eq, Structural)]
pub struct HeuristicParams {
    /// A first utterance or longest run at or above this reads as a machine greeting.
    pub greeting_ms: u64,
    /// A share of loud non-speech at or above this reads as hold music or ads.
    pub hold_nonspeech_ratio: Single,
}

impl Default for HeuristicParams {
    fn default() -> (r: Self)
        ensures
            r == (HeuristicParams {
                greeting_ms: 3000,
                hold_nonspeech_ratio: Single { bits: HOLD_RATIO },
            }),
    {
        HeuristicParams { greeting_ms: 3000, hold_nonspeech_ratio: Single { bits: HOLD_RATIO } }
    }
}

/// What the thresholds make of a profile: loud non-speech is hold (as sure as its share, at most
/// certain), a long continuous greeting is voicemail, anything else a human.
pub open spec fn judged(params: HeuristicParams, p: CalleeProfile) -> AmdVerdict {
    if p.nonspeech_energy_ratio is Some && p.nonspeech_energy_ratio->Some_0.at_least(
        params.hold_nonspeech_ratio,
    ) {
        let r = p.nonspeech_energy_ratio->Some_0;
        AmdVerdict {
            class: AmdClass::Hold,
            confidence: if r.above(Single { bits: CERTAIN }) {
                Single { bits: CERTAIN }
            } else {
                r
            },
        }
    } else if p.first_utterance_ms >= params.greeting_ms || p.longest_speech_run_ms
        >= params.greeting_ms {
        AmdVerdict {
            class: AmdClass::Voicemail,
            confidence: Single { bits: GREETING_CONFIDENCE },
        }
    } else {
        AmdVerdict { class: AmdClass::Human, confidence: Single { bits: HUMAN_CONFIDENCE } }
    }
}

/// A detector with thresholds.
pub struct HeuristicDetector {
    params: HeuristicParams,
}

impl View for HeuristicDetector {
    type V = HeuristicParams;

    closed spec fn view(&self) -> HeuristicParams {
        self.params
    }
}

impl HeuristicDetector {
    pub fn new(params: HeuristicParams) -> (r: Self)
        ensures
            r@ == params,
    {
        HeuristicDetector { params }
    }
}

impl AmdDetector for HeuristicDetector {
    fn classify(&self, p: &CalleeProfile) -> (r: AmdVerdict)
        ensures
            r == judged(self@, *p),
    {
        if let Some(r) = p.nonspeech_energy_ratio {
            if r.reaches(self.params.hold_nonspeech_ratio) {
                return AmdVerdict {
                    class: AmdClass::Hold,
                    confidence: if r.exceeds(Single { bits: CERTAIN }) {
                        Single { bits: CERTAIN }
                    } else {
                        r
                    },
                };
            }
        }
        if p.first_utterance_ms >= self.params.greeting_ms || p.longest_speech_run_ms
            >= self.params.greeting_ms {
            return AmdVerdict {
                class: AmdClass::Voicemail,
                confidence: Single { bits: GREETING_CONFIDENCE },
            };
        }
        AmdVerdict { class: AmdClass::Human, confidence: Single { bits: HUMAN_CONFIDENCE } }
    }
}

/// Without speech probabilities nothing is ever judged hold.
pub proof fn hold_needs_probabilities(params: HeuristicParams, p: CalleeProfile)
    requires
        p.nonspeech_energy_ratio is None,
    ensures
        judged(params, p).class != AmdClass::Hold,
        judged(params, p).class == AmdClass::Voicemail <==> (p.first_utterance_ms
            >= params.greeting_ms || p.longest_speech_run_ms >= params.greeting_ms),
{
}

/// The verdict goes by three questions. Loud non-speech at or over the threshold is hold, whatever
/// else; otherwise a greeting as long as the threshold, in its first utterance or in its longest run,
/// is voicemail; otherwise it is a human. The verdict is never a menu.
pub proof fn verdict_goes_by_the_profile(params: HeuristicParams, p: CalleeProfile)
    ensures
        ({
            let noisy = p.nonspeech_energy_ratio is Some
                && p.nonspeech_energy_ratio->Some_0.at_least(params.hold_nonspeech_ratio);
            let long = p.first_utterance_ms >= params.greeting_ms || p.longest_speech_run_ms
                >= params.greeting_ms;
            let v = judged(params, p);
            &&& v.class == AmdClass::Hold <==> noisy
            &&& v.class == AmdClass::Voicemail <==> !noisy && long
            &&& v.class == AmdClass::Human <==> !noisy && !long
            &&& v.class != AmdClass::Ivr
            &&& !v.confidence.above(Single { bits: CERTAIN })
            &&& noisy && !p.nonspeech_energy_ratio->Some_0.above(Single { bits: CERTAIN })
                ==> v.confidence == p.nonspeech_energy_ratio->Some_0
        }),
{
}

/// More speech never turns a voicemail or a hold into a human, and a longer threshold never turns a
/// human into a voicemail.
pub proof fn longer_greetings_stay_machines(
    params: HeuristicParams,
    p: CalleeProfile,
    q: CalleeProfile,
    strict: HeuristicParams,
)
    requires
        q.nonspeech_energy_ratio == p.nonspeech_energy_ratio,
        q.first_utterance_ms >= p.first_utterance_ms,
        q.longest_speech_run_ms >= p.longest_speech_run_ms,
        strict.hold_nonspeech_ratio == params.hold_nonspeech_ratio,
        strict.greeting_ms >= params.greeting_ms,
    ensures
        judged(params, p).class != AmdClass::Human ==> judged(params, q).class != AmdClass::Human,
        judged(params, p).class == AmdClass::Human ==> judged(strict, p).class == AmdClass::Human,
{
}

} // verus!
