//! Structured dial result, read off the SIP response status code. This is the fine-grained
//! outcome of an attempt; the call state stays coarse.
use vstd::prelude::*;

verus! {

/// Terminal outcome of one dial attempt.
#[derive(Clone, Copy, Debug, PartialEq, Eq, Structural)]
pub enum CallOutcome {
    /// A connected call ended normally.
    Completed,
    /// 486 Busy Here, 600 Busy Everywhere.
    Busy,
    /// 408 request timeout, 480 temporarily unavailable, or ring timeout.
    NoAnswer,
    /// 603 decline, 403 forbidden, other 6xx.
    Rejected,
    /// 404 not found, 484 address incomplete.
    NotFound,
    /// 503 service unavailable, other 5xx.
    Unavailable,
    /// Technical failure or an unmapped code.
    Failed,
}

impl CallOutcome {
    /// The outcome's name.
    pub open spec fn name(self) -> Seq<char> {
        match self {
            CallOutcome::Completed => "completed"@,
            CallOutcome::Busy => "busy"@,
            CallOutcome::NoAnswer => "no_answer"@,
            CallOutcome::Rejected => "rejected"@,
            CallOutcome::NotFound => "not_found"@,
            CallOutcome::Unavailable => "unavailable"@,
            CallOutcome::Failed => "failed"@,
        }
    }

    /// Transient outcomes worth an automatic or scheduled retry.
    pub fn retryable(&self) -> (r: bool)
        ensures
            r == (*self == CallOutcome::Busy || *self == CallOutcome::NoAnswer),
    {
        match self {
            CallOutcome::Busy | CallOutcome::NoAnswer => true,
            _ => false,
        }
    }
}

/// The outcome that a SIP response status code stands for.
pub open spec fn outcome_of(code: int) -> CallOutcome {
    if 200 <= code <= 299 {
        CallOutcome::Completed
    } else if code == 404 || code == 484 {
        CallOutcome::NotFound
    } else if code == 486 || code == 600 {
        CallOutcome::Busy
    } else if code == 408 || code == 480 {
        CallOutcome::NoAnswer
    } else if code == 403 || 601 <= code <= 699 {
        CallOutcome::Rejected
    } else if 500 <= code <= 599 {
        CallOutcome::Unavailable
    } else {
        CallOutcome::Failed
    }
}

/// Map a SIP response status code to a `CallOutcome`.
pub fn outcome_from_status(code: u16) -> (r: CallOutcome)
    ensures
        r == outcome_of(code as int),
{
    match code {
        200..=299 => CallOutcome::Completed,
        404 | 484 => CallOutcome::NotFound,
        486 | 600 => CallOutcome::Busy,
        408 | 480 => CallOutcome::NoAnswer,
        403 | 601..=699 => CallOutcome::Rejected,
        500..=599 => CallOutcome::Unavailable,
        _ => CallOutcome::Failed,
    }
}

/// A status code is a busy or unanswered line exactly when the outcome is worth a retry.
pub proof fn retryable_codes(code: int)
    ensures
        (outcome_of(code) == CallOutcome::Busy || outcome_of(code) == CallOutcome::NoAnswer) <==> (
        code == 486 || code == 600 || code == 408 || code == 480),
{
}

/// Each outcome has its own codes: success, the two of a busy line, the two without an answer, the
/// two of a number that does not exist, a refusal, a service that is down; every other code is a
/// failure.
pub proof fn each_outcome_has_its_codes(code: int)
    ensures
        outcome_of(code) == CallOutcome::Completed <==> 200 <= code <= 299,
        outcome_of(code) == CallOutcome::Busy <==> code == 486 || code == 600,
        outcome_of(code) == CallOutcome::NoAnswer <==> code == 408 || code == 480,
        outcome_of(code) == CallOutcome::NotFound <==> code == 404 || code == 484,
        outcome_of(code) == CallOutcome::Rejected <==> code == 403 || 601 <= code <= 699,
        outcome_of(code) == CallOutcome::Unavailable <==> 500 <= code <= 599,
{
}

} // verus!
