//! What the driver of a session does over a whole call, by what happened in it.
use vstd::prelude::*;

use crate::config::VadConfig;
use crate::gemini_live::{
    answered_at, progressed, Action, Cue, EndedBy, Event, Happening, Progress, Role, SessionEvent,
};
use crate::json::{contents, Json};

verus! {

/// Whether the session was reopened within the first `n` of what happened.
pub open spec fn reopened(all: Seq<Happening>, n: int) -> bool
    decreases n,
{
    n > 0 && (reopened(all, n - 1) || (all[n - 1] is Session && all[n - 1]->ev is Some
        && all[n - 1]->ev->Some_0 is Opened && all[n - 1]->ev->Some_0->is_reconnect))
}

/// Whether the greeting went out within the first `n` of what happened.
pub open spec fn greeted_before(start: Progress, all: Seq<Happening>, n: int) -> bool
    decreases n,
{
    n > 0 && (greeted_before(start, all, n - 1) || progressed(start, all, n - 1).greets_on(
        all[n - 1],
    ))
}

/// Whether nobody produced anything within the first `n` of what happened.
pub open spec fn quiet_so_far(start: Progress, all: Seq<Happening>, n: int) -> bool
    decreases n,
{
    n <= 0 || (quiet_so_far(start, all, n - 1) && progressed(start, all, n - 1).stays_quiet(
        all[n - 1],
    ))
}

#[verifier::rlimit(60)]
#[verifier::spinoff_prover]
proof fn lemma_course(
    vad: VadConfig,
    delay_ms: int,
    answered: bool,
    start_ms: int,
    all: Seq<Happening>,
    n: int,
)
    requires
        0 <= n <= all.len(),
    ensures
        ({
            let start = Progress::fresh(vad, delay_ms, answered, start_ms);
            let p = progressed(start, all, n);
            let at = answered_at(
                if answered {
                    Some(start_ms)
                } else {
                    None
                },
                all,
                n,
            );
            &&& p.greet_after_ms == delay_ms
            &&& p.armed <==> at is Some
            &&& p.armed ==> p.deadline_ms == at->Some_0 + delay_ms
            &&& p.greeted <==> delay_ms == 0 || greeted_before(start, all, n) || reopened(all, n)
            &&& p.reconnected <==> reopened(all, n)
            &&& !p.had_activity && !p.callee_active && !p.reconnected <==> quiet_so_far(
                start,
                all,
                n,
            )
        }),
    decreases n,
{
    if n > 0 {
        lemma_course(vad, delay_ms, answered, start_ms, all, n - 1);
    }
}

/// A silent callee is greeted: when the timer is looked at once the delay has passed since the
/// answer, and nobody has produced anything, the greeting goes out unless it went out before.
pub proof fn silent_callee_is_greeted(
    vad: VadConfig,
    delay_ms: int,
    answered: bool,
    start_ms: int,
    all: Seq<Happening>,
    n: int,
)
    requires
        0 <= n < all.len(),
        delay_ms != 0,
        all[n] is Timer,
    ensures
        ({
            let start = Progress::fresh(vad, delay_ms, answered, start_ms);
            let at = answered_at(
                if answered {
                    Some(start_ms)
                } else {
                    None
                },
                all,
                n,
            );
            progressed(start, all, n).greets_on(all[n]) <==> at is Some && all[n]->Timer_now_ms
                >= at->Some_0 + delay_ms && quiet_so_far(start, all, n) && !greeted_before(
                start,
                all,
                n,
            )
        }),
{
    lemma_course(vad, delay_ms, answered, start_ms, all, n);
}

/// Whether the callee was heard, in a transcript or in the audio, since the last turn ended.
pub open spec fn heard_since_turn(start: Progress, all: Seq<Happening>, n: int) -> bool
    decreases n,
{
    if n <= 0 {
        false
    } else {
        match all[n - 1] {
            Happening::Session { ev: Some(SessionEvent::TurnComplete), .. } => false,
            Happening::Session { ev: Some(SessionEvent::Transcript { role: Role::User, .. }), .. } =>
            true,
            Happening::Frame(frame) => progressed(start, all, n - 1).hearing.confirms(frame)
                || heard_since_turn(start, all, n - 1),
            _ => heard_since_turn(start, all, n - 1),
        }
    }
}

#[verifier::rlimit(60)]
#[verifier::spinoff_prover]
proof fn lemma_pending(
    vad: VadConfig,
    delay_ms: int,
    answered: bool,
    start_ms: int,
    all: Seq<Happening>,
    n: int,
)
    requires
        0 <= n <= all.len(),
    ensures
        ({
            let start = Progress::fresh(vad, delay_ms, answered, start_ms);
            progressed(start, all, n).resume_needed <==> heard_since_turn(start, all, n)
        }),
    decreases n,
{
    if n > 0 {
        lemma_pending(vad, delay_ms, answered, start_ms, all, n - 1);
    }
}

/// A reopened session asks the callee to repeat exactly where its context was lost and the callee was
/// heard since the last turn ended.
pub proof fn repeat_is_asked_for_what_was_lost(
    vad: VadConfig,
    delay_ms: int,
    answered: bool,
    start_ms: int,
    all: Seq<Happening>,
    n: int,
    resumed: bool,
    actions: Seq<Action>,
)
    requires
        0 <= n <= all.len(),
        progressed(Progress::fresh(vad, delay_ms, answered, start_ms), all, n).answers(
            Some(SessionEvent::Opened { is_reconnect: true, resumed }),
            actions,
        ),
    ensures
        ({
            let start = Progress::fresh(vad, delay_ms, answered, start_ms);
            actions.contains(Action::Say(Cue::Resume)) <==> !resumed && heard_since_turn(
                start,
                all,
                n,
            )
        }),
{
    lemma_pending(vad, delay_ms, answered, start_ms, all, n);
    crate::gemini_live::reconnect_recovers(
        progressed(Progress::fresh(vad, delay_ms, answered, start_ms), all, n),
        resumed,
        actions,
    );
}

/// What a session event is for the bridge and the engine.
pub open spec fn as_event(ev: SessionEvent) -> Option<Event> {
    match ev {
        SessionEvent::OutputAudio(pcm) => Some(Event::OutputAudio(pcm)),
        SessionEvent::Transcript { role, text, final_ } => Some(
            Event::Transcript { role, text, final_ },
        ),
        SessionEvent::Interrupted => Some(Event::Interrupted),
        SessionEvent::TurnComplete => Some(Event::TurnComplete),
        _ => None,
    }
}

/// Audio, transcripts, interruptions and ends of turns are passed on as they are, each as one action
/// and with nothing added; emotions, other tools and the close of the session ask for nothing.
pub proof fn session_is_passed_on(p: Progress, ev: SessionEvent, actions: Seq<Action>)
    requires
        p.answers(Some(ev), actions),
        !(ev is Opened),
        !(ev is ToolCall && ev->name@ == "end_call"@),
    ensures
        match as_event(ev) {
            Some(e) => actions.len() == 1 && actions[0] == Action::Emit(e),
            None => actions.len() == 0,
        },
{
}

/// The goal of the last `end_call` within the first `n` of what happened.
pub open spec fn submitted(all: Seq<Happening>, n: int) -> Option<Json>
    decreases n,
{
    if n <= 0 {
        None
    } else {
        match all[n - 1] {
            Happening::Session { ev: Some(SessionEvent::ToolCall { name, id, args }), .. } => if name@
                == "end_call"@ {
                Some(contents(args))
            } else {
                submitted(all, n - 1)
            },
            _ => submitted(all, n - 1),
        }
    }
}

/// Who ended the session last within the first `n` of what happened: the model by `end_call`, the
/// callee's audio by its end, the session by its close, or whoever stopped it.
pub open spec fn stopped_by(all: Seq<Happening>, n: int) -> Option<EndedBy>
    decreases n,
{
    if n <= 0 {
        None
    } else {
        match all[n - 1] {
            Happening::AudioEnd => Some(EndedBy::CallerHangup),
            Happening::Stop(by) => Some(by),
            Happening::Session { ev: None, .. } => Some(EndedBy::RemoteClose),
            Happening::Session { ev: Some(SessionEvent::Closed), .. } => Some(
                EndedBy::RemoteClose,
            ),
            Happening::Session { ev: Some(SessionEvent::ToolCall { name, .. }), .. } => if name@
                == "end_call"@ {
                Some(EndedBy::ModelEndCall)
            } else {
                stopped_by(all, n - 1)
            },
            _ => stopped_by(all, n - 1),
        }
    }
}

/// A call's goal is what the model submitted with `end_call`, and nothing else sets or drops it; how
/// it ended is told by who stopped it.
#[verifier::rlimit(60)]
#[verifier::spinoff_prover]
pub proof fn goal_is_what_was_submitted(
    vad: VadConfig,
    delay_ms: int,
    answered: bool,
    start_ms: int,
    all: Seq<Happening>,
    n: int,
)
    requires
        0 <= n <= all.len(),
    ensures
        ({
            let p = progressed(Progress::fresh(vad, delay_ms, answered, start_ms), all, n);
            &&& p.goal == submitted(all, n)
            &&& p.ended == stopped_by(all, n)
        }),
    decreases n,
{
    if n > 0 {
        goal_is_what_was_submitted(vad, delay_ms, answered, start_ms, all, n - 1);
    }
}

} // verus!
