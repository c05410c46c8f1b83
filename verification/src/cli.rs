//! What the command line decides: which transport, which overrides, when a run is over and with
//! what exit code.
use serde_json::Value;
use vstd::prelude::*;
use vstd::string::StringExecFns;

use crate::config::{Model, NetCheckConfig, ServerConfig};
use crate::error::Error;
use crate::gemini_live::{EndedBy, Event, Role};
use crate::mcp::is_terminal_state;
use crate::net_check::{passes, verdict, NetworkHealth, Verdict};
use crate::state::{CallRecord, CallState, Disposition};
use crate::text::{begins, same};

verus! {

/// How clients reach the server.
#[derive(Clone, Copy, Debug, PartialEq, Eq, Structural)]
pub enum Transport {
    Stdio,
    StreamableHttp,
}

/// The transport that an argument names.
pub fn transport_of(name: &str) -> (r: Result<Transport, String>)
    ensures
        if name@ == "stdio"@ {
            r == Ok::<Transport, String>(Transport::Stdio)
        } else if name@ == "streamable-http"@ {
            r == Ok::<Transport, String>(Transport::StreamableHttp)
        } else {
            r is Err && r->Err_0@ == "unknown transport: "@ + name@
        },
{
    if same(name, "stdio") {
        Ok(Transport::Stdio)
    } else if same(name, "streamable-http") {
        Ok(Transport::StreamableHttp)
    } else {
        let mut s: String = "unknown transport: ".to_owned();
        s.append(name);
        Err(s)
    }
}

/// Whether `s` begins with `prefix`.
fn starts_with(s: &str, prefix: &str) -> (r: bool)
    ensures
        r == begins(s@, prefix@),
{
    let n: usize = prefix.unicode_len();
    if s.unicode_len() < n {
        return false;
    }
    let mut i: usize = 0;
    while i < n
        invariant
            i <= n,
            n == prefix@.len(),
            n <= s@.len(),
            forall|j: int| 0 <= j < i ==> s@[j] == prefix@[j],
        decreases n - i,
    {
        if s.get_char(i) != prefix.get_char(i) {
            assert(s@.subrange(0, n as int)[i as int] != prefix@[i as int]);
            return false;
        }
        i = i + 1;
    }
    assert(s@.subrange(0, n as int) =~= prefix@);
    true
}

/// Whether a bind address is a loopback one. A server bound elsewhere may have its requests
/// refused by their host header.
pub fn is_loopback(bind: &str) -> (r: bool)
    ensures
        r == (begins(bind@, "127."@) || begins(bind@, "localhost"@) || begins(bind@, "[::1]"@)),
{
    starts_with(bind, "127.") || starts_with(bind, "localhost") || starts_with(bind, "[::1]")
}

/// Whether a default configuration may be written: an existing file is kept unless forced.
pub fn may_write_config(present: bool, force: bool) -> (r: bool)
    ensures
        r == (!present || force),
{
    !present || force
}

/// Override the settings that a live run's arguments name. An unknown model is refused, with the
/// settings as they were.
pub fn override_live(
    server: &mut ServerConfig,
    model: Option<&str>,
    voice: Option<String>,
    greet_after_silence_ms: Option<u64>,
) -> (r: Result<(), String>)
    ensures
        ({
            let known = model is None || model->Some_0@ == "native"@ || model->Some_0@ == "half"@;
            let s = *old(server);
            if !known {
                &&& r is Err
                &&& r->Err_0@ == "unknown model '"@ + model->Some_0@
                    + "' (expected 'half' or 'native')"@
                &&& *final(server) == s
            } else {
                &&& r is Ok
                &&& *final(server) == (ServerConfig {
                    model: match model {
                        Some(m) => if m@ == "native"@ {
                            Model::NativeAudio
                        } else {
                            Model::HalfCascade
                        },
                        None => s.model,
                    },
                    voice: match voice {
                        Some(v) => v,
                        None => s.voice,
                    },
                    greet_after_silence_ms: match greet_after_silence_ms {
                        Some(ms) => ms,
                        None => s.greet_after_silence_ms,
                    },
                    ..s
                })
            }
        }),
{
    if let Some(m) = model {
        if same(m, "native") {
            server.model = Model::NativeAudio;
        } else if same(m, "half") {
            server.model = Model::HalfCascade;
        } else {
            let mut s: String = "unknown model '".to_owned();
            s.append(m);
            s.append("' (expected 'half' or 'native')");
            return Err(s);
        }
    }
    if let Some(v) = voice {
        server.voice = v;
    }
    if let Some(ms) = greet_after_silence_ms {
        server.greet_after_silence_ms = ms;
    }
    Ok(())
}

/// How long a live run lasts, and how it is fed.
#[derive(Clone, Copy, Debug, PartialEq, Eq, Structural)]
pub struct LivePlan {
    /// Seconds from the start to the deadline: the input's length, at least one, and the tail.
    pub deadline_secs: u64,
    /// Frames of silence that follow the input, 32 ms each, about as long as the tail.
    pub silence_frames: u64,
}

/// Samples of a frame of the live feed: 32 ms at 16 kHz.
pub const LIVE_FRAME: usize = 512;

/// Plans a live run over an input of so many samples at 16 kHz.
pub fn plan_live(samples: usize, tail_secs: u64) -> (r: LivePlan)
    requires
        tail_secs * 1000 <= u64::MAX,
        samples / 16000 + tail_secs < u64::MAX,
    ensures
        r.deadline_secs == (if samples / 16000 > 1 {
            samples / 16000
        } else {
            1
        }) + tail_secs,
        r.silence_frames == tail_secs * 1000 / 32,
{
    let whole: u64 = samples as u64 / 16000;
    let input: u64 = if whole > 1 {
        whole
    } else {
        1
    };
    LivePlan { deadline_secs: input + tail_secs, silence_frames: tail_secs * 1000 / 32 }
}

/// Exit code of a run whose network is unusable.
pub const UNUSABLE_EXIT: i32 = 2;

/// Whether the preflight lets a live run go on; otherwise its exit code. A preflight that failed
/// refuses the call just as one that measured too little.
pub fn after_preflight(result: &Result<NetworkHealth, Error>, cfg: &NetCheckConfig) -> (r: Option<
    i32,
>)
    ensures
        r == (match *result {
            Err(_) => Some(UNUSABLE_EXIT),
            Ok(h) => if passes(h, *cfg) {
                None
            } else {
                Some(UNUSABLE_EXIT)
            },
        }),
{
    match result {
        Err(_) => Some(UNUSABLE_EXIT),
        Ok(h) => match verdict(h, cfg) {
            Verdict::Usable => None,
            Verdict::Unusable => Some(UNUSABLE_EXIT),
        },
    }
}

/// What a live run waits for.
#[derive(Debug)]
pub enum LiveInput {
    Event(Event),
    /// The session's task is over.
    Closed,
    /// The deadline passed.
    Deadline,
}

/// What a live run does next.
#[derive(Debug)]
pub enum LiveAction {
    /// Write model speech.
    Play(Vec<i16>),
    /// Print a line, and write it to the transcript.
    Say { role: Role, text: String, final_: bool },
    /// Nothing.
    Skip,
    /// Stop, with the goal if the model filled one.
    Stop { goal: Option<Value>, hang_up: bool },
}

/// One step of a live run: audio is played, transcript lines are told, and the model's end of
/// call, a closed session or the deadline (which hangs up) stops it.
pub fn live_step(input: LiveInput) -> (r: LiveAction)
    ensures
        match input {
            LiveInput::Event(Event::OutputAudio(pcm)) => r == LiveAction::Play(pcm),
            LiveInput::Event(Event::Transcript { role, text, final_ }) => r == (LiveAction::Say {
                role,
                text,
                final_,
            }),
            LiveInput::Event(Event::EndCall { goal }) => r == (LiveAction::Stop {
                goal: Some(goal),
                hang_up: false,
            }),
            LiveInput::Event(_) => r == LiveAction::Skip,
            LiveInput::Closed => r == (LiveAction::Stop { goal: None, hang_up: false }),
            LiveInput::Deadline => r == (LiveAction::Stop { goal: None, hang_up: true }),
        },
{
    match input {
        LiveInput::Event(Event::OutputAudio(pcm)) => LiveAction::Play(pcm),
        LiveInput::Event(Event::Transcript { role, text, final_ }) => LiveAction::Say {
            role,
            text,
            final_,
        },
        LiveInput::Event(Event::EndCall { goal }) => LiveAction::Stop {
            goal: Some(goal),
            hang_up: false,
        },
        LiveInput::Event(_) => LiveAction::Skip,
        LiveInput::Closed => LiveAction::Stop { goal: None, hang_up: false },
        LiveInput::Deadline => LiveAction::Stop { goal: None, hang_up: true },
    }
}

/// Exit code of a live run.
pub fn live_exit_code(ended_by: EndedBy) -> (r: i32)
    ensures
        r == (if ended_by == EndedBy::Error {
            1i32
        } else {
            0
        }),
{
    if ended_by == EndedBy::Error {
        1
    } else {
        0
    }
}

/// What a poll of a placed call's record shows.
#[derive(Clone, Copy, Debug, PartialEq, Eq, Structural)]
pub struct Progress {
    /// The first transcript line not told yet.
    pub from: usize,
    /// The lines told from now on.
    pub told: usize,
    pub over: bool,
}

/// Compare a record with the number of transcript lines told so far.
pub fn follow_call(rec: &CallRecord, told: usize) -> (r: Progress)
    ensures
        r.from == (if told < rec.transcript@.len() {
            told as int
        } else {
            rec.transcript@.len() as int
        }),
        r.told == rec.transcript@.len(),
        r.over == !(rec.state == CallState::Queued || rec.state.is_active()),
{
    let n: usize = rec.transcript.len();
    Progress {
        from: if told < n {
            told
        } else {
            n
        },
        told: n,
        over: is_terminal_state(rec.state),
    }
}

/// Exit code of a placed call: non-zero for any technical or dial failure, so that scripts can
/// branch on it.
pub fn call_exit_code(disposition: Option<Disposition>) -> (r: i32)
    ensures
        r == (match disposition {
            Some(d) => if !crate::mcp::has_result(d) && d != Disposition::Cancelled {
                1i32
            } else {
                0
            },
            None => 0,
        }),
{
    match disposition {
        Some(
            Disposition::Failed
            | Disposition::Busy
            | Disposition::NoAnswer
            | Disposition::Rejected
            | Disposition::NotFound
            | Disposition::Unavailable,
        ) => 1,
        _ => 0,
    }
}

/// Following a call tells each line of its transcript once and in order, as long as the transcript
/// grows: a poll goes on where the one before left off, and afterwards every line is told. The
/// follower stops exactly once the call is neither waiting nor on the line.
pub proof fn lines_are_told_once(
    a: CallRecord,
    b: CallRecord,
    told: usize,
    first: Progress,
    second: Progress,
)
    requires
        call_ensures(follow_call, (&a, told), first),
        call_ensures(follow_call, (&b, first.told), second),
        told <= a.transcript@.len() <= b.transcript@.len(),
    ensures
        first.from == told,
        first.told == a.transcript@.len(),
        second.from == first.told,
        second.told == b.transcript@.len(),
        first.over <==> a.state != CallState::Queued && a.state != CallState::Ringing && a.state
            != CallState::InProgress,
{
}

/// A placed call's exit code tells a failure: it is zero where the call was answered or cancelled,
/// and one where it failed on the line or on the way.
pub proof fn exit_code_tells_a_failure(d: Disposition, code: i32)
    requires
        call_ensures(call_exit_code, (Some(d),), code),
    ensures
        code == 0 || code == 1,
        code == 1 <==> d == Disposition::Failed || d == Disposition::Busy || d
            == Disposition::NoAnswer || d == Disposition::Rejected || d == Disposition::NotFound || d
            == Disposition::Unavailable,
{
}

/// A live run lasts for its whole input and the tail, and is fed silence for as long as the tail, to
/// within a frame.
pub proof fn live_run_covers_its_input(samples: usize, tail_secs: u64, plan: LivePlan)
    requires
        call_ensures(plan_live, (samples, tail_secs), plan),
        tail_secs * 1000 <= u64::MAX,
    ensures
        plan.deadline_secs >= tail_secs + 1,
        samples < 16000 * (plan.deadline_secs - tail_secs) + 16000,
        samples >= 32000 ==> 16000 * (plan.deadline_secs - tail_secs) <= samples,
        32 * plan.silence_frames <= tail_secs * 1000 < 32 * plan.silence_frames + 32,
{
}

/// A live run goes on only over a usable network; otherwise it exits with code two, whether the
/// preflight failed or measured too little.
pub proof fn unusable_network_stops_the_run(
    result: Result<NetworkHealth, Error>,
    cfg: NetCheckConfig,
    r: Option<i32>,
)
    requires
        call_ensures(after_preflight, (&result, &cfg), r),
    ensures
        r is None <==> result is Ok && passes(result->Ok_0, cfg),
        r is Some ==> r->Some_0 == 2,
{
}

/// A live run stops exactly on the model's end of call, on a closed session or at its deadline. It
/// hangs up at the deadline alone, and has a goal only from the model.
pub proof fn live_run_stops_on_its_end(input: LiveInput, r: LiveAction)
    requires
        call_ensures(live_step, (input,), r),
    ensures
        r is Stop <==> input is Closed || input is Deadline || (input is Event && input->Event_0
            is EndCall),
        r is Stop && r->hang_up <==> input is Deadline,
        r is Stop && r->goal is Some <==> input is Event && input->Event_0 is EndCall,
        r is Play <==> input is Event && input->Event_0 is OutputAudio,
        r is Say <==> input is Event && input->Event_0 is Transcript,
{
}

/// A live run fails only where its session did.
pub proof fn live_run_fails_with_its_session(by: EndedBy, code: i32)
    requires
        call_ensures(live_exit_code, (by,), code),
    ensures
        code == 0 <==> by != EndedBy::Error,
        code == 0 || code == 1,
{
}

} // verus!
