//! What a call does on top of a live model session: when it greets, the reaction to a reconnect,
//! the end of the call, and the transcript.
//!
//! The connection itself is elsewhere. [`Driver`] takes what happened (an answer, a timer, a frame
//! of callee audio, a session event, a hang-up) and says what to do next.
use serde_json::Value;
use vstd::prelude::*;
use vstd::string::StringExecFns;

use crate::config::{Model, Proxy, ScenarioConfig, ServerConfig, VadConfig};
use crate::json::{contents, Json};
use crate::schema::{
    augment_goal_schema, sanitize_gemini_schema, sanitized, unwrapped, with_amd_field,
};
use crate::single::Single;
use crate::text::{same, trim, trimmed};
use crate::vad::{Onset, Vad};

verus! {

/// Who speaks.
#[derive(Clone, Copy, Debug, PartialEq, Eq, Structural)]
pub enum Role {
    User,
    Model,
}

/// What a running session tells the bridge and the engine.
#[derive(Debug)]
pub enum Event {
    OutputAudio(Vec<i16>),
    Transcript { role: Role, text: String, final_: bool },
    Affect { role: Role, label: String },
    Interrupted,
    TurnComplete,
    EndCall { goal: Value },
}

/// One turn of the conversation.
#[derive(Clone, Debug)]
pub struct TranscriptEntry {
    pub role: Role,
    pub text: String,
    pub ts_ms: u64,
}

/// One detected emotion.
#[derive(Clone, Debug)]
pub struct AffectEntry {
    pub role: Role,
    pub label: String,
    pub ts_ms: u64,
}

/// A transcript entry by its contents.
pub struct Line {
    pub role: Role,
    pub text: Seq<char>,
    pub ts_ms: u64,
}

impl View for TranscriptEntry {
    type V = Line;

    open spec fn view(&self) -> Line {
        Line { role: self.role, text: self.text@, ts_ms: self.ts_ms }
    }
}

/// The contents of a transcript.
pub open spec fn lines(s: Seq<TranscriptEntry>) -> Seq<Line> {
    s.map_values(|e: TranscriptEntry| e@)
}

/// What each side has said in the turn so far.
pub struct Turn {
    pub user: Seq<char>,
    pub model: Seq<char>,
}

impl Turn {
    pub open spec fn silent() -> Turn {
        Turn { user: Seq::empty(), model: Seq::empty() }
    }

    /// The turn with one more piece of text.
    pub open spec fn with(self, role: Role, text: Seq<char>) -> Turn {
        match role {
            Role::User => Turn { user: self.user + text, ..self },
            Role::Model => Turn { model: self.model + text, ..self },
        }
    }

    /// The turn's entries, user first; a side that said nothing but white space has none.
    pub open spec fn entries(self, ts_ms: u64) -> Seq<Line> {
        let u = trimmed(self.user);
        let m = trimmed(self.model);
        (if u.len() > 0 {
            seq![Line { role: Role::User, text: u, ts_ms }]
        } else {
            Seq::empty()
        }) + (if m.len() > 0 {
            seq![Line { role: Role::Model, text: m, ts_ms }]
        } else {
            Seq::empty()
        })
    }
}

/// Accumulates streaming transcription pieces per role. A turn's full transcript is the
/// concatenation of its pieces, emitted when the turn is complete.
pub struct TranscriptAccumulator {
    user: String,
    model: String,
}

impl View for TranscriptAccumulator {
    type V = Turn;

    closed spec fn view(&self) -> Turn {
        Turn { user: self.user@, model: self.model@ }
    }
}

impl Default for TranscriptAccumulator {
    fn default() -> (r: Self)
        ensures
            r@ == Turn::silent(),
    {
        let r = TranscriptAccumulator { user: String::new(), model: String::new() };
        assert(r.user@ =~= Seq::empty());
        assert(r.model@ =~= Seq::empty());
        r
    }
}

impl TranscriptAccumulator {
    pub fn on_delta(&mut self, role: Role, text: &str)
        ensures
            final(self)@ == old(self)@.with(role, text@),
    {
        match role {
            Role::User => self.user.append(text),
            Role::Model => self.model.append(text),
        }
    }

    /// Emit the completed turn's entries (user first, then model) and reset. Call at the end of
    /// each turn, and once more at session end to capture a turn cut short. White space alone
    /// yields nothing.
    pub fn flush(&mut self, ts_ms: u64) -> (r: Vec<TranscriptEntry>)
        ensures
            lines(r@) == old(self)@.entries(ts_ms),
            final(self)@ == Turn::silent(),
    {
        let mut out: Vec<TranscriptEntry> = Vec::new();
        let u: String = trim(self.user.as_str());
        if !u.as_str().is_empty() {
            out.push(TranscriptEntry { role: Role::User, text: u, ts_ms });
        }
        let m: String = trim(self.model.as_str());
        if !m.as_str().is_empty() {
            out.push(TranscriptEntry { role: Role::Model, text: m, ts_ms });
        }
        assert(lines(out@) =~= self@.entries(ts_ms));
        self.user = String::new();
        self.model = String::new();
        assert(self@.user =~= Seq::empty());
        assert(self@.model =~= Seq::empty());
        out
    }
}

/// A turn's transcript is the concatenation of its pieces: two pieces of one side read as one.
pub proof fn deltas_concatenate(t: Turn, role: Role, a: Seq<char>, b: Seq<char>)
    ensures
        t.with(role, a).with(role, b) == t.with(role, a + b),
{
    assert(t.user + a + b =~= t.user + (a + b));
    assert(t.model + a + b =~= t.model + (a + b));
}

/// A flush leaves nothing for the next one.
pub proof fn flushed_turn_is_empty(ts_ms: u64)
    ensures
        Turn::silent().entries(ts_ms).len() == 0,
{
    assert(trimmed(Seq::<char>::empty()).len() == 0);
}

/// How a session ended.
#[derive(Clone, Copy, Debug, PartialEq, Eq, Structural)]
pub enum EndedBy {
    ModelEndCall,
    CallerHangup,
    RemoteClose,
    Error,
}

/// What a session leaves behind.
#[derive(Debug)]
pub struct CallOutcome {
    pub ended_by: EndedBy,
    pub goal: Option<Value>,
    pub transcript: Vec<TranscriptEntry>,
}

/// What to open a session with.
#[derive(Debug)]
pub struct SetupConfig {
    pub model: Model,
    pub voice: String,
    /// Only where the model takes the language as a setting.
    pub language: Option<String>,
    pub system_instruction: String,
    pub temperature: Single,
    pub goal_schema: Value,
    /// A handle to resume from; a call always opens a fresh session.
    pub resume_handle: Option<String>,
}

/// How to connect a session.
#[derive(Debug)]
pub struct ClientConfig {
    pub model: Model,
    pub api_key: String,
    pub proxy: Option<Proxy>,
    pub setup: SetupConfig,
    /// Reconnect attempts before giving up; none is no limit.
    pub max_reconnect_attempts: Option<u32>,
}

/// The bits of 0.8.
pub const TEMPERATURE: u32 = 0x3F4C_CCCD;

/// The session setup of a call: the assembled instruction, and the goal schema with the `amd`
/// field in the model's schema subset. The language is only a setting on the half-cascade model;
/// the native-audio model is told in the instruction.
pub fn build_setup_config(server: &ServerConfig, scenario: &ScenarioConfig) -> (r: SetupConfig)
    ensures
        r.model == server.model,
        r.voice@ == server.voice@,
        match r.language {
            Some(l) => server.model == Model::HalfCascade && l@ == server.language@,
            None => server.model == Model::NativeAudio,
        },
        r.system_instruction@ == server.instruction(*scenario),
        r.temperature.bits == TEMPERATURE,
        contents(r.goal_schema) == sanitized(
            with_amd_field(unwrapped(contents(scenario.goal_schema))),
        ),
        r.resume_handle is None,
{
    let mut goal_schema: Value = augment_goal_schema(&scenario.goal_schema);
    sanitize_gemini_schema(&mut goal_schema);
    SetupConfig {
        model: server.model,
        voice: server.voice.clone(),
        language: match server.model {
            Model::HalfCascade => Some(server.language.clone()),
            Model::NativeAudio => None,
        },
        system_instruction: server.assemble_system_instruction(scenario),
        temperature: Single { bits: TEMPERATURE },
        goal_schema,
        resume_handle: None,
    }
}

/// The same optional text.
pub open spec fn same_text(a: Option<String>, b: Option<String>) -> bool {
    match (a, b) {
        (Some(x), Some(y)) => x@ == y@,
        (None, None) => true,
        _ => false,
    }
}

fn copy_text(a: &Option<String>) -> (r: Option<String>)
    ensures
        same_text(*a, r),
{
    match a {
        Some(s) => Some(s.clone()),
        None => None,
    }
}

/// How to connect the session of a call: no limit on reconnects, since hanging up and the cap on
/// a call's duration are what ends it.
pub fn client_config(server: &ServerConfig, scenario: &ScenarioConfig) -> (r: ClientConfig)
    ensures
        r.model == server.model,
        r.api_key@ == server.api_key@,
        match (server.proxy, r.proxy) {
            (Some(a), Some(b)) => a.url@ == b.url@ && same_text(a.user, b.user) && same_text(
                a.password,
                b.password,
            ),
            (None, None) => true,
            _ => false,
        },
        call_ensures(build_setup_config, (server, scenario), r.setup),
        r.max_reconnect_attempts is None,
{
    ClientConfig {
        model: server.model,
        api_key: server.api_key.clone(),
        proxy: match &server.proxy {
            Some(p) => Some(
                Proxy {
                    url: p.url.clone(),
                    user: copy_text(&p.user),
                    password: copy_text(&p.password),
                },
            ),
            None => None,
        },
        setup: build_setup_config(server, scenario),
        max_reconnect_attempts: None,
    }
}

/// What the connection reports.
#[derive(Debug)]
pub enum SessionEvent {
    /// The session is open; on a reconnect, `resumed` says whether the context was kept.
    Opened { is_reconnect: bool, resumed: bool },
    OutputAudio(Vec<i16>),
    Transcript { role: Role, text: String, final_: bool },
    Affect { role: Role, label: String },
    Interrupted,
    TurnComplete,
    ToolCall { name: String, id: String, args: Value },
    Closed,
}

/// A text turn that the driver hands to the model.
#[derive(Clone, Copy, Debug, PartialEq, Eq, Structural)]
pub enum Cue {
    /// Greet a silent callee.
    Greet,
    /// Ask the callee to repeat what a lost context held.
    Resume,
}

/// What the driver asks for, in order.
#[derive(Debug)]
pub enum Action {
    /// Tell the bridge and the engine.
    Emit(Event),
    /// Hand the model a text turn.
    Say(Cue),
    /// Send callee audio to the model.
    SendAudio(Vec<i16>),
    /// Acknowledge a tool call.
    ToolResponse(String),
    /// Drop the callee audio that is waiting to be sent.
    DrainUplink,
}

/// The driver's state.
pub struct Progress {
    /// The greeting delay; 0 is never.
    pub greet_after_ms: int,
    /// What has been heard of the callee.
    pub hearing: Onset,
    pub greeted: bool,
    pub had_activity: bool,
    pub callee_active: bool,
    /// A turn is pending that a lost context would lose.
    pub resume_needed: bool,
    pub reconnected: bool,
    /// The call was answered: the greeting timer runs.
    pub armed: bool,
    pub deadline_ms: int,
    /// The call will never be answered.
    pub answer_lost: bool,
    pub turn: Turn,
    pub transcript: Seq<Line>,
    pub ended: Option<EndedBy>,
    pub goal: Option<Json>,
}

impl Progress {
    pub open spec fn fresh(
        vad: VadConfig,
        greet_after_ms: int,
        answered: bool,
        now_ms: int,
    ) -> Progress {
        Progress {
            greet_after_ms,
            hearing: Onset::fresh(vad),
            greeted: greet_after_ms == 0,
            had_activity: false,
            callee_active: false,
            resume_needed: false,
            reconnected: false,
            armed: answered,
            deadline_ms: if answered {
                now_ms + greet_after_ms
            } else {
                0
            },
            answer_lost: false,
            turn: Turn::silent(),
            transcript: Seq::empty(),
            ended: None,
            goal: None,
        }
    }

    /// Whether the answer still matters.
    pub open spec fn awaits_answer(self) -> bool {
        !self.armed && !self.greeted && !self.answer_lost
    }

    /// Whether the greeting timer runs: the call was answered, nobody has produced anything, and
    /// the session was never reopened.
    pub open spec fn may_greet(self) -> bool {
        &&& self.armed
        &&& !self.greeted
        &&& !self.had_activity
        &&& !self.callee_active
        &&& !self.reconnected
    }

    /// Whether the greeting goes out when the timer is looked at.
    pub open spec fn greets(self, now_ms: int) -> bool {
        self.may_greet() && now_ms >= self.deadline_ms
    }

    pub open spec fn after_timer(self, now_ms: int) -> Progress {
        if self.greets(now_ms) {
            Progress { greeted: true, ..self }
        } else {
            self
        }
    }

    /// The call was answered, or (`None`) never will be.
    pub open spec fn after_answer(self, answered: Option<bool>, now_ms: int) -> Progress {
        match answered {
            Some(true) => Progress {
                armed: true,
                deadline_ms: now_ms + self.greet_after_ms,
                ..self
            },
            Some(false) => self,
            None => Progress { answer_lost: true, ..self },
        }
    }

    /// A frame of callee audio was forwarded; it may have confirmed the onset of speech.
    pub open spec fn after_frame(self, frame: Seq<i16>) -> Progress {
        let heard = Progress { hearing: self.hearing.after(frame), ..self };
        if self.hearing.confirms(frame) {
            Progress { callee_active: true, resume_needed: true, ..heard }
        } else {
            heard
        }
    }

    pub open spec fn ended_by(self, by: EndedBy) -> Progress {
        Progress { ended: Some(by), ..self }
    }

    pub open spec fn after_open(self, is_reconnect: bool) -> Progress {
        if is_reconnect {
            Progress { reconnected: true, greeted: true, ..self }
        } else {
            self
        }
    }

    /// Whether a reopened session has lost the exchange.
    pub open spec fn lost_context(self, resumed: bool) -> bool {
        !resumed && self.resume_needed
    }

    pub open spec fn after_transcript(self, role: Role, text: Seq<char>) -> Progress {
        let heard = role == Role::User;
        Progress {
            had_activity: true,
            callee_active: self.callee_active || heard,
            resume_needed: self.resume_needed || heard,
            turn: self.turn.with(role, text),
            ..self
        }
    }

    /// The turn's entries go to the transcript.
    pub open spec fn flushed(self, ts_ms: u64) -> Progress {
        Progress {
            transcript: self.transcript + self.turn.entries(ts_ms),
            turn: Turn::silent(),
            ..self
        }
    }

    pub open spec fn after_turn(self, ts_ms: u64) -> Progress {
        Progress { had_activity: true, resume_needed: false, ..self.flushed(ts_ms) }
    }

    pub open spec fn active(self) -> Progress {
        Progress { had_activity: true, ..self }
    }

    /// The state after a session event; `None` is the end of the event stream.
    pub open spec fn after_event(self, ev: Option<SessionEvent>, now_ms: u64) -> Progress {
        match ev {
            Some(SessionEvent::Opened { is_reconnect, resumed }) => self.after_open(is_reconnect),
            Some(SessionEvent::OutputAudio(pcm)) => self.active(),
            Some(SessionEvent::Transcript { role, text, final_ }) => self.after_transcript(
                role,
                text@,
            ),
            Some(SessionEvent::Affect { role, label }) => self,
            Some(SessionEvent::Interrupted) => self.active(),
            Some(SessionEvent::TurnComplete) => self.after_turn(now_ms),
            Some(SessionEvent::ToolCall { name, id, args }) => if name@ == "end_call"@ {
                Progress {
                    ended: Some(EndedBy::ModelEndCall),
                    goal: Some(contents(args)),
                    ..self
                }
            } else {
                self
            },
            Some(SessionEvent::Closed) => self.ended_by(EndedBy::RemoteClose),
            None => self.ended_by(EndedBy::RemoteClose),
        }
    }

    /// Whether `actions` are what a session event calls for.
    pub open spec fn answers(self, ev: Option<SessionEvent>, actions: Seq<Action>) -> bool {
        match ev {
            Some(SessionEvent::Opened { is_reconnect, resumed }) => actions == (
            if !is_reconnect {
                Seq::empty()
            } else if self.lost_context(resumed) {
                seq![
                    Action::DrainUplink,
                    Action::Emit(Event::Interrupted),
                    Action::Say(Cue::Resume),
                ]
            } else {
                seq![Action::DrainUplink, Action::Emit(Event::Interrupted)]
            }),
            Some(SessionEvent::OutputAudio(pcm)) => actions == seq![
                Action::Emit(Event::OutputAudio(pcm)),
            ],
            Some(SessionEvent::Transcript { role, text, final_ }) => actions == seq![
                Action::Emit(Event::Transcript { role, text, final_ }),
            ],
            Some(SessionEvent::Affect { role, label }) => actions.len() == 0,
            Some(SessionEvent::Interrupted) => actions == seq![Action::Emit(Event::Interrupted)],
            Some(SessionEvent::TurnComplete) => actions == seq![Action::Emit(Event::TurnComplete)],
            Some(SessionEvent::ToolCall { name, id, args }) => if name@ == "end_call"@ {
                &&& actions.len() == 2
                &&& actions[0] == Action::ToolResponse(id)
                &&& actions[1] is Emit
                &&& actions[1]->Emit_0 is EndCall
                &&& contents(actions[1]->Emit_0->EndCall_goal) == contents(args)
            } else {
                actions.len() == 0
            },
            Some(SessionEvent::Closed) => actions.len() == 0,
            None => actions.len() == 0,
        }
    }
}

/// Drives one call over an open session.
pub struct Driver {
    greet_after_ms: u64,
    vad: Vad,
    greeted: bool,
    had_activity: bool,
    callee_active: bool,
    resume_needed: bool,
    reconnected: bool,
    armed: bool,
    deadline_ms: u64,
    answer_lost: bool,
    acc: TranscriptAccumulator,
    transcript: Vec<TranscriptEntry>,
    ended: Option<EndedBy>,
    goal: Option<Value>,
}

impl View for Driver {
    type V = Progress;

    closed spec fn view(&self) -> Progress {
        Progress {
            greet_after_ms: self.greet_after_ms as int,
            hearing: self.vad@,
            greeted: self.greeted,
            had_activity: self.had_activity,
            callee_active: self.callee_active,
            resume_needed: self.resume_needed,
            reconnected: self.reconnected,
            armed: self.armed,
            deadline_ms: self.deadline_ms as int,
            answer_lost: self.answer_lost,
            turn: self.acc@,
            transcript: lines(self.transcript@),
            ended: self.ended,
            goal: match self.goal {
                Some(g) => Some(contents(g)),
                None => None,
            },
        }
    }
}

impl Driver {
    /// A fresh call. If neither side produces anything within `greet_after_silence_ms` of the
    /// answer, the model is told to greet; `0` disables that. Times are in milliseconds from the
    /// start of the session.
    pub fn new(
        vad: VadConfig,
        greet_after_silence_ms: u64,
        answered: bool,
        now_ms: u64,
    ) -> (r: Self)
        requires
            now_ms + greet_after_silence_ms <= u64::MAX,
        ensures
            r@ == Progress::fresh(vad, greet_after_silence_ms as int, answered, now_ms as int),
            r@.hearing.wf(),
    {
        let r = Driver {
            greet_after_ms: greet_after_silence_ms,
            vad: Vad::new(vad),
            greeted: greet_after_silence_ms == 0,
            had_activity: false,
            callee_active: false,
            resume_needed: false,
            reconnected: false,
            armed: answered,
            deadline_ms: if answered {
                now_ms + greet_after_silence_ms
            } else {
                0
            },
            answer_lost: false,
            acc: TranscriptAccumulator::default(),
            transcript: Vec::new(),
            ended: None,
            goal: None,
        };
        assert(r@.transcript =~= Seq::empty());
        r
    }

    /// How the call ended, once it has.
    pub fn ended(&self) -> (r: Option<EndedBy>)
        ensures
            r == self@.ended,
    {
        self.ended
    }

    /// Whether to watch for the answer.
    pub fn awaits_answer(&self) -> (r: bool)
        ensures
            r == self@.awaits_answer(),
    {
        !self.armed && !self.greeted && !self.answer_lost
    }

    /// When the greeting is due, while the timer runs.
    pub fn greet_at(&self) -> (r: Option<u64>)
        ensures
            match r {
                Some(t) => self@.may_greet() && t == self@.deadline_ms,
                None => !self@.may_greet(),
            },
    {
        if self.armed && !self.greeted && !self.had_activity && !self.callee_active
            && !self.reconnected {
            Some(self.deadline_ms)
        } else {
            None
        }
    }

    /// The answer signal changed: `Some` with its value, `None` once it can change no more. Arms
    /// the greeting the moment the call is answered, never before.
    pub fn on_answered(&mut self, answered: Option<bool>, now_ms: u64)
        requires
            now_ms + old(self)@.greet_after_ms <= u64::MAX,
        ensures
            final(self)@ == old(self)@.after_answer(answered, now_ms as int),
    {
        match answered {
            Some(yes) => {
                if yes {
                    self.armed = true;
                    self.deadline_ms = now_ms + self.greet_after_ms;
                }
            },
            None => {
                self.answer_lost = true;
            },
        }
    }

    /// The greeting timer ran out: the callee is silent, so the model gets the first turn. Before
    /// the delay has passed nothing happens.
    pub fn on_greet_timer(&mut self, now_ms: u64) -> (r: Vec<Action>)
        ensures
            r@ == (if old(self)@.greets(now_ms as int) {
                seq![Action::Say(Cue::Greet)]
            } else {
                Seq::empty()
            }),
            final(self)@ == old(self)@.after_timer(now_ms as int),
    {
        let mut out: Vec<Action> = Vec::new();
        match self.greet_at() {
            Some(due) => {
                if now_ms >= due {
                    self.greeted = true;
                    out.push(Action::Say(Cue::Greet));
                }
            },
            None => {},
        }
        assert(out@ =~= (if old(self)@.greets(now_ms as int) {
            seq![Action::Say(Cue::Greet)]
        } else {
            Seq::empty()
        }));
        out
    }

    /// The detection of callee speech.
    pub fn vad(&self) -> (r: &Vad)
        ensures
            r@ == self@.hearing,
    {
        &self.vad
    }

    /// A frame of callee audio, or (`None`) the end of the audio, which is a hang-up. The frame is
    /// forwarded as it is; if it confirms that the callee speaks, the greeting is off.
    pub fn on_audio(&mut self, frame: Option<Vec<i16>>) -> (r: Vec<Action>)
        requires
            old(self)@.hearing.wf(),
            frame is Some ==> frame->Some_0@.len() < 0x8_0000_0000_0000,
        ensures
            r@ == (match frame {
                Some(pcm) => seq![Action::SendAudio(pcm)],
                None => Seq::empty(),
            }),
            final(self)@ == (match frame {
                Some(pcm) => old(self)@.after_frame(pcm@),
                None => old(self)@.ended_by(EndedBy::CallerHangup),
            }),
            final(self)@.hearing.wf(),
    {
        let mut out: Vec<Action> = Vec::new();
        match frame {
            Some(pcm) => {
                if self.vad.observe(pcm.as_slice()) {
                    self.callee_active = true;
                    self.resume_needed = true;
                }
                out.push(Action::SendAudio(pcm));
                assert(out@ =~= seq![Action::SendAudio(pcm)]);
            },
            None => {
                self.ended = Some(EndedBy::CallerHangup);
                assert(out@ =~= Seq::empty());
            },
        }
        out
    }

    /// An event of the session, or (`None`) the end of its stream.
    pub fn on_session_event(&mut self, ev: Option<SessionEvent>, now_ms: u64) -> (r: Vec<Action>)
        ensures
            old(self)@.answers(ev, r@),
            final(self)@ == old(self)@.after_event(ev, now_ms),
    {
        let mut out: Vec<Action> = Vec::new();
        match ev {
            Some(SessionEvent::Opened { is_reconnect, resumed }) => {
                if is_reconnect {
                    self.reconnected = true;
                    // What waited during the outage is old audio; what plays is from the session
                    // that is gone.
                    out.push(Action::DrainUplink);
                    out.push(Action::Emit(Event::Interrupted));
                    if !resumed && self.resume_needed {
                        out.push(Action::Say(Cue::Resume));
                    }
                    // A reopened session never greets again.
                    self.greeted = true;
                }
            },
            Some(SessionEvent::OutputAudio(pcm)) => {
                self.had_activity = true;
                out.push(Action::Emit(Event::OutputAudio(pcm)));
            },
            Some(SessionEvent::Transcript { role, text, final_ }) => {
                self.had_activity = true;
                // A transcribed user turn shows that the callee speaks even if its audio level
                // did not.
                if role == Role::User {
                    self.callee_active = true;
                    self.resume_needed = true;
                }
                self.acc.on_delta(role, text.as_str());
                out.push(Action::Emit(Event::Transcript { role, text, final_ }));
            },
            Some(SessionEvent::Affect { role, label }) => {},
            Some(SessionEvent::Interrupted) => {
                self.had_activity = true;
                out.push(Action::Emit(Event::Interrupted));
            },
            Some(SessionEvent::TurnComplete) => {
                self.had_activity = true;
                self.resume_needed = false;
                self.flush(now_ms);
                out.push(Action::Emit(Event::TurnComplete));
            },
            Some(SessionEvent::ToolCall { name, id, args }) => {
                if same(name.as_str(), "end_call") {
                    out.push(Action::ToolResponse(id));
                    out.push(Action::Emit(Event::EndCall { goal: args.clone() }));
                    self.ended = Some(EndedBy::ModelEndCall);
                    self.goal = Some(args);
                }
            },
            Some(SessionEvent::Closed) => {
                self.ended = Some(EndedBy::RemoteClose);
            },
            None => {
                self.ended = Some(EndedBy::RemoteClose);
            },
        }
        assert(old(self)@.answers(ev, out@)) by {
            if let Some(SessionEvent::Opened { is_reconnect, resumed }) = ev {
                if !is_reconnect {
                    assert(out@ =~= Seq::empty());
                } else if old(self)@.lost_context(resumed) {
                    assert(out@ =~= seq![
                        Action::DrainUplink,
                        Action::Emit(Event::Interrupted),
                        Action::Say(Cue::Resume),
                    ]);
                } else {
                    assert(out@ =~= seq![Action::DrainUplink, Action::Emit(Event::Interrupted)]);
                }
            } else if let Some(SessionEvent::OutputAudio(pcm)) = ev {
                assert(out@ =~= seq![Action::Emit(Event::OutputAudio(pcm))]);
            } else if let Some(SessionEvent::Transcript { role, text, final_ }) = ev {
                assert(out@ =~= seq![Action::Emit(Event::Transcript { role, text, final_ })]);
            } else if let Some(SessionEvent::Interrupted) = ev {
                assert(out@ =~= seq![Action::Emit(Event::Interrupted)]);
            } else if let Some(SessionEvent::TurnComplete) = ev {
                assert(out@ =~= seq![Action::Emit(Event::TurnComplete)]);
            }
        }
        out
    }

    /// The local side hung up.
    pub fn on_hangup(&mut self)
        ensures
            final(self)@ == old(self)@.ended_by(EndedBy::CallerHangup),
    {
        self.ended = Some(EndedBy::CallerHangup);
    }

    /// Something that had to reach the model could not be sent: the session is gone.
    pub fn on_send_failed(&mut self)
        ensures
            final(self)@ == old(self)@.ended_by(EndedBy::RemoteClose),
    {
        self.ended = Some(EndedBy::RemoteClose);
    }

    fn flush(&mut self, ts_ms: u64)
        ensures
            final(self)@ == old(self)@.flushed(ts_ms),
    {
        let mut entries: Vec<TranscriptEntry> = self.acc.flush(ts_ms);
        let ghost (before, more) = (self.transcript@, entries@);
        self.transcript.append(&mut entries);
        assert(lines(before + more) =~= lines(before) + lines(more));
    }

    /// The outcome of the call. A turn that was cut short is part of the transcript.
    pub fn finish(self, now_ms: u64) -> (r: CallOutcome)
        ensures
            r.ended_by == (match self@.ended {
                Some(by) => by,
                None => EndedBy::Error,
            }),
            match r.goal {
                Some(g) => self@.goal == Some(contents(g)),
                None => self@.goal is None,
            },
            lines(r.transcript@) == self@.flushed(now_ms).transcript,
    {
        let ended_by: EndedBy = match self.ended {
            Some(by) => by,
            None => EndedBy::Error,
        };
        let mut last: Driver = self;
        last.flush(now_ms);
        CallOutcome { ended_by, goal: last.goal, transcript: last.transcript }
    }
}

/// No greeting before the call is answered.
pub proof fn no_greeting_before_answered(vad: VadConfig, greet_after_ms: int, now_ms: int)
    ensures
        !Progress::fresh(vad, greet_after_ms, false, now_ms).may_greet(),
        forall|p: Progress| !p.armed ==> !(#[trigger] p.may_greet()),
{
}

/// With a delay of zero the agent counts as having greeted from the start, and one that has
/// greeted never greets again, whatever happens.
pub proof fn zero_delay_never_greets(
    p: Progress,
    vad: VadConfig,
    ev: Option<SessionEvent>,
    now_ms: u64,
    answered: Option<bool>,
    frame: Seq<i16>,
)
    requires
        p.greeted,
    ensures
        Progress::fresh(vad, 0, true, now_ms as int).greeted,
        Progress::fresh(vad, 0, false, now_ms as int).greeted,
        !p.may_greet(),
        p.after_event(ev, now_ms).greeted,
        p.after_answer(answered, now_ms as int).greeted,
        p.after_frame(frame).greeted,
{
}

/// Once anybody has produced anything, or the session was reopened, no greeting follows, whatever
/// else the session reports.
pub proof fn activity_suppresses_greeting(p: Progress, ev: Option<SessionEvent>, now_ms: u64)
    requires
        p.had_activity || p.callee_active || p.reconnected,
    ensures
        !p.may_greet(),
        ({
            let q = p.after_event(ev, now_ms);
            q.had_activity || q.callee_active || q.reconnected
        }),
{
}

/// What happens to a driver.
pub enum Happening {
    /// The answer signal changed.
    Answer { answered: Option<bool>, now_ms: u64 },
    /// The greeting timer was looked at.
    Timer { now_ms: u64 },
    /// A frame of callee audio came.
    Frame(Seq<i16>),
    /// The callee audio ended.
    AudioEnd,
    /// The session reported something, or ended.
    Session { ev: Option<SessionEvent>, now_ms: u64 },
    /// The call was hung up, or the session could not be written to.
    Stop(EndedBy),
}

impl Progress {
    /// The state after anything.
    pub open spec fn after(self, h: Happening) -> Progress {
        match h {
            Happening::Answer { answered, now_ms } => self.after_answer(answered, now_ms as int),
            Happening::Timer { now_ms } => self.after_timer(now_ms as int),
            Happening::Frame(frame) => self.after_frame(frame),
            Happening::AudioEnd => self.ended_by(EndedBy::CallerHangup),
            Happening::Session { ev, now_ms } => self.after_event(ev, now_ms),
            Happening::Stop(by) => self.ended_by(by),
        }
    }

    /// Whether the greeting goes out.
    pub open spec fn greets_on(self, h: Happening) -> bool {
        match h {
            Happening::Timer { now_ms } => self.greets(now_ms as int),
            _ => false,
        }
    }

    /// Whether nobody produced anything: the model gave no audio, transcript, interruption or end
    /// of turn, the callee was not heard to speak, and the session was not reopened.
    pub open spec fn stays_quiet(self, h: Happening) -> bool {
        match h {
            Happening::Frame(frame) => !self.hearing.confirms(frame),
            Happening::Session { ev, now_ms } => match ev {
                Some(SessionEvent::OutputAudio(_)) => false,
                Some(SessionEvent::Transcript { .. }) => false,
                Some(SessionEvent::Interrupted) => false,
                Some(SessionEvent::TurnComplete) => false,
                Some(SessionEvent::Opened { is_reconnect, .. }) => !is_reconnect,
                _ => true,
            },
            _ => true,
        }
    }
}

/// The state after the first `n` of what happened.
pub open spec fn progressed(start: Progress, all: Seq<Happening>, n: int) -> Progress
    decreases n,
{
    if n <= 0 {
        start
    } else {
        progressed(start, all, n - 1).after(all[n - 1])
    }
}

/// When the call was last answered, within the first `n` of what happened.
pub open spec fn answered_at(first: Option<int>, all: Seq<Happening>, n: int) -> Option<int>
    decreases n,
{
    if n <= 0 {
        first
    } else {
        match all[n - 1] {
            Happening::Answer { answered: Some(true), now_ms } => Some(now_ms as int),
            _ => answered_at(first, all, n - 1),
        }
    }
}

/// What the state tells of all that happened.
#[verifier::rlimit(60)]
#[verifier::spinoff_prover]
proof fn lemma_progressed(
    vad: VadConfig,
    delay_ms: int,
    answered: bool,
    start_ms: int,
    all: Seq<Happening>,
    n: int,
)
    requires
        0 <= n <= all.len(),
    ensures
        ({
            let start = Progress::fresh(vad, delay_ms, answered, start_ms);
            let p = progressed(start, all, n);
            let at = answered_at(
                if answered {
                    Some(start_ms)
                } else {
                    None
                },
                all,
                n,
            );
            &&& p.greet_after_ms == delay_ms
            &&& p.armed <==> at is Some
            &&& p.armed ==> p.deadline_ms == at->Some_0 + delay_ms
            &&& !p.greeted ==> delay_ms != 0 && forall|k: int|
                0 <= k < n ==> !(#[trigger] progressed(start, all, k)).greets_on(all[k])
            &&& !p.had_activity && !p.callee_active && !p.reconnected ==> forall|k: int|
                0 <= k < n ==> (#[trigger] progressed(start, all, k)).stays_quiet(all[k])
        }),
    decreases n,
{
    if n > 0 {
        lemma_progressed(vad, delay_ms, answered, start_ms, all, n - 1);
    }
}

/// Over any course of a call the greeting goes out at most once, and only where a delay is set, the
/// call was answered, the whole delay has passed since, and nobody has produced anything before.
pub proof fn greeting_law(
    vad: VadConfig,
    delay_ms: int,
    answered: bool,
    start_ms: int,
    all: Seq<Happening>,
    n: int,
)
    requires
        0 <= n < all.len(),
        progressed(Progress::fresh(vad, delay_ms, answered, start_ms), all, n).greets_on(all[n]),
    ensures
        ({
            let start = Progress::fresh(vad, delay_ms, answered, start_ms);
            let at = answered_at(
                if answered {
                    Some(start_ms)
                } else {
                    None
                },
                all,
                n,
            );
            &&& delay_ms != 0
            &&& at is Some
            &&& all[n]->Timer_now_ms >= at->Some_0 + delay_ms
            &&& forall|k: int|
                0 <= k < n ==> !(#[trigger] progressed(start, all, k)).greets_on(all[k])
                    && progressed(start, all, k).stays_quiet(all[k])
            &&& forall|k: int|
                n < k < all.len() ==> !(#[trigger] progressed(start, all, k)).greets_on(all[k])
        }),
{
    let start = Progress::fresh(vad, delay_ms, answered, start_ms);
    lemma_progressed(vad, delay_ms, answered, start_ms, all, n);
    assert forall|k: int| n < k < all.len() implies !(#[trigger] progressed(
        start,
        all,
        k,
    )).greets_on(all[k]) by {
        lemma_progressed(vad, delay_ms, answered, start_ms, all, k);
        assert(progressed(start, all, n).greets_on(all[n]));
    }
}

/// What one side has said since the last turn ended, within the first `n` of what happened: its
/// pieces of text, one after the other.
pub open spec fn said(all: Seq<Happening>, who: Role, n: int) -> Seq<char>
    decreases n,
{
    if n <= 0 {
        Seq::empty()
    } else {
        match all[n - 1] {
            Happening::Session { ev: Some(SessionEvent::TurnComplete), .. } => Seq::empty(),
            Happening::Session { ev: Some(SessionEvent::Transcript { role, text, .. }), .. } =>
            if role == who {
                said(all, who, n - 1) + text@
            } else {
                said(all, who, n - 1)
            },
            _ => said(all, who, n - 1),
        }
    }
}

/// What a side adds to the transcript at the end of a turn: one line of what it said, without the
/// white space around it, or nothing where there is no more than that.
pub open spec fn told_by(who: Role, text: Seq<char>, ts_ms: u64) -> Seq<Line> {
    if trimmed(text).len() == 0 {
        Seq::empty()
    } else {
        seq![Line { role: who, text: trimmed(text), ts_ms }]
    }
}

/// The conversation within the first `n` of what happened: turn by turn, at each one's end, what
/// the callee said in it and then what the model said.
pub open spec fn conversation(all: Seq<Happening>, n: int) -> Seq<Line>
    decreases n,
{
    if n <= 0 {
        Seq::empty()
    } else {
        match all[n - 1] {
            Happening::Session { ev: Some(SessionEvent::TurnComplete), now_ms } => conversation(
                all,
                n - 1,
            ) + told_by(Role::User, said(all, Role::User, n - 1), now_ms) + told_by(
                Role::Model,
                said(all, Role::Model, n - 1),
                now_ms,
            ),
            _ => conversation(all, n - 1),
        }
    }
}

/// Nothing that was told is lost: whatever happens, the transcript before is the beginning of the
/// transcript after, and only the end of a turn adds to it.
pub proof fn transcript_only_grows(p: Progress, h: Happening, end_ms: u64)
    ensures
        p.transcript.len() <= p.after(h).transcript.len(),
        p.after(h).transcript.take(p.transcript.len() as int) == p.transcript,
        !(h is Session && h->ev is Some && h->ev->Some_0 is TurnComplete) ==> p.after(h).transcript
            == p.transcript,
        p.flushed(end_ms).transcript.take(p.transcript.len() as int) == p.transcript,
        p.flushed(end_ms).transcript.len() <= p.transcript.len() + 2,
{
    assert(p.after(h).transcript.take(p.transcript.len() as int) =~= p.transcript);
    assert(p.flushed(end_ms).transcript.take(p.transcript.len() as int) =~= p.transcript);
}

/// The transcript of a session is the conversation, from its first turn on: at every moment each
/// turn that has ended is in it, in order, and with the turn that was cut short at the end it is
/// what the call leaves behind.
#[verifier::rlimit(60)]
#[verifier::spinoff_prover]
pub proof fn transcript_is_the_conversation(
    vad: VadConfig,
    delay_ms: int,
    answered: bool,
    start_ms: int,
    all: Seq<Happening>,
    n: int,
    end_ms: u64,
)
    requires
        0 <= n <= all.len(),
    ensures
        ({
            let p = progressed(Progress::fresh(vad, delay_ms, answered, start_ms), all, n);
            &&& p.transcript == conversation(all, n)
            &&& p.turn.user == said(all, Role::User, n)
            &&& p.turn.model == said(all, Role::Model, n)
            &&& p.flushed(end_ms).transcript == conversation(all, n) + told_by(
                Role::User,
                said(all, Role::User, n),
                end_ms,
            ) + told_by(Role::Model, said(all, Role::Model, n), end_ms)
        }),
    decreases n,
{
    let start = Progress::fresh(vad, delay_ms, answered, start_ms);
    let p = progressed(start, all, n);
    if n > 0 {
        let before = progressed(start, all, n - 1);
        transcript_is_the_conversation(vad, delay_ms, answered, start_ms, all, n - 1, end_ms);
        if let Happening::Session { ev, now_ms } = all[n - 1] {
            lemma_entries(before.turn, now_ms);
            assert(before.transcript + (told_by(Role::User, before.turn.user, now_ms) + told_by(
                Role::Model,
                before.turn.model,
                now_ms,
            )) =~= before.transcript + told_by(Role::User, before.turn.user, now_ms) + told_by(
                Role::Model,
                before.turn.model,
                now_ms,
            ));
        }
        assert(p.transcript =~= conversation(all, n));
        assert(p.turn.user =~= said(all, Role::User, n));
        assert(p.turn.model =~= said(all, Role::Model, n));
    }
    lemma_entries(p.turn, end_ms);
    assert(p.transcript + (told_by(Role::User, p.turn.user, end_ms) + told_by(
        Role::Model,
        p.turn.model,
        end_ms,
    )) =~= p.transcript + told_by(Role::User, p.turn.user, end_ms) + told_by(
        Role::Model,
        p.turn.model,
        end_ms,
    ));
}

proof fn lemma_entries(t: Turn, ts_ms: u64)
    ensures
        t.entries(ts_ms) == told_by(Role::User, t.user, ts_ms) + told_by(
            Role::Model,
            t.model,
            ts_ms,
        ),
{
}

/// What the session reports never makes the greeting go out: only the timer does.
pub proof fn session_events_never_greet(p: Progress, ev: Option<SessionEvent>, actions: Seq<Action>)
    requires
        p.answers(ev, actions),
    ensures
        !actions.contains(Action::Say(Cue::Greet)),
{
}

/// A reopened session asks for a repeat only when its context was lost in the middle of an
/// exchange, and it always drops what waited and what plays.
pub proof fn reconnect_recovers(p: Progress, resumed: bool, actions: Seq<Action>)
    requires
        p.answers(Some(SessionEvent::Opened { is_reconnect: true, resumed }), actions),
    ensures
        actions.len() >= 2,
        actions[0] == Action::DrainUplink,
        actions[1] == Action::Emit(Event::Interrupted),
        actions.contains(Action::Say(Cue::Resume)) <==> (!resumed && p.resume_needed),
        !actions.contains(Action::Say(Cue::Greet)),
{
    if p.lost_context(resumed) {
        assert(actions[2] == Action::Say(Cue::Resume));
    }
}

} // verus!
