//! The calls that a client can make: place a call, ask for its status and its transcript, and end
//! it. Each is a thin layer over the engine.
//!
//! The bodies that are sent back are JSON texts. The downlink loss, the one figure in them that is a
//! fraction, comes in as a JSON value.
use serde_json::Value;
use vstd::prelude::*;
use vstd::string::StringExecFns;

use crate::config::ScenarioConfig;
use crate::engine::{nth_id, EndCall, Engine};
use crate::gemini_live::{Role, TranscriptEntry};
use crate::json::{
    compact, contents, insert, items_of, new_array, new_bool, new_null, new_number, new_object,
    new_text, to_compact, Json,
};
use crate::queue::spot;
use crate::state::{lookup, CallQuality, CallRecord, CallState, Disposition};
use crate::text::{decimal, to_decimal, trim, trimmed};

verus! {

/// What a client asks for when it places a call.
#[derive(Debug)]
pub struct PlaceCallArgs {
    /// Callee number in E.164, e.g. "+79991234567".
    pub to_number: String,
    /// JSON Schema the agent fills and submits at the end of the call.
    pub goal_schema: Value,
    /// Optional contact context merged into the prompt.
    pub context: Option<Value>,
    /// Optional persona for this call in place of the deployment's.
    pub prompt_override: Option<String>,
    /// Optional UTC epoch ms to place the call at. Past or absent means now.
    pub schedule_at: Option<u64>,
}

/// Why a request is refused.
#[derive(Debug)]
pub enum ToolError {
    InvalidParams(String),
}

impl ToolError {
    /// The refusal's message.
    pub open spec fn message(self) -> Seq<char> {
        match self {
            ToolError::InvalidParams(m) => m@,
        }
    }
}

/// What a client gets back for a call it placed.
#[derive(Debug)]
pub enum Reply {
    /// A body with the call id, at once.
    Immediate(String),
    /// A task that follows the call: how long it may live, and how often to ask for it.
    Task { ttl_ms: u64, poll_ms: u64 },
}

/// A placed call.
#[derive(Debug)]
pub struct Placed {
    pub call_id: String,
    pub reply: Reply,
}

/// The refusal of an id that is on no record.
pub fn unknown_call(id: &str) -> (r: ToolError)
    ensures
        r.message() == "unknown call_id: "@ + id@,
{
    let mut s: String = "unknown call_id: ".to_owned();
    s.append(id);
    ToolError::InvalidParams(s)
}

/// The label of a call: its state while it is live, its disposition once it has ended.
pub open spec fn label_of(rec: CallRecord) -> Seq<char> {
    match rec.state {
        CallState::InProgress => "in progress"@,
        CallState::Ended => match rec.disposition {
            Some(d) => d.name(),
            None => "ended"@,
        },
        s => s.name(),
    }
}

/// Human-readable label for a call record.
pub fn call_status_label(rec: &CallRecord) -> (r: &'static str)
    ensures
        r@ == label_of(*rec),
{
    match rec.state {
        CallState::InProgress => "in progress",
        CallState::Ended => match rec.disposition {
            Some(d) => d.as_str(),
            None => "ended",
        },
        s => s.as_str(),
    }
}

/// Whether a state is terminal: the call is neither waiting nor on the line.
pub fn is_terminal_state(state: CallState) -> (r: bool)
    ensures
        r == !(state == CallState::Queued || state.is_active()),
{
    match state {
        CallState::Queued | CallState::Ringing | CallState::InProgress => false,
        _ => true,
    }
}

/// A task's progress message.
pub fn status_message(call_id: &str, rec: &CallRecord, queued_position: Option<usize>) -> (r:
    String)
    ensures
        r@ == (match queued_position {
            Some(n) => "call "@ + call_id@ + ": "@ + label_of(*rec) + " (queue position "@
                + decimal(n as int) + ")"@,
            None => "call "@ + call_id@ + ": "@ + label_of(*rec),
        }),
{
    let mut s: String = "call ".to_owned();
    s.append(call_id);
    s.append(": ");
    s.append(call_status_label(rec));
    if let Some(n) = queued_position {
        s.append(" (queue position ");
        s.append(to_decimal(n as u64).as_str());
        s.append(")");
    }
    s
}

/// How a call's task ends other than with a result.
#[derive(Debug)]
pub enum TaskExit {
    Cancelled,
    Error(String),
}

/// An optional text as JSON.
pub open spec fn text_or_null(s: Option<String>) -> Json {
    match s {
        Some(t) => Json::Text(t@),
        None => Json::Null,
    }
}

/// An optional value as JSON.
pub open spec fn value_or_null(v: Option<Value>) -> Json {
    match v {
        Some(x) => contents(x),
        None => Json::Null,
    }
}

/// An optional disposition as JSON.
pub open spec fn disposition_json(d: Option<Disposition>) -> Json {
    match d {
        Some(x) => Json::Text(x.name()),
        None => Json::Null,
    }
}

fn text_value(s: &Option<String>) -> (r: Value)
    ensures
        contents(r) == text_or_null(*s),
{
    match s {
        Some(t) => new_text(t.as_str()),
        None => new_null(),
    }
}

fn goal_value(v: &Option<Value>) -> (r: Value)
    ensures
        contents(r) == value_or_null(*v),
{
    match v {
        Some(x) => x.clone(),
        None => new_null(),
    }
}

fn disposition_value(d: Option<Disposition>) -> (r: Value)
    ensures
        contents(r) == disposition_json(d),
{
    match d {
        Some(x) => new_text(x.as_str()),
        None => new_null(),
    }
}

/// A role's name in a body.
pub open spec fn role_name(r: Role) -> Seq<char> {
    match r {
        Role::User => "user"@,
        Role::Model => "model"@,
    }
}

/// A turn as JSON: who spoke, what, and when.
pub open spec fn turn_json(t: TranscriptEntry) -> Json {
    Json::Object(
        Map::<Seq<char>, Json>::empty().insert("role"@, Json::Text(role_name(t.role))).insert(
            "text"@,
            Json::Text(t.text@),
        ).insert("ts_ms"@, Json::Number(decimal(t.ts_ms as int))),
    )
}

/// A transcript as JSON, turn by turn.
pub open spec fn transcript_json(t: Seq<TranscriptEntry>) -> Json {
    Json::Array(t.map_values(|e: TranscriptEntry| turn_json(e)))
}

/// A transcript as a JSON value.
pub fn transcript_value(t: &Vec<TranscriptEntry>) -> (r: Value)
    ensures
        contents(r) == transcript_json(t@),
{
    let mut out: Vec<Value> = Vec::new();
    let mut i: usize = 0;
    while i < t.len()
        invariant
            i <= t@.len(),
            out@.len() == i,
            forall|j: int| 0 <= j < i ==> contents(#[trigger] out@[j]) == turn_json(t@[j]),
        decreases t@.len() - i,
    {
        let e: &TranscriptEntry = &t[i];
        let mut v: Value = new_object();
        insert(
            &mut v,
            "role",
            new_text(
                match e.role {
                    Role::User => "user",
                    Role::Model => "model",
                },
            ),
        );
        insert(&mut v, "text", new_text(e.text.as_str()));
        insert(&mut v, "ts_ms", new_number(e.ts_ms));
        out.push(v);
        i = i + 1;
    }
    assert(items_of(out@) =~= t@.map_values(|e: TranscriptEntry| turn_json(e)));
    new_array(out)
}

/// The quality figures of a call as JSON, member by member; `loss` stands for the downlink loss.
pub open spec fn quality_json(q: CallQuality, loss: Json) -> Json {
    Json::Object(
        Map::<Seq<char>, Json>::empty().insert(
            "underruns"@,
            Json::Number(decimal(q.underruns as int)),
        ).insert("starved_ms"@, Json::Number(decimal(q.starved_ms as int))).insert(
            "max_gap_ms"@,
            Json::Number(decimal(q.max_gap_ms as int)),
        ).insert("uplink_received"@, Json::Number(decimal(q.uplink_received as int))).insert(
            "uplink_lost"@,
            Json::Number(decimal(q.uplink_lost as int)),
        ).insert("uplink_reordered"@, Json::Number(decimal(q.uplink_reordered as int))).insert(
            "uplink_rms"@,
            Json::Number(decimal(q.uplink_rms as int)),
        ).insert("downlink_loss_pct"@, loss).insert(
            "downlink_jitter_ms"@,
            Json::Number(decimal(q.downlink_jitter_ms as int)),
        ).insert("downlink_rtt_ms"@, Json::Number(decimal(q.downlink_rtt_ms as int))),
    )
}

/// The quality figures of a call as a JSON value; `loss` is its downlink loss as one.
pub fn quality_value(q: &CallQuality, loss: Value) -> (r: Value)
    ensures
        contents(r) == quality_json(*q, contents(loss)),
{
    let mut v: Value = new_object();
    insert(&mut v, "underruns", new_number(q.underruns));
    insert(&mut v, "starved_ms", new_number(q.starved_ms));
    insert(&mut v, "max_gap_ms", new_number(q.max_gap_ms));
    insert(&mut v, "uplink_received", new_number(q.uplink_received));
    insert(&mut v, "uplink_lost", new_number(q.uplink_lost));
    insert(&mut v, "uplink_reordered", new_number(q.uplink_reordered));
    insert(&mut v, "uplink_rms", new_number(q.uplink_rms));
    insert(&mut v, "downlink_loss_pct", loss);
    insert(&mut v, "downlink_jitter_ms", new_number(q.downlink_jitter_ms as u64));
    insert(&mut v, "downlink_rtt_ms", new_number(q.downlink_rtt_ms as u64));
    v
}

/// The result of a call's task: the collected data of an answered call, with the disposition where
/// a machine answered.
pub open spec fn task_body(rec: CallRecord, now_ms: u64) -> Json {
    let m = Map::<Seq<char>, Json>::empty().insert(
        "transcript"@,
        transcript_json(rec.transcript@),
    ).insert("goal"@, value_or_null(rec.goal)).insert("server_time_unix"@, Json::Number(decimal(now_ms as int)));
    if rec.disposition == Some(Disposition::Completed) {
        Json::Object(m)
    } else {
        Json::Object(m.insert("disposition"@, disposition_json(rec.disposition)))
    }
}

/// Whether a disposition is of an answered call, which always has a result.
pub open spec fn has_result(d: Disposition) -> bool {
    d == Disposition::Completed || d == Disposition::Voicemail || d == Disposition::Announcement
        || d == Disposition::Ivr || d == Disposition::Hold
}

/// Map a finished call's record to its task's result: the data of an answered call, `Cancelled`
/// for a cancelled one, an error for every technical or dial failure. The record's own error text
/// is preferred over the disposition's name.
pub fn task_result_for(rec: Option<&CallRecord>, now_ms: u64) -> (r: Result<String, TaskExit>)
    ensures
        match rec {
            None => r matches Err(TaskExit::Error(m)) && m@ == "call ended with no disposition"@,
            Some(rec) => match rec.disposition {
                None => r matches Err(TaskExit::Error(m)) && m@
                    == "call ended with no disposition"@,
                Some(d) => if has_result(d) {
                    r is Ok && r->Ok_0@ == compact(task_body(*rec, now_ms))
                } else if d == Disposition::Cancelled {
                    r matches Err(TaskExit::Cancelled)
                } else {
                    r matches Err(TaskExit::Error(m)) && m@ == (match rec.error {
                        Some(e) => e@,
                        None => "call ended: "@ + d.name(),
                    })
                },
            },
        },
{
    let none: &str = "call ended with no disposition";
    let rec: &CallRecord = match rec {
        Some(rec) => rec,
        None => {
            return Err(TaskExit::Error(none.to_owned()));
        },
    };
    let d: Disposition = match rec.disposition {
        Some(d) => d,
        None => {
            return Err(TaskExit::Error(none.to_owned()));
        },
    };
    match d {
        Disposition::Completed
        | Disposition::Voicemail
        | Disposition::Announcement
        | Disposition::Ivr
        | Disposition::Hold => {
            let mut body: Value = new_object();
            insert(&mut body, "transcript", transcript_value(&rec.transcript));
            insert(&mut body, "goal", goal_value(&rec.goal));
            insert(&mut body, "server_time_unix", new_number(now_ms));
            if d != Disposition::Completed {
                insert(&mut body, "disposition", disposition_value(rec.disposition));
            }
            Ok(to_compact(&body))
        },
        Disposition::Cancelled => Err(TaskExit::Cancelled),
        _ => {
            match &rec.error {
                Some(e) => Err(TaskExit::Error(e.clone())),
                None => {
                    let mut s: String = "call ended: ".to_owned();
                    s.append(d.as_str());
                    Err(TaskExit::Error(s))
                },
            }
        },
    }
}

/// The body that names a call that was just placed.
pub open spec fn placed_body(call_id: Seq<char>, now_ms: u64) -> Json {
    Json::Object(
        Map::<Seq<char>, Json>::empty().insert("call_id"@, Json::Text(call_id)).insert(
            "server_time_unix"@,
            Json::Number(decimal(now_ms as int)),
        ),
    )
}

/// The status of a call.
pub open spec fn status_body(
    rec: CallRecord,
    queued_position: Option<usize>,
    loss: Json,
    now_ms: u64,
) -> Json {
    Json::Object(
        Map::<Seq<char>, Json>::empty().insert("call_id"@, Json::Text(rec.call_id@)).insert(
            "state"@,
            Json::Text(rec.state.name()),
        ).insert("number"@, Json::Text(rec.number@)).insert(
            "started_ms"@,
            Json::Number(decimal(rec.started_ms as int)),
        ).insert(
            "ended_ms"@,
            match rec.ended_ms {
                Some(t) => Json::Number(decimal(t as int)),
                None => Json::Null,
            },
        ).insert("error"@, text_or_null(rec.error)).insert(
            "queued_position"@,
            match queued_position {
                Some(n) => Json::Number(decimal(n as int)),
                None => Json::Null,
            },
        ).insert("quality"@, quality_json(rec.quality, loss)).insert(
            "disposition"@,
            disposition_json(rec.disposition),
        ).insert(
            "goal"@,
            value_or_null(rec.goal),
        ).insert("attempt"@, Json::Number(decimal(rec.attempt as int))).insert(
            "server_time_unix"@,
            Json::Number(decimal(now_ms as int)),
        ),
    )
}

/// The transcript of a call.
pub open spec fn transcript_body(rec: CallRecord, loss: Json) -> Json {
    Json::Object(
        Map::<Seq<char>, Json>::empty().insert("call_id"@, Json::Text(rec.call_id@)).insert(
            "state"@,
            Json::Text(rec.state.name()),
        ).insert("disposition"@, disposition_json(rec.disposition)).insert(
            "transcript"@,
            transcript_json(rec.transcript@),
        ).insert("goal"@, value_or_null(rec.goal)).insert(
            "quality"@,
            quality_json(rec.quality, loss),
        ),
    )
}

/// Whether a call was told to end.
pub open spec fn ended_body(call_id: Seq<char>, signalled: bool) -> Json {
    Json::Object(
        Map::<Seq<char>, Json>::empty().insert("call_id"@, Json::Text(call_id)).insert(
            "signalled"@,
            Json::Bool(signalled),
        ),
    )
}

/// The tools over an engine.
pub struct KutsuServer {
    pub engine: Engine,
}

/// When a call is to be placed: at the time asked for where that lies ahead, now otherwise.
pub open spec fn due(schedule_at: Option<u64>, now_ms: u64) -> u64 {
    match schedule_at {
        Some(t) => if t > now_ms {
            t
        } else {
            now_ms
        },
        None => now_ms,
    }
}

impl KutsuServer {
    pub fn new(engine: Engine) -> (r: Self)
        ensures
            r.engine == engine,
    {
        KutsuServer { engine }
    }

    /// Place a call. A plain client, and any scheduled call, gets the call id at once; a client
    /// that supports tasks gets a task that lives for the longest a call may take and half a
    /// minute more.
    pub fn place_call_inner(
        &mut self,
        a: PlaceCallArgs,
        client_supports_tasks: bool,
        now_ms: u64,
    ) -> (r: Result<Placed, ToolError>)
        requires
            old(self).engine@.wf(),
            old(self).engine@.seq < usize::MAX,
            old(self).engine@.max_call_secs * 1000 + 30_000 <= u64::MAX,
        ensures
            ({
                let s = old(self).engine@;
                let t = final(self).engine@;
                if trimmed(a.to_number@).len() == 0 {
                    &&& r is Err
                    &&& r->Err_0.message() == "to_number must not be empty"@
                    &&& t == s
                } else {
                    &&& r is Ok
                    &&& r->Ok_0.call_id@ == nth_id(s.seq)
                    &&& s.placed(
                        t,
                        a.to_number@,
                        ScenarioConfig {
                            goal_schema: a.goal_schema,
                            context: a.context,
                            prompt_override: a.prompt_override,
                        },
                        due(a.schedule_at, now_ms),
                        1,
                        now_ms,
                    )
                    &&& if due(a.schedule_at, now_ms) > now_ms || !client_supports_tasks {
                        r->Ok_0.reply matches Reply::Immediate(body) && body@ == compact(
                            placed_body(nth_id(s.seq), now_ms),
                        )
                    } else {
                        r->Ok_0.reply == (Reply::Task {
                            ttl_ms: (s.max_call_secs * 1000 + 30_000) as u64,
                            poll_ms: t.poll_interval(nth_id(s.seq)) as u64,
                        })
                    }
                }
            }),
            final(self).engine@.wf(),
    {
        let number: String = trim(a.to_number.as_str());
        if number.as_str().unicode_len() == 0 {
            return Err(ToolError::InvalidParams("to_number must not be empty".to_owned()));
        }
        let scenario = ScenarioConfig {
            goal_schema: a.goal_schema,
            context: a.context,
            prompt_override: a.prompt_override,
        };
        let eligible: u64 = match a.schedule_at {
            Some(t) => if t > now_ms {
                t
            } else {
                now_ms
            },
            None => now_ms,
        };
        let call_id: String = self.engine.place_call_at(a.to_number, scenario, eligible, 1, now_ms);
        if eligible > now_ms || !client_supports_tasks {
            let mut body: Value = new_object();
            insert(&mut body, "call_id", new_text(call_id.as_str()));
            insert(&mut body, "server_time_unix", new_number(now_ms));
            let reply: Reply = Reply::Immediate(to_compact(&body));
            return Ok(Placed { call_id, reply });
        }
        let ttl_ms: u64 = self.engine.max_call_secs() * 1000 + 30_000;
        let poll_ms: u64 = self.engine.suggested_poll_interval_ms(call_id.as_str());
        Ok(Placed { call_id, reply: Reply::Task { ttl_ms, poll_ms } })
    }

    /// A call's current state, disposition and filled goal. `loss` is its downlink loss.
    pub fn get_call_status(&self, call_id: &str, loss: Value, now_ms: u64) -> (r: Result<
        String,
        ToolError,
    >)
        ensures
            match lookup(self.engine@.records, call_id@) {
                None => r is Err && r->Err_0.message() == "unknown call_id: "@ + call_id@,
                Some(rec) => r is Ok && exists|pos: Option<usize>|
                    (match pos {
                        Some(n) => spot(self.engine@.pending, call_id@)
                            < self.engine@.pending.len() && n == spot(
                            self.engine@.pending,
                            call_id@,
                        ) + 1,
                        None => spot(self.engine@.pending, call_id@)
                            == self.engine@.pending.len(),
                    }) && r->Ok_0@ == compact(
                        #[trigger] status_body(rec, pos, contents(loss), now_ms),
                    ),
            },
    {
        let rec: &CallRecord = match self.engine.store().get(call_id) {
            Some(rec) => rec,
            None => {
                return Err(unknown_call(call_id));
            },
        };
        let pos: Option<usize> = self.engine.queued_position(call_id);
        let ghost told = contents(loss);
        let mut body: Value = new_object();
        insert(&mut body, "call_id", new_text(rec.call_id.as_str()));
        insert(&mut body, "state", new_text(rec.state.as_str()));
        insert(&mut body, "number", new_text(rec.number.as_str()));
        insert(&mut body, "started_ms", new_number(rec.started_ms));
        let ended: Value = match rec.ended_ms {
            Some(t) => new_number(t),
            None => new_null(),
        };
        insert(&mut body, "ended_ms", ended);
        insert(&mut body, "error", text_value(&rec.error));
        let queued: Value = match pos {
            Some(n) => new_number(n as u64),
            None => new_null(),
        };
        insert(&mut body, "queued_position", queued);
        insert(&mut body, "quality", quality_value(&rec.quality, loss));
        insert(&mut body, "disposition", disposition_value(rec.disposition));
        insert(&mut body, "goal", goal_value(&rec.goal));
        insert(&mut body, "attempt", new_number(rec.attempt as u64));
        insert(&mut body, "server_time_unix", new_number(now_ms));
        assert(contents(body) == status_body(*rec, pos, told, now_ms));
        Ok(to_compact(&body))
    }

    /// The full transcript and filled goal of a call. `loss` is its downlink loss.
    pub fn get_call_transcript(&self, call_id: &str, loss: Value) -> (r: Result<
        String,
        ToolError,
    >)
        ensures
            match lookup(self.engine@.records, call_id@) {
                None => r is Err && r->Err_0.message() == "unknown call_id: "@ + call_id@,
                Some(rec) => r is Ok && r->Ok_0@ == compact(
                    transcript_body(rec, contents(loss)),
                ),
            },
    {
        let rec: &CallRecord = match self.engine.store().get(call_id) {
            Some(rec) => rec,
            None => {
                return Err(unknown_call(call_id));
            },
        };
        let mut body: Value = new_object();
        insert(&mut body, "call_id", new_text(rec.call_id.as_str()));
        insert(&mut body, "state", new_text(rec.state.as_str()));
        insert(&mut body, "disposition", disposition_value(rec.disposition));
        insert(&mut body, "transcript", transcript_value(&rec.transcript));
        insert(&mut body, "goal", goal_value(&rec.goal));
        insert(&mut body, "quality", quality_value(&rec.quality, loss));
        Ok(to_compact(&body))
    }

    /// End a running or queued call. Also says what became of it: a running call's task is still
    /// to be told.
    pub fn end_call(&mut self, call_id: &str, now_ms: u64) -> (r: Result<
        (String, EndCall),
        ToolError,
    >)
        requires
            old(self).engine@.wf(),
        ensures
            if lookup(old(self).engine@.records, call_id@) is None {
                &&& r is Err
                &&& r->Err_0.message() == "unknown call_id: "@ + call_id@
                &&& final(self).engine@ == old(self).engine@
            } else {
                &&& r is Ok
                &&& r->Ok_0.1 == old(self).engine@.end_outcome(call_id@)
                &&& r->Ok_0.0@ == compact(
                    ended_body(
                        call_id@,
                        old(self).engine@.end_outcome(call_id@) != EndCall::Unknown,
                    ),
                )
                &&& final(self).engine@ == old(self).engine@.end_requested(call_id@, now_ms)
            },
            final(self).engine@.wf(),
    {
        if self.engine.store().get(call_id).is_none() {
            return Err(unknown_call(call_id));
        }
        let outcome: EndCall = self.engine.end_call(call_id, now_ms);
        let mut body: Value = new_object();
        insert(&mut body, "call_id", new_text(call_id));
        insert(&mut body, "signalled", new_bool(outcome != EndCall::Unknown));
        Ok((to_compact(&body), outcome))
    }
}

/// A scheduled call never becomes a task, and a time that has passed means now.
pub proof fn past_schedule_means_now(schedule_at: Option<u64>, now_ms: u64)
    ensures
        due(schedule_at, now_ms) >= now_ms,
        due(None, now_ms) == now_ms,
        due(schedule_at, now_ms) > now_ms <==> schedule_at is Some && schedule_at->Some_0 > now_ms,
{
}

/// Every call that has ended with a disposition has a task result of exactly one kind, and only a
/// cancelled one is told as such.
pub proof fn answered_calls_have_results(d: Disposition)
    ensures
        has_result(d) ==> d != Disposition::Cancelled,
        has_result(d) <==> d != Disposition::Cancelled && d != Disposition::Busy && d
            != Disposition::NoAnswer && d != Disposition::Rejected && d != Disposition::NotFound
            && d != Disposition::Unavailable && d != Disposition::Failed,
{
}

/// A call's quality is told figure by figure, each under its own name.
pub proof fn quality_is_told_by_name(q: CallQuality, loss: Json)
    ensures
        ({
            let m = quality_json(q, loss)->Object_0;
            &&& quality_json(q, loss) is Object
            &&& m.contains_pair("underruns"@, Json::Number(decimal(q.underruns as int)))
            &&& m.contains_pair("starved_ms"@, Json::Number(decimal(q.starved_ms as int)))
            &&& m.contains_pair("max_gap_ms"@, Json::Number(decimal(q.max_gap_ms as int)))
            &&& m.contains_pair(
                "uplink_received"@,
                Json::Number(decimal(q.uplink_received as int)),
            )
            &&& m.contains_pair("uplink_lost"@, Json::Number(decimal(q.uplink_lost as int)))
            &&& m.contains_pair(
                "uplink_reordered"@,
                Json::Number(decimal(q.uplink_reordered as int)),
            )
            &&& m.contains_pair("uplink_rms"@, Json::Number(decimal(q.uplink_rms as int)))
            &&& m.contains_pair("downlink_loss_pct"@, loss)
            &&& m.contains_pair(
                "downlink_jitter_ms"@,
                Json::Number(decimal(q.downlink_jitter_ms as int)),
            )
            &&& m.contains_pair(
                "downlink_rtt_ms"@,
                Json::Number(decimal(q.downlink_rtt_ms as int)),
            )
        }),
{
    reveal_strlit("underruns");
    reveal_strlit("starved_ms");
    reveal_strlit("max_gap_ms");
    reveal_strlit("uplink_received");
    reveal_strlit("uplink_lost");
    reveal_strlit("uplink_reordered");
    reveal_strlit("uplink_rms");
    reveal_strlit("downlink_loss_pct");
    reveal_strlit("downlink_jitter_ms");
    reveal_strlit("downlink_rtt_ms");
    assert("underruns"@.len() == 9);
    assert("starved_ms"@.len() == 10);
    assert("max_gap_ms"@.len() == 10);
    assert("uplink_received"@.len() == 15);
    assert("uplink_lost"@.len() == 11);
    assert("uplink_reordered"@.len() == 16);
    assert("uplink_rms"@.len() == 10);
    assert("downlink_loss_pct"@.len() == 17);
    assert("downlink_jitter_ms"@.len() == 18);
    assert("downlink_rtt_ms"@.len() == 15);
    assert("starved_ms"@[0] != "max_gap_ms"@[0]);
    assert("starved_ms"@[0] != "uplink_rms"@[0]);
    assert("max_gap_ms"@[0] != "uplink_rms"@[0]);
    assert("uplink_received"@[0] != "downlink_rtt_ms"@[0]);
}

/// A call's status tells its record: the call and its number, where it stands and where it waits,
/// when it began and ended, what came of it and why not, and how often it was dialed.
pub proof fn status_tells_the_record(
    rec: CallRecord,
    queued_position: Option<usize>,
    loss: Json,
    now_ms: u64,
)
    ensures
        ({
            let m = status_body(rec, queued_position, loss, now_ms)->Object_0;
            &&& status_body(rec, queued_position, loss, now_ms) is Object
            &&& m.contains_pair("call_id"@, Json::Text(rec.call_id@))
            &&& m.contains_pair("state"@, Json::Text(rec.state.name()))
            &&& m.contains_pair("number"@, Json::Text(rec.number@))
            &&& m.contains_pair("started_ms"@, Json::Number(decimal(rec.started_ms as int)))
            &&& rec.ended_ms is Some ==> m.contains_pair(
                "ended_ms"@,
                Json::Number(decimal(rec.ended_ms->Some_0 as int)),
            )
            &&& rec.ended_ms is None ==> m.contains_pair("ended_ms"@, Json::Null)
            &&& rec.error is Some ==> m.contains_pair("error"@, Json::Text(rec.error->Some_0@))
            &&& rec.error is None ==> m.contains_pair("error"@, Json::Null)
            &&& queued_position is Some ==> m.contains_pair(
                "queued_position"@,
                Json::Number(decimal(queued_position->Some_0 as int)),
            )
            &&& queued_position is None ==> m.contains_pair("queued_position"@, Json::Null)
            &&& m.contains_pair("quality"@, quality_json(rec.quality, loss))
            &&& rec.disposition is Some ==> m.contains_pair(
                "disposition"@,
                Json::Text(rec.disposition->Some_0.name()),
            )
            &&& rec.disposition is None ==> m.contains_pair("disposition"@, Json::Null)
            &&& rec.goal is Some ==> m.contains_pair("goal"@, contents(rec.goal->Some_0))
            &&& rec.goal is None ==> m.contains_pair("goal"@, Json::Null)
            &&& m.contains_pair("attempt"@, Json::Number(decimal(rec.attempt as int)))
            &&& m.contains_pair("server_time_unix"@, Json::Number(decimal(now_ms as int)))
        }),
{
    reveal_strlit("call_id");
    reveal_strlit("state");
    reveal_strlit("number");
    reveal_strlit("started_ms");
    reveal_strlit("ended_ms");
    reveal_strlit("error");
    reveal_strlit("queued_position");
    reveal_strlit("quality");
    reveal_strlit("disposition");
    reveal_strlit("goal");
    reveal_strlit("attempt");
    reveal_strlit("server_time_unix");
    assert("call_id"@.len() == 7);
    assert("state"@.len() == 5);
    assert("number"@.len() == 6);
    assert("started_ms"@.len() == 10);
    assert("ended_ms"@.len() == 8);
    assert("error"@.len() == 5);
    assert("queued_position"@.len() == 15);
    assert("quality"@.len() == 7);
    assert("disposition"@.len() == 11);
    assert("goal"@.len() == 4);
    assert("attempt"@.len() == 7);
    assert("server_time_unix"@.len() == 16);
    assert("call_id"@[0] != "quality"@[0]);
    assert("call_id"@[0] != "attempt"@[0]);
    assert("state"@[0] != "error"@[0]);
    assert("quality"@[0] != "attempt"@[0]);
}

/// A transcript is told turn by turn, in order: who spoke, what, and when.
pub proof fn transcript_is_told_in_order(t: Seq<TranscriptEntry>, i: int)
    requires
        0 <= i < t.len(),
    ensures
        ({
            let all = transcript_json(t)->Array_0;
            let m = all[i]->Object_0;
            &&& transcript_json(t) is Array
            &&& all.len() == t.len()
            &&& all[i] is Object
            &&& t[i].role == Role::User ==> m.contains_pair("role"@, Json::Text("user"@))
            &&& t[i].role == Role::Model ==> m.contains_pair("role"@, Json::Text("model"@))
            &&& m.contains_pair("text"@, Json::Text(t[i].text@))
            &&& m.contains_pair("ts_ms"@, Json::Number(decimal(t[i].ts_ms as int)))
        }),
{
    reveal_strlit("role");
    reveal_strlit("text");
    reveal_strlit("ts_ms");
    assert("role"@.len() == 4);
    assert("text"@.len() == 4);
    assert("ts_ms"@.len() == 5);
    assert("role"@[0] != "text"@[0]);
}

/// A call's transcript comes with what it is of: the call, where it stands, what came of it.
pub proof fn transcript_body_tells_the_record(rec: CallRecord, loss: Json)
    ensures
        ({
            let m = transcript_body(rec, loss)->Object_0;
            &&& transcript_body(rec, loss) is Object
            &&& m.contains_pair("call_id"@, Json::Text(rec.call_id@))
            &&& m.contains_pair("state"@, Json::Text(rec.state.name()))
            &&& rec.disposition is Some ==> m.contains_pair(
                "disposition"@,
                Json::Text(rec.disposition->Some_0.name()),
            )
            &&& rec.disposition is None ==> m.contains_pair("disposition"@, Json::Null)
            &&& m.contains_pair("transcript"@, transcript_json(rec.transcript@))
            &&& rec.goal is Some ==> m.contains_pair("goal"@, contents(rec.goal->Some_0))
            &&& rec.goal is None ==> m.contains_pair("goal"@, Json::Null)
            &&& m.contains_pair("quality"@, quality_json(rec.quality, loss))
        }),
{
    reveal_strlit("call_id");
    reveal_strlit("state");
    reveal_strlit("disposition");
    reveal_strlit("transcript");
    reveal_strlit("goal");
    reveal_strlit("quality");
    assert("call_id"@.len() == 7);
    assert("state"@.len() == 5);
    assert("disposition"@.len() == 11);
    assert("transcript"@.len() == 10);
    assert("goal"@.len() == 4);
    assert("quality"@.len() == 7);
    assert("call_id"@[0] != "quality"@[0]);
}

/// A task's result holds what was said and the filled goal; it names the disposition exactly where
/// that is not a completed conversation.
pub proof fn task_result_tells_what_was_collected(rec: CallRecord, now_ms: u64)
    ensures
        ({
            let m = task_body(rec, now_ms)->Object_0;
            &&& task_body(rec, now_ms) is Object
            &&& m.contains_pair("transcript"@, transcript_json(rec.transcript@))
            &&& rec.goal is Some ==> m.contains_pair("goal"@, contents(rec.goal->Some_0))
            &&& rec.goal is None ==> m.contains_pair("goal"@, Json::Null)
            &&& m.contains_pair("server_time_unix"@, Json::Number(decimal(now_ms as int)))
            &&& m.contains_key("disposition"@) <==> rec.disposition != Some(Disposition::Completed)
            &&& rec.disposition is Some && rec.disposition->Some_0 != Disposition::Completed
                ==> m.contains_pair("disposition"@, Json::Text(rec.disposition->Some_0.name()))
        }),
{
    reveal_strlit("transcript");
    reveal_strlit("goal");
    reveal_strlit("server_time_unix");
    reveal_strlit("disposition");
    assert("transcript"@.len() == 10);
    assert("goal"@.len() == 4);
    assert("server_time_unix"@.len() == 16);
    assert("disposition"@.len() == 11);
}

/// What a client is told when it places or ends a call: the id, and when or whether.
pub proof fn short_replies_name_the_call(call_id: Seq<char>, now_ms: u64, signalled: bool)
    ensures
        placed_body(call_id, now_ms)->Object_0.contains_pair("call_id"@, Json::Text(call_id)),
        placed_body(call_id, now_ms)->Object_0.contains_pair(
            "server_time_unix"@,
            Json::Number(decimal(now_ms as int)),
        ),
        ended_body(call_id, signalled)->Object_0.contains_pair("call_id"@, Json::Text(call_id)),
        ended_body(call_id, signalled)->Object_0.contains_pair("signalled"@, Json::Bool(signalled)),
{
    reveal_strlit("call_id");
    reveal_strlit("server_time_unix");
    reveal_strlit("signalled");
    assert("call_id"@.len() == 7);
    assert("server_time_unix"@.len() == 16);
    assert("signalled"@.len() == 9);
}

/// The label of a call that has ended is how it turned out, and that of any other call where it
/// stands.
pub proof fn label_tells_the_outcome(rec: CallRecord)
    ensures
        rec.state == CallState::Ended && rec.disposition is Some ==> label_of(rec)
            == rec.disposition->Some_0.name(),
        rec.state == CallState::Ended && rec.disposition is None ==> label_of(rec)
            == CallState::Ended.name(),
        rec.state == CallState::InProgress ==> label_of(rec) == "in progress"@,
        rec.state != CallState::Ended && rec.state != CallState::InProgress ==> label_of(rec)
            == rec.state.name(),
{
}

/// The task of a call that has ended has a result exactly where the call was answered; a cancelled
/// one is told as such, and any other fails with the record's own error where it has one.
pub proof fn task_ends_as_the_call_did(
    rec: CallRecord,
    d: Disposition,
    now_ms: u64,
    r: Result<String, TaskExit>,
)
    requires
        rec.disposition == Some(d),
        call_ensures(task_result_for, (Some(&rec), now_ms), r),
    ensures
        r is Ok <==> d == Disposition::Completed || d == Disposition::Voicemail || d
            == Disposition::Announcement || d == Disposition::Ivr || d == Disposition::Hold,
        r is Err && r->Err_0 is Cancelled <==> d == Disposition::Cancelled,
        r is Err && r->Err_0 is Error && rec.error is Some ==> r->Err_0->Error_0@
            == rec.error->Some_0@,
        r is Ok ==> r->Ok_0@ == compact(task_body(rec, now_ms)),
{
}

/// A call is over exactly where it neither waits nor rings nor talks.
pub proof fn terminal_is_not_under_way(state: CallState, r: bool)
    requires
        call_ensures(is_terminal_state, (state,), r),
    ensures
        r <==> state != CallState::Queued && state != CallState::Ringing && state
            != CallState::InProgress,
{
}

} // verus!
