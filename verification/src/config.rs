//! Configuration of the call server.
//!
//! [`ServerConfig`] holds the deployment-stable settings and [`PromptsConfig`] the prompt text;
//! [`ServerConfig::assemble_system_instruction`] composes a call's system instruction.
//! [`ScenarioConfig`] is the per-call layer: the goal schema, optional context and an optional
//! persona. Fractions are held as [`Single`], paths and addresses as text.
use serde_json::Value;
use vstd::prelude::*;
use vstd::string::StringExecFns;

use crate::json::{compact, contents, pretty, to_compact, to_pretty};
use crate::single::Single;
use crate::text::{
    begins, lemma_occurs, lemma_still_occurs, lowered, occurs, replace, replaced, same, to_lower,
    trim, trimmed,
};

pub use crate::schema::{augment_goal_schema, sanitize_gemini_schema};

verus! {

/// Signaling and media transport of the SIP trunk.
#[derive(Debug, Clone, Copy, PartialEq, Eq, Structural)]
pub enum SipTransportKind {
    Udp,
    Tls,
}

impl Default for SipTransportKind {
    fn default() -> (r: Self)
        ensures
            r == SipTransportKind::Udp,
    {
        SipTransportKind::Udp
    }
}

/// Outbound SIP trunk configuration.
#[derive(Debug, Clone)]
pub struct SipConfig {
    /// SIP server / trunk as `host:port`.
    pub server: String,
    /// Digest username (also the default caller identity).
    pub username: String,
    /// Digest password.
    pub password: String,
    /// From-header user-part. Defaults to `username` when absent.
    pub from_user: Option<String>,
    /// Local IP address to bind and advertise. Detected when absent.
    pub local_ip: Option<String>,
    /// Local UDP port to bind the SIP transport to. `None` (or `0`) lets the system pick one.
    pub local_port: Option<u16>,
    /// SIP domain (host part) for the request/To/From URIs and the registrar.
    pub sip_domain: Option<String>,
    /// Register a binding with the trunk before placing calls.
    pub register: bool,
    /// Requested binding expiry, seconds. `None` uses the stack's own.
    pub register_expiry_secs: Option<u64>,
    /// Transport kind.
    pub transport: SipTransportKind,
}

impl SipConfig {
    /// Caller identity user-part: explicit `from_user`, else the digest username.
    pub fn from_user(&self) -> (r: &str)
        ensures
            r@ == (match self.from_user {
                Some(u) => u@,
                None => self.username@,
            }),
    {
        match &self.from_user {
            Some(u) => u.as_str(),
            None => self.username.as_str(),
        }
    }
}

impl Default for SipConfig {
    fn default() -> (r: Self)
        ensures
            r.server@.len() == 0,
            r.username@.len() == 0,
            r.password@.len() == 0,
            r.from_user is None,
            r.local_ip is None,
            r.local_port is None,
            r.sip_domain is None,
            !r.register,
            r.register_expiry_secs is None,
            r.transport == SipTransportKind::Udp,
    {
        SipConfig {
            server: String::new(),
            username: String::new(),
            password: String::new(),
            from_user: None,
            local_ip: None,
            local_port: None,
            sip_domain: None,
            register: false,
            register_expiry_secs: None,
            transport: SipTransportKind::Udp,
        }
    }
}

/// The family of live model.
#[derive(Clone, Copy, Debug, PartialEq, Eq, Structural)]
pub enum Model {
    HalfCascade,
    NativeAudio,
}

impl Default for Model {
    fn default() -> (r: Self)
        ensures
            r == Model::HalfCascade,
    {
        Model::HalfCascade
    }
}

/// A proxy and its credentials.
#[derive(Clone, Debug)]
pub struct Proxy {
    pub url: String,
    pub user: Option<String>,
    pub password: Option<String>,
}

/// Network limits: the preflight before a call and the loss thresholds during it.
#[derive(Clone, Copy, Debug, PartialEq, Eq, Structural)]
pub struct NetCheckConfig {
    pub enabled: bool,
    pub samples: u32,
    pub max_rtt_ms: u32,
    pub max_jitter_ms: u32,
    pub max_loss_pct: Single,
    /// Rolling-window uplink loss (%) that marks the callee's leg as unusable.
    pub uplink_loss_abort_pct: Single,
    /// Downlink loss (%), as the callee reports it, that marks the leg as unusable.
    pub downlink_loss_abort_pct: Single,
    /// Pings sent and discarded before the measured ones.
    pub warmup_pings: u32,
    /// Most time that establishing a session may take; 0 disables this limit.
    pub max_setup_ms: u32,
    /// Preflight attempts per call before failing it.
    pub retry_max: u32,
    /// Backoff base between preflight attempts.
    pub retry_backoff_base_ms: u64,
    /// Consecutive preflight failures that trip the breaker; 0 disables it.
    pub breaker_threshold: u32,
    /// How long the breaker holds the queue once tripped, in ms.
    pub cooldown_ms: u64,
}

/// The bits of 2.0.
pub const TWO: u32 = 0x4000_0000;

/// The bits of 3.0.
pub const THREE: u32 = 0x4040_0000;

/// The bits of 10.0.
pub const TEN: u32 = 0x4120_0000;

/// The bits of -18.0.
pub const MINUS_EIGHTEEN: u32 = 0xC190_0000;

/// The bits of 30.0.
pub const THIRTY: u32 = 0x41F0_0000;

/// The bits of 200.0.
pub const TWO_HUNDRED: u32 = 0x4348_0000;

impl Default for NetCheckConfig {
    fn default() -> (r: Self)
        ensures
            r == (NetCheckConfig {
                enabled: true,
                samples: 10,
                max_rtt_ms: 300,
                max_jitter_ms: 50,
                max_loss_pct: Single { bits: TWO },
                uplink_loss_abort_pct: Single { bits: TEN },
                downlink_loss_abort_pct: Single { bits: TEN },
                warmup_pings: 1,
                max_setup_ms: 2500,
                retry_max: 3,
                retry_backoff_base_ms: 5000,
                breaker_threshold: 3,
                cooldown_ms: 60000,
            }),
    {
        NetCheckConfig {
            enabled: true,
            samples: 10,
            max_rtt_ms: 300,
            max_jitter_ms: 50,
            max_loss_pct: Single { bits: TWO },
            uplink_loss_abort_pct: Single { bits: TEN },
            downlink_loss_abort_pct: Single { bits: TEN },
            warmup_pings: 1,
            max_setup_ms: 2500,
            retry_max: 3,
            retry_backoff_base_ms: 5000,
            breaker_threshold: 3,
            cooldown_ms: 60000,
        }
    }
}

/// Grammatical gender the agent uses when referring to itself.
#[derive(Clone, Copy, Debug, PartialEq, Eq, Structural)]
pub enum Gender {
    Male,
    Female,
    /// No instruction on grammatical gender.
    Neutral,
}

impl Default for Gender {
    fn default() -> (r: Self)
        ensures
            r == Gender::Female,
    {
        Gender::Female
    }
}

/// The gender that a setting names, whatever its case and the space around it; female for an
/// unknown or empty one.
pub open spec fn gender_of(s: Seq<char>) -> Gender {
    let w = lowered(trimmed(s));
    if w == "male"@ || w == "m"@ || w == "man"@ {
        Gender::Male
    } else if w == "neutral"@ || w == "none"@ || w == "n"@ {
        Gender::Neutral
    } else {
        Gender::Female
    }
}

impl Gender {
    /// Parse a setting (case-insensitive). Unknown or empty falls back to `Female`, which matches
    /// the default voice.
    pub fn parse(s: &str) -> (r: Self)
        ensures
            r == gender_of(s@),
    {
        let t: String = trim(s);
        let w: String = to_lower(t.as_str());
        let w: &str = w.as_str();
        if same(w, "male") || same(w, "m") || same(w, "man") {
            Gender::Male
        } else if same(w, "neutral") || same(w, "none") || same(w, "n") {
            Gender::Neutral
        } else {
            Gender::Female
        }
    }
}

/// The deployment-stable settings.
#[derive(Clone, Debug)]
pub struct ServerConfig {
    pub api_key: String,
    pub proxy: Option<Proxy>,
    pub model: Model,
    pub voice: String,
    /// Grammatical gender the agent speaks in, matched to `voice`.
    pub voice_gender: Gender,
    pub language: String,
    pub net_check: NetCheckConfig,
    pub max_concurrent_channels: usize,
    /// If the callee produces nothing within this many ms, the agent greets first. `0` disables
    /// the proactive greeting entirely.
    pub greet_after_silence_ms: u64,
    /// Directory for finalized call records; `None` skips persistence.
    pub transcript_dir: Option<String>,
    /// Directory for per-call uplink audio dumps. `None` disables it.
    pub dump_uplink_dir: Option<String>,
    /// Directory for per-call downlink audio dumps. `None` disables it.
    pub dump_downlink_dir: Option<String>,
    /// Safety cap on a single call's duration (seconds).
    pub max_call_secs: u64,
    /// Silence on the line after which the model is nudged to wrap up (ms).
    pub dead_air_nudge_ms: u64,
    /// After the nudge, how long the model gets to call `end_call` before the call is force-ended
    /// (ms); also the grace window given to a late `end_call` after the callee hangs up abruptly.
    /// `0` disables wrap-up entirely.
    pub wrap_up_grace_ms: u64,
    /// Base suggested polling interval (ms) for a `place_call` task.
    pub mcp_poll_interval_ms: u64,
    /// Upper bound for the adapted poll interval (ms).
    pub mcp_poll_interval_max_ms: u64,
    /// Downlink pacing.
    pub quality: QualityConfig,
    /// Retry policy for transient dial outcomes.
    pub retry: RetryConfig,
    /// Tuning of the detection that the callee has started speaking.
    pub vad: VadConfig,
    /// Adaptive gain applied to the uplink.
    pub agc: AgcConfig,
    /// All prompt text.
    pub prompts: PromptsConfig,
}

impl ServerConfig {
    /// The settings of a deployment that configures nothing.
    pub open spec fn is_default(self) -> bool {
        &&& self.api_key@.len() == 0
        &&& self.proxy is None
        &&& self.model == Model::HalfCascade
        &&& self.voice@ == "Autonoe"@
        &&& self.voice_gender == Gender::Female
        &&& self.language@ == "en-US"@
        &&& call_ensures(NetCheckConfig::default, (), self.net_check)
        &&& self.max_concurrent_channels == 3
        &&& self.greet_after_silence_ms == DEFAULT_GREET_AFTER_SILENCE_MS
        &&& self.transcript_dir is None
        &&& self.dump_uplink_dir is None
        &&& self.dump_downlink_dir is None
        &&& self.max_call_secs == 600
        &&& self.dead_air_nudge_ms == 25_000
        &&& self.wrap_up_grace_ms == 15_000
        &&& self.mcp_poll_interval_ms == 5_000
        &&& self.mcp_poll_interval_max_ms == 30_000
        &&& call_ensures(QualityConfig::default, (), self.quality)
        &&& call_ensures(RetryConfig::default, (), self.retry)
        &&& call_ensures(VadConfig::default, (), self.vad)
        &&& call_ensures(AgcConfig::default, (), self.agc)
        &&& self.prompts.is_default()
    }

    /// The call's system instruction: the base persona (or the call's own), the objective with
    /// the call's goal schema, optional contact context, then the voice, closing, detection and
    /// language directives.
    pub open spec fn instruction(self, scenario: ScenarioConfig) -> Seq<char> {
        let p = self.prompts;
        let schema = contents(scenario.goal_schema);
        (match scenario.prompt_override {
            Some(o) => o@,
            None => p.base_system_prompt@,
        }) + p.goal_preamble@ + (match pretty(schema) {
            Some(t) => t,
            None => compact(schema),
        }) + (match scenario.context {
            Some(ctx) => "\n\n# Contact context\n"@ + compact(contents(ctx)),
            None => Seq::empty(),
        }) + (match self.voice_gender {
            Gender::Female => p.gender_female@,
            Gender::Male => p.gender_male@,
            Gender::Neutral => Seq::empty(),
        }) + p.closing@ + p.amd_instruction@ + replaced(
            p.language_template@,
            "{language}"@,
            self.language@,
        )
    }

    /// Assemble the full system instruction for a call.
    pub fn assemble_system_instruction(&self, scenario: &ScenarioConfig) -> (r: String)
        ensures
            r@ == self.instruction(*scenario),
    {
        let p: &PromptsConfig = &self.prompts;
        let mut s: String = match &scenario.prompt_override {
            Some(o) => o.clone(),
            None => p.base_system_prompt.clone(),
        };
        s.append(p.goal_preamble.as_str());
        match to_pretty(&scenario.goal_schema) {
            Ok(t) => {
                s.append(t.as_str());
            },
            Err(_) => {
                let t: String = to_compact(&scenario.goal_schema);
                s.append(t.as_str());
            },
        }
        let ghost head = s@;
        if let Some(ctx) = &scenario.context {
            s.append("\n\n# Contact context\n");
            let t: String = to_compact(ctx);
            s.append(t.as_str());
            assert(s@ =~= head + ("\n\n# Contact context\n"@ + compact(contents(*ctx))));
        } else {
            assert(s@ =~= head + Seq::<char>::empty());
        }
        let ghost body = s@;
        match self.voice_gender {
            Gender::Female => {
                s.append(p.gender_female.as_str());
            },
            Gender::Male => {
                s.append(p.gender_male.as_str());
            },
            Gender::Neutral => {
                assert(s@ =~= body + Seq::<char>::empty());
            },
        }
        s.append(p.closing.as_str());
        s.append(p.amd_instruction.as_str());
        proof {
            reveal_strlit("{language}");
            assert("{language}"@.len() == 10);
        }
        let language: String = replace(
            p.language_template.as_str(),
            "{language}",
            self.language.as_str(),
        );
        s.append(language.as_str());
        s
    }
}

impl Default for ServerConfig {
    fn default() -> (r: Self)
        ensures
            r.is_default(),
    {
        ServerConfig {
            api_key: String::new(),
            proxy: None,
            model: Model::default(),
            voice: "Autonoe".to_owned(),
            voice_gender: Gender::default(),
            language: "en-US".to_owned(),
            net_check: NetCheckConfig::default(),
            max_concurrent_channels: 3,
            greet_after_silence_ms: DEFAULT_GREET_AFTER_SILENCE_MS,
            transcript_dir: None,
            dump_uplink_dir: None,
            dump_downlink_dir: None,
            max_call_secs: 600,
            dead_air_nudge_ms: 25_000,
            wrap_up_grace_ms: 15_000,
            mcp_poll_interval_ms: 5_000,
            mcp_poll_interval_max_ms: 30_000,
            quality: QualityConfig::default(),
            retry: RetryConfig::default(),
            vad: VadConfig::default(),
            agc: AgcConfig::default(),
            prompts: PromptsConfig::default(),
        }
    }
}

/// Downlink playout pacing thresholds.
#[derive(Clone, Copy, Debug, PartialEq, Eq, Structural)]
pub struct QualityConfig {
    /// Buffering target (ms) before playout starts.
    pub prebuffer_ms: u32,
    /// Faster target (ms) after an underrun within a turn.
    pub resume_ms: u32,
    /// Cumulative underruns in one call that abort it as unusable; 0 = never.
    pub abort_underruns: u32,
}

impl Default for QualityConfig {
    fn default() -> (r: Self)
        ensures
            r == (QualityConfig { prebuffer_ms: 800, resume_ms: 400, abort_underruns: 40 }),
    {
        QualityConfig { prebuffer_ms: 800, resume_ms: 400, abort_underruns: 40 }
    }
}

/// Adaptive gain control for the uplink.
#[derive(Debug, Clone, Copy, PartialEq, Eq, Structural)]
pub struct AgcConfig {
    /// When false the uplink is passed through untouched.
    pub enabled: bool,
    /// Target output level in dBFS (0 = full scale).
    pub target_dbfs: Single,
    /// Ceiling on applied gain, in dB.
    pub max_gain_db: Single,
    /// Frames with RMS below this are treated as silence: gain is held.
    pub noise_floor_rms: Single,
}

impl Default for AgcConfig {
    fn default() -> (r: Self)
        ensures
            r == (AgcConfig {
                enabled: true,
                target_dbfs: Single { bits: MINUS_EIGHTEEN },
                max_gain_db: Single { bits: THIRTY },
                noise_floor_rms: Single { bits: TWO_HUNDRED },
            }),
    {
        AgcConfig {
            enabled: true,
            target_dbfs: Single { bits: MINUS_EIGHTEEN },
            max_gain_db: Single { bits: THIRTY },
            noise_floor_rms: Single { bits: TWO_HUNDRED },
        }
    }
}

/// Retry policy for transient dial outcomes.
#[derive(Debug, Clone, Copy, PartialEq, Eq, Structural)]
pub struct RetryConfig {
    /// Max dial attempts for a busy number (incl. the first).
    pub busy_max_attempts: u32,
    /// Delay before a busy retry, ms.
    pub busy_retry_interval_ms: u64,
}

impl Default for RetryConfig {
    fn default() -> (r: Self)
        ensures
            r == (RetryConfig { busy_max_attempts: 3, busy_retry_interval_ms: 300_000 }),
    {
        RetryConfig { busy_max_attempts: 3, busy_retry_interval_ms: 300_000 }
    }
}

/// Tuning of the detection that the callee has started speaking.
#[derive(Debug, Clone, Copy, PartialEq, Eq, Structural)]
pub struct VadConfig {
    /// A frame below this RMS is never speech.
    pub min_rms: u32,
    /// Speech is a frame RMS of at least `max(min_rms, noise_floor * ratio)`.
    pub ratio: Single,
    /// Consecutive speech frames required to confirm onset.
    pub onset_frames: u32,
    /// Bounds the startup window.
    pub warmup_frames: u32,
}

impl Default for VadConfig {
    fn default() -> (r: Self)
        ensures
            r == (VadConfig { min_rms: 200, ratio: Single { bits: THREE }, onset_frames: 3, warmup_frames: 10 }),
    {
        VadConfig { min_rms: 200, ratio: Single { bits: THREE }, onset_frames: 3, warmup_frames: 10 }
    }
}

/// Default wait before the agent greets a silent callee.
pub const DEFAULT_GREET_AFTER_SILENCE_MS: u64 = 1000;

/// Default instruction sent to the model when a session reconnects with lost context in the middle
/// of an exchange. An instruction, not a spoken phrase.
pub const RESUME_CUE: &'static str = "The connection dropped briefly and the last thing \
    the other party said may be lost. Ask them to repeat what they just said, \
    replying in the same language you have been speaking.";

/// Default base persona of the agent. What varies between calls is in the scenario.
pub const BASE_SYSTEM_PROMPT: &'static str = "You are a helpful voice agent making a \
    phone call. Speak naturally and conversationally, keep your replies short, \
    and stay on task.";

/// Introduces the call's goal schema inside the system prompt. The schema is appended right after.
pub const GOAL_PREAMBLE: &'static str = "\n\n# Your objective\nDuring this call, pursue \
    and gather the information described by the schema below, steering the \
    conversation toward it naturally. When the objective is met (or clearly \
    cannot be), submit your findings by calling the `end_call` tool with a value \
    matching this JSON Schema:\n";

/// Call-closing directive appended to every system prompt, so that the model closes through the
/// tool.
pub const CLOSING_INSTRUCTION: &'static str = "\n\n# Ending the call\n\
    When the conversation is finished - you have said your goodbyes, agreed on a \
    next step, or the other party firmly refuses or is rude - say ONE short, \
    natural goodbye and, in the SAME turn, call the `end_call` tool. Say the \
    goodbye only once: the line is played in full and then the call is hung up, \
    so never add a second goodbye and do not keep talking after it.";

/// Kickoff cue sent as a user turn when the callee stays silent after answering. It only hands the
/// turn to the model; the wording of the greeting comes from the system prompt.
pub const GREET_CUE: &'static str = "The call has connected and the other party has not \
    spoken yet. Greet them now and begin the conversation as instructed.";

/// Default cue for a line that has gone quiet, nudging the model towards `end_call`.
pub const END_CALL_CUE: &'static str = "The line has gone quiet. If the conversation is \
    finished, wrap up now and submit the result by calling the end_call tool.";

/// Cue injected when the callee has hung up: the model must submit whatever it has.
pub const HARVEST_CUE: &'static str = "The other party has hung up; the call is over and \
    they can no longer hear you. Do not try to say anything else. Submit your \
    result now by calling the end_call tool with whatever information you \
    gathered so far. If the objective was not completed, still call end_call and \
    note in the summary that the callee hung up before it finished.";

/// Voice directive for a female voice, in language-neutral terms.
pub const GENDER_FEMALE: &'static str = "\n\n# Your voice\nYou speak with a FEMALE voice. \
    Always refer to yourself using feminine grammatical forms (verbs, \
    adjectives, participles). Never use masculine self-reference.";

/// Voice directive for a male voice.
pub const GENDER_MALE: &'static str = "\n\n# Your voice\nYou speak with a MALE voice. \
    Always refer to yourself using masculine grammatical forms (verbs, \
    adjectives, participles). Never use feminine self-reference.";

/// Language directive; `{language}` stands for the configured BCP-47 tag.
pub const LANGUAGE_TEMPLATE: &'static str = "\n\n# Language\nSpeak ONLY in the language \
    with BCP-47 code `{language}`, always, from the very first word and in every \
    single reply. You may understand the other party when they use another \
    language, but you MUST always answer in `{language}`, pronouncing it cleanly \
    and naturally like a native speaker, with no foreign accent.";

/// How to tell a voicemail, a recording, a menu or hold music from a live person. The model
/// reports what it found in the `amd` field of `end_call`.
pub const AMD_INSTRUCTION: &'static str = "\n\n# Detecting a non-live answer\n\
    You may reach something other than a live person ready to talk. Watch for:\n\
    - a voicemail / answering-machine greeting (set amd=voicemail),\n\
    - a carrier/operator recording such as \"the subscriber is unavailable or \
    switched off\" (set amd=announcement),\n\
    - an automated menu asking you to press or say options (set amd=ivr),\n\
    - hold music, ads, or voices/chatter in the background that are not \
    addressing you (set amd=hold).\n\
    Decisive test when audio alone is ambiguous (e.g. background speech with no \
    music): a LIVE person responds to you - they answer your greeting and your \
    questions and take turns. If, after you greet and ask a short question, the \
    other side does not engage with you (keeps talking without responding, talks \
    over you, or ignores your question), treat it as NOT live. As soon as you are \
    confident it is not a live person, do NOT continue the conversation: call \
    `end_call` immediately with the matching `amd` value. When you did have a \
    real back-and-forth with a person, set amd=live.";

/// All prompt text used to assemble a call's system instruction and the runtime cues.
#[derive(Clone, Debug)]
pub struct PromptsConfig {
    /// Base persona, used when a call carries no `prompt_override`.
    pub base_system_prompt: String,
    /// Printed before the call's goal schema in the prompt.
    pub goal_preamble: String,
    /// Call-closing directive appended to every prompt.
    pub closing: String,
    /// Cue to greet a silent callee.
    pub greet_cue: String,
    /// Cue for a line that has gone quiet.
    pub end_call_cue: String,
    /// Cue injected when the callee hangs up.
    pub harvest_cue: String,
    /// Instruction sent to the model when a session reconnects with lost context.
    pub resume_cue: String,
    /// Voice directive for a female voice.
    pub gender_female: String,
    /// Voice directive for a male voice.
    pub gender_male: String,
    /// Language directive; `{language}` is substituted at assembly.
    pub language_template: String,
    /// How to detect what is not a live person.
    pub amd_instruction: String,
}

impl PromptsConfig {
    /// The prompt text of a deployment that configures none.
    pub open spec fn is_default(self) -> bool {
        &&& self.base_system_prompt@ == BASE_SYSTEM_PROMPT@
        &&& self.goal_preamble@ == GOAL_PREAMBLE@
        &&& self.closing@ == CLOSING_INSTRUCTION@
        &&& self.greet_cue@ == GREET_CUE@
        &&& self.end_call_cue@ == END_CALL_CUE@
        &&& self.harvest_cue@ == HARVEST_CUE@
        &&& self.resume_cue@ == RESUME_CUE@
        &&& self.gender_female@ == GENDER_FEMALE@
        &&& self.gender_male@ == GENDER_MALE@
        &&& self.language_template@ == LANGUAGE_TEMPLATE@
        &&& self.amd_instruction@ == AMD_INSTRUCTION@
    }
}

impl Default for PromptsConfig {
    fn default() -> (r: Self)
        ensures
            r.is_default(),
    {
        PromptsConfig {
            base_system_prompt: BASE_SYSTEM_PROMPT.to_owned(),
            goal_preamble: GOAL_PREAMBLE.to_owned(),
            closing: CLOSING_INSTRUCTION.to_owned(),
            greet_cue: GREET_CUE.to_owned(),
            end_call_cue: END_CALL_CUE.to_owned(),
            harvest_cue: HARVEST_CUE.to_owned(),
            resume_cue: RESUME_CUE.to_owned(),
            gender_female: GENDER_FEMALE.to_owned(),
            gender_male: GENDER_MALE.to_owned(),
            language_template: LANGUAGE_TEMPLATE.to_owned(),
            amd_instruction: AMD_INSTRUCTION.to_owned(),
        }
    }
}

/// Per-call arguments: what varies between calls.
#[derive(Clone, Debug)]
pub struct ScenarioConfig {
    /// JSON Schema the agent fills and submits via `end_call`.
    pub goal_schema: Value,
    /// Optional lead/contact object injected into the prompt.
    pub context: Option<Value>,
    /// Optional per-call persona, replacing `base_system_prompt`.
    pub prompt_override: Option<String>,
}

/// Everything that a configuration file can hold.
#[derive(Clone, Debug)]
pub struct Config {
    pub server: ServerConfig,
    pub sip: SipConfig,
}

impl Default for Config {
    fn default() -> (r: Self)
        ensures
            r.server.is_default(),
            call_ensures(SipConfig::default, (), r.sip),
    {
        Config { server: ServerConfig::default(), sip: SipConfig::default() }
    }
}

proof fn lemma_triple(x: Seq<char>, c: Seq<char>, d: Seq<char>, e: Seq<char>)
    ensures
        occurs(x + c + d + e, c + d + e),
{
    let none = Seq::<char>::empty();
    assert(x + c + d + e =~= x + (c + d + e) + none);
    lemma_occurs(x + c + d + e, x, c + d + e, none);
}

proof fn lemma_ends(s: Seq<char>, h: Seq<char>, t: Seq<char>)
    ensures
        (s + h).subrange((s + h).len() - h.len(), (s + h).len() as int) == h,
        s == t || begins(s, t) ==> begins(s + h, t),
{
    assert((s + h).subrange(s.len() as int, (s + h).len() as int) =~= h);
    if s == t || begins(s, t) {
        assert(s.subrange(0, s.len() as int) =~= s);
        assert((s + h).subrange(0, t.len() as int) =~= s.subrange(0, t.len() as int));
    }
}

proof fn lemma_parts(
    a: Seq<char>,
    b: Seq<char>,
    c: Seq<char>,
    d: Seq<char>,
    e: Seq<char>,
    f: Seq<char>,
    g: Seq<char>,
    h: Seq<char>,
)
    ensures
        ({
            let i = a + b + c + d + e + f + g + h;
            &&& begins(i, a + b + c)
            &&& i.subrange(i.len() - h.len(), i.len() as int) == h
            &&& occurs(i, c + d + e)
            &&& occurs(i, d + e + f)
            &&& occurs(i, e + f + g)
            &&& occurs(i, f + g + h)
            &&& i.len() == a.len() + b.len() + c.len() + d.len() + e.len() + f.len() + g.len()
                + h.len()
        }),
{
    let none = Seq::<char>::empty();
    let i3 = a + b + c;
    let i4 = i3 + d;
    let i5 = i4 + e;
    let i6 = i5 + f;
    let i7 = i6 + g;
    let i = i7 + h;
    lemma_ends(i3, d, i3);
    lemma_ends(i4, e, i3);
    lemma_ends(i5, f, i3);
    lemma_ends(i6, g, i3);
    lemma_ends(i7, h, i3);
    lemma_triple(a + b, c, d, e);
    lemma_still_occurs(none, i5, f, c + d + e);
    lemma_still_occurs(none, i6, g, c + d + e);
    lemma_still_occurs(none, i7, h, c + d + e);
    lemma_triple(i3, d, e, f);
    lemma_still_occurs(none, i6, g, d + e + f);
    lemma_still_occurs(none, i7, h, d + e + f);
    lemma_triple(i4, e, f, g);
    lemma_still_occurs(none, i7, h, e + f + g);
    lemma_triple(i5, f, g, h);
}

/// A call's instruction begins with its own persona, or the deployment's where it has none, and ends
/// with the language directive. In between are, in this order and with nothing else, the objective
/// with the goal's schema, the contact context where there is one, the voice's directive unless it
/// is neutral, and the closing and detection directives.
pub proof fn instruction_holds_every_part(c: ServerConfig, scenario: ScenarioConfig)
    ensures
        ({
            let i = c.instruction(scenario);
            let p = c.prompts;
            let persona = match scenario.prompt_override {
                Some(o) => o@,
                None => p.base_system_prompt@,
            };
            let schema = match pretty(contents(scenario.goal_schema)) {
                Some(t) => t,
                None => compact(contents(scenario.goal_schema)),
            };
            let context = match scenario.context {
                Some(ctx) => "\n\n# Contact context\n"@ + compact(contents(ctx)),
                None => Seq::<char>::empty(),
            };
            let gender = match c.voice_gender {
                Gender::Female => p.gender_female@,
                Gender::Male => p.gender_male@,
                Gender::Neutral => Seq::<char>::empty(),
            };
            let language = replaced(p.language_template@, "{language}"@, c.language@);
            &&& begins(i, persona + p.goal_preamble@ + schema)
            &&& i.subrange(i.len() - language.len(), i.len() as int) == language
            &&& occurs(i, schema + context + gender)
            &&& occurs(i, context + gender + p.closing@)
            &&& occurs(i, gender + p.closing@ + p.amd_instruction@)
            &&& occurs(i, p.closing@ + p.amd_instruction@ + language)
            &&& i.len() == persona.len() + p.goal_preamble@.len() + schema.len() + context.len()
                + gender.len() + p.closing@.len() + p.amd_instruction@.len() + language.len()
        }),
{
    let i = c.instruction(scenario);
    let p = c.prompts;
    let persona = match scenario.prompt_override {
        Some(o) => o@,
        None => p.base_system_prompt@,
    };
    let schema = match pretty(contents(scenario.goal_schema)) {
        Some(t) => t,
        None => compact(contents(scenario.goal_schema)),
    };
    let context = match scenario.context {
        Some(ctx) => "\n\n# Contact context\n"@ + compact(contents(ctx)),
        None => Seq::<char>::empty(),
    };
    let gender = match c.voice_gender {
        Gender::Female => p.gender_female@,
        Gender::Male => p.gender_male@,
        Gender::Neutral => Seq::<char>::empty(),
    };
    let language = replaced(p.language_template@, "{language}"@, c.language@);
    lemma_parts(
        persona,
        p.goal_preamble@,
        schema,
        context,
        gender,
        p.closing@,
        p.amd_instruction@,
        language,
    );
}

/// A gender is named in any case and with space around it; whatever names none is female.
pub proof fn gender_names(s: Seq<char>)
    ensures
        ({
            let w = lowered(trimmed(s));
            &&& gender_of(s) == Gender::Male <==> w == "male"@ || w == "m"@ || w == "man"@
            &&& gender_of(s) == Gender::Neutral <==> w == "neutral"@ || w == "none"@ || w == "n"@
        }),
{
    reveal_strlit("male");
    reveal_strlit("m");
    reveal_strlit("man");
    reveal_strlit("neutral");
    reveal_strlit("none");
    reveal_strlit("n");
    assert("male"@.len() == 4 && "m"@.len() == 1 && "man"@.len() == 3);
    assert("neutral"@.len() == 7 && "none"@.len() == 4 && "n"@.len() == 1);
    assert("male"@[0] != "none"@[0] && "m"@[0] != "n"@[0]);
}

} // verus!
