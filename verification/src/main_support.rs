//! Configuration from the environment: what the variables override in the settings of a file.
//!
//! A variable that is set overrides its field; otherwise the field stays. Secrets come from the
//! environment alone.
use vstd::prelude::*;
use vstd::string::StringExecFns;

use crate::config::{gender_of, Gender, Model, Proxy, ScenarioConfig, ServerConfig, SipConfig};
use crate::json::{contents, insert, new_object, new_text, Json};
use crate::realtime::says_off;
use crate::single::Single;
use crate::text::{
    lemma_number_in_range, lowered, number, parse_number, same, to_lower, trim, trimmed,
};

verus! {

/// A variable of the environment: its name and value, the single-precision number that the value
/// writes, if it writes one, and whether it writes an IP address.
#[derive(Clone, Debug)]
pub struct EnvVar {
    pub name: String,
    pub value: String,
    pub single: Option<Single>,
    pub is_ip: bool,
}

/// The variables of the environment.
#[derive(Clone, Debug)]
pub struct Env {
    pub vars: Vec<EnvVar>,
}

/// The variable of that name, from place `i` on.
pub open spec fn find_from(vars: Seq<EnvVar>, name: Seq<char>, i: int) -> Option<EnvVar>
    decreases vars.len() - i,
{
    if i < 0 || i >= vars.len() {
        None
    } else if vars[i].name@ == name {
        Some(vars[i])
    } else {
        find_from(vars, name, i + 1)
    }
}

impl Env {
    /// The variable of that name.
    pub open spec fn var(self, name: Seq<char>) -> Option<EnvVar> {
        find_from(self.vars@, name, 0)
    }

    /// Its value, where it is set and not empty.
    pub open spec fn filled(self, name: Seq<char>) -> Option<Seq<char>> {
        match self.var(name) {
            Some(v) => if v.value@.len() > 0 {
                Some(v.value@)
            } else {
                None
            },
            None => None,
        }
    }

    /// A text field: the value where the variable is set, even to nothing.
    pub open spec fn text(self, name: Seq<char>, cur: Seq<char>) -> Seq<char> {
        match self.var(name) {
            Some(v) => v.value@,
            None => cur,
        }
    }

    /// An optional text field: the value where the variable is set and not empty.
    pub open spec fn opt_text(
        self,
        name: Seq<char>,
        cur: Option<String>,
        new: Option<String>,
    ) -> bool {
        match self.filled(name) {
            Some(t) => new is Some && new->Some_0@ == t,
            None => new == cur,
        }
    }

    /// A number field up to `max`: the number where the value writes one.
    pub open spec fn count(self, name: Seq<char>, max: int, cur: int) -> int {
        match self.var(name) {
            Some(v) => match number(v.value@, max) {
                Some(n) => n,
                None => cur,
            },
            None => cur,
        }
    }

    /// An optional number field: the number where the value writes one.
    pub open spec fn opt_count(self, name: Seq<char>, max: int) -> Option<int> {
        match self.var(name) {
            Some(v) => number(v.value@, max),
            None => None,
        }
    }

    /// A single-precision field: the number where the value writes one.
    pub open spec fn fraction(self, name: Seq<char>, cur: Single) -> Single {
        match self.var(name) {
            Some(v) => match v.single {
                Some(x) => x,
                None => cur,
            },
            None => cur,
        }
    }

    /// A switch: on or off where the value says so.
    pub open spec fn switch(self, name: Seq<char>, cur: bool) -> bool {
        match self.var(name) {
            Some(v) => match switch_of(v.value@) {
                Some(b) => b,
                None => cur,
            },
            None => cur,
        }
    }

    fn get(&self, name: &str) -> (r: Option<&EnvVar>)
        ensures
            match r {
                Some(v) => self.var(name@) == Some(*v),
                None => self.var(name@) is None,
            },
    {
        let mut i: usize = 0;
        while i < self.vars.len()
            invariant
                i <= self.vars@.len(),
                self.var(name@) == find_from(self.vars@, name@, i as int),
            decreases self.vars@.len() - i,
        {
            if same(self.vars[i].name.as_str(), name) {
                return Some(&self.vars[i]);
            }
            i = i + 1;
        }
        None
    }

    fn non_empty(&self, name: &str) -> (r: Option<String>)
        ensures
            match r {
                Some(t) => self.filled(name@) == Some(t@),
                None => self.filled(name@) is None,
            },
    {
        match self.get(name) {
            Some(v) => {
                if v.value.as_str().unicode_len() > 0 {
                    Some(v.value.clone())
                } else {
                    None
                }
            },
            None => None,
        }
    }
}

/// What a switch's value says, whatever its case and the space around it.
pub open spec fn switch_of(value: Seq<char>) -> Option<bool> {
    let w = lowered(trimmed(value));
    if w == "1"@ || w == "true"@ || w == "yes"@ || w == "on"@ {
        Some(true)
    } else if w == "0"@ || w == "false"@ || w == "no"@ || w == "off"@ {
        Some(false)
    } else {
        None
    }
}

fn parse_switch(value: &str) -> (r: Option<bool>)
    ensures
        r == switch_of(value@),
{
    let t: String = trim(value);
    let w: String = to_lower(t.as_str());
    let w: &str = w.as_str();
    if same(w, "1") || same(w, "true") || same(w, "yes") || same(w, "on") {
        Some(true)
    } else if same(w, "0") || same(w, "false") || same(w, "no") || same(w, "off") {
        Some(false)
    } else {
        None
    }
}

/// The model that a setting names: half-cascade under any of its names, native audio otherwise.
pub open spec fn model_of(value: Seq<char>) -> Model {
    let w = lowered(trimmed(value));
    if w == "half-cascade"@ || w == "half"@ || w == "halfcascade"@ || w == "cascade"@ {
        Model::HalfCascade
    } else {
        Model::NativeAudio
    }
}

fn parse_model(value: &str) -> (r: Model)
    ensures
        r == model_of(value@),
{
    let t: String = trim(value);
    let w: String = to_lower(t.as_str());
    let w: &str = w.as_str();
    if same(w, "half-cascade") || same(w, "half") || same(w, "halfcascade") || same(w, "cascade") {
        Model::HalfCascade
    } else {
        Model::NativeAudio
    }
}

/// Override a text field iff the variable is set, even to nothing.
fn over_str(env: &Env, k: &str, cur: &mut String)
    ensures
        final(cur)@ == env.text(k@, old(cur)@),
{
    if let Some(v) = env.get(k) {
        *cur = v.value.clone();
    }
}

/// Override an optional text field iff the variable is set and not empty.
pub fn over_opt_str(env: &Env, k: &str, cur: &mut Option<String>)
    ensures
        env.opt_text(k@, *old(cur), *final(cur)),
{
    if let Some(v) = env.non_empty(k) {
        *cur = Some(v);
    }
}

fn over_u32(env: &Env, k: &str, cur: &mut u32)
    ensures
        *final(cur) == env.count(k@, u32::MAX as int, *old(cur) as int),
{
    if let Some(v) = env.get(k) {
        if let Some(n) = parse_number(v.value.as_str(), u32::MAX as u64) {
            *cur = n as u32;
        }
    }
}

fn over_u64(env: &Env, k: &str, cur: &mut u64)
    ensures
        *final(cur) == env.count(k@, u64::MAX as int, *old(cur) as int),
{
    if let Some(v) = env.get(k) {
        if let Some(n) = parse_number(v.value.as_str(), u64::MAX) {
            *cur = n;
        }
    }
}

fn over_usize(env: &Env, k: &str, cur: &mut usize)
    ensures
        *final(cur) == env.count(k@, usize::MAX as int, *old(cur) as int),
{
    if let Some(v) = env.get(k) {
        if let Some(n) = parse_number(v.value.as_str(), usize::MAX as u64) {
            *cur = n as usize;
        }
    }
}

fn over_f32(env: &Env, k: &str, cur: &mut Single)
    ensures
        *final(cur) == env.fraction(k@, *old(cur)),
{
    if let Some(v) = env.get(k) {
        if let Some(x) = v.single {
            *cur = x;
        }
    }
}

fn over_bool(env: &Env, k: &str, cur: &mut bool)
    ensures
        *final(cur) == env.switch(k@, *old(cur)),
{
    if let Some(v) = env.get(k) {
        if let Some(b) = parse_switch(v.value.as_str()) {
            *cur = b;
        }
    }
}

/// Override an optional path iff the variable is set and not empty.
pub fn over_path(env: &Env, k: &str, cur: &mut Option<String>)
    ensures
        env.opt_text(k@, *old(cur), *final(cur)),
{
    over_opt_str(env, k, cur);
}

/// Path of the configuration file: `KUTSU_CONFIG` if set, else `kutsu.toml` in the working
/// directory.
pub fn config_path(env: &Env) -> (r: String)
    ensures
        r@ == env.text("KUTSU_CONFIG"@, "kutsu.toml"@),
{
    let mut path: String = "kutsu.toml".to_owned();
    over_str(env, "KUTSU_CONFIG", &mut path);
    path
}

/// What the environment makes of the proxy: all of it comes from there where a URL is set.
pub open spec fn proxy_overlaid(env: Env, before: Option<Proxy>, after: Option<Proxy>) -> bool {
    match env.filled("PROXY_URL"@) {
        Some(url) => {
            &&& after is Some
            &&& after->Some_0.url@ == url
            &&& env.opt_text("PROXY_USER"@, None, after->Some_0.user)
            &&& env.opt_text("PROXY_PASSWORD"@, None, after->Some_0.password)
        },
        None => after == before,
    }
}

/// What the environment makes of the server's settings, field by field.
pub open spec fn server_overlaid(env: Env, a: ServerConfig, b: ServerConfig) -> bool {
    &&& env.var("GEMINI_API_KEY"@) is Some
    &&& b.api_key@ == env.var("GEMINI_API_KEY"@)->Some_0.value@
    &&& proxy_overlaid(env, a.proxy, b.proxy)
    &&& b.model == (match env.var("KUTSU_MODEL"@) {
        Some(v) => model_of(v.value@),
        None => a.model,
    })
    &&& b.voice@ == env.text("KUTSU_VOICE"@, a.voice@)
    &&& b.voice_gender == (match env.var("KUTSU_VOICE_GENDER"@) {
        Some(v) => gender_of(v.value@),
        None => a.voice_gender,
    })
    &&& b.language@ == env.text("KUTSU_LANGUAGE"@, a.language@)
    &&& b.max_concurrent_channels == env.count(
        "KUTSU_MAX_CONCURRENT_CHANNELS"@,
        usize::MAX as int,
        a.max_concurrent_channels as int,
    )
    &&& b.greet_after_silence_ms == env.count(
        "KUTSU_GREET_AFTER_SILENCE_MS"@,
        u64::MAX as int,
        a.greet_after_silence_ms as int,
    )
    &&& b.max_call_secs == env.count(
        "KUTSU_MAX_CALL_SECS"@,
        u64::MAX as int,
        a.max_call_secs as int,
    )
    &&& env.opt_text("KUTSU_TRANSCRIPT_DIR"@, a.transcript_dir, b.transcript_dir)
    &&& env.opt_text("KUTSU_DUMP_UPLINK_DIR"@, a.dump_uplink_dir, b.dump_uplink_dir)
    &&& env.opt_text("KUTSU_DUMP_DOWNLINK_DIR"@, a.dump_downlink_dir, b.dump_downlink_dir)
    &&& b.dead_air_nudge_ms == a.dead_air_nudge_ms
    &&& b.wrap_up_grace_ms == a.wrap_up_grace_ms
    &&& b.mcp_poll_interval_ms == a.mcp_poll_interval_ms
    &&& b.mcp_poll_interval_max_ms == a.mcp_poll_interval_max_ms
    &&& b.net_check.enabled == env.switch("KUTSU_NETCHECK_ENABLED"@, a.net_check.enabled)
    &&& b.net_check.samples == env.count(
        "KUTSU_NETCHECK_SAMPLES"@,
        u32::MAX as int,
        a.net_check.samples as int,
    )
    &&& b.net_check.max_rtt_ms == env.count(
        "KUTSU_NETCHECK_MAX_RTT_MS"@,
        u32::MAX as int,
        a.net_check.max_rtt_ms as int,
    )
    &&& b.net_check.max_jitter_ms == env.count(
        "KUTSU_NETCHECK_MAX_JITTER_MS"@,
        u32::MAX as int,
        a.net_check.max_jitter_ms as int,
    )
    &&& b.net_check.max_loss_pct == env.fraction(
        "KUTSU_NETCHECK_MAX_LOSS_PCT"@,
        a.net_check.max_loss_pct,
    )
    &&& b.net_check.uplink_loss_abort_pct == env.fraction(
        "KUTSU_UPLINK_LOSS_ABORT_PCT"@,
        a.net_check.uplink_loss_abort_pct,
    )
    &&& b.net_check.downlink_loss_abort_pct == env.fraction(
        "KUTSU_DOWNLINK_LOSS_ABORT_PCT"@,
        a.net_check.downlink_loss_abort_pct,
    )
    &&& b.net_check.warmup_pings == a.net_check.warmup_pings
    &&& b.net_check.max_setup_ms == a.net_check.max_setup_ms
    &&& b.net_check.retry_max == a.net_check.retry_max
    &&& b.net_check.retry_backoff_base_ms == a.net_check.retry_backoff_base_ms
    &&& b.net_check.breaker_threshold == a.net_check.breaker_threshold
    &&& b.net_check.cooldown_ms == a.net_check.cooldown_ms
    &&& b.quality.prebuffer_ms == env.count(
        "KUTSU_QUALITY_PREBUFFER_MS"@,
        u32::MAX as int,
        a.quality.prebuffer_ms as int,
    )
    &&& b.quality.resume_ms == env.count(
        "KUTSU_QUALITY_RESUME_MS"@,
        u32::MAX as int,
        a.quality.resume_ms as int,
    )
    &&& b.quality.abort_underruns == env.count(
        "KUTSU_QUALITY_ABORT_UNDERRUNS"@,
        u32::MAX as int,
        a.quality.abort_underruns as int,
    )
    &&& b.retry.busy_max_attempts == env.count(
        "KUTSU_BUSY_MAX_ATTEMPTS"@,
        u32::MAX as int,
        a.retry.busy_max_attempts as int,
    )
    &&& b.retry.busy_retry_interval_ms == env.count(
        "KUTSU_BUSY_RETRY_INTERVAL_MS"@,
        u64::MAX as int,
        a.retry.busy_retry_interval_ms as int,
    )
    &&& b.vad.min_rms == env.count("KUTSU_VAD_MIN_RMS"@, u32::MAX as int, a.vad.min_rms as int)
    &&& b.vad.ratio == env.fraction("KUTSU_VAD_RATIO"@, a.vad.ratio)
    &&& b.vad.onset_frames == env.count(
        "KUTSU_VAD_ONSET_FRAMES"@,
        u32::MAX as int,
        a.vad.onset_frames as int,
    )
    &&& b.vad.warmup_frames == env.count(
        "KUTSU_VAD_WARMUP_FRAMES"@,
        u32::MAX as int,
        a.vad.warmup_frames as int,
    )
    &&& b.agc.enabled == env.switch("KUTSU_AGC_ENABLED"@, a.agc.enabled)
    &&& b.agc.target_dbfs == env.fraction("KUTSU_AGC_TARGET_DBFS"@, a.agc.target_dbfs)
    &&& b.agc.max_gain_db == env.fraction("KUTSU_AGC_MAX_GAIN_DB"@, a.agc.max_gain_db)
    &&& b.agc.noise_floor_rms == env.fraction("KUTSU_AGC_NOISE_FLOOR_RMS"@, a.agc.noise_floor_rms)
    &&& b.prompts.base_system_prompt@ == env.text(
        "KUTSU_SYSTEM_PROMPT"@,
        a.prompts.base_system_prompt@,
    )
    &&& b.prompts.greet_cue@ == env.text("KUTSU_GREET_CUE"@, a.prompts.greet_cue@)
    &&& b.prompts.resume_cue@ == env.text("KUTSU_RESUME_CUE"@, a.prompts.resume_cue@)
    &&& b.prompts.end_call_cue@ == env.text("KUTSU_END_CALL_CUE"@, a.prompts.end_call_cue@)
    &&& b.prompts.harvest_cue@ == env.text("KUTSU_HARVEST_CUE"@, a.prompts.harvest_cue@)
    &&& b.prompts == (crate::config::PromptsConfig {
        base_system_prompt: b.prompts.base_system_prompt,
        greet_cue: b.prompts.greet_cue,
        resume_cue: b.prompts.resume_cue,
        end_call_cue: b.prompts.end_call_cue,
        harvest_cue: b.prompts.harvest_cue,
        ..a.prompts
    })
}

/// What the environment makes of the trunk's settings, field by field.
pub open spec fn sip_overlaid(env: Env, a: SipConfig, b: SipConfig) -> bool {
    &&& b.server@ == env.text("KUTSU_SIP_SERVER"@, a.server@)
    &&& b.username@ == env.text("KUTSU_SIP_USER"@, a.username@)
    &&& b.password@ == env.text("KUTSU_SIP_PASS"@, a.password@)
    &&& env.opt_text("KUTSU_SIP_FROM_USER"@, a.from_user, b.from_user)
    &&& env.opt_text("KUTSU_SIP_DOMAIN"@, a.sip_domain, b.sip_domain)
    &&& (match env.var("KUTSU_SIP_LOCAL_IP"@) {
        Some(v) => if v.value@.len() > 0 && v.is_ip {
            b.local_ip is Some && b.local_ip->Some_0@ == v.value@
        } else {
            b.local_ip == a.local_ip
        },
        None => b.local_ip == a.local_ip,
    })
    &&& b.local_port == (match env.opt_count("KUTSU_SIP_LOCAL_PORT"@, u16::MAX as int) {
        Some(n) => Some(n as u16),
        None => a.local_port,
    })
    &&& b.register == env.switch("KUTSU_SIP_REGISTER"@, a.register)
    &&& b.register_expiry_secs == (match env.opt_count(
        "KUTSU_SIP_REGISTER_EXPIRY"@,
        u64::MAX as int,
    ) {
        Some(n) => Some(n as u64),
        None => a.register_expiry_secs,
    })
    &&& b.transport == a.transport
}

/// The secrets: the API key, which must be set, and the proxy with its credentials.
fn overlay_secrets(env: &Env, server: &mut ServerConfig) -> (r: Result<(), String>)
    ensures
        match env.var("GEMINI_API_KEY"@) {
            None => r is Err && r->Err_0@ == "GEMINI_API_KEY not set"@ && *final(server) == *old(
                server,
            ),
            Some(v) => r is Ok && *final(server) == (ServerConfig {
                api_key: final(server).api_key,
                proxy: final(server).proxy,
                ..*old(server)
            }) && final(server).api_key@ == v.value@ && proxy_overlaid(
                *env,
                old(server).proxy,
                final(server).proxy,
            ),
        },
{
    match env.get("GEMINI_API_KEY") {
        Some(v) => {
            server.api_key = v.value.clone();
        },
        None => {
            return Err("GEMINI_API_KEY not set".to_owned());
        },
    }
    if let Some(url) = env.non_empty("PROXY_URL") {
        let user: Option<String> = env.non_empty("PROXY_USER");
        let password: Option<String> = env.non_empty("PROXY_PASSWORD");
        server.proxy = Some(Proxy { url, user, password });
    }
    Ok(())
}

/// Apply the environment on top of the settings of a file. Only a variable that is set overrides a
/// field. The API key must be set; without it nothing is changed.
#[verifier::rlimit(60)]
pub fn apply_env_overlay(env: &Env, server: &mut ServerConfig, sip: &mut SipConfig) -> (r: Result<
    (),
    String,
>)
    ensures
        if env.var("GEMINI_API_KEY"@) is None {
            &&& r is Err
            &&& r->Err_0@ == "GEMINI_API_KEY not set"@
            &&& *final(server) == *old(server)
            &&& *final(sip) == *old(sip)
        } else {
            &&& r is Ok
            &&& server_overlaid(*env, *old(server), *final(server))
            &&& sip_overlaid(*env, *old(sip), *final(sip))
        },
{
    if let Err(e) = overlay_secrets(env, server) {
        return Err(e);
    }
    if let Some(m) = env.get("KUTSU_MODEL") {
        server.model = parse_model(m.value.as_str());
    }
    over_str(env, "KUTSU_VOICE", &mut server.voice);
    if let Some(g) = env.get("KUTSU_VOICE_GENDER") {
        server.voice_gender = Gender::parse(g.value.as_str());
    }
    over_str(env, "KUTSU_LANGUAGE", &mut server.language);
    over_usize(env, "KUTSU_MAX_CONCURRENT_CHANNELS", &mut server.max_concurrent_channels);
    over_u64(env, "KUTSU_GREET_AFTER_SILENCE_MS", &mut server.greet_after_silence_ms);
    over_u64(env, "KUTSU_MAX_CALL_SECS", &mut server.max_call_secs);
    over_path(env, "KUTSU_TRANSCRIPT_DIR", &mut server.transcript_dir);
    over_path(env, "KUTSU_DUMP_UPLINK_DIR", &mut server.dump_uplink_dir);
    over_path(env, "KUTSU_DUMP_DOWNLINK_DIR", &mut server.dump_downlink_dir);

    over_bool(env, "KUTSU_NETCHECK_ENABLED", &mut server.net_check.enabled);
    over_u32(env, "KUTSU_NETCHECK_SAMPLES", &mut server.net_check.samples);
    over_u32(env, "KUTSU_NETCHECK_MAX_RTT_MS", &mut server.net_check.max_rtt_ms);
    over_u32(env, "KUTSU_NETCHECK_MAX_JITTER_MS", &mut server.net_check.max_jitter_ms);
    over_f32(env, "KUTSU_NETCHECK_MAX_LOSS_PCT", &mut server.net_check.max_loss_pct);
    over_f32(env, "KUTSU_UPLINK_LOSS_ABORT_PCT", &mut server.net_check.uplink_loss_abort_pct);
    over_f32(env, "KUTSU_DOWNLINK_LOSS_ABORT_PCT", &mut server.net_check.downlink_loss_abort_pct);

    over_u32(env, "KUTSU_QUALITY_PREBUFFER_MS", &mut server.quality.prebuffer_ms);
    over_u32(env, "KUTSU_QUALITY_RESUME_MS", &mut server.quality.resume_ms);
    over_u32(env, "KUTSU_QUALITY_ABORT_UNDERRUNS", &mut server.quality.abort_underruns);

    over_u32(env, "KUTSU_BUSY_MAX_ATTEMPTS", &mut server.retry.busy_max_attempts);
    over_u64(env, "KUTSU_BUSY_RETRY_INTERVAL_MS", &mut server.retry.busy_retry_interval_ms);

    over_u32(env, "KUTSU_VAD_MIN_RMS", &mut server.vad.min_rms);
    over_f32(env, "KUTSU_VAD_RATIO", &mut server.vad.ratio);
    over_u32(env, "KUTSU_VAD_ONSET_FRAMES", &mut server.vad.onset_frames);
    over_u32(env, "KUTSU_VAD_WARMUP_FRAMES", &mut server.vad.warmup_frames);

    over_bool(env, "KUTSU_AGC_ENABLED", &mut server.agc.enabled);
    over_f32(env, "KUTSU_AGC_TARGET_DBFS", &mut server.agc.target_dbfs);
    over_f32(env, "KUTSU_AGC_MAX_GAIN_DB", &mut server.agc.max_gain_db);
    over_f32(env, "KUTSU_AGC_NOISE_FLOOR_RMS", &mut server.agc.noise_floor_rms);

    over_str(env, "KUTSU_SYSTEM_PROMPT", &mut server.prompts.base_system_prompt);
    over_str(env, "KUTSU_GREET_CUE", &mut server.prompts.greet_cue);
    over_str(env, "KUTSU_RESUME_CUE", &mut server.prompts.resume_cue);
    over_str(env, "KUTSU_END_CALL_CUE", &mut server.prompts.end_call_cue);
    over_str(env, "KUTSU_HARVEST_CUE", &mut server.prompts.harvest_cue);

    overlay_sip(env, sip);
    Ok(())
}

/// The trunk: the password is a secret, the rest may come from a file or from here.
fn overlay_sip(env: &Env, sip: &mut SipConfig)
    ensures
        sip_overlaid(*env, *old(sip), *final(sip)),
{
    over_str(env, "KUTSU_SIP_SERVER", &mut sip.server);
    over_str(env, "KUTSU_SIP_USER", &mut sip.username);
    over_str(env, "KUTSU_SIP_PASS", &mut sip.password);
    over_opt_str(env, "KUTSU_SIP_FROM_USER", &mut sip.from_user);
    over_opt_str(env, "KUTSU_SIP_DOMAIN", &mut sip.sip_domain);
    if let Some(v) = env.get("KUTSU_SIP_LOCAL_IP") {
        if v.value.as_str().unicode_len() > 0 && v.is_ip {
            sip.local_ip = Some(v.value.clone());
        }
    }
    if let Some(v) = env.get("KUTSU_SIP_LOCAL_PORT") {
        if let Some(n) = parse_number(v.value.as_str(), u16::MAX as u64) {
            sip.local_port = Some(n as u16);
        }
    }
    over_bool(env, "KUTSU_SIP_REGISTER", &mut sip.register);
    if let Some(v) = env.get("KUTSU_SIP_REGISTER_EXPIRY") {
        if let Some(n) = parse_number(v.value.as_str(), u64::MAX) {
            sip.register_expiry_secs = Some(n);
        }
    }
}

/// Build the settings with the full layering: what the file says, then the environment.
pub fn configs_from_env(env: &Env, server: ServerConfig, sip: SipConfig) -> (r: Result<
    (ServerConfig, SipConfig),
    String,
>)
    ensures
        if env.var("GEMINI_API_KEY"@) is None {
            r is Err && r->Err_0@ == "GEMINI_API_KEY not set"@
        } else {
            r is Ok && server_overlaid(*env, server, r->Ok_0.0) && sip_overlaid(
                *env,
                sip,
                r->Ok_0.1,
            )
        },
{
    let mut server: ServerConfig = server;
    let mut sip: SipConfig = sip;
    match apply_env_overlay(env, &mut server, &mut sip) {
        Ok(_) => Ok((server, sip)),
        Err(e) => Err(e),
    }
}

/// A minimal valid scenario: an empty object goal schema, no context and no persona of its own.
/// The schema is typed `object`: a schema with properties needs that type.
pub fn default_scenario() -> (r: ScenarioConfig)
    ensures
        contents(r.goal_schema) == Json::Object(
            Map::<Seq<char>, Json>::empty().insert("type"@, Json::Text("object"@)),
        ),
        r.context is None,
        r.prompt_override is None,
{
    let mut goal_schema = new_object();
    insert(&mut goal_schema, "type", new_text("object"));
    ScenarioConfig { goal_schema, context: None, prompt_override: None }
}

/// A variable that is not set lets the value of the file show through, whatever the field's kind.
pub proof fn unset_variable_keeps_the_field(
    env: Env,
    name: Seq<char>,
    text: Seq<char>,
    old_opt: Option<String>,
    new_opt: Option<String>,
    max: int,
    count: int,
    fraction: Single,
    switch: bool,
)
    requires
        env.var(name) is None,
    ensures
        env.text(name, text) == text,
        env.opt_text(name, old_opt, new_opt) ==> new_opt == old_opt,
        env.count(name, max, count) == count,
        env.opt_count(name, max) is None,
        env.fraction(name, fraction) == fraction,
        env.switch(name, switch) == switch,
{
}

/// Whether a value turns a switch on: one of four words, whatever its case and the space around it.
pub open spec fn says_on(value: Seq<char>) -> bool {
    let w = lowered(trimmed(value));
    w == "on"@ || w == "true"@ || w == "yes"@ || w == "1"@
}

impl Env {
    /// The number up to `max` that a variable writes, where it is set and writes one.
    pub open spec fn writes(self, name: Seq<char>, max: int) -> Option<int> {
        if self.var(name) is Some {
            number(self.var(name)->Some_0.value@, max)
        } else {
            None
        }
    }
}

proof fn lemma_switch(value: Seq<char>)
    ensures
        switch_of(value) == Some(true) <==> says_on(value),
        switch_of(value) == Some(false) <==> says_off(value),
{
    reveal_strlit("on");
    reveal_strlit("true");
    reveal_strlit("yes");
    reveal_strlit("1");
    reveal_strlit("off");
    reveal_strlit("false");
    reveal_strlit("no");
    reveal_strlit("0");
    assert("on"@.len() == 2 && "true"@.len() == 4 && "yes"@.len() == 3 && "1"@.len() == 1);
    assert("off"@.len() == 3 && "false"@.len() == 5 && "no"@.len() == 2 && "0"@.len() == 1);
    assert("on"@[0] != "no"@[0] && "yes"@[0] != "off"@[0] && "1"@[0] != "0"@[0]);
}

/// A variable of the environment is the first of its name.
pub proof fn variable_is_the_first_of_its_name(env: Env, name: Seq<char>)
    ensures
        match env.var(name) {
            Some(v) => exists|i: int|
                0 <= i < env.vars@.len() && #[trigger] env.vars@[i] == v && v.name@ == name
                    && forall|j: int| 0 <= j < i ==> (#[trigger] env.vars@[j]).name@ != name,
            None => forall|j: int|
                0 <= j < env.vars@.len() ==> (#[trigger] env.vars@[j]).name@ != name,
        },
{
    lemma_find(env.vars@, name, 0);
}

proof fn lemma_find(vars: Seq<EnvVar>, name: Seq<char>, i: int)
    requires
        0 <= i <= vars.len(),
    ensures
        match find_from(vars, name, i) {
            Some(v) => exists|k: int|
                i <= k < vars.len() && #[trigger] vars[k] == v && v.name@ == name && forall|j: int|
                    i <= j < k ==> (#[trigger] vars[j]).name@ != name,
            None => forall|j: int| i <= j < vars.len() ==> (#[trigger] vars[j]).name@ != name,
        },
    decreases vars.len() - i,
{
    if i < vars.len() && vars[i].name@ != name {
        lemma_find(vars, name, i + 1);
        if let Some(v) = find_from(vars, name, i + 1) {
            let k = choose|k: int|
                i + 1 <= k < vars.len() && #[trigger] vars[k] == v && v.name@ == name && forall|
                    j: int,
                |
                    i + 1 <= j < k ==> (#[trigger] vars[j]).name@ != name;
            assert(vars[k] == v);
        }
    } else if i < vars.len() {
        assert(vars[i] == vars[i]);
    }
}

/// Each of the server's variables that is set reaches the field that it is named for: a text as it
/// is, a number that it writes, a switch that it says, a path that is not empty.
#[verifier::rlimit(60)]
#[verifier::spinoff_prover]
pub proof fn set_variables_reach_the_server(env: Env, a: ServerConfig, b: ServerConfig)
    requires
        server_overlaid(env, a, b),
    ensures
        b.api_key@ == env.var("GEMINI_API_KEY"@)->Some_0.value@,
        env.var("KUTSU_MODEL"@) is Some ==> b.model == model_of(
            env.var("KUTSU_MODEL"@)->Some_0.value@,
        ),
        env.var("KUTSU_VOICE_GENDER"@) is Some ==> b.voice_gender == gender_of(
            env.var("KUTSU_VOICE_GENDER"@)->Some_0.value@,
        ),
        env.filled("PROXY_URL"@) is Some ==> b.proxy is Some && b.proxy->Some_0.url@
            == env.var("PROXY_URL"@)->Some_0.value@,
        env.filled("PROXY_URL"@) is None ==> b.proxy == a.proxy,
        env.var("KUTSU_VOICE"@) is Some ==> b.voice@ == env.var("KUTSU_VOICE"@)->Some_0.value@,
        env.var("KUTSU_LANGUAGE"@) is Some ==> b.language@ == env.var("KUTSU_LANGUAGE"@)->Some_0.value@,
        env.writes("KUTSU_MAX_CONCURRENT_CHANNELS"@, usize::MAX as int) is Some ==> b.max_concurrent_channels == env.writes(
            "KUTSU_MAX_CONCURRENT_CHANNELS"@,
            usize::MAX as int,
        )->Some_0,
        env.writes("KUTSU_GREET_AFTER_SILENCE_MS"@, u64::MAX as int) is Some ==> b.greet_after_silence_ms == env.writes(
            "KUTSU_GREET_AFTER_SILENCE_MS"@,
            u64::MAX as int,
        )->Some_0,
        env.writes("KUTSU_MAX_CALL_SECS"@, u64::MAX as int) is Some ==> b.max_call_secs == env.writes(
            "KUTSU_MAX_CALL_SECS"@,
            u64::MAX as int,
        )->Some_0,
        env.var("KUTSU_NETCHECK_ENABLED"@) is Some && says_on(env.var("KUTSU_NETCHECK_ENABLED"@)->Some_0.value@) ==> b.net_check.enabled,
        env.var("KUTSU_NETCHECK_ENABLED"@) is Some && says_off(env.var("KUTSU_NETCHECK_ENABLED"@)->Some_0.value@) ==> !b.net_check.enabled,
        env.writes("KUTSU_NETCHECK_SAMPLES"@, u32::MAX as int) is Some ==> b.net_check.samples == env.writes(
            "KUTSU_NETCHECK_SAMPLES"@,
            u32::MAX as int,
        )->Some_0,
        env.writes("KUTSU_NETCHECK_MAX_RTT_MS"@, u32::MAX as int) is Some ==> b.net_check.max_rtt_ms == env.writes(
            "KUTSU_NETCHECK_MAX_RTT_MS"@,
            u32::MAX as int,
        )->Some_0,
        env.writes("KUTSU_NETCHECK_MAX_JITTER_MS"@, u32::MAX as int) is Some ==> b.net_check.max_jitter_ms == env.writes(
            "KUTSU_NETCHECK_MAX_JITTER_MS"@,
            u32::MAX as int,
        )->Some_0,
        env.var("KUTSU_NETCHECK_MAX_LOSS_PCT"@) is Some && env.var("KUTSU_NETCHECK_MAX_LOSS_PCT"@)->Some_0.single is Some ==> b.net_check.max_loss_pct == env.var(
            "KUTSU_NETCHECK_MAX_LOSS_PCT"@,
        )->Some_0.single->Some_0,
        env.var("KUTSU_UPLINK_LOSS_ABORT_PCT"@) is Some && env.var("KUTSU_UPLINK_LOSS_ABORT_PCT"@)->Some_0.single is Some ==> b.net_check.uplink_loss_abort_pct == env.var(
            "KUTSU_UPLINK_LOSS_ABORT_PCT"@,
        )->Some_0.single->Some_0,
        env.var("KUTSU_DOWNLINK_LOSS_ABORT_PCT"@) is Some && env.var("KUTSU_DOWNLINK_LOSS_ABORT_PCT"@)->Some_0.single is Some ==> b.net_check.downlink_loss_abort_pct == env.var(
            "KUTSU_DOWNLINK_LOSS_ABORT_PCT"@,
        )->Some_0.single->Some_0,
        env.writes("KUTSU_QUALITY_PREBUFFER_MS"@, u32::MAX as int) is Some ==> b.quality.prebuffer_ms == env.writes(
            "KUTSU_QUALITY_PREBUFFER_MS"@,
            u32::MAX as int,
        )->Some_0,
        env.writes("KUTSU_QUALITY_RESUME_MS"@, u32::MAX as int) is Some ==> b.quality.resume_ms == env.writes(
            "KUTSU_QUALITY_RESUME_MS"@,
            u32::MAX as int,
        )->Some_0,
        env.writes("KUTSU_QUALITY_ABORT_UNDERRUNS"@, u32::MAX as int) is Some ==> b.quality.abort_underruns == env.writes(
            "KUTSU_QUALITY_ABORT_UNDERRUNS"@,
            u32::MAX as int,
        )->Some_0,
        env.writes("KUTSU_BUSY_MAX_ATTEMPTS"@, u32::MAX as int) is Some ==> b.retry.busy_max_attempts == env.writes(
            "KUTSU_BUSY_MAX_ATTEMPTS"@,
            u32::MAX as int,
        )->Some_0,
        env.writes("KUTSU_BUSY_RETRY_INTERVAL_MS"@, u64::MAX as int) is Some ==> b.retry.busy_retry_interval_ms == env.writes(
            "KUTSU_BUSY_RETRY_INTERVAL_MS"@,
            u64::MAX as int,
        )->Some_0,
        env.writes("KUTSU_VAD_MIN_RMS"@, u32::MAX as int) is Some ==> b.vad.min_rms == env.writes(
            "KUTSU_VAD_MIN_RMS"@,
            u32::MAX as int,
        )->Some_0,
        env.var("KUTSU_VAD_RATIO"@) is Some && env.var("KUTSU_VAD_RATIO"@)->Some_0.single is Some ==> b.vad.ratio == env.var(
            "KUTSU_VAD_RATIO"@,
        )->Some_0.single->Some_0,
        env.writes("KUTSU_VAD_ONSET_FRAMES"@, u32::MAX as int) is Some ==> b.vad.onset_frames == env.writes(
            "KUTSU_VAD_ONSET_FRAMES"@,
            u32::MAX as int,
        )->Some_0,
        env.writes("KUTSU_VAD_WARMUP_FRAMES"@, u32::MAX as int) is Some ==> b.vad.warmup_frames == env.writes(
            "KUTSU_VAD_WARMUP_FRAMES"@,
            u32::MAX as int,
        )->Some_0,
        env.var("KUTSU_AGC_ENABLED"@) is Some && says_on(env.var("KUTSU_AGC_ENABLED"@)->Some_0.value@) ==> b.agc.enabled,
        env.var("KUTSU_AGC_ENABLED"@) is Some && says_off(env.var("KUTSU_AGC_ENABLED"@)->Some_0.value@) ==> !b.agc.enabled,
        env.var("KUTSU_AGC_TARGET_DBFS"@) is Some && env.var("KUTSU_AGC_TARGET_DBFS"@)->Some_0.single is Some ==> b.agc.target_dbfs == env.var(
            "KUTSU_AGC_TARGET_DBFS"@,
        )->Some_0.single->Some_0,
        env.var("KUTSU_AGC_MAX_GAIN_DB"@) is Some && env.var("KUTSU_AGC_MAX_GAIN_DB"@)->Some_0.single is Some ==> b.agc.max_gain_db == env.var(
            "KUTSU_AGC_MAX_GAIN_DB"@,
        )->Some_0.single->Some_0,
        env.var("KUTSU_AGC_NOISE_FLOOR_RMS"@) is Some && env.var("KUTSU_AGC_NOISE_FLOOR_RMS"@)->Some_0.single is Some ==> b.agc.noise_floor_rms == env.var(
            "KUTSU_AGC_NOISE_FLOOR_RMS"@,
        )->Some_0.single->Some_0,
        env.var("KUTSU_SYSTEM_PROMPT"@) is Some ==> b.prompts.base_system_prompt@ == env.var("KUTSU_SYSTEM_PROMPT"@)->Some_0.value@,
        env.var("KUTSU_GREET_CUE"@) is Some ==> b.prompts.greet_cue@ == env.var("KUTSU_GREET_CUE"@)->Some_0.value@,
        env.var("KUTSU_RESUME_CUE"@) is Some ==> b.prompts.resume_cue@ == env.var("KUTSU_RESUME_CUE"@)->Some_0.value@,
        env.var("KUTSU_END_CALL_CUE"@) is Some ==> b.prompts.end_call_cue@ == env.var("KUTSU_END_CALL_CUE"@)->Some_0.value@,
        env.var("KUTSU_HARVEST_CUE"@) is Some ==> b.prompts.harvest_cue@ == env.var("KUTSU_HARVEST_CUE"@)->Some_0.value@,
        env.var("KUTSU_TRANSCRIPT_DIR"@) is Some && env.var("KUTSU_TRANSCRIPT_DIR"@)->Some_0.value@.len() > 0 ==> b.transcript_dir is Some
            && b.transcript_dir->Some_0@ == env.var("KUTSU_TRANSCRIPT_DIR"@)->Some_0.value@,
        env.var("KUTSU_DUMP_UPLINK_DIR"@) is Some && env.var("KUTSU_DUMP_UPLINK_DIR"@)->Some_0.value@.len() > 0 ==> b.dump_uplink_dir is Some
            && b.dump_uplink_dir->Some_0@ == env.var("KUTSU_DUMP_UPLINK_DIR"@)->Some_0.value@,
        env.var("KUTSU_DUMP_DOWNLINK_DIR"@) is Some && env.var("KUTSU_DUMP_DOWNLINK_DIR"@)->Some_0.value@.len() > 0 ==> b.dump_downlink_dir is Some
            && b.dump_downlink_dir->Some_0@ == env.var("KUTSU_DUMP_DOWNLINK_DIR"@)->Some_0.value@,
{
    if env.var("KUTSU_NETCHECK_ENABLED"@) is Some {
        lemma_switch(env.var("KUTSU_NETCHECK_ENABLED"@)->Some_0.value@);
    }
    if env.var("KUTSU_AGC_ENABLED"@) is Some {
        lemma_switch(env.var("KUTSU_AGC_ENABLED"@)->Some_0.value@);
    }
}

/// Each of the trunk's variables that is set reaches the field that it is named for.
#[verifier::spinoff_prover]
pub proof fn set_variables_reach_the_trunk(env: Env, a: SipConfig, b: SipConfig)
    requires
        sip_overlaid(env, a, b),
    ensures
        env.writes("KUTSU_SIP_LOCAL_PORT"@, u16::MAX as int) is Some ==> b.local_port is Some
            && b.local_port->Some_0 == env.writes(
            "KUTSU_SIP_LOCAL_PORT"@,
            u16::MAX as int,
        )->Some_0,
        env.writes("KUTSU_SIP_REGISTER_EXPIRY"@, u64::MAX as int) is Some
            ==> b.register_expiry_secs is Some && b.register_expiry_secs->Some_0 == env.writes(
            "KUTSU_SIP_REGISTER_EXPIRY"@,
            u64::MAX as int,
        )->Some_0,
        env.var("KUTSU_SIP_LOCAL_IP"@) is Some && env.var("KUTSU_SIP_LOCAL_IP"@)->Some_0.is_ip
            && env.var("KUTSU_SIP_LOCAL_IP"@)->Some_0.value@.len() > 0 ==> b.local_ip is Some
            && b.local_ip->Some_0@ == env.var("KUTSU_SIP_LOCAL_IP"@)->Some_0.value@,
        env.var("KUTSU_SIP_SERVER"@) is Some ==> b.server@ == env.var("KUTSU_SIP_SERVER"@)->Some_0.value@,
        env.var("KUTSU_SIP_USER"@) is Some ==> b.username@ == env.var("KUTSU_SIP_USER"@)->Some_0.value@,
        env.var("KUTSU_SIP_PASS"@) is Some ==> b.password@ == env.var("KUTSU_SIP_PASS"@)->Some_0.value@,
        env.var("KUTSU_SIP_REGISTER"@) is Some && says_on(env.var("KUTSU_SIP_REGISTER"@)->Some_0.value@) ==> b.register,
        env.var("KUTSU_SIP_REGISTER"@) is Some && says_off(env.var("KUTSU_SIP_REGISTER"@)->Some_0.value@) ==> !b.register,
        env.var("KUTSU_SIP_FROM_USER"@) is Some && env.var("KUTSU_SIP_FROM_USER"@)->Some_0.value@.len() > 0 ==> b.from_user is Some
            && b.from_user->Some_0@ == env.var("KUTSU_SIP_FROM_USER"@)->Some_0.value@,
        env.var("KUTSU_SIP_DOMAIN"@) is Some && env.var("KUTSU_SIP_DOMAIN"@)->Some_0.value@.len() > 0 ==> b.sip_domain is Some
            && b.sip_domain->Some_0@ == env.var("KUTSU_SIP_DOMAIN"@)->Some_0.value@,
{
    if env.var("KUTSU_SIP_REGISTER"@) is Some {
        lemma_switch(env.var("KUTSU_SIP_REGISTER"@)->Some_0.value@);
    }
    if env.var("KUTSU_SIP_LOCAL_PORT"@) is Some {
        lemma_number_in_range(env.var("KUTSU_SIP_LOCAL_PORT"@)->Some_0.value@, u16::MAX as int);
    }
    if env.var("KUTSU_SIP_REGISTER_EXPIRY"@) is Some {
        lemma_number_in_range(env.var("KUTSU_SIP_REGISTER_EXPIRY"@)->Some_0.value@, u64::MAX as int);
    }
}

/// The model is named by any of four words for the half-cascade one; every other word is the
/// native-audio one.
pub proof fn model_names(value: Seq<char>)
    ensures
        model_of(value) == Model::HalfCascade <==> lowered(trimmed(value)) == "half-cascade"@
            || lowered(trimmed(value)) == "half"@ || lowered(trimmed(value)) == "halfcascade"@
            || lowered(trimmed(value)) == "cascade"@,
{
}

} // verus!
