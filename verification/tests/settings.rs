//! Settings, prompts, goal schemas and the environment.
use kutsu::cli::{
    after_preflight, call_exit_code, follow_call, is_loopback, live_exit_code, live_step,
    may_write_config, override_live, plan_live, transport_of, LiveAction, LiveInput, Transport,
};
use kutsu::config::{
    augment_goal_schema, sanitize_gemini_schema, Gender, Model, NetCheckConfig, PromptsConfig,
    QualityConfig, ScenarioConfig, ServerConfig, SipConfig, SipTransportKind, BASE_SYSTEM_PROMPT,
    DEFAULT_GREET_AFTER_SILENCE_MS, RESUME_CUE,
};
use kutsu::gemini_live::{client_config, EndedBy, Event, Role, TranscriptEntry};
use kutsu::main_support::{
    apply_env_overlay, config_path, configs_from_env, default_scenario, Env, EnvVar,
};
use kutsu::error::Error;
use kutsu::net_check::NetworkHealth;
use kutsu::proto::{assemble_system_instruction, build_system_prompt};
use kutsu::single::Single;
use kutsu::state::{CallQuality, CallRecord, CallState, Disposition};
use serde_json::Value;

fn json(text: &str) -> Value {
    serde_json::from_str(text).unwrap()
}

fn single(x: f32) -> Single {
    Single { bits: x.to_bits() }
}

#[test]
fn scenario_parses_from_json_and_model_defaults() {
    let v = json(
        r#"{
            "goal_schema": {"type":"object","required":["disposition"]},
            "context": {"name":"Alex Carter"}
        }"#,
    );
    let sc = ScenarioConfig {
        goal_schema: v["goal_schema"].clone(),
        context: v.get("context").cloned(),
        prompt_override: v.get("prompt_override").map(|p| p.to_string()),
    };
    assert_eq!(sc.goal_schema["type"], "object");
    assert_eq!(sc.context.unwrap()["name"], "Alex Carter");
    assert!(sc.prompt_override.is_none());

    assert!(matches!(Model::default(), Model::HalfCascade));
    let nc = NetCheckConfig::default();
    assert_eq!(nc.max_rtt_ms, 300);
    assert_eq!(nc.samples, 10);
    assert!(nc.enabled);
    assert_eq!(nc.uplink_loss_abort_pct, single(10.0));
    assert_eq!(nc.downlink_loss_abort_pct, single(10.0));
}

#[test]
fn netcheck_resilience_defaults() {
    let nc = NetCheckConfig::default();
    assert_eq!(nc.warmup_pings, 1);
    assert_eq!(nc.max_setup_ms, 2500);
    assert_eq!(nc.retry_max, 3);
    assert_eq!(nc.retry_backoff_base_ms, 5000);
    assert_eq!(nc.breaker_threshold, 3);
    assert_eq!(nc.cooldown_ms, 60000);
}

/// Trunk settings out of a JSON object; what it leaves out keeps its default.
fn sip_config(text: &str) -> SipConfig {
    let v = json(text);
    let text = |k: &str| v.get(k).and_then(|x| x.as_str()).map(String::from);
    SipConfig {
        server: text("server").unwrap(),
        username: text("username").unwrap(),
        password: text("password").unwrap(),
        from_user: text("from_user"),
        local_port: v.get("local_port").and_then(|x| x.as_u64()).map(|p| p as u16),
        sip_domain: text("sip_domain"),
        register: v.get("register").and_then(|x| x.as_bool()).unwrap_or(false),
        register_expiry_secs: v.get("register_expiry_secs").and_then(|x| x.as_u64()),
        ..SipConfig::default()
    }
}

#[test]
fn sip_config_parses_and_from_user_defaults_to_username() {
    let c = sip_config(r#"{"server":"192.168.88.243:5060","username":"kutsu","password":"kutsupw"}"#);
    assert_eq!(c.server, "192.168.88.243:5060");
    assert_eq!(c.from_user(), "kutsu");
    assert_eq!(c.transport, SipTransportKind::Udp);
    assert!(!c.register);
    assert!(c.local_ip.is_none());
    assert!(c.local_port.is_none());
}

#[test]
fn sip_config_parses_local_port() {
    let c = sip_config(r#"{"server":"s:5060","username":"u","password":"p","local_port":5060}"#);
    assert_eq!(c.local_port, Some(5060));
}

#[test]
fn sip_config_register_defaults_off_and_parses() {
    let c = sip_config(r#"{"server":"s:5060","username":"u","password":"p"}"#);
    assert!(!c.register);
    assert!(c.sip_domain.is_none());
    assert!(c.register_expiry_secs.is_none());

    let c = sip_config(
        r#"{"server":"37.139.38.224:5060","username":"06733","password":"p",
            "sip_domain":"sip.example.com","register":true,"register_expiry_secs":120}"#,
    );
    assert_eq!(c.sip_domain.as_deref(), Some("sip.example.com"));
    assert!(c.register);
    assert_eq!(c.register_expiry_secs, Some(120));
}

#[test]
fn sip_config_from_user_override() {
    let c = sip_config(r#"{"server":"s:5060","username":"u","password":"p","from_user":"caller"}"#);
    assert_eq!(c.from_user(), "caller");
}

#[test]
fn quality_config_defaults() {
    let q = QualityConfig::default();
    assert_eq!(q.prebuffer_ms, 800);
    assert_eq!(q.resume_ms, 400);
    assert_eq!(q.abort_underruns, 40);
}

#[test]
fn wrapup_defaults() {
    let s = ServerConfig::default();
    assert_eq!(s.dead_air_nudge_ms, 25_000);
    assert_eq!(s.wrap_up_grace_ms, 15_000);
    assert!(!PromptsConfig::default().end_call_cue.is_empty());
    assert!(!PromptsConfig::default().harvest_cue.is_empty());
}

#[test]
fn server_config_has_engine_fields() {
    let c = ServerConfig {
        transcript_dir: Some("/tmp/x".into()),
        ..Default::default()
    };
    assert_eq!(c.max_call_secs, 600);
    assert!(c.transcript_dir.is_some());
    assert_eq!(c.prompts.resume_cue, RESUME_CUE);
}

#[test]
fn gender_words_are_read_whatever_their_case() {
    assert_eq!(Gender::parse(" Male "), Gender::Male);
    assert_eq!(Gender::parse("M"), Gender::Male);
    assert_eq!(Gender::parse("neutral"), Gender::Neutral);
    assert_eq!(Gender::parse("NONE"), Gender::Neutral);
    assert_eq!(Gender::parse("female"), Gender::Female);
    assert_eq!(Gender::parse(""), Gender::Female);
    assert_eq!(Gender::parse("other"), Gender::Female);
}

fn scenario(goal: &str) -> ScenarioConfig {
    ScenarioConfig {
        goal_schema: json(goal),
        context: None,
        prompt_override: None,
    }
}

#[test]
fn assemble_injects_base_prompt_goal_schema_and_layers() {
    let cfg = ServerConfig::default();
    let sys = cfg.assemble_system_instruction(&scenario(
        r#"{"type": "object",
            "properties": {"disposition": {"type": "string", "description": "call outcome"}}}"#,
    ));
    assert!(sys.starts_with(BASE_SYSTEM_PROMPT));
    assert!(sys.contains("# Your objective"));
    assert!(sys.contains("disposition"));
    assert!(sys.contains("call outcome"));
    assert!(sys.contains("FEMALE voice"));
    assert!(sys.contains("end_call"));
    assert!(sys.contains("# Language"));
    assert!(sys.contains("en-US"));
}

#[test]
fn assemble_writes_the_schema_over_several_lines() {
    let cfg = ServerConfig::default();
    let sys = cfg.assemble_system_instruction(&scenario(r#"{"type":"object"}"#));
    assert!(sys.contains("{\n  \"type\": \"object\"\n}"));
    assert!(!sys.contains("{language}"));
}

#[test]
fn assemble_uses_prompt_override_and_context_and_male_gender() {
    let mut cfg = ServerConfig {
        voice_gender: Gender::Male,
        ..Default::default()
    };
    cfg.language = "ru-RU".into();
    let sc = ScenarioConfig {
        goal_schema: json(r#"{"type": "object"}"#),
        context: Some(json(r#"{"name": "Alex Carter"}"#)),
        prompt_override: Some("You are a debt collector.".into()),
    };
    let sys = cfg.assemble_system_instruction(&sc);
    assert!(sys.starts_with("You are a debt collector."));
    assert!(!sys.contains(BASE_SYSTEM_PROMPT));
    assert!(sys.contains("# Contact context"));
    assert!(sys.contains("Alex Carter"));
    assert!(sys.contains("MALE voice"));
    assert!(sys.contains("ru-RU"));
    assert!(sys.contains("{\"name\":\"Alex Carter\"}"));
}

#[test]
fn default_prompts_are_english_only() {
    let p = PromptsConfig::default();
    for s in [
        &p.base_system_prompt,
        &p.goal_preamble,
        &p.closing,
        &p.greet_cue,
        &p.resume_cue,
        &p.gender_female,
        &p.gender_male,
        &p.language_template,
        &p.amd_instruction,
    ] {
        assert!(
            s.is_ascii(),
            "prompt default must be ASCII/English-only: {s:?}"
        );
    }
}

#[test]
fn augment_goal_schema_injects_amd_and_keeps_caller_fields() {
    let caller = json(
        r#"{"type": "object",
            "properties": { "disposition": { "type": "string" } },
            "required": ["disposition"]}"#,
    );
    let aug = augment_goal_schema(&caller);
    assert_eq!(aug["properties"]["disposition"]["type"], "string");
    assert_eq!(aug["properties"]["amd"]["type"], "string");
    let req: Vec<&str> = aug["required"]
        .as_array()
        .unwrap()
        .iter()
        .map(|v| v.as_str().unwrap())
        .collect();
    assert!(req.contains(&"disposition"));
    assert!(req.contains(&"amd"));
    assert!(aug["properties"]["amd"]["enum"]
        .as_array()
        .unwrap()
        .iter()
        .any(|v| v == "hold"));
}

#[test]
fn augment_goal_schema_leaves_non_object_unchanged() {
    let s = Value::String("not an object".into());
    assert_eq!(augment_goal_schema(&s), s);
}

#[test]
fn augmenting_twice_changes_nothing_more() {
    let once = augment_goal_schema(&json(r#"{"required":["x"]}"#));
    assert_eq!(augment_goal_schema(&once), once);
}

#[test]
fn augment_goal_schema_forces_object_type() {
    let aug = augment_goal_schema(&json("{}"));
    assert_eq!(aug["type"], "object");
    assert!(aug["properties"]["amd"].is_object());

    let aug2 = augment_goal_schema(&json(r#"{"properties": { "name": { "type": "string" } }}"#));
    assert_eq!(aug2["type"], "object");
}

#[test]
fn sanitize_gemini_schema_strips_unsupported_keys_recursively() {
    let mut s = json(
        r##"{
            "type": "object",
            "additionalProperties": false,
            "$schema": "http://json-schema.org/draft-07/schema#",
            "properties": {
                "nested": {
                    "type": "object",
                    "additionalProperties": false,
                    "properties": { "x": { "type": "string" } }
                }
            },
            "required": ["nested"]
        }"##,
    );
    sanitize_gemini_schema(&mut s);
    assert!(s.get("additionalProperties").is_none());
    assert!(s.get("$schema").is_none());
    assert!(s["properties"]["nested"].get("additionalProperties").is_none());
    assert_eq!(
        s["properties"]["nested"]["properties"]["x"]["type"],
        "string"
    );
    assert_eq!(s["type"], "object");
}

#[test]
fn augment_goal_schema_stays_provider_agnostic() {
    let aug = augment_goal_schema(&json(
        r#"{"type": "object",
            "additionalProperties": false,
            "properties": { "x": { "type": "string" } }}"#,
    ));
    assert_eq!(aug["additionalProperties"], false);
}

#[test]
fn augment_goal_schema_parses_stringified_schema() {
    let s = augment_goal_schema(&Value::String(
        "{\"type\":\"object\",\"properties\":{\"x\":{\"type\":\"string\"}},\"required\":[\"x\"]}"
            .into(),
    ));
    assert_eq!(s["type"], "object");
    assert_eq!(s["properties"]["x"]["type"], "string");
    assert!(s["properties"]["amd"].is_object());
}

#[test]
fn sanitize_gemini_schema_folds_type_array_to_nullable() {
    let mut s = json(
        r#"{"type": "object",
            "properties": { "x": { "type": ["string", "null"], "description": "d" } }}"#,
    );
    sanitize_gemini_schema(&mut s);
    assert_eq!(s["properties"]["x"]["type"], "string");
    assert_eq!(s["properties"]["x"]["nullable"], true);
}

#[test]
fn assemble_includes_amd_instruction() {
    let cfg = ServerConfig::default();
    let sys = cfg.assemble_system_instruction(&scenario(r#"{"type": "object"}"#));
    assert!(sys.contains("amd=voicemail"), "AMD rule must be present");
    assert!(sys.contains("amd=hold"));
}

#[test]
fn default_greet_delay_is_1000ms() {
    assert_eq!(DEFAULT_GREET_AFTER_SILENCE_MS, 1000);
}

#[test]
fn client_config_hands_over_an_augmented_and_sanitized_schema() {
    let server = ServerConfig {
        api_key: "K".into(),
        ..Default::default()
    };
    let c = client_config(
        &server,
        &scenario(r#"{"type":"object","additionalProperties":false}"#),
    );
    assert_eq!(c.api_key, "K");
    assert!(c.max_reconnect_attempts.is_none());
    assert!(c.setup.goal_schema.get("additionalProperties").is_none());
    assert!(c.setup.goal_schema["properties"]["amd"].is_object());
    assert_eq!(c.setup.language.as_deref(), Some("en-US"));
    assert_eq!(c.setup.temperature, single(0.8));
}

#[test]
fn system_prompt_appends_closing_instruction() {
    let p = build_system_prompt("Be nice.", None, Gender::Female);
    assert!(p.starts_with("Be nice."));
    assert!(p.contains("end_call"), "closing must reference the tool");
    assert!(p.contains("SAME turn"), "closing must couple the goodbye to the tool");
    assert!(p.to_lowercase().contains("goodbye"));
}

#[test]
fn system_prompt_injects_voice_gender() {
    let f = build_system_prompt("Be nice.", None, Gender::Female);
    assert!(f.contains("FEMALE voice"));
    assert!(f.contains("feminine"));
    let m = build_system_prompt("Be nice.", None, Gender::Male);
    assert!(m.contains("MALE voice"));
    assert!(m.contains("masculine"));
    let n = build_system_prompt("Be nice.", None, Gender::Neutral);
    assert!(!n.contains("# Your voice"));
}

#[test]
fn assemble_system_instruction_pins_language() {
    let server = ServerConfig {
        model: Model::NativeAudio,
        language: "en-US".into(),
        ..Default::default()
    };
    let sys = assemble_system_instruction(&server, "Be nice.", None);
    assert!(sys.contains("# Language"), "system instruction must carry a language section");
    assert!(sys.contains("en-US"), "language directive must pin the language");
    assert!(sys.starts_with("Be nice."));
    assert!(sys.contains("end_call"));
}

#[test]
fn contact_context_follows_the_persona() {
    let ctx = json(r#"{"name":"Alex"}"#);
    let p = build_system_prompt("Be nice.", Some(&ctx), Gender::Neutral);
    assert!(p.starts_with("Be nice.\n\n# Contact context\n{\"name\":\"Alex\"}\n\n# Ending the call\n"));
}

fn env(vars: &[(&str, &str)]) -> Env {
    Env {
        vars: vars
            .iter()
            .map(|(k, v)| EnvVar {
                name: (*k).into(),
                value: (*v).into(),
                single: v.parse::<f32>().ok().map(single),
                is_ip: *v == "10.0.0.7",
            })
            .collect(),
    }
}

#[test]
fn without_an_api_key_nothing_is_overlaid() {
    let (mut server, mut sip) = (ServerConfig::default(), SipConfig::default());
    let e = env(&[("KUTSU_VOICE", "Charon")]);
    assert_eq!(
        apply_env_overlay(&e, &mut server, &mut sip).unwrap_err(),
        "GEMINI_API_KEY not set"
    );
    assert_eq!(server.voice, "Autonoe");
}

#[test]
fn environment_overrides_only_what_is_set() {
    let e = env(&[
        ("GEMINI_API_KEY", "K"),
        ("PROXY_URL", "http://p:1"),
        ("PROXY_USER", "u"),
        ("PROXY_PASSWORD", ""),
        ("KUTSU_MODEL", " Native "),
        ("KUTSU_VOICE", ""),
        ("KUTSU_VOICE_GENDER", "male"),
        ("KUTSU_MAX_CONCURRENT_CHANNELS", "7"),
        ("KUTSU_MAX_CALL_SECS", "not a number"),
        ("KUTSU_TRANSCRIPT_DIR", ""),
        ("KUTSU_DUMP_UPLINK_DIR", "/tmp/up"),
        ("KUTSU_NETCHECK_ENABLED", "OFF"),
        ("KUTSU_NETCHECK_MAX_LOSS_PCT", "3.5"),
        ("KUTSU_AGC_ENABLED", "maybe"),
        ("KUTSU_VAD_RATIO", "4"),
        ("KUTSU_END_CALL_CUE", "wrap up"),
        ("KUTSU_HARVEST_CUE", "they are gone"),
        ("KUTSU_SIP_SERVER", "s:5060"),
        ("KUTSU_SIP_LOCAL_IP", "10.0.0.7"),
        ("KUTSU_SIP_LOCAL_PORT", "70000"),
        ("KUTSU_SIP_REGISTER", "yes"),
        ("KUTSU_SIP_REGISTER_EXPIRY", "120"),
    ]);
    let (server, sip) =
        configs_from_env(&e, ServerConfig::default(), SipConfig::default()).unwrap();
    assert_eq!(server.api_key, "K");
    let proxy = server.proxy.unwrap();
    assert_eq!(proxy.url, "http://p:1");
    assert_eq!(proxy.user.as_deref(), Some("u"));
    assert_eq!(proxy.password, None);
    assert_eq!(server.model, Model::NativeAudio);
    assert_eq!(server.voice, "");
    assert_eq!(server.voice_gender, Gender::Male);
    assert_eq!(server.language, "en-US");
    assert_eq!(server.max_concurrent_channels, 7);
    assert_eq!(server.max_call_secs, 600);
    assert_eq!(server.transcript_dir, None);
    assert_eq!(server.dump_uplink_dir.as_deref(), Some("/tmp/up"));
    assert!(!server.net_check.enabled);
    assert_eq!(server.net_check.max_loss_pct, single(3.5));
    assert_eq!(server.net_check.samples, 10);
    assert_eq!(server.agc.enabled, ServerConfig::default().agc.enabled);
    assert_eq!(server.vad.ratio, single(4.0));
    assert_eq!(server.prompts.end_call_cue, "wrap up");
    assert_eq!(server.prompts.harvest_cue, "they are gone");
    assert_eq!(server.prompts.resume_cue, RESUME_CUE);
    assert_eq!(sip.server, "s:5060");
    assert_eq!(sip.local_ip.as_deref(), Some("10.0.0.7"));
    assert_eq!(sip.local_port, None);
    assert!(sip.register);
    assert_eq!(sip.register_expiry_secs, Some(120));
}

#[test]
fn half_cascade_goes_by_several_names() {
    for name in ["half-cascade", "half", "HalfCascade", "cascade"] {
        let e = env(&[("GEMINI_API_KEY", "K"), ("KUTSU_MODEL", name)]);
        let server = ServerConfig {
            model: Model::NativeAudio,
            ..Default::default()
        };
        let (server, _) = configs_from_env(&e, server, SipConfig::default()).unwrap();
        assert_eq!(server.model, Model::HalfCascade, "{name}");
    }
}

#[test]
fn config_file_is_found_by_variable_or_default() {
    assert_eq!(config_path(&env(&[])), "kutsu.toml");
    assert_eq!(config_path(&env(&[("KUTSU_CONFIG", "/etc/k.toml")])), "/etc/k.toml");
}

#[test]
fn default_scenario_is_an_empty_object_schema() {
    let s = default_scenario();
    assert_eq!(s.goal_schema, json(r#"{"type":"object"}"#));
    assert!(s.context.is_none() && s.prompt_override.is_none());
}

#[test]
fn transports_and_addresses() {
    assert_eq!(transport_of("stdio").unwrap(), Transport::Stdio);
    assert_eq!(transport_of("streamable-http").unwrap(), Transport::StreamableHttp);
    assert_eq!(transport_of("tcp").unwrap_err(), "unknown transport: tcp");
    assert!(is_loopback("127.0.0.1:8090") && is_loopback("localhost:1") && is_loopback("[::1]:1"));
    assert!(!is_loopback("0.0.0.0:8090") && !is_loopback("12"));
    assert!(may_write_config(false, false) && may_write_config(true, true));
    assert!(!may_write_config(true, false));
}

#[test]
fn live_arguments_override_settings() {
    let mut s = ServerConfig::default();
    override_live(&mut s, Some("native"), Some("Puck".into()), Some(5)).unwrap();
    assert_eq!((s.model, s.voice.as_str(), s.greet_after_silence_ms), (Model::NativeAudio, "Puck", 5));
    assert_eq!(
        override_live(&mut s, Some("big"), Some("X".into()), None).unwrap_err(),
        "unknown model 'big' (expected 'half' or 'native')"
    );
    assert_eq!(s.voice, "Puck");
}

#[test]
fn a_live_run_is_planned_from_its_input() {
    let p = plan_live(16000 * 3 + 5, 8);
    assert_eq!((p.deadline_secs, p.silence_frames), (11, 250));
    assert_eq!(plan_live(0, 8).deadline_secs, 9);
}

#[test]
fn live_events_become_actions() {
    assert!(matches!(
        live_step(LiveInput::Event(Event::OutputAudio(vec![1]))),
        LiveAction::Play(p) if p == [1]
    ));
    assert!(matches!(
        live_step(LiveInput::Event(Event::Transcript {
            role: Role::User,
            text: "hi".into(),
            final_: true
        })),
        LiveAction::Say { .. }
    ));
    assert!(matches!(
        live_step(LiveInput::Event(Event::EndCall { goal: Value::Null })),
        LiveAction::Stop {
            goal: Some(Value::Null),
            hang_up: false
        }
    ));
    assert!(matches!(live_step(LiveInput::Event(Event::Interrupted)), LiveAction::Skip));
    assert!(matches!(
        live_step(LiveInput::Closed),
        LiveAction::Stop {
            goal: None,
            hang_up: false
        }
    ));
    assert!(matches!(
        live_step(LiveInput::Deadline),
        LiveAction::Stop {
            goal: None,
            hang_up: true
        }
    ));
}

#[test]
fn exit_codes() {
    let cfg = NetCheckConfig::default();
    let good = NetworkHealth {
        rtt_p50_ms: 40,
        rtt_p95_ms: 60,
        jitter_ms: 20,
        loss_pct: Single { bits: 0 },
    };
    let bad = NetworkHealth {
        rtt_p95_ms: 301,
        ..good
    };
    assert_eq!(after_preflight(&Ok(good), &cfg), None);
    assert_eq!(after_preflight(&Ok(bad), &cfg), Some(2));
    assert_eq!(after_preflight(&Err(Error::Connect("no route".into())), &cfg), Some(2));
    assert_eq!(live_exit_code(EndedBy::Error), 1);
    assert_eq!(live_exit_code(EndedBy::ModelEndCall), 0);
    for d in [
        Disposition::Failed,
        Disposition::Busy,
        Disposition::NoAnswer,
        Disposition::Rejected,
        Disposition::NotFound,
        Disposition::Unavailable,
    ] {
        assert_eq!(call_exit_code(Some(d)), 1);
    }
    for d in [Disposition::Completed, Disposition::Voicemail, Disposition::Cancelled] {
        assert_eq!(call_exit_code(Some(d)), 0);
    }
    assert_eq!(call_exit_code(None), 0);
}

#[test]
fn a_followed_call_tells_new_lines_only() {
    let line = |t: &str| TranscriptEntry {
        role: Role::User,
        text: t.into(),
        ts_ms: 0,
    };
    let mut rec = CallRecord {
        call_id: "c".into(),
        number: "1".into(),
        state: CallState::InProgress,
        transcript: vec![line("a"), line("b")],
        affect: vec![],
        goal: None,
        error: None,
        started_ms: 0,
        ended_ms: None,
        quality: CallQuality::default(),
        outcome: None,
        disposition: None,
        attempt: 1,
        retry_of: None,
    };
    let p = follow_call(&rec, 1);
    assert_eq!((p.from, p.told, p.over), (1, 2, false));
    rec.state = CallState::Ended;
    assert!(follow_call(&rec, 2).over);
}

#[test]
fn a_text_that_holds_no_object_is_left_alone() {
    for text in ["42", "[1]", "true", "not json"] {
        let schema = Value::String(text.into());
        assert_eq!(augment_goal_schema(&schema), schema);
    }
    let schema = Value::String("{}".into());
    assert_eq!(augment_goal_schema(&schema)["required"], json(r#"["amd"]"#));
}
