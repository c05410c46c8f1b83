//! Outbound voice calls placed by a language-model agent.
pub mod amd;
pub mod audio_file;
pub mod breaker;
pub mod bridge;
pub mod single;
pub mod cli;
pub mod config;
pub mod engine;
pub mod error;
pub mod gemini_live;
pub mod json;
pub mod level;
pub mod main_support;
pub mod mcp;
pub mod mcp_http;
pub mod nearest;
pub mod net_check;
pub mod proto;
pub mod proxy;
pub mod queue;
pub mod realtime;
pub mod reconnect;
pub mod schema;
pub mod session;
pub mod sip;
pub mod state;
pub mod text;
pub mod vad;

use vstd::prelude::*;

verus! {

/// The crate version.
pub const VERSION: &'static str = "0.1.0";

/// Returns the crate version.
pub fn version() -> (r: &'static str)
    ensures
        r@ == VERSION@,
{
    VERSION
}

} // verus!
