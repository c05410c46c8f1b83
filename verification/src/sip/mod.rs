//! Call signalling: dial outcomes, negotiated codec, and the quality of both media directions.
use vstd::prelude::*;

use crate::error::joined;

pub mod call;
pub mod downlink;
pub mod outcome;
pub mod uplink;

pub use downlink::{DownlinkQuality, DownlinkQualityShared};
pub use outcome::{outcome_from_status, CallOutcome};
pub use uplink::{UplinkQuality, UplinkQualityShared, UplinkStats};

verus! {

/// Errors from the SIP transport layer.
#[derive(Debug)]
pub enum SipError {
    Config(&'static str),
    Bind(String),
    Invite(String),
    NotAnswered,
    Media(String),
    Register(String),
    RuntimeGone,
}

impl SipError {
    /// The error's message.
    pub open spec fn message(self) -> Seq<char> {
        match self {
            SipError::Config(d) => "sip config: "@ + d@,
            SipError::Bind(d) => "sip bind/io: "@ + d@,
            SipError::Invite(d) => "invite rejected: "@ + d@,
            SipError::NotAnswered => "call not answered"@,
            SipError::Media(d) => "media error: "@ + d@,
            SipError::Register(d) => "register failed: "@ + d@,
            SipError::RuntimeGone => "sip runtime unavailable"@,
        }
    }

    /// The error's message.
    pub fn to_string(&self) -> (r: String)
        ensures
            r@ == self.message(),
    {
        match self {
            SipError::Config(d) => joined("sip config: ", d),
            SipError::Bind(d) => joined("sip bind/io: ", d.as_str()),
            SipError::Invite(d) => joined("invite rejected: ", d.as_str()),
            SipError::NotAnswered => "call not answered".to_owned(),
            SipError::Media(d) => joined("media error: ", d.as_str()),
            SipError::Register(d) => joined("register failed: ", d.as_str()),
            SipError::RuntimeGone => "sip runtime unavailable".to_owned(),
        }
    }
}

/// Negotiated G.711 flavour.
#[derive(Debug, Clone, Copy, PartialEq, Eq, Structural)]
pub enum G711Kind {
    /// PCMU, payload type 0.
    Ulaw,
    /// PCMA, payload type 8.
    Alaw,
}

/// Codec negotiated for a call.
#[derive(Debug, Clone, Copy, PartialEq, Eq, Structural)]
pub struct NegotiatedCodec {
    /// RTP payload type negotiated for this call (0=PCMU, 8=PCMA).
    pub pt: u8,
    /// G.711 flavour matching `pt`.
    pub kind: G711Kind,
    /// Packetization interval in milliseconds.
    pub ptime_ms: u32,
}

/// Why a call ended.
#[derive(Debug)]
pub enum TermReason {
    /// The remote party (or trunk) ended the call.
    RemoteHangup,
    /// We ended the call.
    LocalHangup,
    /// The call failed before or during setup or teardown: the classified result, and the
    /// human-readable status line.
    Failed { outcome: CallOutcome, detail: String },
}

/// Lifecycle event of a live call.
#[derive(Debug)]
pub enum SipEvent {
    /// Call was answered; carries the negotiated codec.
    Answered { codec: NegotiatedCodec },
    /// Call has ended; carries the reason.
    Terminated(TermReason),
}

/// Map an RTP payload type to a G.711 flavour (0=PCMU, 8=PCMA).
pub fn g711_kind_from_pt(pt: u8) -> (r: Option<G711Kind>)
    ensures
        r == (if pt == 0 {
            Some(G711Kind::Ulaw)
        } else if pt == 8 {
            Some(G711Kind::Alaw)
        } else {
            None
        }),
{
    match pt {
        0 => Some(G711Kind::Ulaw),
        8 => Some(G711Kind::Alaw),
        _ => None,
    }
}

} // verus!
