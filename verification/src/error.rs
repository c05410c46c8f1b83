//! Errors of the call server.
use vstd::prelude::*;
use vstd::string::StringExecFns;

use crate::sip::SipError;

verus! {

/// What can go wrong around a call.
#[derive(Debug)]
pub enum Error {
    Config(String),
    NetworkUnstable(String),
    Connect(String),
    Protocol(String),
    SessionClosed,
    Io(String),
    Json(serde_json::Error),
    Sip(SipError),
}

/// `serde_json::Error`'s `Display`: the text depends on the error value.
#[verifier::external_body]
fn json_error_text(e: &serde_json::Error) -> (r: String) {
    e.to_string()
}

/// `prefix` followed by `detail`.
pub(crate) fn joined(prefix: &str, detail: &str) -> (r: String)
    ensures
        r@ == prefix@ + detail@,
{
    let mut s: String = prefix.to_owned();
    s.append(detail);
    s
}

impl Error {
    /// The error's message. What a JSON error adds to its own is the parser's wording.
    pub open spec fn message(self, s: Seq<char>) -> bool {
        match self {
            Error::Config(d) => s == "config error: "@ + d@,
            Error::NetworkUnstable(d) => s == "network unstable: "@ + d@,
            Error::Connect(d) => s == "connect error: "@ + d@,
            Error::Protocol(d) => s == "protocol error: "@ + d@,
            Error::SessionClosed => s == "session closed"@,
            Error::Io(d) => s == "io error: "@ + d@,
            Error::Json(_) => exists|d: Seq<char>| s == #[trigger] ("json error: "@ + d),
            Error::Sip(e) => s == "sip error: "@ + e.message(),
        }
    }

    /// The error's message.
    pub fn to_string(&self) -> (r: String)
        ensures
            self.message(r@),
    {
        match self {
            Error::Config(d) => joined("config error: ", d.as_str()),
            Error::NetworkUnstable(d) => joined("network unstable: ", d.as_str()),
            Error::Connect(d) => joined("connect error: ", d.as_str()),
            Error::Protocol(d) => joined("protocol error: ", d.as_str()),
            Error::SessionClosed => "session closed".to_owned(),
            Error::Io(d) => joined("io error: ", d.as_str()),
            Error::Json(e) => {
                let d: String = json_error_text(e);
                joined("json error: ", d.as_str())
            },
            Error::Sip(e) => {
                let d: String = e.to_string();
                joined("sip error: ", d.as_str())
            },
        }
    }
}

impl From<serde_json::Error> for Error {
    fn from(e: serde_json::Error) -> (r: Self) {
        Error::Json(e)
    }
}

impl vstd::std_specs::convert::FromSpecImpl<serde_json::Error> for Error {
    open spec fn obeys_from_spec() -> bool {
        true
    }

    open spec fn from_spec(e: serde_json::Error) -> Self {
        Error::Json(e)
    }
}

impl From<SipError> for Error {
    fn from(e: SipError) -> (r: Self) {
        Error::Sip(e)
    }
}

impl vstd::std_specs::convert::FromSpecImpl<SipError> for Error {
    open spec fn obeys_from_spec() -> bool {
        true
    }

    open spec fn from_spec(e: SipError) -> Self {
        Error::Sip(e)
    }
}

} // verus!
