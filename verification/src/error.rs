//! The error type shared by every part of the library.

use vstd::prelude::*;

use crate::text::{push_str_chars, string_of};

verus! {

/// Everything that can go wrong, with a human-readable detail where one
/// applies.
#[derive(Debug)]
pub enum TomeError {
    Io(String),
    NotFound(String),
    Integrity(String),
    Api(String),
    Storage(String),
    Dump(String),
    Config(String),
    /// A long-running operation was cancelled by the user.
    Cancelled,
    CircuitBreakerOpen,
    KillSwitch,
    Other(String),
}

/// The text shown for an error.
pub open spec fn error_message(e: TomeError) -> Seq<char> {
    match e {
        TomeError::Io(s) => "io: "@ + s@,
        TomeError::NotFound(s) => "not found: "@ + s@,
        TomeError::Integrity(s) => "integrity check failed: "@ + s@,
        TomeError::Api(s) => "api error: "@ + s@,
        TomeError::Storage(s) => "storage error: "@ + s@,
        TomeError::Dump(s) => "dump error: "@ + s@,
        TomeError::Config(s) => "config error: "@ + s@,
        TomeError::Cancelled => "cancelled"@,
        TomeError::CircuitBreakerOpen => "circuit breaker open: try again later"@,
        TomeError::KillSwitch => "kill switch active: outbound traffic disabled"@,
        TomeError::Other(s) => s@,
    }
}

pub(crate) fn prefixed(prefix: &str, s: &String) -> (r: String)
    ensures
        r@ == prefix@ + s@,
{
    let mut out: Vec<char> = Vec::new();
    push_str_chars(&mut out, prefix);
    push_str_chars(&mut out, s.as_str());
    assert(out@ =~= prefix@ + s@);
    string_of(out.as_slice())
}

impl TomeError {
    /// The text shown for this error.
    pub fn message(&self) -> (r: String)
        ensures
            r@ == error_message(*self),
    {
        match self {
            TomeError::Io(s) => prefixed("io: ", s),
            TomeError::NotFound(s) => prefixed("not found: ", s),
            TomeError::Integrity(s) => prefixed("integrity check failed: ", s),
            TomeError::Api(s) => prefixed("api error: ", s),
            TomeError::Storage(s) => prefixed("storage error: ", s),
            TomeError::Dump(s) => prefixed("dump error: ", s),
            TomeError::Config(s) => prefixed("config error: ", s),
            TomeError::Cancelled => crate::text::copy_str("cancelled"),
            TomeError::CircuitBreakerOpen => crate::text::copy_str(
                "circuit breaker open: try again later",
            ),
            TomeError::KillSwitch => crate::text::copy_str(
                "kill switch active: outbound traffic disabled",
            ),
            TomeError::Other(s) => s.clone(),
        }
    }
}

} // verus!
