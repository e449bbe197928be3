//! The library's error type.
use vstd::prelude::*;
use crate::num::{dec_repr, u64_to_string};
use crate::text::push_str;

verus! {

/// Declares `std::io::Error`, carried by the `Io` variant.
#[verifier::external_type_specification]
#[verifier::external_body]
pub struct ExIoError(std::io::Error);

/// Declares `h2::Error`, carried by the `H2` variant.
#[verifier::external_type_specification]
#[verifier::external_body]
pub struct ExH2Error(h2::Error);

/// Declares `serde_json::Error`, carried by the `Json` variant.
#[verifier::external_type_specification]
#[verifier::external_body]
pub struct ExJsonError(serde_json::Error);

/// What can go wrong in the server.
#[derive(Debug)]
pub enum TezError {
    /// An I/O error.
    Io(std::io::Error),
    /// An HTTP status.
    Http(u16),
    /// An HTTP/2 protocol error.
    H2(h2::Error),
    /// Input that could not be parsed.
    Parse(String),
    /// A JSON error.
    Json(serde_json::Error),
    /// Something took too long.
    Timeout,
    /// The connection closed.
    Closed,
    /// A fault inside the server.
    Internal(String),
    /// Too many requests.
    RateLimitExceeded,
    /// A request took too long.
    RequestTimeout,
    /// A body larger than allowed.
    BodyTooLarge { size: usize, limit: usize },
    /// A websocket protocol error.
    Ws(String),
}

/// A result whose error is a `TezError`.
pub type TezResult<T> = Result<T, TezError>;

/// The `Display` text of an I/O error. Nothing is stated of it.
#[verifier::external_body]
fn io_error_text(e: &std::io::Error) -> (r: String) {
    format!("{}", e)
}

/// The `Display` text of an HTTP/2 error. Nothing is stated of it.
#[verifier::external_body]
fn h2_error_text(e: &h2::Error) -> (r: String) {
    format!("{}", e)
}

/// The `Display` text of a JSON error. Nothing is stated of it.
#[verifier::external_body]
fn json_error_text(e: &serde_json::Error) -> (r: String) {
    format!("{}", e)
}

/// The message of an error that carries no outside error.
pub open spec fn own_message(e: TezError) -> Seq<char> {
    match e {
        TezError::Http(code) => "HTTP error: "@ + dec_repr(code as nat),
        TezError::Parse(m) => "Parse error: "@ + m@,
        TezError::Timeout => "Timeout"@,
        TezError::Closed => "Connection closed"@,
        TezError::Internal(m) => "Internal error: "@ + m@,
        TezError::RateLimitExceeded => "Rate limit exceeded"@,
        TezError::RequestTimeout => "Request timeout"@,
        TezError::BodyTooLarge { size, limit } => "Body too large: "@ + dec_repr(size as nat)
            + " bytes exceeds limit of "@ + dec_repr(limit as nat) + " bytes"@,
        TezError::Ws(m) => "WebSocket error: "@ + m@,
        _ => Seq::empty(),
    }
}

impl TezError {
    /// The error's message, as its display text.
    pub fn message(&self) -> (r: String)
        ensures
            match self {
                TezError::Io(_) => "IO error: "@.is_prefix_of(r@),
                TezError::H2(_) => "H2 error: "@.is_prefix_of(r@),
                TezError::Json(_) => "JSON error: "@.is_prefix_of(r@),
                _ => r@ == own_message(*self),
            },
    {
        let mut s = String::new();
        match self {
            TezError::Io(e) => {
                push_str(&mut s, "IO error: ");
                let t = io_error_text(e);
                push_str(&mut s, t.as_str());
            },
            TezError::Http(code) => {
                push_str(&mut s, "HTTP error: ");
                let t = u64_to_string(*code as u64);
                push_str(&mut s, t.as_str());
            },
            TezError::H2(e) => {
                push_str(&mut s, "H2 error: ");
                let t = h2_error_text(e);
                push_str(&mut s, t.as_str());
            },
            TezError::Parse(m) => {
                push_str(&mut s, "Parse error: ");
                push_str(&mut s, m.as_str());
            },
            TezError::Json(e) => {
                push_str(&mut s, "JSON error: ");
                let t = json_error_text(e);
                push_str(&mut s, t.as_str());
            },
            TezError::Timeout => {
                push_str(&mut s, "Timeout");
            },
            TezError::Closed => {
                push_str(&mut s, "Connection closed");
            },
            TezError::Internal(m) => {
                push_str(&mut s, "Internal error: ");
                push_str(&mut s, m.as_str());
            },
            TezError::RateLimitExceeded => {
                push_str(&mut s, "Rate limit exceeded");
            },
            TezError::RequestTimeout => {
                push_str(&mut s, "Request timeout");
            },
            TezError::BodyTooLarge { size, limit } => {
                push_str(&mut s, "Body too large: ");
                let a = u64_to_string(*size as u64);
                push_str(&mut s, a.as_str());
                push_str(&mut s, " bytes exceeds limit of ");
                let b = u64_to_string(*limit as u64);
                push_str(&mut s, b.as_str());
                push_str(&mut s, " bytes");
            },
            TezError::Ws(m) => {
                push_str(&mut s, "WebSocket error: ");
                push_str(&mut s, m.as_str());
            },
        }
        assert(match self {
            TezError::Io(_) => "IO error: "@.is_prefix_of(s@),
            TezError::H2(_) => "H2 error: "@.is_prefix_of(s@),
            TezError::Json(_) => "JSON error: "@.is_prefix_of(s@),
            _ => s@ =~= own_message(*self),
        });
        s
    }
}

impl From<std::io::Error> for TezError {
    fn from(e: std::io::Error) -> (r: Self) {
        TezError::Io(e)
    }
}

impl vstd::std_specs::convert::FromSpecImpl<std::io::Error> for TezError {
    open spec fn obeys_from_spec() -> bool {
        true
    }

    open spec fn from_spec(e: std::io::Error) -> Self {
        TezError::Io(e)
    }
}

impl From<h2::Error> for TezError {
    fn from(e: h2::Error) -> (r: Self) {
        TezError::H2(e)
    }
}

impl vstd::std_specs::convert::FromSpecImpl<h2::Error> for TezError {
    open spec fn obeys_from_spec() -> bool {
        true
    }

    open spec fn from_spec(e: h2::Error) -> Self {
        TezError::H2(e)
    }
}

impl From<serde_json::Error> for TezError {
    fn from(e: serde_json::Error) -> (r: Self) {
        TezError::Json(e)
    }
}

impl vstd::std_specs::convert::FromSpecImpl<serde_json::Error> for TezError {
    open spec fn obeys_from_spec() -> bool {
        true
    }

    open spec fn from_spec(e: serde_json::Error) -> Self {
        TezError::Json(e)
    }
}

impl From<String> for TezError {
    fn from(s: String) -> (r: Self) {
        TezError::Internal(s)
    }
}

impl vstd::std_specs::convert::FromSpecImpl<String> for TezError {
    open spec fn obeys_from_spec() -> bool {
        true
    }

    open spec fn from_spec(s: String) -> Self {
        TezError::Internal(s)
    }
}

} // verus!
