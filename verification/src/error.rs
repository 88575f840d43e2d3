//! Error types for X MCP Server.

use vstd::prelude::*;
use vstd::string::StringExecFns;
use crate::encoding::{dec_u64, u64_to_decimal, ascii_to_string, lemma_dec_u64_ascii};

verus! {

/// Result type alias for X operations.
pub type XResult<T> = Result<T, XError>;

/// Error types for X API operations.
#[derive(Debug)]
pub enum XError {
    /// HTTP request errors (the transport's own report, as text).
    Http(String),
    /// JSON serialization/deserialization errors.
    Json(String),
    /// IO errors.
    Io(String),
    /// Server initialization errors.
    ServerInit(String),
    /// Authentication errors.
    Auth(String),
    /// API errors from X.
    Api { status: u16, message: String },
    /// Configuration errors.
    Config(String),
    /// Generic errors.
    Generic(String),
}

/// The rendering of an error, one line, prefix then detail.
pub open spec fn spec_error_message(e: XError) -> Seq<char> {
    match e {
        XError::Http(m) => "HTTP request failed: "@ + m@,
        XError::Json(m) => "JSON error: "@ + m@,
        XError::Io(m) => "IO error: "@ + m@,
        XError::ServerInit(m) => "Server initialization error: "@ + m@,
        XError::Auth(m) => "Authentication error: "@ + m@,
        XError::Api { status, message } => "X API error: "@ + dec_u64(
            status as nat,
        ).map_values(|b: u8| b as char) + " - "@ + message@,
        XError::Config(m) => "Configuration error: "@ + m@,
        XError::Generic(m) => "Error: "@ + m@,
    }
}

impl XError {
    /// Render the error as one line of text.
    pub fn message(&self) -> (r: String)
        ensures
            r@ == spec_error_message(*self),
    {
        match self {
            XError::Http(m) => {
                let mut s = String::from_str("HTTP request failed: ");
                s.append(m.as_str());
                s
            },
            XError::Json(m) => {
                let mut s = String::from_str("JSON error: ");
                s.append(m.as_str());
                s
            },
            XError::Io(m) => {
                let mut s = String::from_str("IO error: ");
                s.append(m.as_str());
                s
            },
            XError::ServerInit(m) => {
                let mut s = String::from_str("Server initialization error: ");
                s.append(m.as_str());
                s
            },
            XError::Auth(m) => {
                let mut s = String::from_str("Authentication error: ");
                s.append(m.as_str());
                s
            },
            XError::Api { status, message } => {
                let mut s = String::from_str("X API error: ");
                let digits = u64_to_decimal(*status as u64);
                proof {
                    lemma_dec_u64_ascii(*status as nat);
                }
                let digits_str = ascii_to_string(digits);
                s.append(digits_str.as_str());
                s.append(" - ");
                s.append(message.as_str());
                s
            },
            XError::Config(m) => {
                let mut s = String::from_str("Configuration error: ");
                s.append(m.as_str());
                s
            },
            XError::Generic(m) => {
                let mut s = String::from_str("Error: ");
                s.append(m.as_str());
                s
            },
        }
    }
}

} // verus!
