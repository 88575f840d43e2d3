//! An MCP (line-delimited JSON-RPC) server for the X API: an OAuth 1.0a
//! request signer together with the request/response dispatch protocol that
//! drives it.
//!
//! The signing algorithm (percent-encoding, canonical parameter ordering,
//! HMAC-SHA1 base-string construction, header rendering) and the dispatcher
//! (line framing, method routing, request/response id correlation) are
//! verified; process I/O and the HTTP transport live outside the library.

pub mod auth;
pub mod client;
pub mod encoding;
pub mod error;
pub mod json;
pub mod params;
pub mod server;
pub mod tools;
pub mod types;

use vstd::prelude::*;

verus! {

/// Version of the X MCP Server.
pub const VERSION: &'static str = "0.1.0";

} // verus!
