//! The closed set of failure kinds shared by every operation of the crate.
use vstd::prelude::*;

verus! {

/// Every failure a client operation can report.
///
/// - `InvalidUrl`: the base URL handed to the client constructor is not a
///   well-formed absolute URL (construction-time, fatal to client creation).
/// - `Transport`: the underlying network/HTTP layer failed; the message
///   carries the opaque cause as text.
/// - `AuthProtocol`: the Digest challenge was missing, malformed, or asked
///   for an unsupported algorithm or quality of protection.
/// - `Parse`: a response body was malformed; the message is a diagnostic
///   naming the offending fragment.
/// - `InvalidRegion`: the service answered with its in-band "not found"
///   sentinel; carries the region identifier that was requested.
#[derive(Debug, Clone)]
pub enum Error {
    InvalidUrl,
    Transport(String),
    AuthProtocol(String),
    Parse(String),
    InvalidRegion(String),
}

} // verus!
