//! The request/response pair of a single invocation.

use vstd::prelude::*;

verus! {

/// One invocation's payload, as the handler reads it: the caller-supplied
/// source address, which the host may omit.
pub struct InboundEvent {
    pub source_ip: Option<String>,
}

/// What the handler returns to the host: a status code and a body string
/// that itself holds a serialized JSON object.
pub struct OutboundResponse {
    pub status_code: i32,
    pub body: String,
}

/// Why a single invocation failed. A failure here is reported to the host
/// as an invocation error; the process keeps serving later invocations.
#[derive(Clone, Copy, Debug, PartialEq, Eq, Structural)]
pub enum InvocationError {
    MissingSourceIp,
}

} // verus!
