//! The invocation handler: one inbound event in, one outbound response or
//! an invocation error out. Pure; the host's transport delivers the event
//! and carries the response away.

use crate::codec::spec_body_json;
use crate::codec::build_body;
use crate::event::InboundEvent;
use crate::event::InvocationError;
use crate::event::OutboundResponse;
use vstd::prelude::*;

verus! {

/// Answers one invocation. With a source address present the response has
/// status 200 and a body that is exactly the four-key JSON object over the
/// address and the build-target identifiers; without one the invocation
/// fails with `MissingSourceIp`, and no data is substituted.
///
/// `arch` and `os` are the build target's CPU-architecture and
/// operating-system identifiers, which the surrounding process supplies.
pub fn handle_invocation(event: &InboundEvent, arch: &str, os: &str) -> (r: Result<
    OutboundResponse,
    InvocationError,
>)
    ensures
        match r {
            Ok(resp) => event.source_ip matches Some(ip) && resp.status_code == 200
                && resp.body@ == spec_body_json(ip@, arch@, os@),
            Err(e) => event.source_ip is None && e is MissingSourceIp,
        },
{
    match &event.source_ip {
        Some(ip) => {
            let body = build_body(ip.as_str(), arch, os);
            Ok(OutboundResponse { status_code: 200, body })
        },
        None => Err(InvocationError::MissingSourceIp),
    }
}

} // verus!
