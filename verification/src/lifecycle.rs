//! The process lifecycle: registration first, then invocations, until a
//! signal ends everything. One machine owns the whole story, so that the
//! ordering guarantee (registration completes before the first invocation
//! is accepted) and the hard-cancellation policy (a signal terminates the
//! process even with an invocation in flight) are stated and checked.

use crate::shutdown::ShutdownPlan;
use crate::shutdown::ShutdownSignal;
use crate::shutdown::shutdown_plan;
use crate::shutdown::spec_plan_for;
use vstd::prelude::*;
use vstd::string::StringExecFns;

verus! {

/// The phases of the process. Registration happens in `Init`; the host's
/// event loop only runs in `Invoking`; a signal or a fatal startup error
/// leads to `Exited`, from which nothing follows.
#[derive(Clone, Copy, Debug, PartialEq, Eq, Structural)]
pub enum Phase {
    Init,
    Invoking,
    Exited,
}

/// A fatal startup error: the environment is misconfigured and will not
/// self-correct, so the process aborts rather than retry.
#[derive(Clone, Copy, Debug, PartialEq, Eq, Structural)]
pub enum StartupError {
    RegistrationFailed,
}

/// What the registration handshake declares: a name unique among the
/// extensions of the same function, and the lifecycle events subscribed
/// to — none, since the registration exists only for signal delivery.
pub struct ExtensionConfig {
    pub extension_name: String,
    pub subscribed_events: Vec<String>,
}

/// The configuration of the no-op extension this process registers.
pub fn no_op_extension_config() -> (c: ExtensionConfig)
    ensures
        c.extension_name@ == "no-op"@,
        c.subscribed_events@.len() == 0,
{
    ExtensionConfig { extension_name: String::from_str("no-op"), subscribed_events: Vec::new() }
}

/// The lifecycle machine.
pub struct Lifecycle {
    pub phase: Phase,
    pub registered: bool,
    pub accepted: u64,
    pub in_flight: bool,
}

impl Lifecycle {
    /// What every reachable lifecycle value satisfies.
    pub open spec fn inv(self) -> bool {
        &&& (self.phase is Init ==> !self.registered && self.accepted == 0 && !self.in_flight)
        &&& (self.phase is Invoking ==> self.registered)
        &&& (self.accepted > 0 ==> self.registered)
        &&& (self.in_flight ==> self.accepted > 0)
    }

    /// A fresh process: nothing registered, nothing accepted.
    pub fn new() -> (l: Lifecycle)
        ensures
            l.inv(),
            l.phase is Init,
            !l.registered,
            l.accepted == 0,
            !l.in_flight,
    {
        Lifecycle { phase: Phase::Init, registered: false, accepted: 0, in_flight: false }
    }

    /// Records the awaited outcome of the one registration handshake.
    /// Success ends the `Init` phase and lets the event loop start;
    /// failure is fatal, and the process aborts startup.
    pub fn finish_registration(&mut self, ok: bool) -> (r: Result<(), StartupError>)
        requires
            old(self).inv(),
            old(self).phase is Init,
        ensures
            final(self).inv(),
            final(self).accepted == old(self).accepted,
            final(self).in_flight == old(self).in_flight,
            ok ==> r is Ok && final(self).registered && final(self).phase is Invoking,
            !ok ==> (r matches Err(e) && e is RegistrationFailed) && !final(self).registered
                && final(self).phase is Exited,
    {
        if ok {
            self.phase = Phase::Invoking;
            self.registered = true;
            Ok(())
        } else {
            self.phase = Phase::Exited;
            Err(StartupError::RegistrationFailed)
        }
    }

    /// Accepts one invocation from the host's event loop. Only a process
    /// whose registration completed can reach this point.
    pub fn accept_invocation(&mut self)
        requires
            old(self).inv(),
            old(self).phase is Invoking,
            !old(self).in_flight,
            old(self).accepted < u64::MAX,
        ensures
            final(self).inv(),
            final(self).phase is Invoking,
            final(self).registered,
            final(self).accepted == old(self).accepted + 1,
            final(self).in_flight,
    {
        self.accepted = self.accepted + 1;
        self.in_flight = true;
    }

    /// Marks the in-flight invocation as answered.
    pub fn finish_invocation(&mut self)
        requires
            old(self).inv(),
            old(self).in_flight,
        ensures
            final(self).inv(),
            final(self).phase == old(self).phase,
            final(self).registered == old(self).registered,
            final(self).accepted == old(self).accepted,
            !final(self).in_flight,
    {
        self.in_flight = false;
    }

    /// Consumes the one termination signal. The exit is unconditional and
    /// immediate: the contract asks nothing of `in_flight`, so an
    /// invocation still in flight is abandoned, not awaited.
    pub fn observe_signal(&mut self, sig: &ShutdownSignal) -> (p: ShutdownPlan)
        requires
            old(self).inv(),
            !(old(self).phase is Exited),
        ensures
            final(self).inv(),
            final(self).phase is Exited,
            final(self).registered == old(self).registered,
            final(self).accepted == old(self).accepted,
            final(self).in_flight == old(self).in_flight,
            spec_plan_for(*sig, p),
    {
        self.phase = Phase::Exited;
        shutdown_plan(sig)
    }
}

/// Registration precedes the first invocation: in every reachable
/// lifecycle state that has accepted an invocation, the registration
/// handshake has completed.
pub proof fn lemma_registration_precedes_invocations(l: Lifecycle)
    requires
        l.inv(),
        l.accepted > 0,
    ensures
        l.registered,
{
}

} // verus!
