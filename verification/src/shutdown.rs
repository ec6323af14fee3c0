//! The shutdown listener: a single-shot state machine that turns one
//! termination signal into a fixed plan — three log lines in fixed order,
//! then process exit with success status.

use vstd::prelude::*;
use vstd::string::StringExecFns;

verus! {

/// A termination notice from the operating environment. The host delivers
/// at most one per process lifetime; both variants are handled alike.
#[derive(Clone, Copy, Debug, PartialEq, Eq, Structural)]
pub enum ShutdownSignal {
    Interrupt,
    Terminate,
}

/// Where the listener stands. `Draining` never outlives a call: there is
/// no cleanup work, so a signal carries the listener straight to `Exited`.
#[derive(Clone, Copy, Debug, PartialEq, Eq, Structural)]
pub enum ListenerState {
    Waiting,
    Draining,
    Exited,
}

/// What the process must do on shutdown: print these lines in order, then
/// exit with this status.
pub struct ShutdownPlan {
    pub log_lines: Vec<String>,
    pub exit_code: i32,
}

/// The first log line of a shutdown, naming the signal received.
pub open spec fn spec_received_line(sig: ShutdownSignal) -> Seq<char> {
    match sig {
        ShutdownSignal::Interrupt => "[runtime] SIGINT received"@,
        ShutdownSignal::Terminate => "[runtime] SIGTERM received"@,
    }
}

/// The plan a signal must produce: exactly three lines — received, in
/// progress, completed — and a success exit status.
pub open spec fn spec_plan_for(sig: ShutdownSignal, p: ShutdownPlan) -> bool {
    &&& p.log_lines@.len() == 3
    &&& p.log_lines@[0]@ == spec_received_line(sig)
    &&& p.log_lines@[1]@ == "[runtime] Graceful shutdown in progress ..."@
    &&& p.log_lines@[2]@ == "[runtime] Graceful shutdown completed"@
    &&& p.exit_code == 0
}

/// Builds the shutdown plan for one signal. Both signal variants produce
/// the same plan but for the first line, which names the signal.
pub fn shutdown_plan(sig: &ShutdownSignal) -> (p: ShutdownPlan)
    ensures
        spec_plan_for(*sig, p),
{
    let mut log_lines: Vec<String> = Vec::new();
    let first: &str = match sig {
        ShutdownSignal::Interrupt => "[runtime] SIGINT received",
        ShutdownSignal::Terminate => "[runtime] SIGTERM received",
    };
    log_lines.push(String::from_str(first));
    log_lines.push(String::from_str("[runtime] Graceful shutdown in progress ..."));
    log_lines.push(String::from_str("[runtime] Graceful shutdown completed"));
    ShutdownPlan { log_lines, exit_code: 0 }
}

/// The single-shot listener of the shutdown protocol.
pub struct ShutdownListener {
    pub state: ListenerState,
}

impl ShutdownListener {
    /// A fresh listener, waiting for a signal.
    pub fn new() -> (l: ShutdownListener)
        ensures
            l.state is Waiting,
    {
        ShutdownListener { state: ListenerState::Waiting }
    }

    /// Consumes the one termination signal: the listener drains (no work
    /// to flush) and exits, handing back the fixed three-line plan with
    /// success status. It never returns to `Waiting`.
    pub fn receive(&mut self, sig: &ShutdownSignal) -> (p: ShutdownPlan)
        requires
            old(self).state is Waiting,
        ensures
            final(self).state is Exited,
            spec_plan_for(*sig, p),
    {
        self.state = ListenerState::Draining;
        let p = shutdown_plan(sig);
        self.state = ListenerState::Exited;
        p
    }
}

} // verus!
