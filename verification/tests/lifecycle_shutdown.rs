use internal_extension::lifecycle::Lifecycle;
use internal_extension::lifecycle::Phase;
use internal_extension::lifecycle::StartupError;
use internal_extension::lifecycle::no_op_extension_config;
use internal_extension::shutdown::ListenerState;
use internal_extension::shutdown::ShutdownListener;
use internal_extension::shutdown::ShutdownSignal;
use internal_extension::shutdown::shutdown_plan;

#[test]
fn interrupt_plan_has_three_lines_in_order_and_exit_zero() {
    let p = shutdown_plan(&ShutdownSignal::Interrupt);
    assert_eq!(p.log_lines.len(), 3);
    assert_eq!(p.log_lines[0], "[runtime] SIGINT received");
    assert_eq!(p.log_lines[1], "[runtime] Graceful shutdown in progress ...");
    assert_eq!(p.log_lines[2], "[runtime] Graceful shutdown completed");
    assert_eq!(p.exit_code, 0);
}

#[test]
fn terminate_plan_has_three_lines_in_order_and_exit_zero() {
    let p = shutdown_plan(&ShutdownSignal::Terminate);
    assert_eq!(p.log_lines.len(), 3);
    assert_eq!(p.log_lines[0], "[runtime] SIGTERM received");
    assert_eq!(p.log_lines[1], "[runtime] Graceful shutdown in progress ...");
    assert_eq!(p.log_lines[2], "[runtime] Graceful shutdown completed");
    assert_eq!(p.exit_code, 0);
}

#[test]
fn listener_consumes_one_signal_and_exits() {
    let mut l = ShutdownListener::new();
    assert_eq!(l.state, ListenerState::Waiting);
    let p = l.receive(&ShutdownSignal::Terminate);
    assert_eq!(l.state, ListenerState::Exited);
    assert_eq!(p.exit_code, 0);
    assert_eq!(p.log_lines.len(), 3);
}

#[test]
fn no_op_extension_subscribes_to_nothing() {
    let c = no_op_extension_config();
    assert_eq!(c.extension_name, "no-op");
    assert!(c.subscribed_events.is_empty());
}

#[test]
fn registration_completes_before_first_invocation() {
    let mut lc = Lifecycle::new();
    assert_eq!(lc.phase, Phase::Init);
    assert!(!lc.registered);
    lc.finish_registration(true).unwrap();
    assert!(lc.registered);
    assert_eq!(lc.phase, Phase::Invoking);
    lc.accept_invocation();
    assert_eq!(lc.accepted, 1);
    assert!(lc.registered);
    lc.finish_invocation();
    assert!(!lc.in_flight);
}

#[test]
fn registration_failure_aborts_startup() {
    let mut lc = Lifecycle::new();
    match lc.finish_registration(false) {
        Err(e) => assert_eq!(e, StartupError::RegistrationFailed),
        Ok(_) => panic!("a failed registration must abort startup"),
    }
    assert_eq!(lc.phase, Phase::Exited);
    assert!(!lc.registered);
}

#[test]
fn signal_while_idle_terminates_with_success() {
    let mut lc = Lifecycle::new();
    lc.finish_registration(true).unwrap();
    let p = lc.observe_signal(&ShutdownSignal::Interrupt);
    assert_eq!(lc.phase, Phase::Exited);
    assert_eq!(p.exit_code, 0);
    assert_eq!(p.log_lines.len(), 3);
}

#[test]
fn signal_during_inflight_invocation_terminates_immediately() {
    let mut lc = Lifecycle::new();
    lc.finish_registration(true).unwrap();
    lc.accept_invocation();
    assert!(lc.in_flight);
    let p = lc.observe_signal(&ShutdownSignal::Terminate);
    assert_eq!(lc.phase, Phase::Exited);
    assert!(lc.in_flight);
    assert_eq!(p.exit_code, 0);
    assert_eq!(p.log_lines[0], "[runtime] SIGTERM received");
}
