use route_cli::proxy::{
    proxy_env_urls, readiness_decide, wait_port_open, EngineHandle, EngineState, ReadinessStep,
};
use route_cli::RouteError;

#[test]
fn readiness_decisions() {
    assert!(matches!(readiness_decide(0, 8000, true), ReadinessStep::Ready));
    assert!(matches!(readiness_decide(7999, 8000, false), ReadinessStep::Wait));
    assert!(matches!(readiness_decide(8000, 8000, false), ReadinessStep::TimedOut));
}

#[test]
fn wait_succeeds_at_the_first_open_poll() {
    // Port opens at the third poll: success as soon as it accepts.
    let polls = vec![false, false, true, true, true, true, true, true, true, true];
    let (r, waited) = wait_port_open(&polls, 2000, 200);
    assert_eq!(r, Ok(()));
    assert_eq!(waited, 400);
}

#[test]
fn wait_succeeds_immediately_when_port_is_open() {
    let polls = vec![true; 10];
    let (r, waited) = wait_port_open(&polls, 2000, 200);
    assert_eq!(r, Ok(()));
    assert_eq!(waited, 0);
}

#[test]
fn wait_gives_up_after_the_deadline_plus_at_most_one_interval() {
    let polls = vec![false; 10];
    let (r, waited) = wait_port_open(&polls, 1900, 200);
    assert_eq!(r, Err(RouteError::EngineNotReady));
    assert!(waited >= 1900);
    assert!(waited < 1900 + 200);
}

#[test]
fn wait_ignores_polls_after_the_deadline() {
    // The port only opens past the timeout: still a failure.
    let polls = vec![false, false, false, false, false, true];
    let (r, _) = wait_port_open(&polls, 1000, 200);
    assert_eq!(r, Err(RouteError::EngineNotReady));
}

#[test]
fn engine_lifecycle_transitions() {
    let mut h = EngineHandle::new();
    assert_eq!(h.state, EngineState::NotStarted);
    h.mark_spawned();
    assert_eq!(h.state, EngineState::Running);
    h.mark_ready();
    assert_eq!(h.state, EngineState::ReadinessConfirmed);
    assert!(h.stop());
    assert_eq!(h.state, EngineState::Stopped);
}

#[test]
fn stop_is_idempotent_and_never_started_is_a_noop() {
    // Never started: no kill, state untouched.
    let mut fresh = EngineHandle::new();
    assert!(!fresh.stop());
    assert_eq!(fresh.state, EngineState::NotStarted);

    // Stopping twice: the second stop demands nothing.
    let mut h = EngineHandle::new();
    h.mark_spawned();
    assert!(h.stop());
    assert!(!h.stop());
    assert_eq!(h.state, EngineState::Stopped);

    // A readiness timeout still owns a live process that stop must reap.
    let mut t = EngineHandle::new();
    t.mark_spawned();
    t.mark_ready_timeout();
    assert!(t.stop());
    assert!(!t.stop());
}

#[test]
fn proxy_environment_urls() {
    let (http, socks) = proxy_env_urls(27890);
    assert_eq!(http, "http://127.0.0.1:27890");
    assert_eq!(socks, "socks5://127.0.0.1:27890");
    let (http2, socks2) = proxy_env_urls(80);
    assert_eq!(http2, "http://127.0.0.1:80");
    assert_eq!(socks2, "socks5://127.0.0.1:80");
}
