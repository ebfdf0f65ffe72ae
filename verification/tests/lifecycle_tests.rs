use json_ipc_server::lifecycle::{Error, Lifecycle};

// Lifecycle: stop() twice in a row returns success, then NotStarted once the
// worker has drained and exited.
#[test]
fn stop_twice_succeeds_then_not_started() {
    let mut l = Lifecycle::new();
    assert!(l.try_start().is_ok());
    // First stop request: accepted, drain begins; the worker observes the
    // flag and exits the loop.
    assert!(l.try_request_stop().is_ok());
    assert!(!l.keep_running());
    l.mark_stopped();
    assert!(l.is_stopped());
    // Second stop request: refused, nothing runs any more.
    assert!(matches!(l.try_request_stop(), Err(Error::NotStarted)));
}

// Lifecycle: run_async() while already running returns NotStopped.
#[test]
fn start_while_running_is_refused() {
    let mut l = Lifecycle::new();
    assert!(l.try_start().is_ok());
    assert!(matches!(l.try_start(), Err(Error::NotStopped)));
}

#[test]
fn start_during_drain_is_refused() {
    let mut l = Lifecycle::new();
    assert!(l.try_start().is_ok());
    assert!(l.try_request_stop().is_ok());
    assert!(matches!(l.try_start(), Err(Error::IsStopping)));
}

#[test]
fn second_stop_request_during_drain_is_refused() {
    let mut l = Lifecycle::new();
    assert!(l.try_start().is_ok());
    assert!(l.try_request_stop().is_ok());
    assert!(matches!(l.try_request_stop(), Err(Error::AlreadyStopping)));
}

#[test]
fn stop_before_any_start_is_refused() {
    let mut l = Lifecycle::new();
    assert!(matches!(l.try_request_stop(), Err(Error::NotStarted)));
}

#[test]
fn restart_after_full_stop_succeeds() {
    let mut l = Lifecycle::new();
    assert!(l.try_start().is_ok());
    assert!(l.try_request_stop().is_ok());
    l.mark_stopped();
    assert!(l.try_start().is_ok());
    assert!(l.keep_running());
}

#[test]
fn io_error_converts_to_error_io() {
    let e: Error = std::io::Error::new(std::io::ErrorKind::Other, "bind failed").into();
    assert!(matches!(e, Error::Io(_)));
}
