use postgrest::service::{after_dispatch, Control, Dispatch, Startup, StopSignal};

#[test]
fn only_a_process_that_is_no_service_runs_in_the_foreground() {
    assert!(matches!(after_dispatch(&Dispatch::Served), Startup::Exit));
    let failed = |os_error| after_dispatch(&Dispatch::Failed { os_error });
    assert!(matches!(failed(Some(1063)), Startup::Foreground));
    assert!(matches!(failed(Some(5)), Startup::Fail));
    assert!(matches!(failed(None), Startup::Fail));
}

#[test]
fn the_server_is_told_to_stop_once() {
    let mut signal = StopSignal::new();
    let mut answers = Vec::new();
    for c in [Control::Interrogate, Control::Other, Control::Stop, Control::Stop] {
        let r = signal.handle(&c);
        answers.push((r.known, r.signal));
    }
    assert_eq!(answers, [(true, false), (false, false), (true, true), (true, false)]);
}
