use echo_service::acceptor::{AcceptAction, AcceptError, AcceptEvent, AcceptLoop, AcceptPhase};

#[test]
fn test_new_loop_accepts() {
    let accept_loop = AcceptLoop::new();
    assert_eq!(accept_loop.phase(), AcceptPhase::Listening);
    assert_eq!(accept_loop.next_action(), AcceptAction::Accept);
    assert_eq!(accept_loop.result(), Ok(()));
}

#[test]
fn test_connection_is_prepared_then_dispatched() {
    let mut accept_loop = AcceptLoop::new();
    assert_eq!(accept_loop.step(AcceptEvent::Connected), AcceptAction::Prepare);
    assert_eq!(accept_loop.phase(), AcceptPhase::Preparing);
    assert_eq!(accept_loop.step(AcceptEvent::Prepared), AcceptAction::Dispatch);
    assert_eq!(accept_loop.phase(), AcceptPhase::Dispatching);
    assert_eq!(accept_loop.step(AcceptEvent::Dispatched), AcceptAction::Accept);
    assert_eq!(accept_loop.phase(), AcceptPhase::Listening);
    assert_eq!(accept_loop.result(), Ok(()));
}

#[test]
fn test_unprepared_connection_is_dropped_and_loop_goes_on() {
    let mut accept_loop = AcceptLoop::new();
    accept_loop.step(AcceptEvent::Connected);
    assert_eq!(accept_loop.step(AcceptEvent::PrepareFailed), AcceptAction::Accept);
    assert_eq!(accept_loop.phase(), AcceptPhase::Listening);
    assert_eq!(accept_loop.result(), Ok(()));
    assert_eq!(accept_loop.step(AcceptEvent::Connected), AcceptAction::Prepare);
}

#[test]
fn test_accept_failure_stops_the_loop() {
    let mut accept_loop = AcceptLoop::new();
    assert_eq!(accept_loop.step(AcceptEvent::AcceptFailed), AcceptAction::Stop);
    assert_eq!(accept_loop.phase(), AcceptPhase::Stopped);
    assert_eq!(accept_loop.result(), Err(AcceptError));
}

#[test]
fn test_stopped_loop_stays_stopped() {
    let mut accept_loop = AcceptLoop::new();
    accept_loop.step(AcceptEvent::AcceptFailed);
    for event in [
        AcceptEvent::Connected,
        AcceptEvent::AcceptFailed,
        AcceptEvent::Prepared,
        AcceptEvent::PrepareFailed,
        AcceptEvent::Dispatched,
    ] {
        assert_eq!(accept_loop.step(event), AcceptAction::Stop);
        assert_eq!(accept_loop.phase(), AcceptPhase::Stopped);
    }
    assert_eq!(accept_loop.result(), Err(AcceptError));
}

#[test]
fn test_accept_failure_after_serving_connections() {
    let mut accept_loop = AcceptLoop::new();
    for _ in 0..3 {
        accept_loop.step(AcceptEvent::Connected);
        accept_loop.step(AcceptEvent::Prepared);
        accept_loop.step(AcceptEvent::Dispatched);
    }
    assert_eq!(accept_loop.step(AcceptEvent::AcceptFailed), AcceptAction::Stop);
    assert_eq!(accept_loop.result(), Err(AcceptError));
}

#[test]
fn test_reports_that_answer_nothing_are_ignored() {
    let mut accept_loop = AcceptLoop::new();
    assert_eq!(accept_loop.step(AcceptEvent::Prepared), AcceptAction::Accept);
    assert_eq!(accept_loop.step(AcceptEvent::PrepareFailed), AcceptAction::Accept);
    assert_eq!(accept_loop.step(AcceptEvent::Dispatched), AcceptAction::Accept);
    accept_loop.step(AcceptEvent::Connected);
    assert_eq!(accept_loop.step(AcceptEvent::Connected), AcceptAction::Prepare);
    assert_eq!(accept_loop.step(AcceptEvent::AcceptFailed), AcceptAction::Prepare);
    assert_eq!(accept_loop.step(AcceptEvent::Dispatched), AcceptAction::Prepare);
    accept_loop.step(AcceptEvent::Prepared);
    assert_eq!(accept_loop.step(AcceptEvent::Connected), AcceptAction::Dispatch);
    assert_eq!(accept_loop.step(AcceptEvent::AcceptFailed), AcceptAction::Dispatch);
    assert_eq!(accept_loop.step(AcceptEvent::Prepared), AcceptAction::Dispatch);
    assert_eq!(accept_loop.step(AcceptEvent::PrepareFailed), AcceptAction::Dispatch);
    assert_eq!(accept_loop.result(), Ok(()));
}

#[test]
fn test_every_accepted_connection_is_dispatched_or_dropped_once() {
    let reports = [
        AcceptEvent::Connected,
        AcceptEvent::Prepared,
        AcceptEvent::Dispatched,
        AcceptEvent::Connected,
        AcceptEvent::PrepareFailed,
        AcceptEvent::Connected,
        AcceptEvent::Prepared,
        AcceptEvent::Dispatched,
        AcceptEvent::Connected,
    ];
    let mut accept_loop = AcceptLoop::new();
    let (mut accepted, mut dispatched, mut dropped) = (0, 0, 0);
    for event in reports {
        let before = accept_loop.phase();
        accept_loop.step(event);
        match (before, event) {
            (AcceptPhase::Listening, AcceptEvent::Connected) => accepted += 1,
            (AcceptPhase::Dispatching, AcceptEvent::Dispatched) => dispatched += 1,
            (AcceptPhase::Preparing, AcceptEvent::PrepareFailed) => dropped += 1,
            _ => {}
        }
    }
    assert_eq!(accepted, 4);
    assert_eq!(dispatched, 2);
    assert_eq!(dropped, 1);
    assert_eq!(accept_loop.phase(), AcceptPhase::Preparing);
}
