use wifimanager::session::{
    Session, SessionAction, HTTP_BUFFER_SIZE, HTTP_PORT, PAUSE_MS, SOCKET_TIMEOUT_SECS,
    WEB_TASK_POOL_SIZE,
};
use wifimanager::upload::ReadOutcome;

fn data(bytes: &[u8]) -> ReadOutcome {
    ReadOutcome::Data(bytes.to_vec())
}

#[test]
fn a_request_is_gathered_and_answered() {
    let mut s = Session::new();
    assert_eq!(s.action(), SessionAction::Accept);
    s.accepted(true);
    assert_eq!(s.action(), SessionAction::Read);
    assert_eq!(s.room(), HTTP_BUFFER_SIZE);
    s.read(data(b"GET / x\r\n\r"));
    assert_eq!(s.action(), SessionAction::Read);
    assert_eq!(s.room(), HTTP_BUFFER_SIZE - 10);
    s.read(data(b"\nbody"));
    assert_eq!(s.action(), SessionAction::Dispatch);
    assert_eq!(s.bytes(), b"GET / x\r\n\r\nbody");
    for expected in [
        SessionAction::Pause,
        SessionAction::Close,
        SessionAction::Pause,
        SessionAction::Abort,
        SessionAction::Accept,
    ] {
        s.done();
        assert_eq!(s.action(), expected);
    }
}

#[test]
fn a_failed_accept_is_tried_again_after_a_pause() {
    let mut s = Session::new();
    s.accepted(false);
    assert_eq!(s.action(), SessionAction::Pause);
    s.done();
    assert_eq!(s.action(), SessionAction::Accept);
}

#[test]
fn an_empty_connection_is_closed_at_once() {
    for outcome in [data(b""), ReadOutcome::Failed] {
        let mut s = Session::new();
        s.accepted(true);
        s.read(outcome);
        assert_eq!(s.action(), SessionAction::Close);
        s.done();
        assert_eq!(s.action(), SessionAction::Accept);
    }
}

#[test]
fn what_was_received_before_the_end_or_a_failure_is_answered() {
    for outcome in [data(b""), ReadOutcome::Failed] {
        let mut s = Session::new();
        s.accepted(true);
        s.read(data(b"abc"));
        s.read(outcome);
        assert_eq!(s.action(), SessionAction::Dispatch);
        assert_eq!(s.bytes(), b"abc");
    }
}

#[test]
fn a_full_buffer_is_answered() {
    let mut s = Session::new();
    s.accepted(true);
    s.read(data(&vec![b'x'; HTTP_BUFFER_SIZE - 1]));
    assert_eq!(s.action(), SessionAction::Read);
    s.read(data(b"x"));
    assert_eq!(s.action(), SessionAction::Dispatch);
    assert_eq!(s.room(), 0);
}

#[test]
fn a_new_connection_starts_empty() {
    let mut s = Session::new();
    s.accepted(true);
    s.read(data(b"one\r\n\r\n"));
    for _ in 0..5 {
        s.done();
    }
    s.accepted(true);
    assert_eq!(s.bytes(), b"");
    s.read(data(b"two\r\n\r\n"));
    assert_eq!(s.bytes(), b"two\r\n\r\n");
}

#[test]
fn the_numbers_of_the_web_tasks() {
    assert_eq!(WEB_TASK_POOL_SIZE, 2);
    assert_eq!(HTTP_BUFFER_SIZE, 2048);
    assert_eq!(HTTP_PORT, 80);
    assert_eq!(PAUSE_MS, 5);
    assert_eq!(SOCKET_TIMEOUT_SECS, 10);
}

#[test]
fn a_session_always_comes_back_to_accepting() {
    for n in [0, 1, 7, HTTP_BUFFER_SIZE - 1, HTTP_BUFFER_SIZE, HTTP_BUFFER_SIZE + 10] {
        let mut s = Session::new();
        s.accepted(true);
        let mut events = 0;
        while s.action() != SessionAction::Accept {
            match s.action() {
                SessionAction::Read if events < n => s.read(data(b"x")),
                SessionAction::Read => s.read(ReadOutcome::Failed),
                _ => s.done(),
            }
            events += 1;
            assert!(events <= HTTP_BUFFER_SIZE + 5);
        }
    }
}
