use wifimanager::http::Response;
use wifimanager::sender::{SendAction, Sender};

/// Sends over a connection that takes at most `limit` bytes at a time and `total` in all: what it
/// took, how often it was flushed, and what was reported.
fn send(mut s: Sender, limit: usize, mut total: usize) -> (Vec<u8>, usize, bool) {
    let mut taken: Vec<u8> = Vec::new();
    let mut flushes = 0;
    loop {
        let n = match s.next() {
            SendAction::Write(bytes) => {
                assert!(!bytes.is_empty());
                let n = bytes.len().min(limit).min(total);
                taken.extend_from_slice(&bytes[..n]);
                Some(n)
            }
            SendAction::Flush => None,
            SendAction::Finished(ok) => return (taken, flushes, ok),
        };
        match n {
            Some(n) => {
                total -= n;
                s.wrote(n);
            }
            None => {
                flushes += 1;
                s.flushed();
            }
        }
    }
}

#[test]
fn everything_is_sent_in_order() {
    for limit in [1, 3, 100] {
        assert_eq!(
            send(Sender::write_all(b"hello world"), limit, 100),
            (b"hello world".to_vec(), 1, true)
        );
    }
}

#[test]
fn nothing_to_send_is_flushed_and_done() {
    assert_eq!(send(Sender::write_all(b""), 1, 0), (Vec::new(), 1, true));
}

#[test]
fn a_connection_that_takes_nothing_is_flushed_once_and_given_up() {
    assert_eq!(send(Sender::write_all(b"hello"), 2, 3), (b"hel".to_vec(), 1, false));
}

#[test]
fn a_failed_write_ends_without_a_flush() {
    let mut s = Sender::write_all(b"hello");
    s.wrote(2);
    match s.next() {
        SendAction::Write(bytes) => assert_eq!(bytes, b"llo"),
        _ => panic!(),
    }
    s.write_failed();
    assert!(matches!(s.next(), SendAction::Finished(false)));
}

#[test]
fn a_response_is_its_head_and_its_body() {
    let r = Response { status: "200 OK", content_type: "text/plain", body: b"." };
    let expected = b"HTTP/1.1 200 OK\r\nContent-Type: text/plain; charset=utf-8\r\nContent-Length: 1\r\nConnection: close\r\n\r\n.";
    assert_eq!(send(Sender::write_response(&r), 7, 1000), (expected.to_vec(), 2, true));
}

#[test]
fn a_body_is_not_sent_behind_a_head_that_failed() {
    let r = Response { status: "200 OK", content_type: "text/plain", body: b"body" };
    let (taken, flushes, ok) = send(Sender::write_response(&r), 7, 20);
    assert_eq!(taken, b"HTTP/1.1 200 OK\r\nCon".to_vec());
    assert_eq!(flushes, 1);
    assert!(!ok);
}
