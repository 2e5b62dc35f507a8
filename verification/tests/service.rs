use echo_service::acceptor::{AcceptAction, AcceptEvent, AcceptLoop, AcceptPhase};
use echo_service::session::{EchoSession, IoError, SessionAction};

/// One connection as a worker sees it: the peer's payload, how much of it
/// has arrived, and what has been written back so far.
struct Connection {
    payload: Vec<u8>,
    arrived: usize,
    response: Vec<u8>,
    session: EchoSession,
}

/// Takes one connection through the accept loop and gives it a session.
fn connect(accept_loop: &mut AcceptLoop, payload: &str) -> Connection {
    assert_eq!(accept_loop.next_action(), AcceptAction::Accept);
    assert_eq!(accept_loop.step(AcceptEvent::Connected), AcceptAction::Prepare);
    assert_eq!(accept_loop.step(AcceptEvent::Prepared), AcceptAction::Dispatch);
    assert_eq!(accept_loop.step(AcceptEvent::Dispatched), AcceptAction::Accept);
    Connection {
        payload: payload.as_bytes().to_vec(),
        arrived: 0,
        response: Vec::new(),
        session: EchoSession::new(),
    }
}

/// Performs the one operation the connection's session asks for, moving at
/// most `limit` bytes. Returns whether the session is still under way.
fn work(connection: &mut Connection, limit: usize) -> bool {
    match connection.session.next_action() {
        SessionAction::Read => {
            let end = connection.payload.len().min(connection.arrived + limit);
            let chunk = connection.payload[connection.arrived..end].to_vec();
            connection.arrived = end;
            connection.session.on_read(&chunk);
            true
        }
        SessionAction::Write => {
            let offered = connection.session.unsent().to_vec();
            let count = offered.len().min(limit);
            connection.response.extend_from_slice(&offered[..count]);
            connection.session.on_written(count);
            true
        }
        SessionAction::Close => false,
    }
}

#[test]
fn test_echo() {
    let requests = vec![
        "hello here we go with a long message",
        "world",
        "foo",
        "bar",
    ];
    let mut accept_loop = AcceptLoop::new();
    let mut connections: Vec<Connection> = Vec::new();
    for request in &requests {
        connections.push(connect(&mut accept_loop, request));
    }
    // The four workers take turns, each moving a few bytes at a time.
    let mut under_way = true;
    while under_way {
        under_way = false;
        for (turn, connection) in connections.iter_mut().enumerate() {
            if work(connection, turn + 2) {
                under_way = true;
            }
        }
    }
    for (connection, request) in connections.iter().zip(&requests) {
        assert_eq!(connection.session.outcome(), Some(Ok(())));
        assert_eq!(&connection.response, request.as_bytes());
    }
    assert_eq!(accept_loop.phase(), AcceptPhase::Listening);
}

#[test]
fn test_echo_in_reverse_order_of_completion() {
    let requests = vec![
        "hello here we go with a long message",
        "world",
        "foo",
        "bar",
    ];
    let mut accept_loop = AcceptLoop::new();
    let mut connections: Vec<Connection> = Vec::new();
    for request in &requests {
        connections.push(connect(&mut accept_loop, request));
    }
    // The connection accepted last is served to its end first.
    for connection in connections.iter_mut().rev() {
        while work(connection, 3) {}
    }
    for (connection, request) in connections.iter().zip(&requests) {
        assert_eq!(connection.session.outcome(), Some(Ok(())));
        assert_eq!(&connection.response, request.as_bytes());
    }
}

#[test]
fn test_stalled_peer_does_not_hold_up_the_next() {
    let mut accept_loop = AcceptLoop::new();
    let mut slow = connect(&mut accept_loop, "a peer that never finishes sending");
    assert!(work(&mut slow, 4));
    assert_eq!(slow.session.next_action(), SessionAction::Read);
    // The first peer is still sending; a second one connects and is served.
    let mut quick = connect(&mut accept_loop, "world");
    while work(&mut quick, 64) {}
    assert_eq!(quick.session.outcome(), Some(Ok(())));
    assert_eq!(quick.response, b"world");
    // The first session has not moved.
    assert_eq!(slow.session.outcome(), None);
    assert_eq!(slow.session.buffer(), b"a pe");
    assert_eq!(slow.response, b"");
    assert_eq!(accept_loop.next_action(), AcceptAction::Accept);
}

#[test]
fn test_failed_connection_affects_no_other() {
    let mut accept_loop = AcceptLoop::new();
    let mut first = connect(&mut accept_loop, "foo");
    let mut second = connect(&mut accept_loop, "bar");
    assert!(work(&mut first, 2));
    assert!(work(&mut second, 2));
    assert_eq!(first.session.on_read_failed(), SessionAction::Close);
    while work(&mut second, 2) {}
    assert_eq!(first.session.outcome(), Some(Err(IoError::Read)));
    assert_eq!(first.response, b"");
    assert_eq!(second.session.outcome(), Some(Ok(())));
    assert_eq!(second.response, b"bar");
    // The loop goes on accepting.
    let mut third = connect(&mut accept_loop, "baz");
    while work(&mut third, 8) {}
    assert_eq!(third.response, b"baz");
    assert_eq!(accept_loop.result(), Ok(()));
}

#[test]
fn test_connection_that_cannot_be_prepared_gets_no_session() {
    let mut accept_loop = AcceptLoop::new();
    assert_eq!(accept_loop.step(AcceptEvent::Connected), AcceptAction::Prepare);
    assert_eq!(accept_loop.step(AcceptEvent::PrepareFailed), AcceptAction::Accept);
    let mut next = connect(&mut accept_loop, "hello");
    while work(&mut next, 5) {}
    assert_eq!(next.response, b"hello");
}

#[test]
fn test_empty_payload_among_others() {
    let mut accept_loop = AcceptLoop::new();
    let mut empty = connect(&mut accept_loop, "");
    let mut other = connect(&mut accept_loop, "hello");
    assert!(work(&mut other, 5));
    assert!(work(&mut empty, 5));
    assert!(!work(&mut empty, 5));
    while work(&mut other, 5) {}
    assert_eq!(empty.session.outcome(), Some(Ok(())));
    assert_eq!(empty.response, b"");
    assert_eq!(other.response, b"hello");
}
