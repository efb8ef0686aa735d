use mxr::conn::{ClientConn, Effect, ReadStep};
use mxr::frame::frame_header;
use mxr::protocol::{
    decode_msg, encode_msg, Capability, ClientToDaemon, DaemonToClient, ProtocolError,
};
use mxr::state::{Interest, Pane, PtyStep, ReadOutcome, State};
use mxr::outgoing::{FlushStep, WriteOutcome};

fn framed(payload: &[u8]) -> Vec<u8> {
    let mut bytes = frame_header(payload.len()).to_vec();
    bytes.extend_from_slice(payload);
    bytes
}

fn sent(conn: &ClientConn) -> Vec<DaemonToClient> {
    let mut rest = conn.pending_write().to_vec();
    let mut found = Vec::new();
    while !rest.is_empty() {
        let len = u32::from_be_bytes([rest[0], rest[1], rest[2], rest[3]]) as usize;
        found.push(decode_msg(&rest[4..4 + len]).unwrap());
        rest = rest[4 + len..].to_vec();
    }
    found
}

fn feed(conn: &mut ClientConn, stream: &[u8], size: usize) -> Vec<Vec<u8>> {
    let mut at = 0;
    let mut found = Vec::new();
    while at < stream.len() {
        let mut n = conn.wanted();
        if n > size {
            n = size;
        }
        if n > stream.len() - at {
            n = stream.len() - at;
        }
        match conn.on_read(&ReadOutcome::Data(stream[at..at + n].to_vec())) {
            ReadStep::Message(payload) => found.push(payload),
            ReadStep::More => {}
            ReadStep::Wait => {}
            other => panic!("{:?}", other),
        }
        at += n;
    }
    found
}

fn hello(version: u16) -> ClientToDaemon {
    ClientToDaemon::Hello { version, capabilities: vec![Capability::Tabs] }
}

fn greeted() -> (ClientConn, State) {
    let mut conn = ClientConn::new();
    let mut state = State::default();
    conn.handle(&mut state, hello(1)).unwrap();
    conn.flush_write_buf(WriteOutcome::Wrote(10));
    assert!(!conn.has_pending_write());
    (conn, state)
}

fn create(conn: &mut ClientConn, state: &mut State, name: &str) -> (u64, usize, u64) {
    let request = ClientToDaemon::CreateSession { name: name.to_string() };
    match conn.handle(state, request).unwrap() {
        Effect::OpenPane(new) => {
            let session = new.session;
            let token = new.token;
            assert_eq!(new.name, name);
            let pane = state.number_pane();
            conn.finish_create(state, new, pane).unwrap();
            (session, token, pane)
        }
        other => panic!("{:?}", other),
    }
}

fn last_error(conn: &ClientConn) -> String {
    match sent(conn).pop() {
        Some(DaemonToClient::Error { message }) => message,
        other => panic!("{:?}", other),
    }
}

#[test]
fn payloads_are_found_however_the_stream_is_cut() {
    let payloads: Vec<Vec<u8>> = vec![vec![], vec![1], vec![2; 300], vec![], vec![], vec![3, 4, 5], vec![]];
    let mut stream = Vec::new();
    for p in &payloads {
        stream.extend_from_slice(&framed(p));
    }
    for size in [1usize, 2, 3, 4, 5, 7, 64, 1000] {
        let mut conn = ClientConn::new();
        assert_eq!(feed(&mut conn, &stream, size), payloads);
        assert_eq!(conn.wanted(), 4);
    }
}

#[test]
fn an_incomplete_frame_waits() {
    let mut conn = ClientConn::new();
    assert!(feed(&mut conn, &[0, 0], 1).is_empty());
    assert_eq!(conn.wanted(), 2);
    assert!(feed(&mut conn, &[0, 9, 1, 2], 4).is_empty());
    assert_eq!(conn.wanted(), 7);
}

#[test]
fn a_complete_header_asks_for_its_payload_at_once() {
    let mut conn = ClientConn::new();
    let step = conn.on_read(&ReadOutcome::Data(vec![0, 0, 0]));
    assert!(matches!(step, ReadStep::Wait));
    let step = conn.on_read(&ReadOutcome::Data(vec![2]));
    assert!(matches!(step, ReadStep::More));
    let step = conn.on_read(&ReadOutcome::WouldBlock);
    assert!(matches!(step, ReadStep::Wait));
    let step = conn.on_read(&ReadOutcome::Data(vec![8]));
    assert!(matches!(step, ReadStep::Wait));
    match conn.on_read(&ReadOutcome::Data(vec![9])) {
        ReadStep::Message(payload) => assert_eq!(payload, vec![8, 9]),
        other => panic!("{:?}", other),
    }
}

#[test]
fn a_read_of_nothing_closes() {
    let mut conn = ClientConn::new();
    assert!(matches!(conn.on_read(&ReadOutcome::Data(vec![])), ReadStep::Closed));
    assert!(matches!(conn.on_read(&ReadOutcome::Failed), ReadStep::Fail));
}

#[test]
fn an_empty_payload_is_complete_with_its_header() {
    let mut conn = ClientConn::new();
    match conn.on_read(&ReadOutcome::Data(vec![0, 0, 0, 0])) {
        ReadStep::Message(payload) => assert!(payload.is_empty()),
        other => panic!("{:?}", other),
    }
    assert_eq!(conn.wanted(), 4);
    assert!(matches!(conn.on_read(&ReadOutcome::Data(vec![0, 0, 0])), ReadStep::Wait));
    match conn.on_read(&ReadOutcome::Data(vec![0])) {
        ReadStep::Message(payload) => assert!(payload.is_empty()),
        other => panic!("{:?}", other),
    }
    assert!(matches!(conn.on_read(&ReadOutcome::WouldBlock), ReadStep::Wait));
    assert!(matches!(conn.on_read(&ReadOutcome::Data(vec![])), ReadStep::Closed));
}

#[test]
fn replies_wait_in_frames() {
    let mut conn = ClientConn::new();
    assert!(!conn.has_pending_write());
    assert_eq!(conn.interest(), Interest::Readable);
    conn.queue(DaemonToClient::Pong(1)).unwrap();
    conn.queue_encoded(&[7, 7]);
    let mut expected = framed(&encode_msg(&DaemonToClient::Pong(1)).unwrap());
    expected.extend_from_slice(&[0, 0, 0, 2, 7, 7]);
    assert_eq!(conn.pending_write(), &expected[..]);
    assert!(conn.has_pending_write());
    assert_eq!(conn.interest(), Interest::ReadWrite);
    assert_eq!(conn.flush_write_buf(WriteOutcome::Wrote(16)), FlushStep::Again);
    assert_eq!(conn.pending_write(), &[0, 0, 0, 2, 7, 7]);
}

#[test]
fn hello_is_acknowledged() {
    let mut conn = ClientConn::new();
    let mut state = State::default();
    assert_eq!(conn.handle(&mut state, hello(1)).unwrap(), Effect::Done);
    assert_eq!(sent(&conn), vec![DaemonToClient::HelloAck { version: 1 }]);
}

#[test]
fn another_version_is_refused_but_may_try_again() {
    let mut conn = ClientConn::new();
    let mut state = State::default();
    assert_eq!(conn.handle(&mut state, hello(2)).unwrap(), Effect::Done);
    assert_eq!(last_error(&conn), "protocol mismatch: daemon 1, client 2");
    conn.handle(&mut state, ClientToDaemon::Ping(1)).unwrap();
    assert_eq!(last_error(&conn), "send Hello first");
    conn.handle(&mut state, hello(1)).unwrap();
    assert_eq!(sent(&conn).pop(), Some(DaemonToClient::HelloAck { version: 1 }));
}

#[test]
fn nothing_is_done_before_hello() {
    let mut state = State::default();
    for msg in [
        ClientToDaemon::CreateSession { name: "a".to_string() },
        ClientToDaemon::Attach { session: 0 },
        ClientToDaemon::Detach,
        ClientToDaemon::Stdin { pane: 0, data: vec![1] },
        ClientToDaemon::Resize { pane: 0, cols: 1, rows: 1 },
        ClientToDaemon::Ping(3),
    ] {
        let mut conn = ClientConn::new();
        assert_eq!(conn.handle(&mut state, msg).unwrap(), Effect::Done);
        assert_eq!(
            sent(&conn),
            vec![DaemonToClient::Error { message: "send Hello first".to_string() }]
        );
        assert_eq!(conn.attached_pane(), None);
    }
    assert_eq!(state.number_session(), 0);
    assert_eq!(state.alloc_token(), 1);
    assert_eq!(state.number_pane(), 0);
}

#[test]
fn ping_gives_pong() {
    let (mut conn, mut state) = greeted();
    assert_eq!(conn.handle(&mut state, ClientToDaemon::Ping(42)).unwrap(), Effect::Done);
    assert_eq!(sent(&conn), vec![DaemonToClient::Pong(42)]);
}

#[test]
fn a_second_hello_is_unsupported() {
    let (mut conn, mut state) = greeted();
    conn.handle(&mut state, hello(1)).unwrap();
    assert_eq!(
        last_error(&conn),
        "unsupported request: Hello { version: 1, capabilities: [Tabs] }"
    );
    conn.handle(&mut state, ClientToDaemon::Ping(1)).unwrap();
    assert_eq!(sent(&conn).pop(), Some(DaemonToClient::Pong(1)));
}

#[test]
fn a_session_is_created_with_a_pane() {
    let (mut conn, mut state) = greeted();
    let (session, token, pane) = create(&mut conn, &mut state, "work");
    assert_eq!((session, token, pane), (0, 1, 0));
    assert_eq!(
        sent(&conn),
        vec![
            DaemonToClient::SessionCreated { session: 0 },
            DaemonToClient::AttachOk { pane: 0 },
        ]
    );
    assert_eq!(conn.attached_pane(), Some(1));
    assert_eq!(state.root_pane(0), Some(1));
    assert_eq!(state.pane_token(0), Some(1));
    assert!(state.pane(1).is_some());
    assert_eq!(create(&mut conn, &mut state, "play"), (1, 2, 1));
    assert_ne!(state.root_pane(0), state.root_pane(1));
}

#[test]
fn a_session_can_be_attached() {
    let (mut conn, mut state) = greeted();
    create(&mut conn, &mut state, "a");
    let (session, token, pane) = create(&mut conn, &mut state, "b");
    let mut other = ClientConn::new();
    other.handle(&mut state, hello(1)).unwrap();
    other.handle(&mut state, ClientToDaemon::Attach { session }).unwrap();
    assert_eq!(sent(&other).pop(), Some(DaemonToClient::AttachOk { pane }));
    assert_eq!(other.attached_pane(), Some(token));
}

#[test]
fn an_unknown_session_is_an_error() {
    let (mut conn, mut state) = greeted();
    conn.handle(&mut state, ClientToDaemon::Attach { session: 9 }).unwrap();
    assert_eq!(last_error(&conn), "no such session 9");
    assert_eq!(conn.attached_pane(), None);
}

#[test]
fn a_session_without_its_pane_is_attached_to_pane_zero() {
    let (mut conn, mut state) = greeted();
    create(&mut conn, &mut state, "a");
    let (session, token, _) = create(&mut conn, &mut state, "b");
    state.take_pane(token);
    conn.handle(&mut state, ClientToDaemon::Attach { session }).unwrap();
    assert_eq!(sent(&conn).pop(), Some(DaemonToClient::AttachOk { pane: 0 }));
    assert_eq!(conn.attached_pane(), Some(token));
}

#[test]
fn input_reaches_its_pane_in_order() {
    let (mut conn, mut state) = greeted();
    let (_, one, _) = create(&mut conn, &mut state, "a");
    let (_, two, pane) = create(&mut conn, &mut state, "b");
    for data in [vec![1, 2], vec![], vec![3]] {
        let effect = conn.handle(&mut state, ClientToDaemon::Stdin { pane, data }).unwrap();
        assert_eq!(effect, Effect::WritePane(two));
    }
    assert_eq!(state.pane(two).unwrap().write_buf, vec![1, 2, 3]);
    assert!(state.pane(one).unwrap().write_buf.is_empty());
    assert_eq!(state.pane(two).unwrap().interest(), Interest::ReadWrite);
    assert_eq!(state.pane(one).unwrap().interest(), Interest::Readable);
}

#[test]
fn input_for_no_pane_is_an_error() {
    let (mut conn, mut state) = greeted();
    let stdin = ClientToDaemon::Stdin { pane: 4, data: vec![1] };
    assert_eq!(conn.handle(&mut state, stdin).unwrap(), Effect::Done);
    assert_eq!(last_error(&conn), "no such pane 4");
}

#[test]
fn input_for_a_lost_pane_is_an_error() {
    let (mut conn, mut state) = greeted();
    let (_, token, pane) = create(&mut conn, &mut state, "a");
    state.take_pane(token);
    let stdin = ClientToDaemon::Stdin { pane, data: vec![1] };
    assert_eq!(conn.handle(&mut state, stdin).unwrap(), Effect::Done);
    assert_eq!(last_error(&conn), "pane token missing");
    state.forget_name(pane);
    let stdin = ClientToDaemon::Stdin { pane, data: vec![1] };
    conn.handle(&mut state, stdin).unwrap();
    assert_eq!(last_error(&conn), "no such pane 0");
}

#[test]
fn a_resize_is_passed_on_or_ignored() {
    let (mut conn, mut state) = greeted();
    let (_, token, pane) = create(&mut conn, &mut state, "a");
    let before = conn.pending_write().to_vec();
    let resize = ClientToDaemon::Resize { pane, cols: 80, rows: 24 };
    assert_eq!(
        conn.handle(&mut state, resize.clone()).unwrap(),
        Effect::ResizePane { token, cols: 80, rows: 24 }
    );
    let unknown = ClientToDaemon::Resize { pane: 77, cols: 80, rows: 24 };
    assert_eq!(conn.handle(&mut state, unknown).unwrap(), Effect::Done);
    state.take_pane(token);
    assert_eq!(conn.handle(&mut state, resize).unwrap(), Effect::Done);
    assert_eq!(conn.pending_write(), &before[..]);
}

#[test]
fn detaching_is_answered_with_pong_zero() {
    let (mut conn, mut state) = greeted();
    create(&mut conn, &mut state, "a");
    conn.handle(&mut state, ClientToDaemon::Detach).unwrap();
    assert_eq!(conn.attached_pane(), None);
    assert_eq!(sent(&conn).pop(), Some(DaemonToClient::Pong(0)));
}

#[test]
fn a_payload_is_decoded_and_handled() {
    let (mut conn, mut state) = greeted();
    let payload = encode_msg(&ClientToDaemon::Ping(5)).unwrap();
    assert_eq!(conn.process_one(&mut state, &payload).unwrap(), Effect::Done);
    assert_eq!(sent(&conn), vec![DaemonToClient::Pong(5)]);
    let before = conn.pending_write().to_vec();
    let r = conn.process_one(&mut state, &[9, 0, 0, 0]);
    assert!(matches!(r, Err(ProtocolError::Decode(_))));
    assert_eq!(conn.pending_write(), &before[..]);
}

#[test]
fn write_failures_are_reported() {
    let (mut conn, _) = greeted();
    conn.report_write_failure("broken").unwrap();
    assert_eq!(last_error(&conn), "write failed: broken");
}

#[test]
fn every_small_request_can_be_handled() {
    let (conn, state) = greeted();
    assert!(conn.can_handle(&state, &hello(1)));
    assert!(conn.can_handle(&state, &ClientToDaemon::CreateSession { name: "x".to_string() }));
    assert!(conn.can_handle(&state, &ClientToDaemon::Detach));
}

#[test]
fn a_pane_collects_output() {
    let mut pane = Pane::new(3);
    assert_eq!(pane.read_pty(&ReadOutcome::Data(vec![1, 2])), PtyStep::Read(2));
    assert_eq!(pane.read_pty(&ReadOutcome::WouldBlock), PtyStep::Read(0));
    assert_eq!(pane.read_pty(&ReadOutcome::Data(vec![3])), PtyStep::Read(1));
    assert_eq!(pane.buf, vec![1, 2, 3]);
    assert_eq!(pane.read_pty(&ReadOutcome::Data(vec![])), PtyStep::Eof);
    assert_eq!(pane.read_pty(&ReadOutcome::Failed), PtyStep::Fail);
    assert_eq!(pane.buf, vec![1, 2, 3]);
}

#[test]
fn a_pane_drains_input() {
    let mut pane = Pane::new(3);
    pane.write_buf = vec![1, 2, 3];
    assert_eq!(pane.flush_write_buf(WriteOutcome::Wrote(2)), FlushStep::Again);
    assert_eq!(pane.write_buf, vec![3]);
    assert_eq!(pane.flush_write_buf(WriteOutcome::Wrote(1)), FlushStep::Stop);
    assert_eq!(pane.interest(), Interest::Readable);
}
