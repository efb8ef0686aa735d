use mxr::daemon::{Act, Daemon, PaneStep, Source, Stage};
use mxr::frame::frame_header;
use mxr::outgoing::WriteOutcome;
use mxr::protocol::{decode_msg, encode_msg, ClientToDaemon, DaemonToClient, ProtocolError};
use mxr::state::{Interest, ReadOutcome, Token, LISTENER, WAKER};
use mxr::turn::{Answer, Task, Turn};

fn framed(msg: &ClientToDaemon) -> Vec<u8> {
    let payload = encode_msg(msg).unwrap();
    let mut bytes = frame_header(payload.len()).to_vec();
    bytes.extend_from_slice(&payload);
    bytes
}

fn hello(version: u16) -> ClientToDaemon {
    ClientToDaemon::Hello { version, capabilities: vec![] }
}

fn wrote(n: usize) -> Answer {
    Answer::Wrote(WriteOutcome::Wrote(n), String::new())
}

fn write_error(reason: &str) -> Answer {
    Answer::Wrote(WriteOutcome::Failed, reason.to_string())
}

fn sent(daemon: &Daemon, client: Token) -> Vec<DaemonToClient> {
    let mut rest = daemon.client(client).unwrap().pending_write().to_vec();
    let mut found = Vec::new();
    while !rest.is_empty() {
        let len = u32::from_be_bytes([rest[0], rest[1], rest[2], rest[3]]) as usize;
        found.push(decode_msg(&rest[4..4 + len]).unwrap());
        rest = rest[4 + len..].to_vec();
    }
    found
}

fn accept(daemon: &mut Daemon) -> Token {
    let mut turn = Turn::new(daemon, LISTENER, true, false);
    assert_eq!(turn.task(daemon), Task::Accept);
    turn.answer(daemon, Answer::Done);
    let token = match turn.task(daemon) {
        Task::AwaitNewClient(token) => token,
        other => panic!("{:?}", other),
    };
    turn.answer(daemon, Answer::Done);
    assert_eq!(turn.task(daemon), Task::Accept);
    turn.answer(daemon, Answer::Failed);
    assert_eq!(turn.task(daemon), Task::Finish { deregister: false });
    assert!(turn.gone().is_empty());
    token
}

fn say(turn: &mut Turn, daemon: &mut Daemon, msg: &ClientToDaemon) {
    let bytes = framed(msg);
    let mut at = 0;
    while at < bytes.len() {
        let wanted = match turn.task(daemon) {
            Task::ReadClient { token: _, wanted } => wanted,
            other => panic!("{:?}", other),
        };
        let data = bytes[at..at + wanted].to_vec();
        turn.answer(daemon, Answer::Read(ReadOutcome::Data(data)));
        at += wanted;
    }
}

fn end_reading(turn: &mut Turn, daemon: &mut Daemon) {
    assert!(matches!(turn.task(daemon), Task::ReadClient { .. }));
    turn.answer(daemon, Answer::Read(ReadOutcome::WouldBlock));
    assert!(matches!(turn.task(daemon), Task::AwaitClient(_, _)));
    turn.answer(daemon, Answer::Done);
    assert_eq!(turn.task(daemon), Task::Finish { deregister: false });
    assert_eq!(daemon.stage(), Stage::Ready);
}

fn ask(daemon: &mut Daemon, client: Token, msg: &ClientToDaemon) {
    let mut turn = Turn::new(daemon, client, true, false);
    say(&mut turn, daemon, msg);
    end_reading(&mut turn, daemon);
}

fn drain(daemon: &mut Daemon, client: Token) {
    let n = daemon.client(client).unwrap().pending_write().len();
    daemon.client_flush(client, WriteOutcome::Wrote(n));
}

fn guest(daemon: &mut Daemon) -> Token {
    let client = accept(daemon);
    ask(daemon, client, &hello(1));
    drain(daemon, client);
    client
}

fn open_session(daemon: &mut Daemon, client: Token) -> (u64, Token, u64) {
    let mut turn = Turn::new(daemon, client, true, false);
    let create = ClientToDaemon::CreateSession { name: "s".to_string() };
    say(&mut turn, daemon, &create);
    assert_eq!(turn.task(daemon), Task::OpenShell);
    assert_eq!(daemon.stage(), Stage::Starting);
    turn.answer(daemon, Answer::Done);
    assert_eq!(daemon.stage(), Stage::Started);
    let token = match turn.task(daemon) {
        Task::AwaitNewPane(token) => token,
        other => panic!("{:?}", other),
    };
    assert_eq!(daemon.opening_token(), Some(token));
    turn.answer(daemon, Answer::Done);
    end_reading(&mut turn, daemon);
    let replies = sent(daemon, client);
    let n = replies.len();
    let ids = match (&replies[n - 2], &replies[n - 1]) {
        (DaemonToClient::SessionCreated { session }, DaemonToClient::AttachOk { pane }) => {
            (*session, token, *pane)
        }
        other => panic!("{:?}", other),
    };
    drain(daemon, client);
    ids
}

#[test]
fn sources_are_told_apart() {
    let mut daemon = Daemon::new();
    let client = guest(&mut daemon);
    let (_, pane, _) = open_session(&mut daemon, client);
    assert_eq!(daemon.source(LISTENER), Source::Listener);
    assert_eq!(daemon.source(WAKER), Source::Waker);
    assert_eq!(daemon.source(client), Source::Client);
    assert_eq!(daemon.source(pane), Source::Pane);
    assert_eq!(daemon.source(999), Source::Unknown);
    let turn = Turn::new(&daemon, 999, true, true);
    assert_eq!(turn.task(&daemon), Task::Finish { deregister: false });
    let turn = Turn::new(&daemon, WAKER, true, true);
    assert_eq!(turn.task(&daemon), Task::Finish { deregister: false });
}

#[test]
fn tokens_are_never_given_twice() {
    let mut daemon = Daemon::new();
    let a = guest(&mut daemon);
    let (_, pane, _) = open_session(&mut daemon, a);
    let b = guest(&mut daemon);
    daemon.drop_client(a);
    daemon.drop_pane(pane);
    let c = guest(&mut daemon);
    assert_eq!([a, pane, b, c], [1, 2, 3, 4]);
    let (session, other, id) = open_session(&mut daemon, c);
    assert_eq!((session, other, id), (1, 5, 1));
}

#[test]
fn a_client_that_cannot_be_awaited_ends_the_daemon() {
    let mut daemon = Daemon::new();
    let mut turn = Turn::new(&daemon, LISTENER, true, false);
    turn.answer(&mut daemon, Answer::Done);
    turn.answer(&mut daemon, Answer::Failed);
    assert_eq!(turn.task(&daemon), Task::Crash);
}

#[test]
fn several_requests_are_answered_in_one_turn() {
    let mut daemon = Daemon::new();
    let client = accept(&mut daemon);
    let mut turn = Turn::new(&daemon, client, true, true);
    say(&mut turn, &mut daemon, &ClientToDaemon::Ping(1));
    say(&mut turn, &mut daemon, &hello(1));
    say(&mut turn, &mut daemon, &ClientToDaemon::Ping(2));
    turn.answer(&mut daemon, Answer::Read(ReadOutcome::WouldBlock));
    assert_eq!(
        sent(&daemon, client),
        vec![
            DaemonToClient::Error { message: "send Hello first".to_string() },
            DaemonToClient::HelloAck { version: 1 },
            DaemonToClient::Pong(2),
        ]
    );
    assert_eq!(turn.task(&daemon), Task::WriteClient(client));
    let all = daemon.client(client).unwrap().pending_write().len();
    turn.answer(&mut daemon, wrote(5));
    assert_eq!(turn.task(&daemon), Task::WriteClient(client));
    turn.answer(&mut daemon, Answer::Wrote(WriteOutcome::WouldBlock, String::new()));
    assert_eq!(turn.task(&daemon), Task::AwaitClient(client, Interest::ReadWrite));
    assert_eq!(daemon.client(client).unwrap().pending_write().len(), all - 5);
    turn.answer(&mut daemon, Answer::Done);
    assert_eq!(turn.task(&daemon), Task::Finish { deregister: false });
    let mut turn = Turn::new(&daemon, client, false, true);
    assert_eq!(turn.task(&daemon), Task::WriteClient(client));
    turn.answer(&mut daemon, wrote(all - 5));
    assert_eq!(turn.task(&daemon), Task::AwaitClient(client, Interest::Readable));
}

#[test]
fn a_short_read_ends_the_reading() {
    let mut daemon = Daemon::new();
    let client = accept(&mut daemon);
    let mut turn = Turn::new(&daemon, client, true, false);
    assert_eq!(turn.task(&daemon), Task::ReadClient { token: client, wanted: 4 });
    turn.answer(&mut daemon, Answer::Read(ReadOutcome::Data(vec![0, 0])));
    assert_eq!(turn.task(&daemon), Task::AwaitClient(client, Interest::Readable));
    turn.answer(&mut daemon, Answer::Done);
    let turn = Turn::new(&daemon, client, true, false);
    assert_eq!(turn.task(&daemon), Task::ReadClient { token: client, wanted: 2 });
}

#[test]
fn clients_leave_in_many_ways() {
    let closing = [
        ReadOutcome::Data(vec![]),
        ReadOutcome::Failed,
    ];
    for outcome in closing {
        let mut daemon = Daemon::new();
        let client = guest(&mut daemon);
        let mut turn = Turn::new(&daemon, client, true, true);
        assert!(turn.error().is_none());
        turn.answer(&mut daemon, Answer::Read(outcome));
        assert_eq!(turn.task(&daemon), Task::Finish { deregister: false });
        assert_eq!(turn.gone(), &[client]);
        assert!(turn.error().is_none());
        assert_eq!(daemon.source(client), Source::Unknown);
    }
    let mut daemon = Daemon::new();
    let client = accept(&mut daemon);
    ask(&mut daemon, client, &hello(1));
    let mut turn = Turn::new(&daemon, client, false, true);
    turn.answer(&mut daemon, write_error("gone"));
    assert_eq!(turn.gone(), &[client]);
    assert_eq!(daemon.source(client), Source::Unknown);

    let client = guest(&mut daemon);
    let mut turn = Turn::new(&daemon, client, false, false);
    assert_eq!(turn.task(&daemon), Task::AwaitClient(client, Interest::Readable));
    turn.answer(&mut daemon, Answer::Failed);
    assert_eq!(turn.gone(), &[client]);
    assert_eq!(daemon.source(client), Source::Unknown);
}

#[test]
fn a_client_that_talks_nonsense_is_dropped() {
    let mut daemon = Daemon::new();
    let client = guest(&mut daemon);
    let mut turn = Turn::new(&daemon, client, true, false);
    turn.answer(&mut daemon, Answer::Read(ReadOutcome::Data(vec![0, 0, 0, 4])));
    turn.answer(&mut daemon, Answer::Read(ReadOutcome::Data(vec![99, 0, 0, 0])));
    assert_eq!(turn.task(&daemon), Task::Finish { deregister: false });
    assert_eq!(turn.gone(), &[client]);
    assert_eq!(
        turn.error().unwrap().message(),
        "decode error: invalid value: integer `99`, expected variant index 0 <= i < 7"
    );
    let client = guest(&mut daemon);
    let r = daemon.client_message(client, &[99, 0, 0, 0]);
    assert!(matches!(r, Err(ProtocolError::Decode(_))));
    assert_eq!(daemon.source(client), Source::Unknown);
}

#[test]
fn an_empty_frame_is_no_request() {
    let mut daemon = Daemon::new();
    let client = guest(&mut daemon);
    let mut turn = Turn::new(&daemon, client, true, false);
    turn.answer(&mut daemon, Answer::Read(ReadOutcome::Data(vec![0, 0, 0, 0])));
    assert_eq!(turn.task(&daemon), Task::Finish { deregister: false });
    assert_eq!(turn.gone(), &[client]);
    let number: Result<u32, bincode::Error> = bincode::deserialize(&[]);
    let reason = format!("decode error: {}", number.unwrap_err());
    assert_eq!(turn.error().unwrap().message(), reason);
    assert_eq!(daemon.source(client), Source::Unknown);
}

#[test]
fn a_shell_that_does_not_start_costs_the_client() {
    let mut daemon = Daemon::new();
    let client = guest(&mut daemon);
    let create = ClientToDaemon::CreateSession { name: "s".to_string() };
    let mut turn = Turn::new(&daemon, client, true, false);
    say(&mut turn, &mut daemon, &create);
    turn.answer(&mut daemon, Answer::Failed);
    assert_eq!(turn.gone(), &[client]);
    assert_eq!(daemon.stage(), Stage::Ready);
    let client = guest(&mut daemon);
    let mut turn = Turn::new(&daemon, client, true, false);
    say(&mut turn, &mut daemon, &create);
    turn.answer(&mut daemon, Answer::Done);
    turn.answer(&mut daemon, Answer::Failed);
    assert_eq!(turn.gone(), &[client]);
    assert_eq!(daemon.state().root_pane(0), None);
    assert_eq!(daemon.state().root_pane(1), None);
    let client = guest(&mut daemon);
    let (session, _, pane) = open_session(&mut daemon, client);
    assert_eq!((session, pane), (2, 1));
}

#[test]
fn a_new_session_can_be_attached_by_others() {
    let mut daemon = Daemon::new();
    let a = guest(&mut daemon);
    let b = guest(&mut daemon);
    let (session, token, pane) = open_session(&mut daemon, a);
    ask(&mut daemon, b, &ClientToDaemon::Attach { session });
    assert_eq!(sent(&daemon, b), vec![DaemonToClient::AttachOk { pane }]);
    assert_eq!(daemon.client(b).unwrap().attached_pane(), Some(token));
}

#[test]
fn input_is_written_during_the_turn() {
    let mut daemon = Daemon::new();
    let client = guest(&mut daemon);
    let (_, token, pane) = open_session(&mut daemon, client);
    let mut turn = Turn::new(&daemon, client, true, false);
    say(&mut turn, &mut daemon, &ClientToDaemon::Stdin { pane, data: vec![1, 2, 3] });
    assert_eq!(turn.task(&daemon), Task::WritePane(token));
    assert_eq!(daemon.state().pane(token).unwrap().write_buf, vec![1, 2, 3]);
    turn.answer(&mut daemon, wrote(1));
    assert_eq!(turn.task(&daemon), Task::WritePane(token));
    turn.answer(&mut daemon, Answer::Wrote(WriteOutcome::Interrupted, String::new()));
    assert_eq!(turn.task(&daemon), Task::WritePane(token));
    turn.answer(&mut daemon, Answer::Wrote(WriteOutcome::WouldBlock, String::new()));
    assert_eq!(turn.task(&daemon), Task::AwaitPane(token, Interest::ReadWrite));
    turn.answer(&mut daemon, Answer::Done);
    end_reading(&mut turn, &mut daemon);
    assert!(sent(&daemon, client).is_empty());

    let mut turn = Turn::new(&daemon, token, false, true);
    assert_eq!(turn.task(&daemon), Task::WritePane(token));
    turn.answer(&mut daemon, wrote(2));
    assert_eq!(turn.task(&daemon), Task::AwaitPane(token, Interest::Readable));
    turn.answer(&mut daemon, Answer::Done);
    assert_eq!(turn.task(&daemon), Task::Finish { deregister: false });
}

#[test]
fn empty_input_only_renews_the_wait() {
    let mut daemon = Daemon::new();
    let client = guest(&mut daemon);
    let (_, token, pane) = open_session(&mut daemon, client);
    let mut turn = Turn::new(&daemon, client, true, false);
    say(&mut turn, &mut daemon, &ClientToDaemon::Stdin { pane, data: vec![] });
    assert_eq!(turn.task(&daemon), Task::AwaitPane(token, Interest::Readable));
    turn.answer(&mut daemon, Answer::Failed);
    assert_eq!(turn.gone(), &[client]);
    assert_eq!(daemon.source(token), Source::Pane);
}

#[test]
fn a_shell_that_does_not_take_input_is_reported() {
    let mut daemon = Daemon::new();
    let client = guest(&mut daemon);
    let (_, token, pane) = open_session(&mut daemon, client);
    let mut turn = Turn::new(&daemon, client, true, false);
    say(&mut turn, &mut daemon, &ClientToDaemon::Stdin { pane, data: vec![7] });
    turn.answer(&mut daemon, write_error("Os { code: 5 }"));
    assert_eq!(turn.task(&daemon), Task::AwaitPane(token, Interest::ReadWrite));
    turn.answer(&mut daemon, Answer::Done);
    end_reading(&mut turn, &mut daemon);
    assert_eq!(
        sent(&daemon, client),
        vec![DaemonToClient::Error { message: "write failed: Os { code: 5 }".to_string() }]
    );
    let mut turn = Turn::new(&daemon, token, false, true);
    turn.answer(&mut daemon, write_error("still"));
    assert_eq!(turn.task(&daemon), Task::Finish { deregister: true });
    assert_eq!(turn.gone(), &[token]);
    assert_eq!(daemon.source(token), Source::Unknown);
    assert_eq!(daemon.source(client), Source::Client);
    ask(&mut daemon, client, &ClientToDaemon::Stdin { pane, data: vec![7] });
    assert_eq!(
        sent(&daemon, client).pop(),
        Some(DaemonToClient::Error { message: "pane token missing".to_string() })
    );
}

#[test]
fn a_resize_is_done_during_the_turn() {
    let mut daemon = Daemon::new();
    let client = guest(&mut daemon);
    let (_, token, pane) = open_session(&mut daemon, client);
    let mut turn = Turn::new(&daemon, client, true, false);
    say(&mut turn, &mut daemon, &ClientToDaemon::Resize { pane, cols: 80, rows: 24 });
    assert_eq!(turn.task(&daemon), Task::Resize { token, cols: 80, rows: 24 });
    turn.answer(&mut daemon, Answer::Failed);
    end_reading(&mut turn, &mut daemon);
    assert!(sent(&daemon, client).is_empty());
}

#[test]
fn output_reaches_those_who_are_attached() {
    let mut daemon = Daemon::new();
    let a = guest(&mut daemon);
    let b = guest(&mut daemon);
    let c = guest(&mut daemon);
    let (session, token, pane) = open_session(&mut daemon, a);
    open_session(&mut daemon, c);
    ask(&mut daemon, b, &ClientToDaemon::Attach { session });
    drain(&mut daemon, b);
    let mut turn = Turn::new(&daemon, token, true, false);
    assert_eq!(turn.task(&daemon), Task::ReadPane(token));
    turn.answer(&mut daemon, Answer::Read(ReadOutcome::Data(vec![104, 105])));
    let mut awaited = Vec::new();
    for _ in 0..2 {
        match turn.task(&daemon) {
            Task::AwaitClient(t, Interest::ReadWrite) => awaited.push(t),
            other => panic!("{:?}", other),
        }
        turn.answer(&mut daemon, Answer::Done);
    }
    awaited.sort();
    assert_eq!(awaited, vec![a, b]);
    assert_eq!(turn.task(&daemon), Task::AwaitPane(token, Interest::Readable));
    turn.answer(&mut daemon, Answer::Done);
    assert_eq!(turn.task(&daemon), Task::Finish { deregister: false });
    let data = DaemonToClient::PaneData { pane, data: vec![104, 105] };
    assert_eq!(sent(&daemon, a), vec![data.clone()]);
    assert_eq!(sent(&daemon, b), vec![data]);
    assert!(sent(&daemon, c).is_empty());
    assert!(daemon.state().pane(token).unwrap().buf.is_empty());
}

#[test]
fn detached_clients_hear_nothing() {
    let mut daemon = Daemon::new();
    let client = guest(&mut daemon);
    let (_, token, _) = open_session(&mut daemon, client);
    ask(&mut daemon, client, &ClientToDaemon::Detach);
    drain(&mut daemon, client);
    let step = daemon.pane_read(token, &ReadOutcome::Data(vec![1])).unwrap();
    assert_eq!(step, PaneStep::Kept(vec![]));
    assert!(sent(&daemon, client).is_empty());
    assert!(daemon.state().pane(token).unwrap().buf.is_empty());
    let step = daemon.pane_read(token, &ReadOutcome::WouldBlock).unwrap();
    assert_eq!(step, PaneStep::Kept(vec![]));
}

#[test]
fn a_follower_that_cannot_be_awaited_ends_the_daemon() {
    let mut daemon = Daemon::new();
    let client = guest(&mut daemon);
    let (_, token, _) = open_session(&mut daemon, client);
    let mut turn = Turn::new(&daemon, token, true, false);
    turn.answer(&mut daemon, Answer::Read(ReadOutcome::Data(vec![1])));
    turn.answer(&mut daemon, Answer::Failed);
    assert_eq!(turn.task(&daemon), Task::Crash);
}

#[test]
fn the_end_of_a_shell_takes_its_clients_along() {
    for outcome in [ReadOutcome::Data(vec![]), ReadOutcome::Failed] {
        let mut daemon = Daemon::new();
        let a = guest(&mut daemon);
        let b = guest(&mut daemon);
        let c = guest(&mut daemon);
        let (session, token, pane) = open_session(&mut daemon, a);
        let (_, other, _) = open_session(&mut daemon, c);
        ask(&mut daemon, b, &ClientToDaemon::Attach { session });
        let mut turn = Turn::new(&daemon, token, true, true);
        turn.answer(&mut daemon, Answer::Read(outcome));
        assert_eq!(turn.task(&daemon), Task::Finish { deregister: true });
        let mut gone = turn.gone().to_vec();
        assert_eq!(gone[0], token);
        gone.sort();
        assert_eq!(gone, vec![a, b, token]);
        assert_eq!(daemon.source(a), Source::Unknown);
        assert_eq!(daemon.source(b), Source::Unknown);
        assert_eq!(daemon.source(c), Source::Client);
        assert_eq!(daemon.source(other), Source::Pane);
        drain(&mut daemon, c);
        ask(&mut daemon, c, &ClientToDaemon::Stdin { pane, data: vec![1] });
        assert_eq!(
            sent(&daemon, c),
            vec![DaemonToClient::Error { message: "no such pane 0".to_string() }]
        );
        ask(&mut daemon, c, &ClientToDaemon::Attach { session });
        assert_eq!(sent(&daemon, c).pop(), Some(DaemonToClient::AttachOk { pane: 0 }));
    }
}

#[test]
fn shutting_down_nothing_does_nothing() {
    let mut daemon = Daemon::new();
    let client = guest(&mut daemon);
    assert!(daemon.handle_pane_shutdown(77).is_empty());
    assert_eq!(daemon.source(client), Source::Client);
}

#[test]
fn a_pane_that_cannot_be_awaited_is_dropped() {
    let mut daemon = Daemon::new();
    let client = guest(&mut daemon);
    let (_, token, _) = open_session(&mut daemon, client);
    let mut turn = Turn::new(&daemon, token, false, true);
    assert_eq!(turn.task(&daemon), Task::AwaitPane(token, Interest::Readable));
    turn.answer(&mut daemon, Answer::Failed);
    assert_eq!(turn.task(&daemon), Task::Finish { deregister: false });
    assert_eq!(turn.gone(), &[token]);
    assert_eq!(daemon.source(client), Source::Client);
}

#[test]
fn requests_lead_to_acts() {
    let mut daemon = Daemon::new();
    let client = guest(&mut daemon);
    let (_, token, pane) = open_session(&mut daemon, client);
    let mut act = |msg: ClientToDaemon| {
        let payload = encode_msg(&msg).unwrap();
        daemon.client_message(client, &payload).unwrap()
    };
    assert_eq!(act(ClientToDaemon::Ping(1)), Act::Done);
    assert_eq!(act(ClientToDaemon::Stdin { pane, data: vec![1] }), Act::WritePane(token));
    assert_eq!(
        act(ClientToDaemon::Resize { pane, cols: 1, rows: 2 }),
        Act::ResizePane { token, cols: 1, rows: 2 }
    );
    assert_eq!(act(ClientToDaemon::CreateSession { name: String::new() }), Act::OpenPane);
}

#[test]
fn requests_do_nothing_to_others() {
    let mut daemon = Daemon::new();
    let a = guest(&mut daemon);
    let b = guest(&mut daemon);
    let (session, token, _) = open_session(&mut daemon, b);
    ask(&mut daemon, a, &ClientToDaemon::Attach { session });
    ask(&mut daemon, a, &ClientToDaemon::Detach);
    let create = ClientToDaemon::CreateSession { name: "x".to_string() };
    let mut turn = Turn::new(&daemon, a, true, false);
    say(&mut turn, &mut daemon, &create);
    turn.answer(&mut daemon, Answer::Failed);
    assert_eq!(turn.gone(), &[a]);
    assert!(sent(&daemon, b).is_empty());
    assert_eq!(daemon.client(b).unwrap().attached_pane(), Some(token));
    assert_eq!(daemon.state().root_pane(session), Some(token));
}
