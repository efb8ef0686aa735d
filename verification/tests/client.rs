use mxr::client::{
    check_attach, check_hello, decode_reply, hello, idle_limit, output_step, parse_command,
    raw_bits, raw_modes, resize_request, Command, Flags, InputEvent, InputLoop, InputStep, Modes,
    OutputStep, ReplyError, UsageError, WindowSize,
};
use mxr::conn::ClientConn;
use mxr::paths::{shell_path, socket_path};
use mxr::protocol::{encode_msg, Capability, ClientToDaemon, DaemonToClient, ProtocolError};
use mxr::state::State;

fn args(words: &[&str]) -> Vec<String> {
    words.iter().map(|w| w.to_string()).collect()
}

#[test]
fn hello_names_everything() {
    assert_eq!(
        hello(),
        ClientToDaemon::Hello {
            version: 1,
            capabilities: vec![
                Capability::SplitVertical,
                Capability::SplitHorizontal,
                Capability::Tabs,
            ],
        }
    );
}

#[test]
fn the_daemon_welcomes_the_hello() {
    let mut conn = ClientConn::new();
    let mut state = State::default();
    conn.handle(&mut state, hello()).unwrap();
    let payload = conn.pending_write()[4..].to_vec();
    let reply = decode_reply(&Some(payload)).unwrap();
    assert!(check_hello(reply).is_ok());
}

#[test]
fn only_an_acknowledgement_is_a_welcome() {
    assert!(check_hello(Some(DaemonToClient::HelloAck { version: 1 })).is_ok());
    assert!(matches!(check_hello(None), Err(ReplyError::Missing)));
    match check_hello(Some(DaemonToClient::HelloAck { version: 2 })) {
        Err(ReplyError::Unexpected(m)) => assert_eq!(m, DaemonToClient::HelloAck { version: 2 }),
        _ => panic!(),
    }
    match check_hello(Some(DaemonToClient::Pong(0))) {
        Err(ReplyError::Unexpected(m)) => assert_eq!(m, DaemonToClient::Pong(0)),
        _ => panic!(),
    }
}

#[test]
fn attaching_needs_a_pane() {
    assert!(matches!(check_attach(Some(DaemonToClient::AttachOk { pane: 6 })), Ok(6)));
    assert!(matches!(check_attach(None), Err(ReplyError::Missing)));
    let refusal = DaemonToClient::Error { message: "no such session 1".to_string() };
    match check_attach(Some(refusal.clone())) {
        Err(ReplyError::Unexpected(m)) => assert_eq!(m, refusal),
        _ => panic!(),
    }
}

#[test]
fn replies_are_decoded() {
    let pong = DaemonToClient::Pong(8);
    let payload = encode_msg(&pong).unwrap();
    assert_eq!(decode_reply(&Some(payload)).unwrap(), Some(pong));
    assert_eq!(decode_reply(&None).unwrap(), None);
    assert!(matches!(decode_reply(&Some(vec![1])), Err(ProtocolError::Decode(_))));
}

#[test]
fn commands_are_read() {
    assert_eq!(parse_command(&args(&[])), Ok(Command::Ping));
    assert_eq!(parse_command(&args(&["mxr"])), Ok(Command::Ping));
    assert_eq!(parse_command(&args(&["mxr", "ping"])), Ok(Command::Ping));
    assert_eq!(parse_command(&args(&["mxr", "what", "ever"])), Ok(Command::Ping));
    assert_eq!(
        parse_command(&args(&["mxr", "create"])),
        Ok(Command::Create { name: "default".to_string() })
    );
    assert_eq!(
        parse_command(&args(&["mxr", "create", "work", "more"])),
        Ok(Command::Create { name: "work".to_string() })
    );
    assert_eq!(
        parse_command(&args(&["mxr", "attach", "12"])),
        Ok(Command::Attach { session: 12 })
    );
    assert_eq!(parse_command(&args(&["mxr", "attach"])), Err(UsageError::SessionRequired));
    assert_eq!(
        parse_command(&args(&["mxr", "attach", "twelve"])),
        Err(UsageError::SessionNotNumber)
    );
}

#[test]
fn usage_errors_describe_themselves() {
    assert_eq!(UsageError::SessionRequired.message(), "session id required");
    assert_eq!(UsageError::SessionNotNumber.message(), "session id must be number");
}

#[test]
fn commands_become_requests() {
    assert_eq!(Command::Ping.request(), ClientToDaemon::Ping(42));
    assert_eq!(
        Command::Create { name: "a".to_string() }.request(),
        ClientToDaemon::CreateSession { name: "a".to_string() }
    );
    assert_eq!(
        Command::Attach { session: 3 }.request(),
        ClientToDaemon::Attach { session: 3 }
    );
}

#[test]
fn a_known_size_is_sent() {
    assert_eq!(
        resize_request(4, Some(WindowSize { cols: 80, rows: 24 })),
        Some(ClientToDaemon::Resize { pane: 4, cols: 80, rows: 24 })
    );
    assert_eq!(resize_request(4, None), None);
}

#[test]
fn only_output_is_shown() {
    let data = DaemonToClient::PaneData { pane: 1, data: vec![65] };
    assert_eq!(output_step(Some(data)), OutputStep::Print(vec![65]));
    assert_eq!(output_step(Some(DaemonToClient::Pong(0))), OutputStep::Skip);
    assert_eq!(output_step(None), OutputStep::Stop);
}

#[test]
fn input_is_sent_to_the_pane() {
    let mut input = InputLoop::new(9, None);
    let event = InputEvent::Data { bytes: vec![1, 2], resized: true };
    assert_eq!(
        input.step(event),
        InputStep::Send {
            resize: true,
            msg: ClientToDaemon::Stdin { pane: 9, data: vec![1, 2] },
        }
    );
    let end = InputEvent::Data { bytes: vec![], resized: false };
    assert_eq!(input.step(end), InputStep::Quit);
    assert_eq!(input.step(InputEvent::Interrupted), InputStep::Again);
    assert_eq!(input.step(InputEvent::Failed), InputStep::Fail);
}

#[test]
fn an_idle_client_without_a_limit_stays() {
    let mut input = InputLoop::new(9, None);
    for _ in 0..1000 {
        assert_eq!(input.step(InputEvent::WouldBlock { alive: true }), InputStep::Nap);
    }
    assert_eq!(input.idle_ms(), 0);
    assert_eq!(input.step(InputEvent::WouldBlock { alive: false }), InputStep::Quit);
}

#[test]
fn an_idle_client_leaves_at_its_limit() {
    let mut input = InputLoop::new(9, Some(5));
    assert_eq!(input.step(InputEvent::WouldBlock { alive: true }), InputStep::Nap);
    assert_eq!(input.step(InputEvent::WouldBlock { alive: true }), InputStep::Nap);
    assert_eq!(input.idle_ms(), 4);
    assert_eq!(input.step(InputEvent::WouldBlock { alive: true }), InputStep::Quit);
    let mut input = InputLoop::new(9, Some(4));
    assert_eq!(input.step(InputEvent::WouldBlock { alive: true }), InputStep::Nap);
    input.step(InputEvent::Data { bytes: vec![1], resized: false });
    assert_eq!(input.idle_ms(), 0);
    assert_eq!(input.step(InputEvent::WouldBlock { alive: true }), InputStep::Nap);
    assert_eq!(input.step(InputEvent::WouldBlock { alive: true }), InputStep::Quit);
}

#[test]
fn the_idle_limit_is_a_number() {
    assert_eq!(idle_limit(&Some("250".to_string())), Some(250));
    assert_eq!(idle_limit(&Some("soon".to_string())), None);
    assert_eq!(idle_limit(&None), None);
}

#[test]
fn raw_modes_clear_and_set() {
    let modes = Modes { input: 0b1111, output: 0b11, control: 0b0001, local: 0b1010 };
    let bits = Modes { input: 0b0101, output: 0b01, control: 0b0110, local: 0b0010 };
    let raw = raw_modes(modes, bits);
    assert_eq!(raw, Modes { input: 0b1010, output: 0b10, control: 0b0111, local: 0b1000 });
    assert_eq!(raw_modes(raw, bits), raw);
}

#[test]
fn raw_bits_are_chosen_by_name() {
    let flags = Flags {
        brkint: 1,
        icrnl: 2,
        inpck: 4,
        istrip: 8,
        ixon: 16,
        opost: 1,
        cs8: 48,
        echo: 1,
        icanon: 2,
        iexten: 4,
        isig: 8,
    };
    let bits = raw_bits(flags);
    assert_eq!(bits, Modes { input: 31, output: 1, control: 48, local: 15 });
    let modes = Modes { input: 63, output: 3, control: 16, local: 31 };
    assert_eq!(
        raw_modes(modes, bits),
        Modes { input: 32, output: 2, control: 48, local: 16 }
    );
}

#[test]
fn the_socket_is_below_the_runtime_directory() {
    let path = |dir: &str| String::from_utf8(socket_path(Some(dir.as_bytes().to_vec()))).unwrap();
    assert_eq!(path("/run/user/1000"), "/run/user/1000/mxr.sock");
    assert_eq!(path("/run/user/1000/"), "/run/user/1000/mxr.sock");
    assert_eq!(path("run"), "run/mxr.sock");
    assert_eq!(path(""), "/tmp/mxr.sock");
    assert_eq!(socket_path(None), b"/tmp/mxr.sock".to_vec());
    for dir in ["/a", "/a/", "a//", "/", "."] {
        let joined = std::path::Path::new(dir).join("mxr.sock");
        assert_eq!(path(dir), joined.to_str().unwrap());
    }
}

#[test]
fn the_shell_has_a_default() {
    assert_eq!(shell_path(Some("/bin/zsh".to_string())), "/bin/zsh");
    assert_eq!(shell_path(Some(String::new())), "");
    assert_eq!(shell_path(None), "/bin/sh");
}
