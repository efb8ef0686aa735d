use mxr::protocol::{
    decode_msg, encode_msg, Capability, ClientToDaemon, DaemonToClient, ProtocolError,
    PROTOCOL_VERSION,
};

fn requests() -> Vec<(ClientToDaemon, Vec<u8>)> {
    vec![
        (
            ClientToDaemon::Hello {
                version: 1,
                capabilities: vec![
                    Capability::SplitVertical,
                    Capability::SplitHorizontal,
                    Capability::Tabs,
                ],
            },
            vec![
                0, 0, 0, 0, 1, 0, 3, 0, 0, 0, 0, 0, 0, 0, 0, 0, 0, 0, 1, 0, 0, 0, 2, 0, 0, 0,
            ],
        ),
        (
            ClientToDaemon::Hello { version: 0x0203, capabilities: vec![] },
            vec![0, 0, 0, 0, 3, 2, 0, 0, 0, 0, 0, 0, 0, 0],
        ),
        (
            ClientToDaemon::CreateSession { name: "né".to_string() },
            vec![1, 0, 0, 0, 3, 0, 0, 0, 0, 0, 0, 0, 110, 0xc3, 0xa9],
        ),
        (
            ClientToDaemon::Attach { session: 0x0102030405060708 },
            vec![2, 0, 0, 0, 8, 7, 6, 5, 4, 3, 2, 1],
        ),
        (ClientToDaemon::Detach, vec![3, 0, 0, 0]),
        (
            ClientToDaemon::Stdin { pane: 5, data: vec![9, 8, 7] },
            vec![4, 0, 0, 0, 5, 0, 0, 0, 0, 0, 0, 0, 3, 0, 0, 0, 0, 0, 0, 0, 9, 8, 7],
        ),
        (
            ClientToDaemon::Resize { pane: 6, cols: 80, rows: 300 },
            vec![5, 0, 0, 0, 6, 0, 0, 0, 0, 0, 0, 0, 80, 0, 44, 1],
        ),
        (
            ClientToDaemon::Ping(42),
            vec![6, 0, 0, 0, 42, 0, 0, 0, 0, 0, 0, 0],
        ),
    ]
}

fn replies() -> Vec<(DaemonToClient, Vec<u8>)> {
    vec![
        (DaemonToClient::HelloAck { version: 1 }, vec![0, 0, 0, 0, 1, 0]),
        (
            DaemonToClient::SessionCreated { session: 258 },
            vec![1, 0, 0, 0, 2, 1, 0, 0, 0, 0, 0, 0],
        ),
        (
            DaemonToClient::AttachOk { pane: u64::MAX },
            vec![2, 0, 0, 0, 255, 255, 255, 255, 255, 255, 255, 255],
        ),
        (
            DaemonToClient::PaneData { pane: 1, data: vec![0, 255] },
            vec![3, 0, 0, 0, 1, 0, 0, 0, 0, 0, 0, 0, 2, 0, 0, 0, 0, 0, 0, 0, 0, 255],
        ),
        (
            DaemonToClient::Error { message: "no".to_string() },
            vec![4, 0, 0, 0, 2, 0, 0, 0, 0, 0, 0, 0, 110, 111],
        ),
        (
            DaemonToClient::Pong(7),
            vec![5, 0, 0, 0, 7, 0, 0, 0, 0, 0, 0, 0],
        ),
    ]
}

fn request_error(bytes: &[u8]) -> String {
    let r: Result<ClientToDaemon, ProtocolError> = decode_msg(bytes);
    match r {
        Ok(msg) => panic!("decoded {:?}", msg),
        Err(e) => e.message(),
    }
}

fn reply_error(bytes: &[u8]) -> String {
    let r: Result<DaemonToClient, ProtocolError> = decode_msg(bytes);
    match r {
        Ok(msg) => panic!("decoded {:?}", msg),
        Err(e) => e.message(),
    }
}

#[test]
fn requests_have_these_bytes() {
    for (msg, bytes) in requests() {
        assert_eq!(encode_msg(&msg).unwrap(), bytes);
    }
}

#[test]
fn replies_have_these_bytes() {
    for (msg, bytes) in replies() {
        assert_eq!(encode_msg(&msg).unwrap(), bytes);
    }
}

#[test]
fn requests_come_back() {
    for (msg, bytes) in requests() {
        let back: ClientToDaemon = decode_msg(&bytes).unwrap();
        assert_eq!(back, msg);
    }
}

#[test]
fn replies_come_back() {
    for (msg, bytes) in replies() {
        let back: DaemonToClient = decode_msg(&bytes).unwrap();
        assert_eq!(back, msg);
    }
}

#[test]
fn trailing_bytes_are_ignored() {
    for (msg, bytes) in requests() {
        let mut longer = bytes.clone();
        longer.extend_from_slice(&[1, 2, 3]);
        let back: ClientToDaemon = decode_msg(&longer).unwrap();
        assert_eq!(back, msg);
    }
    for (msg, bytes) in replies() {
        let mut longer = bytes.clone();
        longer.push(0);
        let back: DaemonToClient = decode_msg(&longer).unwrap();
        assert_eq!(back, msg);
    }
}

#[test]
fn no_prefix_is_a_message() {
    for (_, bytes) in requests() {
        for n in 0..bytes.len() {
            request_error(&bytes[..n]);
        }
    }
    for (_, bytes) in replies() {
        for n in 0..bytes.len() {
            reply_error(&bytes[..n]);
        }
    }
}

#[test]
fn different_messages_have_different_bytes() {
    let all = requests();
    for (i, a) in all.iter().enumerate() {
        for (j, b) in all.iter().enumerate() {
            assert_eq!(i == j, encode_msg(&a.0).unwrap() == encode_msg(&b.0).unwrap());
        }
    }
}

#[test]
fn fields_are_laid_out_as_bincode_does() {
    let hello = ClientToDaemon::Hello { version: 513, capabilities: vec![Capability::Tabs] };
    let tuple = (0u32, 513u16, vec![2u32]);
    assert_eq!(encode_msg(&hello).unwrap(), bincode::serialize(&tuple).unwrap());

    let name = "sesión".to_string();
    let create = ClientToDaemon::CreateSession { name: name.clone() };
    assert_eq!(encode_msg(&create).unwrap(), bincode::serialize(&(1u32, name)).unwrap());

    let stdin = ClientToDaemon::Stdin { pane: 3, data: b"ls\n".to_vec() };
    let tuple = (4u32, 3u64, b"ls\n".to_vec());
    assert_eq!(encode_msg(&stdin).unwrap(), bincode::serialize(&tuple).unwrap());

    let resize = ClientToDaemon::Resize { pane: 3, cols: 80, rows: 24 };
    let tuple = (5u32, 3u64, 80u16, 24u16);
    assert_eq!(encode_msg(&resize).unwrap(), bincode::serialize(&tuple).unwrap());

    let data = DaemonToClient::PaneData { pane: 3, data: vec![1, 2] };
    let tuple = (3u32, 3u64, vec![1u8, 2u8]);
    assert_eq!(encode_msg(&data).unwrap(), bincode::serialize(&tuple).unwrap());
}

#[test]
fn an_unknown_request_is_refused() {
    assert_eq!(
        request_error(&[7, 0, 0, 0]),
        "decode error: invalid value: integer `7`, expected variant index 0 <= i < 7"
    );
}

#[test]
fn an_unknown_reply_is_refused() {
    assert_eq!(
        reply_error(&[255, 255, 255, 255]),
        "decode error: invalid value: integer `4294967295`, expected variant index 0 <= i < 6"
    );
}

#[test]
fn an_unknown_capability_is_refused() {
    let bytes = [0, 0, 0, 0, 1, 0, 1, 0, 0, 0, 0, 0, 0, 0, 3, 0, 0, 0];
    assert_eq!(
        request_error(&bytes),
        "decode error: invalid value: integer `3`, expected variant index 0 <= i < 3"
    );
}

#[test]
fn a_short_input_is_refused_with_the_reason_of_bincode() {
    let tuple: Result<(u32, u64), bincode::Error> = bincode::deserialize(&[6, 0, 0, 0, 1]);
    assert_eq!(
        request_error(&[6, 0, 0, 0, 1]),
        format!("decode error: {}", tuple.unwrap_err())
    );
    let number: Result<u32, bincode::Error> = bincode::deserialize(&[]);
    assert_eq!(request_error(&[]), format!("decode error: {}", number.unwrap_err()));
    assert_eq!(reply_error(&[0]), request_error(&[]));
    let short = [4, 0, 0, 0, 5, 0, 0, 0, 0, 0, 0, 0, 3, 0, 0, 0, 0, 0, 0, 0, 9, 8];
    let tuple: Result<(u32, u64, Vec<u8>), bincode::Error> = bincode::deserialize(&short);
    assert_eq!(request_error(&short), format!("decode error: {}", tuple.unwrap_err()));
}

#[test]
fn a_bad_text_is_refused_with_the_reason_of_bincode() {
    let bad = [4, 0, 0, 0, 3, 0, 0, 0, 0, 0, 0, 0, 97, 0xff, 98];
    let tuple: Result<(u32, String), bincode::Error> = bincode::deserialize(&bad);
    assert_eq!(reply_error(&bad), format!("decode error: {}", tuple.unwrap_err()));
    let short = [1, 0, 0, 0, 9, 0, 0, 0, 0, 0, 0, 0, 97];
    let tuple: Result<(u32, String), bincode::Error> = bincode::deserialize(&short);
    assert_eq!(request_error(&short), format!("decode error: {}", tuple.unwrap_err()));
}

#[test]
fn a_huge_length_is_refused() {
    let mut bytes = vec![4, 0, 0, 0, 5, 0, 0, 0, 0, 0, 0, 0];
    bytes.extend_from_slice(&[255; 8]);
    let tuple: Result<(u32, u64, Vec<u8>), bincode::Error> = bincode::deserialize(&bytes);
    assert_eq!(request_error(&bytes), format!("decode error: {}", tuple.unwrap_err()));
}

#[test]
fn errors_describe_themselves() {
    assert_eq!(
        ProtocolError::VersionMismatch(7).message(),
        "peer requested incompatible protocol version 7"
    );
    assert_eq!(ProtocolError::Decode("x".to_string()).message(), "decode error: x");
    assert_eq!(ProtocolError::Encode("y".to_string()).message(), "encode error: y");
}

#[test]
fn this_is_version_one() {
    assert_eq!(PROTOCOL_VERSION, 1);
}

#[test]
fn ordinary_requests_fit() {
    for (msg, _) in requests() {
        assert!(mxr::wire::request_fits(&msg));
    }
}
