//! The messages that a client and the daemon exchange.

use vstd::prelude::*;
use vstd::string::*;

use crate::text::{decimal, decimal_text};

verus! {

/// The protocol version that this library speaks.
pub const PROTOCOL_VERSION: u16 = 1;

pub type SessionId = u64;

pub type WindowId = u64;

pub type PaneId = u64;

/// What a client can display.
#[derive(Debug, PartialEq, Eq, Clone, Copy, Structural)]
pub enum Capability {
    SplitVertical,
    SplitHorizontal,
    Tabs,
}

/// A request of a client.
#[derive(Debug, PartialEq, Eq, Clone)]
pub enum ClientToDaemon {
    Hello { version: u16, capabilities: Vec<Capability> },
    CreateSession { name: String },
    Attach { session: SessionId },
    Detach,
    Stdin { pane: PaneId, data: Vec<u8> },
    Resize { pane: PaneId, cols: u16, rows: u16 },
    Ping(u64),
}

/// A reply of the daemon, or the output of a pane.
#[derive(Debug, PartialEq, Eq, Clone)]
pub enum DaemonToClient {
    HelloAck { version: u16 },
    SessionCreated { session: SessionId },
    AttachOk { pane: PaneId },
    PaneData { pane: PaneId, data: Vec<u8> },
    Error { message: String },
    Pong(u64),
}

/// Why two peers cannot understand each other.
#[derive(Debug)]
pub enum ProtocolError {
    VersionMismatch(u16),
    Decode(String),
    Encode(String),
}

/// The contents of a [`ClientToDaemon`].
pub enum ClientMsg {
    Hello { version: u16, capabilities: Seq<Capability> },
    CreateSession { name: Seq<char> },
    Attach { session: SessionId },
    Detach,
    Stdin { pane: PaneId, data: Seq<u8> },
    Resize { pane: PaneId, cols: u16, rows: u16 },
    Ping(u64),
}

/// The contents of a [`DaemonToClient`].
pub enum DaemonMsg {
    HelloAck { version: u16 },
    SessionCreated { session: SessionId },
    AttachOk { pane: PaneId },
    PaneData { pane: PaneId, data: Seq<u8> },
    Error { message: Seq<char> },
    Pong(u64),
}

impl View for ClientToDaemon {
    type V = ClientMsg;

    open spec fn view(&self) -> ClientMsg {
        match self {
            ClientToDaemon::Hello { version, capabilities } => ClientMsg::Hello {
                version: *version,
                capabilities: capabilities@,
            },
            ClientToDaemon::CreateSession { name } => ClientMsg::CreateSession { name: name@ },
            ClientToDaemon::Attach { session } => ClientMsg::Attach { session: *session },
            ClientToDaemon::Detach => ClientMsg::Detach,
            ClientToDaemon::Stdin { pane, data } => ClientMsg::Stdin { pane: *pane, data: data@ },
            ClientToDaemon::Resize { pane, cols, rows } => ClientMsg::Resize {
                pane: *pane,
                cols: *cols,
                rows: *rows,
            },
            ClientToDaemon::Ping(nonce) => ClientMsg::Ping(*nonce),
        }
    }
}

impl View for DaemonToClient {
    type V = DaemonMsg;

    open spec fn view(&self) -> DaemonMsg {
        match self {
            DaemonToClient::HelloAck { version } => DaemonMsg::HelloAck { version: *version },
            DaemonToClient::SessionCreated { session } => DaemonMsg::SessionCreated {
                session: *session,
            },
            DaemonToClient::AttachOk { pane } => DaemonMsg::AttachOk { pane: *pane },
            DaemonToClient::PaneData { pane, data } => DaemonMsg::PaneData {
                pane: *pane,
                data: data@,
            },
            DaemonToClient::Error { message } => DaemonMsg::Error { message: message@ },
            DaemonToClient::Pong(nonce) => DaemonMsg::Pong(*nonce),
        }
    }
}

impl ProtocolError {
    /// The text of the error.
    pub open spec fn text(&self) -> Seq<char> {
        match self {
            ProtocolError::VersionMismatch(version) =>
                "peer requested incompatible protocol version "@ + decimal(*version as nat),
            ProtocolError::Decode(reason) => "decode error: "@ + reason@,
            ProtocolError::Encode(reason) => "encode error: "@ + reason@,
        }
    }

    /// Describes the error to a person.
    pub fn message(&self) -> (r: String)
        ensures
            r@ == self.text(),
    {
        match self {
            ProtocolError::VersionMismatch(version) => {
                let mut text = "peer requested incompatible protocol version ".to_owned();
                text.append(decimal_text(*version as u64).as_str());
                text
            },
            ProtocolError::Decode(reason) => {
                let mut text = "decode error: ".to_owned();
                text.append(reason.as_str());
                text
            },
            ProtocolError::Encode(reason) => {
                let mut text = "encode error: ".to_owned();
                text.append(reason.as_str());
                text
            },
        }
    }
}

/// A kind of message that can travel as bytes.
pub trait Message: View + Sized {
    /// The bytes of a message.
    spec fn wire(msg: Self::V) -> Seq<u8>;

    /// The message that some bytes start with, or what is wrong with them.
    spec fn parsed(input: Seq<u8>) -> Result<Self::V, Seq<char>>;

    fn to_wire(&self) -> (r: Result<Vec<u8>, ProtocolError>)
        requires
            Self::wire(self@).len() <= isize::MAX,
        ensures
            r matches Ok(b) && b@ == Self::wire(self@),
    ;

    fn from_wire(input: &[u8]) -> (r: Result<Self, ProtocolError>)
        ensures
            match Self::parsed(input@) {
                Ok(msg) => r matches Ok(m) && m@ == msg,
                Err(text) => r matches Err(ProtocolError::Decode(reason)) && reason@ == text,
            },
    ;

    proof fn lemma_round_trip(msg: Self::V, rest: Seq<u8>)
        requires
            Self::wire(msg).len() <= usize::MAX,
        ensures
            Self::parsed(Self::wire(msg) + rest) == Ok::<Self::V, Seq<char>>(msg),
    ;

    proof fn lemma_canonical(input: Seq<u8>)
        ensures
            Self::parsed(input) matches Ok(msg) ==> Self::wire(msg).is_prefix_of(input),
    ;
}

/// Turns a message into bytes. This cannot fail for a message whose bytes fit
/// in memory.
pub fn encode_msg<T: Message>(msg: &T) -> (r: Result<Vec<u8>, ProtocolError>)
    requires
        T::wire(msg@).len() <= isize::MAX,
    ensures
        r matches Ok(b) && b@ == T::wire(msg@),
{
    msg.to_wire()
}

/// Reads the message that `buf` starts with. What follows it is ignored.
pub fn decode_msg<T: Message>(buf: &[u8]) -> (r: Result<T, ProtocolError>)
    ensures
        match T::parsed(buf@) {
            Ok(msg) => r matches Ok(m) && m@ == msg,
            Err(text) => r matches Err(ProtocolError::Decode(reason)) && reason@ == text,
        },
{
    T::from_wire(buf)
}

/// Decoding what a message was encoded as gives the message back.
pub proof fn decoding_inverts_encoding<T: Message>(msg: T::V, encoded: Vec<u8>)
    requires
        encoded@ == T::wire(msg),
    ensures
        T::parsed(encoded@) == Ok::<T::V, Seq<char>>(msg),
{
    trailing_bytes_are_ignored::<T>(msg, encoded, Seq::empty());
    assert(encoded@ + Seq::<u8>::empty() =~= encoded@);
}

/// What follows an encoded message does not matter to the one who decodes it.
pub proof fn trailing_bytes_are_ignored<T: Message>(msg: T::V, encoded: Vec<u8>, rest: Seq<u8>)
    requires
        encoded@ == T::wire(msg),
    ensures
        T::parsed(encoded@ + rest) == Ok::<T::V, Seq<char>>(msg),
{
    assert(encoded.len() == encoded@.len());
    T::lemma_round_trip(msg, rest);
}

/// A message that was cut short is not taken for a message, wherever it was
/// cut.
pub proof fn truncated_messages_are_refused<T: Message>(msg: T::V, encoded: Vec<u8>, k: int)
    requires
        encoded@ == T::wire(msg),
        0 <= k < encoded@.len(),
    ensures
        T::parsed(encoded@.take(k)) is Err,
{
    decoding_inverts_encoding::<T>(msg, encoded);
    let part = encoded@.take(k);
    T::lemma_canonical(part);
    if let Ok(other) = T::parsed(part) {
        let n = T::wire(other).len() as int;
        assert(encoded.len() == encoded@.len());
        T::lemma_round_trip(other, encoded@.skip(n));
        assert(T::wire(other) + encoded@.skip(n) =~= encoded@);
    }
}

/// Bytes that decode to a message start with the bytes that the message is
/// encoded as: no message has two encodings.
pub proof fn encoding_is_canonical<T: Message>(input: Seq<u8>)
    requires
        T::parsed(input) is Ok,
    ensures
        T::wire(T::parsed(input)->Ok_0).is_prefix_of(input),
{
    T::lemma_canonical(input);
}

/// Two messages that are encoded as the same bytes are the same message.
pub proof fn encoding_is_injective<T: Message>(a: T::V, b: T::V, encoded: Vec<u8>)
    requires
        encoded@ == T::wire(a),
        encoded@ == T::wire(b),
    ensures
        a == b,
{
    decoding_inverts_encoding::<T>(a, encoded);
    decoding_inverts_encoding::<T>(b, encoded);
}

} // verus!
