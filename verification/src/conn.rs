//! One client of the daemon: the frame that is arriving from it, what it may
//! do, and the bytes that wait for it.

use vstd::prelude::*;
use vstd::string::*;

use crate::bytes::{be_value, lemma_be_bytes_of_value, lemma_byte_ranges};
use crate::frame::{frame, frame_header, payload_len};
use crate::laws::requests::{gains, new_sessions_are_announced};
use crate::outgoing::{flush, moved, next_flush_step, FlushStep, WriteOutcome};
use crate::protocol::{
    decode_msg, encode_msg, ClientMsg, ClientToDaemon, DaemonMsg, DaemonToClient, PaneId,
    ProtocolError, SessionId, PROTOCOL_VERSION,
};
use crate::replies::{
    error_fits, hello_first_text, lemma_texts_fit, lost_pane_text, mismatch, mismatch_text,
    no_pane, no_pane_text, no_session, no_session_text, second_hello, second_hello_fits,
    second_hello_text, write_failed, write_failed_text,
};
use crate::state::{interest_for, Interest, PaneView, ReadOutcome, State, StateView, Token};
use crate::wire::{client_parsed, daemon_wire, lemma_daemon_wire_len};

verus! {

/// A connected client.
pub struct ClientConn {
    len_buf: Vec<u8>,
    expected_payload: Option<usize>,
    payload: Vec<u8>,
    handshaken: bool,
    write_buf: Vec<u8>,
    attached_pane: Option<Token>,
}

/// The contents of a [`ClientConn`].
#[verifier::ext_equal]
pub struct ConnView {
    /// What has arrived of the frame that is arriving.
    pub inbound: Seq<u8>,
    /// Whether the client has said hello.
    pub handshaken: bool,
    /// What waits for the client.
    pub write_buf: Seq<u8>,
    /// The pane whose output the client gets.
    pub attached_pane: Option<Token>,
}

/// What to do after reading from a client.
#[derive(Debug)]
pub enum ReadStep {
    /// The length of a frame is known: read its payload at once.
    More,
    /// This payload is complete. Process it, then read on.
    Message(Vec<u8>),
    /// Wait until the client is readable.
    Wait,
    /// The client has closed.
    Closed,
    /// The connection is broken.
    Fail,
}

/// The contents of a [`ReadStep`].
pub enum ReadStepView {
    More,
    Message(Seq<u8>),
    Wait,
    Closed,
    Fail,
}

impl View for ReadStep {
    type V = ReadStepView;

    open spec fn view(&self) -> ReadStepView {
        match self {
            ReadStep::More => ReadStepView::More,
            ReadStep::Message(payload) => ReadStepView::Message(payload@),
            ReadStep::Wait => ReadStepView::Wait,
            ReadStep::Closed => ReadStepView::Closed,
            ReadStep::Fail => ReadStepView::Fail,
        }
    }
}

/// How many bytes of the arriving frame to read next.
pub open spec fn wanted_after(inbound: Seq<u8>) -> nat {
    if inbound.len() < 4 {
        (4 - inbound.len()) as nat
    } else {
        (4 + be_value(inbound.take(4)) - inbound.len()) as nat
    }
}

/// Whether some bytes are a frame that is still arriving.
pub open spec fn is_arriving(inbound: Seq<u8>) -> bool {
    inbound.len() < 4 || inbound.len() < 4 + be_value(inbound.take(4))
}

/// What is arriving after some more bytes, and the payload that they complete.
pub open spec fn after_read(inbound: Seq<u8>, data: Seq<u8>) -> (Seq<u8>, Option<Seq<u8>>) {
    let all = inbound + data;
    if all.len() >= 4 && all.len() == 4 + be_value(all.take(4)) {
        (Seq::empty(), Some(all.skip(4)))
    } else {
        (all, None)
    }
}

/// What is arriving after an attempt to read.
pub open spec fn inbound_after(inbound: Seq<u8>, outcome: ReadOutcome) -> Seq<u8> {
    match outcome {
        ReadOutcome::Data(data) => if data@.len() == 0 {
            inbound
        } else {
            after_read(inbound, data@).0
        },
        _ => inbound,
    }
}

/// What to do after an attempt to read. A read that completes the header of a
/// payload is followed by another; any other read that leaves the frame
/// incomplete is not. An empty payload is complete with its header.
pub open spec fn next_read_step(inbound: Seq<u8>, outcome: ReadOutcome) -> ReadStepView {
    match outcome {
        ReadOutcome::Data(data) => if data@.len() == 0 {
            ReadStepView::Closed
        } else {
            match after_read(inbound, data@).1 {
                Some(payload) => ReadStepView::Message(payload),
                None => if inbound.len() < 4 && inbound.len() + data@.len() == 4 {
                    ReadStepView::More
                } else {
                    ReadStepView::Wait
                },
            }
        },
        ReadOutcome::WouldBlock => ReadStepView::Wait,
        ReadOutcome::Failed => ReadStepView::Fail,
    }
}

/// Whether a read brought no more than was wanted.
pub open spec fn read_fits(inbound: Seq<u8>, outcome: ReadOutcome) -> bool {
    outcome matches ReadOutcome::Data(data) ==> data@.len() <= wanted_after(inbound)
}

proof fn lemma_complete_frame(all: Seq<u8>)
    requires
        all.len() >= 4,
        all.len() == 4 + be_value(all.take(4)),
    ensures
        frame(all.skip(4)) == all,
{
    lemma_byte_ranges();
    lemma_be_bytes_of_value(all.take(4));
    assert(frame(all.skip(4)) =~= all);
}

impl ConnView {
    /// A message is added to what waits for the client.
    pub open spec fn queued(self, msg: DaemonMsg) -> ConnView {
        self.queued_encoded(daemon_wire(msg))
    }

    /// A payload is added to what waits for the client.
    pub open spec fn queued_encoded(self, payload: Seq<u8>) -> ConnView {
        ConnView { write_buf: self.write_buf + frame(payload), ..self }
    }

    /// The client follows a pane.
    pub open spec fn attached(self, pane: Option<Token>) -> ConnView {
        ConnView { attached_pane: pane, ..self }
    }
}

impl View for ClientConn {
    type V = ConnView;

    closed spec fn view(&self) -> ConnView {
        ConnView {
            inbound: self.len_buf@ + self.payload@,
            handshaken: self.handshaken,
            write_buf: self.write_buf@,
            attached_pane: self.attached_pane,
        }
    }
}

/// A client that has just connected.
pub open spec fn initial_conn() -> ConnView {
    ConnView {
        inbound: Seq::empty(),
        handshaken: false,
        write_buf: Seq::empty(),
        attached_pane: None,
    }
}

impl ClientConn {
    pub closed spec fn wf(&self) -> bool {
        match self.expected_payload {
            None => self.len_buf@.len() < 4 && self.payload@.len() == 0,
            Some(len) => {
                &&& self.len_buf@.len() == 4
                &&& len == be_value(self.len_buf@)
                &&& self.payload@.len() < len
            },
        }
    }

    /// A client that has just connected.
    pub fn new() -> (r: ClientConn)
        ensures
            r.wf(),
            r@ == initial_conn(),
    {
        let r = ClientConn {
            len_buf: Vec::new(),
            expected_payload: None,
            payload: Vec::new(),
            handshaken: false,
            write_buf: Vec::new(),
            attached_pane: None,
        };
        assert(r@ =~= initial_conn());
        r
    }

    /// What arrives is always a part of one frame, so that something is left to
    /// read.
    pub proof fn lemma_arriving(&self)
        requires
            self.wf(),
        ensures
            is_arriving(self@.inbound),
            0 < wanted_after(self@.inbound) <= usize::MAX,
    {
        if self.len_buf@.len() == 4 {
            assert(self@.inbound.take(4) =~= self.len_buf@);
        }
    }

    /// How many bytes to read next: at least one.
    pub fn wanted(&self) -> (r: usize)
        requires
            self.wf(),
        ensures
            r == wanted_after(self@.inbound),
            r > 0,
    {
        match self.expected_payload {
            None => 4 - self.len_buf.len(),
            Some(len) => {
                assert(self@.inbound.take(4) =~= self.len_buf@);
                len - self.payload.len()
            },
        }
    }

    /// Takes what was read: at most as many bytes as were wanted. A read that
    /// brings fewer means that no more are there. Since some were wanted, a
    /// read that brings none means that the client has closed.
    pub fn on_read(&mut self, outcome: &ReadOutcome) -> (r: ReadStep)
        requires
            old(self).wf(),
            read_fits(old(self)@.inbound, *outcome),
        ensures
            final(self).wf(),
            final(self)@ == (ConnView {
                inbound: inbound_after(old(self)@.inbound, *outcome),
                ..old(self)@
            }),
            r@ == next_read_step(old(self)@.inbound, *outcome),
            r matches ReadStep::Message(payload) ==> (outcome matches ReadOutcome::Data(read)
                && old(self)@.inbound + read@ == frame(payload@) && final(self)@.inbound.len()
                == 0),
            r !is Message ==> (outcome matches ReadOutcome::Data(read) ==> final(self)@.inbound
                == old(self)@.inbound + read@),
    {
        match outcome {
            ReadOutcome::Data(data) => {
                let ghost all = self@.inbound + data@;
                if data.is_empty() {
                    assert(all =~= self@.inbound);
                    return ReadStep::Closed;
                }
                proof {
                    if all.len() >= 4 && all.len() == 4 + be_value(all.take(4)) {
                        lemma_complete_frame(all);
                    }
                }
                match self.expected_payload {
                    None => {
                        self.len_buf.extend_from_slice(data.as_slice());
                        assert(self.len_buf@ =~= all);
                        assert(self@.inbound =~= all);
                        if self.len_buf.len() < 4 {
                            return ReadStep::Wait;
                        }
                        let head: [u8; 4] = [
                            self.len_buf[0],
                            self.len_buf[1],
                            self.len_buf[2],
                            self.len_buf[3],
                        ];
                        assert(head@ =~= self.len_buf@);
                        assert(all.take(4) =~= all);
                        let len: usize = payload_len(&head);
                        if len == 0 {
                            self.len_buf = Vec::new();
                            let payload: Vec<u8> = Vec::new();
                            assert(payload@ =~= all.skip(4));
                            assert(self@.inbound =~= Seq::<u8>::empty());
                            return ReadStep::Message(payload);
                        }
                        self.expected_payload = Some(len);
                        ReadStep::More
                    },
                    Some(len) => {
                        assert(self@.inbound.take(4) =~= self.len_buf@);
                        self.payload.extend_from_slice(data.as_slice());
                        assert(self@.inbound =~= all);
                        assert(all.take(4) =~= self.len_buf@);
                        if self.payload.len() < len {
                            return ReadStep::Wait;
                        }
                        let mut payload: Vec<u8> = Vec::new();
                        std::mem::swap(&mut payload, &mut self.payload);
                        assert(payload@ =~= all.skip(4));
                        self.len_buf = Vec::new();
                        self.expected_payload = None;
                        assert(self@.inbound =~= Seq::<u8>::empty());
                        ReadStep::Message(payload)
                    },
                }
            },
            ReadOutcome::WouldBlock => ReadStep::Wait,
            ReadOutcome::Failed => ReadStep::Fail,
        }
    }

    /// Adds a message to what waits for the client.
    pub fn queue(&mut self, msg: DaemonToClient) -> (r: Result<(), ProtocolError>)
        requires
            daemon_wire(msg@).len() <= isize::MAX,
        ensures
            r is Ok,
            final(self)@ == old(self)@.queued(msg@),
            final(self).wf() == old(self).wf(),
    {
        let encoded = encode_msg(&msg)?;
        self.queue_encoded(encoded.as_slice());
        Ok(())
    }

    /// Adds a payload to what waits for the client.
    pub fn queue_encoded(&mut self, encoded: &[u8])
        ensures
            final(self)@ == old(self)@.queued_encoded(encoded@),
            final(self).wf() == old(self).wf(),
    {
        let head: [u8; 4] = frame_header(encoded.len());
        self.write_buf.extend_from_slice(head.as_slice());
        self.write_buf.extend_from_slice(encoded);
        assert(self@ =~= old(self)@.queued_encoded(encoded@));
    }

    /// Takes note of an attempt to write to the client.
    pub fn flush_write_buf(&mut self, outcome: WriteOutcome) -> (r: FlushStep)
        requires
            moved(outcome) <= old(self)@.write_buf.len(),
        ensures
            final(self)@ == (ConnView {
                write_buf: old(self)@.write_buf.skip(moved(outcome) as int),
                ..old(self)@
            }),
            r == next_flush_step(outcome, final(self)@.write_buf.len()),
            final(self).wf() == old(self).wf(),
    {
        flush(&mut self.write_buf, outcome)
    }

    /// The bytes to offer to the client.
    pub fn pending_write(&self) -> (r: &[u8])
        ensures
            r@ == self@.write_buf,
    {
        self.write_buf.as_slice()
    }

    /// Whether bytes wait for the client.
    pub fn has_pending_write(&self) -> (r: bool)
        ensures
            r == (self@.write_buf.len() > 0),
    {
        !self.write_buf.is_empty()
    }

    /// The events to wait for on this client.
    pub fn interest(&self) -> (r: Interest)
        ensures
            r == interest_for(self@.write_buf),
    {
        if self.has_pending_write() {
            Interest::ReadWrite
        } else {
            Interest::Readable
        }
    }

    /// The pane whose output the client gets.
    pub fn attached_pane(&self) -> (r: Option<Token>)
        ensures
            r == self@.attached_pane,
    {
        self.attached_pane
    }
}

/// A session that is being created: its name, and the token of its pane.
#[derive(Debug, PartialEq, Eq)]
pub struct NewSession {
    pub session: SessionId,
    pub name: String,
    pub token: Token,
}

/// The contents of a [`NewSession`].
pub struct NewSessionView {
    pub session: SessionId,
    pub name: Seq<char>,
    pub token: Token,
}

impl View for NewSession {
    type V = NewSessionView;

    open spec fn view(&self) -> NewSessionView {
        NewSessionView { session: self.session, name: self.name@, token: self.token }
    }
}

/// What a request asks of the world outside.
#[derive(Debug, PartialEq, Eq)]
pub enum Effect {
    /// Nothing.
    Done,
    /// Start a shell for the first pane of a session.
    OpenPane(NewSession),
    /// Write to the shell of a pane what waits for it.
    WritePane(Token),
    /// Tell the shell of a pane the size of its window.
    ResizePane { token: Token, cols: u16, rows: u16 },
}

/// The contents of an [`Effect`].
pub enum EffectView {
    Done,
    OpenPane(NewSessionView),
    WritePane(Token),
    ResizePane { token: Token, cols: u16, rows: u16 },
}

impl View for Effect {
    type V = EffectView;

    open spec fn view(&self) -> EffectView {
        match self {
            Effect::Done => EffectView::Done,
            Effect::OpenPane(new) => EffectView::OpenPane(new@),
            Effect::WritePane(token) => EffectView::WritePane(*token),
            Effect::ResizePane { token, cols, rows } => EffectView::ResizePane {
                token: *token,
                cols: *cols,
                rows: *rows,
            },
        }
    }
}

/// A client, the state and what is left to do, after a request.
#[verifier::ext_equal]
pub struct Handled {
    pub conn: ConnView,
    pub state: StateView,
    pub effect: EffectView,
}

/// Only a reply comes of a request.
pub open spec fn replied(conn: ConnView, state: StateView, msg: DaemonMsg) -> Handled {
    Handled { conn: conn.queued(msg), state, effect: EffectView::Done }
}

/// What becomes of the first request of a client. Only a hello of the right
/// version opens the door.
pub open spec fn greeted(conn: ConnView, state: StateView, msg: ClientMsg) -> Handled {
    match msg {
        ClientMsg::Hello { version, capabilities } => if version == PROTOCOL_VERSION {
            replied(
                ConnView { handshaken: true, ..conn },
                state,
                DaemonMsg::HelloAck { version },
            )
        } else {
            replied(conn, state, DaemonMsg::Error { message: mismatch_text(version) })
        },
        _ => replied(conn, state, DaemonMsg::Error { message: hello_first_text() }),
    }
}

/// What becomes of the input of a client for a pane.
pub open spec fn typed(conn: ConnView, state: StateView, pane: PaneId, data: Seq<u8>) -> Handled {
    if !state.pane_token_by_id.contains_key(pane) {
        replied(conn, state, DaemonMsg::Error { message: no_pane_text(pane) })
    } else {
        let token = state.pane_token_by_id[pane];
        if !state.panes.contains_key(token) {
            replied(conn, state, DaemonMsg::Error { message: lost_pane_text() })
        } else {
            let before = state.panes[token];
            let after = PaneView { write_buf: before.write_buf + data, ..before };
            Handled {
                conn,
                state: state.pane_set(token, after),
                effect: EffectView::WritePane(token),
            }
        }
    }
}

/// What becomes of a request of a client that has said hello.
pub open spec fn served(conn: ConnView, state: StateView, msg: ClientMsg) -> Handled {
    match msg {
        ClientMsg::CreateSession { name } => Handled {
            conn,
            state: state.session_numbered().token_allocated(),
            effect: EffectView::OpenPane(
                NewSessionView {
                    session: state.next_session_id,
                    name,
                    token: state.next_token,
                },
            ),
        },
        ClientMsg::Ping(nonce) => replied(conn, state, DaemonMsg::Pong(nonce)),
        ClientMsg::Attach { session } => if state.sessions.contains_key(session) {
            let token = state.sessions[session].root_pane;
            replied(
                conn.attached(Some(token)),
                state,
                DaemonMsg::AttachOk { pane: state.pane_id_or_zero(token) },
            )
        } else {
            replied(conn, state, DaemonMsg::Error { message: no_session_text(session) })
        },
        ClientMsg::Stdin { pane, data } => typed(conn, state, pane, data),
        ClientMsg::Resize { pane, cols, rows } => Handled {
            conn,
            state,
            effect: if state.pane_named(pane) is Some {
                EffectView::ResizePane { token: state.pane_token_by_id[pane], cols, rows }
            } else {
                EffectView::Done
            },
        },
        ClientMsg::Detach => replied(conn.attached(None), state, DaemonMsg::Pong(0)),
        ClientMsg::Hello { version, capabilities } => replied(
            conn,
            state,
            DaemonMsg::Error { message: second_hello_text(version, capabilities) },
        ),
    }
}

/// What becomes of a request.
pub open spec fn handled(conn: ConnView, state: StateView, msg: ClientMsg) -> Handled {
    if conn.handshaken {
        served(conn, state, msg)
    } else {
        greeted(conn, state, msg)
    }
}

/// Whether the counters and the memory suffice for a request.
pub open spec fn can_serve(conn: ConnView, state: StateView, msg: ClientMsg) -> bool {
    conn.handshaken ==> match msg {
        ClientMsg::CreateSession { name } => state.room_for_session(),
        ClientMsg::Hello { version, capabilities } => error_fits(
            second_hello_text(version, capabilities),
        ),
        _ => true,
    }
}

/// A session has its pane: both are recorded, and the client that asked for
/// them is told and follows the pane.
pub open spec fn created(
    conn: ConnView,
    state: StateView,
    new: NewSessionView,
    pane: PaneId,
) -> Handled {
    Handled {
        conn: conn.queued(DaemonMsg::SessionCreated { session: new.session }).queued(
            DaemonMsg::AttachOk { pane },
        ).attached(Some(new.token)),
        state: state.pane_registered(new.token, pane).session_recorded(
            new.session,
            new.name,
            new.token,
        ),
        effect: EffectView::Done,
    }
}

impl ClientConn {
    /// Whether [`ClientConn::handle`] can take a request.
    pub fn can_handle(&self, state: &State, msg: &ClientToDaemon) -> (r: bool)
        ensures
            r == can_serve(self@, state@, msg@),
    {
        if !self.handshaken {
            return true;
        }
        match msg {
            ClientToDaemon::CreateSession { name: _ } => state.room_for_session(),
            ClientToDaemon::Hello { version, capabilities } => second_hello_fits(
                *version,
                capabilities,
            ),
            _ => true,
        }
    }

    fn reply_error(&mut self, message: String) -> (r: Result<(), ProtocolError>)
        requires
            error_fits(message@),
        ensures
            r is Ok,
            final(self)@ == old(self)@.queued(DaemonMsg::Error { message: message@ }),
            final(self).wf() == old(self).wf(),
    {
        self.queue(DaemonToClient::Error { message })
    }

    fn greet(&mut self, msg: &ClientToDaemon) -> (r: Result<(), ProtocolError>)
        requires
            !old(self)@.handshaken,
        ensures
            r is Ok,
            forall|state: StateView| #[trigger]
                greeted(old(self)@, state, msg@) == (Handled {
                    conn: final(self)@,
                    state,
                    effect: EffectView::Done,
                }),
            final(self).wf() == old(self).wf(),
    {
        match msg {
            ClientToDaemon::Hello { version, capabilities: _ } => {
                proof {
                    lemma_texts_fit(*version, 0);
                    lemma_daemon_wire_len(DaemonMsg::HelloAck { version: *version });
                }
                if *version != PROTOCOL_VERSION {
                    self.reply_error(mismatch(*version))
                } else {
                    self.handshaken = true;
                    self.queue(DaemonToClient::HelloAck { version: *version })
                }
            },
            _ => {
                proof {
                    lemma_texts_fit(0, 0);
                }
                self.reply_error("send Hello first".to_owned())
            },
        }
    }

    fn attach(&mut self, state: &State, session: SessionId) -> (r: Result<(), ProtocolError>)
        ensures
            r is Ok,
            served(old(self)@, state@, ClientMsg::Attach { session }) == (Handled {
                conn: final(self)@,
                state: state@,
                effect: EffectView::Done,
            }),
            final(self).wf() == old(self).wf(),
    {
        proof {
            lemma_texts_fit(0, session);
        }
        match state.root_pane(session) {
            Some(token) => {
                self.attached_pane = Some(token);
                let pane: PaneId = match state.pane(token) {
                    Some(p) => p.id,
                    None => 0,
                };
                proof {
                    lemma_daemon_wire_len(DaemonMsg::AttachOk { pane });
                }
                self.queue(DaemonToClient::AttachOk { pane })
            },
            None => self.reply_error(no_session(session)),
        }
    }

    fn stdin(&mut self, state: &mut State, pane: PaneId, data: &Vec<u8>) -> (r: Result<
        Effect,
        ProtocolError,
    >)
        ensures
            r is Ok,
            typed(old(self)@, old(state)@, pane, data@) == (Handled {
                conn: final(self)@,
                state: final(state)@,
                effect: r->Ok_0@,
            }),
            old(state)@.pane_named(pane) matches Some(p) ==> {
                let token = old(state)@.pane_token_by_id[pane];
                &&& r->Ok_0@ == EffectView::WritePane(token)
                &&& final(state)@.panes[token].write_buf == p.write_buf + data@
            },
            final(self).wf() == old(self).wf(),
    {
        proof {
            lemma_texts_fit(0, pane);
        }
        match state.pane_token(pane) {
            Some(token) => match state.take_pane(token) {
                Some(mut p) => {
                    let ghost before = p@;
                    p.write_buf.extend_from_slice(data.as_slice());
                    assert(p@.write_buf =~= before.write_buf + data@);
                    state.put_pane(token, p);
                    assert(state@.panes =~= old(state)@.panes.insert(token, p@));
                    Ok(Effect::WritePane(token))
                },
                None => {
                    assert(state@.panes =~= old(state)@.panes);
                    self.reply_error("pane token missing".to_owned())?;
                    Ok(Effect::Done)
                },
            },
            None => {
                self.reply_error(no_pane(pane))?;
                Ok(Effect::Done)
            },
        }
    }

    /// Answers a request. What the daemon itself cannot do is returned.
    pub fn handle(&mut self, state: &mut State, msg: ClientToDaemon) -> (r: Result<
        Effect,
        ProtocolError,
    >)
        requires
            can_serve(old(self)@, old(state)@, msg@),
        ensures
            r is Ok,
            handled(old(self)@, old(state)@, msg@) == (Handled {
                conn: final(self)@,
                state: final(state)@,
                effect: r->Ok_0@,
            }),
            final(self).wf() == old(self).wf(),
    {
        if !self.handshaken {
            self.greet(&msg)?;
            assert(greeted(old(self)@, old(state)@, msg@).conn == self@);
            return Ok(Effect::Done);
        }
        match msg {
            ClientToDaemon::CreateSession { name } => {
                let session: SessionId = state.number_session();
                let token: Token = state.alloc_token();
                Ok(Effect::OpenPane(NewSession { session, name, token }))
            },
            ClientToDaemon::Ping(nonce) => {
                proof {
                    lemma_daemon_wire_len(DaemonMsg::Pong(nonce));
                }
                self.queue(DaemonToClient::Pong(nonce))?;
                Ok(Effect::Done)
            },
            ClientToDaemon::Attach { session } => {
                self.attach(state, session)?;
                Ok(Effect::Done)
            },
            ClientToDaemon::Stdin { pane, data } => self.stdin(state, pane, &data),
            ClientToDaemon::Resize { pane, cols, rows } => {
                match state.pane_token(pane) {
                    Some(token) => match state.pane(token) {
                        Some(_) => Ok(Effect::ResizePane { token, cols, rows }),
                        None => Ok(Effect::Done),
                    },
                    None => Ok(Effect::Done),
                }
            },
            ClientToDaemon::Detach => {
                proof {
                    lemma_daemon_wire_len(DaemonMsg::Pong(0));
                }
                self.attached_pane = None;
                self.queue(DaemonToClient::Pong(0))?;
                Ok(Effect::Done)
            },
            ClientToDaemon::Hello { version, capabilities } => {
                self.reply_error(second_hello(version, &capabilities))?;
                Ok(Effect::Done)
            },
        }
    }

    /// Answers the request in a payload. A payload that holds none is an
    /// error, on which the client is to be dropped.
    pub fn process_one(&mut self, state: &mut State, payload: &[u8]) -> (r: Result<
        Effect,
        ProtocolError,
    >)
        requires
            client_parsed(payload@) matches Ok(msg) ==> can_serve(old(self)@, old(state)@, msg),
        ensures
            match client_parsed(payload@) {
                Ok(msg) => {
                    &&& r is Ok
                    &&& handled(old(self)@, old(state)@, msg) == (Handled {
                        conn: final(self)@,
                        state: final(state)@,
                        effect: r->Ok_0@,
                    })
                },
                Err(text) => {
                    &&& r matches Err(ProtocolError::Decode(reason)) && reason@ == text
                    &&& final(self)@ == old(self)@
                    &&& final(state)@ == old(state)@
                },
            },
            final(self).wf() == old(self).wf(),
    {
        let msg: ClientToDaemon = decode_msg(payload)?;
        self.handle(state, msg)
    }

    /// Goes on with a new session whose shell has started and whose pane got
    /// a name.
    pub fn finish_create(&mut self, state: &mut State, new: NewSession, pane: PaneId) -> (r: Result<
        (),
        ProtocolError,
    >)
        ensures
            r is Ok,
            created(old(self)@, old(state)@, new@, pane) == (Handled {
                conn: final(self)@,
                state: final(state)@,
                effect: EffectView::Done,
            }),
            gains(
                old(self)@.write_buf,
                final(self)@.write_buf,
                seq![
                    DaemonMsg::SessionCreated { session: new.session },
                    DaemonMsg::AttachOk { pane },
                ],
            ),
            final(self)@.attached_pane == Some(new.token),
            final(state)@.sessions[new.session].root_pane == new.token,
            final(self).wf() == old(self).wf(),
    {
        proof {
            lemma_daemon_wire_len(DaemonMsg::SessionCreated { session: new.session });
            lemma_daemon_wire_len(DaemonMsg::AttachOk { pane });
            new_sessions_are_announced(
                self@,
                state@,
                new@,
                pane,
                ConnView { handshaken: true, ..self@ },
            );
        }
        state.register_new_pane(new.token, pane);
        state.record_session(new.session, new.name, new.token);
        self.queue(DaemonToClient::SessionCreated { session: new.session })?;
        self.queue(DaemonToClient::AttachOk { pane })?;
        self.attached_pane = Some(new.token);
        Ok(())
    }

    /// Tells the client that a shell did not take its input.
    pub fn report_write_failure(&mut self, reason: &str) -> (r: Result<(), ProtocolError>)
        requires
            error_fits(write_failed_text(reason@)),
        ensures
            r is Ok,
            final(self)@ == old(self)@.queued(
                DaemonMsg::Error { message: write_failed_text(reason@) },
            ),
            final(self).wf() == old(self).wf(),
    {
        self.reply_error(write_failed(reason))
    }
}

} // verus!
