//! The daemon: its clients, its panes, and what each event does to them.

use std::collections::HashMap;

use vstd::prelude::*;

use crate::conn::{
    can_serve, created, handled, inbound_after, initial_conn, is_arriving, next_read_step,
    read_fits, ClientConn, ConnView, Effect, EffectView, NewSession, NewSessionView, ReadStep,
};
use crate::frame::frame;
use crate::laws::events::output_is_passed_on_whole;
use crate::outgoing::{moved, next_flush_step, FlushStep, WriteOutcome};
use crate::protocol::{
    decode_msg, encode_msg, ClientMsg, ClientToDaemon, DaemonMsg, DaemonToClient, PaneId,
    ProtocolError, SessionId,
};
use crate::replies::{error_fits, write_failed_text};
use crate::state::{
    initial_state, PaneView, PtyStep, ReadOutcome, State, StateView, Token, LISTENER, WAKER,
};
use crate::wire::{client_parsed, daemon_wire, lemma_daemon_wire_len};

verus! {

broadcast use vstd::std_specs::hash::group_hash_axioms;

/// A session whose shell is being started for a client.
pub struct Opening {
    client: Token,
    new: NewSession,
    pane: Option<PaneId>,
}

/// The contents of an [`Opening`].
pub struct OpeningView {
    pub client: Token,
    pub new: NewSessionView,
    pub pane: Option<PaneId>,
}

/// How far the daemon is with starting a shell.
#[derive(Debug, PartialEq, Eq, Clone, Copy, Structural)]
pub enum Stage {
    /// No shell is being started.
    Ready,
    /// A shell is to be started.
    Starting,
    /// A shell has been started, and its events are to be awaited.
    Started,
}

/// What a request asks of the world outside.
#[derive(Debug, PartialEq, Eq, Clone, Copy, Structural)]
pub enum Act {
    /// Nothing.
    Done,
    /// Start a shell.
    OpenPane,
    /// Write to the shell of a pane what waits for it.
    WritePane(Token),
    /// Tell the shell of a pane the size of its window.
    ResizePane { token: Token, cols: u16, rows: u16 },
    /// Give up: a counter or the memory is exhausted.
    Overflow,
}

/// Where an event comes from.
#[derive(Debug, PartialEq, Eq, Clone, Copy, Structural)]
pub enum Source {
    Listener,
    Waker,
    Client,
    Pane,
    Unknown,
}

/// What came of reading from a pane.
#[derive(Debug, PartialEq, Eq)]
pub enum PaneStep {
    /// The pane is still there. Its output waits for these clients.
    Kept(Vec<Token>),
    /// The pane is gone, and these clients with it.
    Closed(Vec<Token>),
}

/// The daemon.
pub struct Daemon {
    state: State,
    clients: HashMap<Token, ClientConn>,
    opening: Option<Opening>,
}

/// The contents of a [`Daemon`].
#[verifier::ext_equal]
pub struct DaemonView {
    pub state: StateView,
    pub clients: Map<Token, ConnView>,
    pub opening: Option<OpeningView>,
}

impl View for Opening {
    type V = OpeningView;

    closed spec fn view(&self) -> OpeningView {
        OpeningView { client: self.client, new: self.new@, pane: self.pane }
    }
}

impl View for Daemon {
    type V = DaemonView;

    closed spec fn view(&self) -> DaemonView {
        DaemonView {
            state: self.state@,
            clients: self.clients@.map_values(|c: ClientConn| c@),
            opening: match self.opening {
                Some(o) => Some(o@),
                None => None,
            },
        }
    }
}

/// What an effect asks of the world outside.
pub open spec fn act_of(effect: EffectView) -> Act {
    match effect {
        EffectView::Done => Act::Done,
        EffectView::OpenPane(new) => Act::OpenPane,
        EffectView::WritePane(token) => Act::WritePane(token),
        EffectView::ResizePane { token, cols, rows } => Act::ResizePane { token, cols, rows },
    }
}

/// The clients that get the output of a pane.
pub open spec fn followers(clients: Map<Token, ConnView>, pane: Token) -> Set<Token> {
    clients.dom().filter(|t: Token| clients[t].attached_pane == Some(pane))
}

/// A message is added to what waits for the clients that follow a pane.
pub open spec fn delivered(clients: Map<Token, ConnView>, pane: Token, msg: DaemonMsg) -> Map<
    Token,
    ConnView,
> {
    Map::new(
        |t: Token| clients.contains_key(t),
        |t: Token|
            if clients[t].attached_pane == Some(pane) {
                clients[t].queued(msg)
            } else {
                clients[t]
            },
    )
}

/// The clients that follow a pane are gone.
pub open spec fn deserted(clients: Map<Token, ConnView>, pane: Token) -> Map<Token, ConnView> {
    clients.remove_keys(followers(clients, pane))
}

impl DaemonView {
    /// A token that belongs to no client, no pane and no session.
    pub open spec fn is_free(self, token: Token) -> bool {
        &&& !self.clients.contains_key(token)
        &&& !self.state.panes.contains_key(token)
        &&& forall|id: PaneId| #[trigger]
            self.state.pane_token_by_id.contains_key(id) ==> self.state.pane_token_by_id[id]
                != token
        &&& forall|id: SessionId| #[trigger]
            self.state.sessions.contains_key(id) ==> self.state.sessions[id].root_pane != token
    }

    /// What holds of a client.
    pub open spec fn client_wf(self, conn: ConnView) -> bool {
        &&& is_arriving(conn.inbound)
        &&& match conn.attached_pane {
            Some(p) => 1 <= p < self.state.next_token && !self.clients.contains_key(p),
            None => true,
        }
    }

    /// What holds of a session that is being created.
    pub open spec fn opening_wf(self, o: OpeningView) -> bool {
        &&& self.clients.contains_key(o.client)
        &&& 1 <= o.new.token < self.state.next_token
        &&& self.is_free(o.new.token)
        &&& o.new.session < self.state.next_session_id
        &&& !self.state.sessions.contains_key(o.new.session)
        &&& match o.pane {
            Some(p) => p < self.state.next_pane_id && !self.state.pane_token_by_id.contains_key(p),
            None => true,
        }
    }

    /// What holds of every daemon: the state is sound, and no token serves two
    /// purposes.
    pub open spec fn wf(self) -> bool {
        &&& self.state.wf()
        &&& forall|t: Token| #[trigger]
            self.clients.contains_key(t) ==> {
                &&& 1 <= t < self.state.next_token
                &&& !self.state.panes.contains_key(t)
                &&& self.client_wf(self.clients[t])
            }
        &&& forall|id: PaneId| #[trigger]
            self.state.pane_token_by_id.contains_key(id) ==> !self.clients.contains_key(
                self.state.pane_token_by_id[id],
            )
        &&& forall|id: SessionId| #[trigger]
            self.state.sessions.contains_key(id) ==> !self.clients.contains_key(
                self.state.sessions[id].root_pane,
            )
        &&& match self.opening {
            Some(o) => self.opening_wf(o),
            None => true,
        }
    }

    /// How far the daemon is with starting a shell.
    pub open spec fn stage(self) -> Stage {
        match self.opening {
            None => Stage::Ready,
            Some(o) => match o.pane {
                None => Stage::Starting,
                Some(p) => Stage::Started,
            },
        }
    }

    /// A client connects.
    pub open spec fn accepted(self) -> DaemonView {
        DaemonView {
            state: self.state.token_allocated(),
            clients: self.clients.insert(self.state.next_token, initial_conn()),
            ..self
        }
    }

    /// A client has other contents.
    pub open spec fn client_set(self, token: Token, conn: ConnView) -> DaemonView {
        DaemonView { clients: self.clients.insert(token, conn), ..self }
    }

    /// A client is gone.
    pub open spec fn client_dropped(self, token: Token) -> DaemonView {
        DaemonView { clients: self.clients.remove(token), ..self }
    }

    /// A request of a client is answered.
    pub open spec fn served(self, token: Token, msg: ClientMsg) -> DaemonView {
        let h = handled(self.clients[token], self.state, msg);
        DaemonView {
            state: h.state,
            clients: self.clients.insert(token, h.conn),
            opening: match h.effect {
                EffectView::OpenPane(new) => Some(OpeningView { client: token, new, pane: None }),
                _ => None,
            },
        }
    }

    /// Whether the counters and the memory suffice for a request of a client.
    pub open spec fn can_serve(self, token: Token, msg: ClientMsg) -> bool {
        can_serve(self.clients[token], self.state, msg)
    }

    /// The payload of a client is taken.
    pub open spec fn answered(self, token: Token, payload: Seq<u8>) -> DaemonView {
        match client_parsed(payload) {
            Ok(msg) => if self.can_serve(token, msg) {
                self.served(token, msg)
            } else {
                self
            },
            Err(text) => self.client_dropped(token),
        }
    }

    /// What the request in a payload asks of the world outside.
    pub open spec fn act_for(self, token: Token, msg: ClientMsg) -> Act {
        if self.can_serve(token, msg) {
            act_of(handled(self.clients[token], self.state, msg).effect)
        } else {
            Act::Overflow
        }
    }

    /// The pane of a new session has a name.
    pub open spec fn named(self) -> DaemonView {
        DaemonView {
            state: self.state.pane_numbered(),
            opening: Some(
                OpeningView { pane: Some(self.state.next_pane_id), ..self.opening->0 },
            ),
            ..self
        }
    }

    /// The pane of a new session is there.
    pub open spec fn opened(self) -> DaemonView {
        let o = self.opening->0;
        let h = created(self.clients[o.client], self.state, o.new, o.pane->0);
        DaemonView {
            state: h.state,
            clients: self.clients.insert(o.client, h.conn),
            opening: None,
        }
    }

    /// The output of a pane goes to the clients that follow it. Nobody keeps
    /// it for later.
    pub open spec fn fanned_out(self, token: Token, data: Seq<u8>) -> DaemonView {
        let pane = self.state.panes[token];
        let output = pane.buf + data;
        if output.len() == 0 {
            self
        } else {
            DaemonView {
                state: self.state.pane_set(token, PaneView { buf: Seq::empty(), ..pane }),
                clients: delivered(
                    self.clients,
                    token,
                    DaemonMsg::PaneData { pane: pane.id, data: output },
                ),
                ..self
            }
        }
    }

    /// A pane is gone, and the clients that followed it with it.
    pub open spec fn shut_down(self, token: Token) -> DaemonView {
        if self.state.panes.contains_key(token) {
            DaemonView {
                state: self.state.pane_forgotten(token),
                clients: deserted(self.clients, token),
                ..self
            }
        } else {
            self
        }
    }

    /// What became of a pane after an attempt to read from it.
    pub open spec fn after_pane_read(self, token: Token, outcome: ReadOutcome) -> DaemonView {
        match outcome {
            ReadOutcome::Data(data) => if data@.len() == 0 {
                self.shut_down(token)
            } else {
                self.fanned_out(token, data@)
            },
            ReadOutcome::WouldBlock => self.fanned_out(token, Seq::empty()),
            ReadOutcome::Failed => self.shut_down(token),
        }
    }
}

/// A daemon that has just started.
pub open spec fn initial_daemon() -> DaemonView {
    DaemonView { state: initial_state(), clients: Map::empty(), opening: None }
}

/// Where an event with a token comes from. A client is looked for before a
/// pane.
pub open spec fn source_of(daemon: DaemonView, token: Token) -> Source {
    if token == LISTENER {
        Source::Listener
    } else if token == WAKER {
        Source::Waker
    } else if daemon.clients.contains_key(token) {
        Source::Client
    } else if daemon.state.panes.contains_key(token) {
        Source::Pane
    } else {
        Source::Unknown
    }
}

impl Daemon {
    pub closed spec fn conns_wf(&self) -> bool {
        forall|t: Token| #[trigger] self.clients@.contains_key(t) ==> self.clients@[t].wf()
    }

    /// What holds of every daemon.
    pub open spec fn wf(&self) -> bool {
        self@.wf() && self.conns_wf()
    }

    /// A daemon that has just started.
    pub fn new() -> (r: Daemon)
        ensures
            r.wf(),
            r@ == initial_daemon(),
    {
        let r = Daemon { state: State::default(), clients: HashMap::new(), opening: None };
        assert(r@ =~= initial_daemon());
        r
    }

    /// How far the daemon is with starting a shell.
    pub fn stage(&self) -> (r: Stage)
        ensures
            r == self@.stage(),
    {
        match &self.opening {
            None => Stage::Ready,
            Some(o) => match o.pane {
                None => Stage::Starting,
                Some(_) => Stage::Started,
            },
        }
    }

    /// The token of the pane that is being opened.
    pub fn opening_token(&self) -> (r: Option<Token>)
        ensures
            r == match self@.opening {
                Some(o) => Some(o.new.token),
                None => None,
            },
    {
        match &self.opening {
            Some(o) => Some(o.new.token),
            None => None,
        }
    }

    /// Where an event with a token comes from.
    pub fn source(&self, token: Token) -> (r: Source)
        ensures
            r == source_of(self@, token),
    {
        if token == LISTENER {
            Source::Listener
        } else if token == WAKER {
            Source::Waker
        } else if self.clients.contains_key(&token) {
            Source::Client
        } else {
            match self.state.pane(token) {
                Some(_) => Source::Pane,
                None => Source::Unknown,
            }
        }
    }

    /// The sessions and panes.
    pub fn state(&self) -> (r: &State)
        ensures
            r@ == self@.state,
    {
        &self.state
    }

    /// The client with a token.
    pub fn client(&self, token: Token) -> (r: Option<&ClientConn>)
        requires
            self.wf(),
        ensures
            match r {
                Some(c) => {
                    &&& self@.clients.contains_key(token)
                    &&& c.wf()
                    &&& c@ == self@.clients[token]
                },
                None => !self@.clients.contains_key(token),
            },
    {
        self.clients.get(&token)
    }

    /// A client connects. It gets a token of its own.
    pub fn accept(&mut self) -> (r: Token)
        requires
            old(self).wf(),
            old(self)@.state.room_for_token(),
        ensures
            final(self).wf(),
            r == old(self)@.state.next_token,
            final(self)@ == old(self)@.accepted(),
    {
        let token: Token = self.state.alloc_token();
        self.clients.insert(token, ClientConn::new());
        assert(self@ =~= old(self)@.accepted());
        token
    }

    /// Takes what was read from a client. A client that has closed or is
    /// broken is dropped.
    pub fn client_read(&mut self, token: Token, outcome: &ReadOutcome) -> (r: ReadStep)
        requires
            old(self).wf(),
            old(self)@.stage() == Stage::Ready,
            old(self)@.clients.contains_key(token),
            read_fits(old(self)@.clients[token].inbound, *outcome),
        ensures
            final(self).wf(),
            r@ == next_read_step(old(self)@.clients[token].inbound, *outcome),
            final(self)@ == if r is Closed || r is Fail {
                old(self)@.client_dropped(token)
            } else {
                old(self)@.client_set(
                    token,
                    ConnView {
                        inbound: inbound_after(old(self)@.clients[token].inbound, *outcome),
                        ..old(self)@.clients[token]
                    },
                )
            },
    {
        match self.clients.remove(&token) {
            Some(mut conn) => {
                let r = conn.on_read(outcome);
                match r {
                    ReadStep::Closed => {
                        assert(self@ =~= old(self)@.client_dropped(token));
                    },
                    ReadStep::Fail => {
                        assert(self@ =~= old(self)@.client_dropped(token));
                    },
                    _ => {
                        proof {
                            conn.lemma_arriving();
                        }
                        self.clients.insert(token, conn);
                        assert(self@ =~= old(self)@.client_set(token, conn@));
                    },
                }
                r
            },
            None => ReadStep::Fail,
        }
    }

    /// Answers the request in a payload of a client. A client whose payload
    /// holds none is dropped. Where a counter or the memory is exhausted,
    /// nothing happens.
    pub fn client_message(&mut self, token: Token, payload: &[u8]) -> (r: Result<
        Act,
        ProtocolError,
    >)
        requires
            old(self).wf(),
            old(self)@.stage() == Stage::Ready,
            old(self)@.clients.contains_key(token),
        ensures
            final(self).wf(),
            final(self)@ == old(self)@.answered(token, payload@),
            match client_parsed(payload@) {
                Ok(msg) => r matches Ok(act) && act == old(self)@.act_for(token, msg),
                Err(text) => r matches Err(ProtocolError::Decode(reason)) && reason@ == text,
            },
    {
        proof {
            answering_keeps_wf(self@, token, payload@);
        }
        let msg: ClientToDaemon = match decode_msg(payload) {
            Ok(msg) => msg,
            Err(e) => {
                self.clients.remove(&token);
                assert(self@ =~= old(self)@.client_dropped(token));
                return Err(e);
            },
        };
        match self.clients.remove(&token) {
            Some(mut conn) => {
                if !conn.can_handle(&self.state, &msg) {
                    self.clients.insert(token, conn);
                    assert(self@ =~= old(self)@);
                    return Ok(Act::Overflow);
                }
                let effect = conn.handle(&mut self.state, msg)?;
                self.clients.insert(token, conn);
                let act = match effect {
                    Effect::Done => Act::Done,
                    Effect::OpenPane(new) => {
                        self.opening = Some(Opening { client: token, new, pane: None });
                        Act::OpenPane
                    },
                    Effect::WritePane(pane) => Act::WritePane(pane),
                    Effect::ResizePane { token: pane, cols, rows } => Act::ResizePane {
                        token: pane,
                        cols,
                        rows,
                    },
                };
                assert(self@ =~= old(self)@.answered(token, payload@));
                Ok(act)
            },
            None => Ok(Act::Overflow),
        }
    }

    /// The shell of a new pane has started: the pane gets its name.
    pub fn pane_started(&mut self) -> (r: PaneId)
        requires
            old(self).wf(),
            old(self)@.stage() == Stage::Starting,
            old(self)@.state.room_for_pane(),
        ensures
            final(self).wf(),
            r == old(self)@.state.next_pane_id,
            final(self)@ == old(self)@.named(),
    {
        let id: PaneId = self.state.number_pane();
        match self.opening.take() {
            Some(o) => {
                self.opening = Some(Opening { client: o.client, new: o.new, pane: Some(id) });
            },
            None => {},
        }
        id
    }

    /// The events of a new pane are awaited: the pane and its session are
    /// there, and the client that asked for them is told.
    pub fn pane_ready(&mut self) -> (r: Result<(), ProtocolError>)
        requires
            old(self).wf(),
            old(self)@.stage() == Stage::Started,
        ensures
            final(self).wf(),
            r is Ok,
            final(self)@ == old(self)@.opened(),
    {
        proof {
            opening_keeps_wf(self@);
        }
        match self.opening.take() {
            Some(o) => match (self.clients.remove(&o.client), o.pane) {
                (Some(mut conn), Some(id)) => {
                    conn.finish_create(&mut self.state, o.new, id)?;
                    self.clients.insert(o.client, conn);
                    assert(self@ =~= old(self)@.opened());
                    Ok(())
                },
                _ => Ok(()),
            },
            None => Ok(()),
        }
    }

    /// The shell of a new pane did not start, or its events cannot be awaited:
    /// the client that asked for it is dropped.
    pub fn opening_failed(&mut self)
        requires
            old(self).wf(),
            old(self)@.stage() != Stage::Ready,
        ensures
            final(self).wf(),
            final(self)@ == (DaemonView {
                clients: old(self)@.clients.remove(old(self)@.opening->0.client),
                opening: None,
                ..old(self)@
            }),
    {
        match self.opening.take() {
            Some(o) => {
                self.clients.remove(&o.client);
                assert(self@.clients =~= old(self)@.clients.remove(o.client));
            },
            None => {},
        }
    }

    /// Takes note of an attempt to write to a client. A client that is broken
    /// is dropped.
    pub fn client_flush(&mut self, token: Token, outcome: WriteOutcome) -> (r: FlushStep)
        requires
            old(self).wf(),
            old(self)@.stage() == Stage::Ready,
            old(self)@.clients.contains_key(token),
            moved(outcome) <= old(self)@.clients[token].write_buf.len(),
        ensures
            final(self).wf(),
            ({
                let conn = old(self)@.clients[token];
                let left = conn.write_buf.skip(moved(outcome) as int);
                &&& r == next_flush_step(outcome, left.len())
                &&& final(self)@ == if r == FlushStep::Fail {
                    old(self)@.client_dropped(token)
                } else {
                    old(self)@.client_set(token, ConnView { write_buf: left, ..conn })
                }
            }),
    {
        match self.clients.remove(&token) {
            Some(mut conn) => {
                let r = conn.flush_write_buf(outcome);
                if r == FlushStep::Fail {
                    assert(self@ =~= old(self)@.client_dropped(token));
                } else {
                    self.clients.insert(token, conn);
                    assert(self@ =~= old(self)@.client_set(token, conn@));
                }
                r
            },
            None => FlushStep::Fail,
        }
    }

    /// Drops a client whose events cannot be awaited any more.
    pub fn drop_client(&mut self, token: Token)
        requires
            old(self).wf(),
            old(self)@.stage() == Stage::Ready,
        ensures
            final(self).wf(),
            final(self)@ == old(self)@.client_dropped(token),
    {
        self.clients.remove(&token);
        assert(self@ =~= old(self)@.client_dropped(token));
    }

    /// Tells a client that a shell did not take its input.
    pub fn client_write_failed(&mut self, token: Token, reason: &str) -> (r: Result<
        (),
        ProtocolError,
    >)
        requires
            old(self).wf(),
            old(self)@.clients.contains_key(token),
            error_fits(write_failed_text(reason@)),
        ensures
            final(self).wf(),
            r is Ok,
            final(self)@ == old(self)@.client_set(
                token,
                old(self)@.clients[token].queued(
                    DaemonMsg::Error { message: write_failed_text(reason@) },
                ),
            ),
    {
        match self.clients.remove(&token) {
            Some(mut conn) => {
                conn.report_write_failure(reason)?;
                self.clients.insert(token, conn);
                assert(self@ =~= old(self)@.client_set(token, conn@));
                Ok(())
            },
            None => Ok(()),
        }
    }

    /// Takes note of an attempt to write to the shell of a pane.
    pub fn pane_flush(&mut self, token: Token, outcome: WriteOutcome) -> (r: FlushStep)
        requires
            old(self).wf(),
            old(self)@.state.panes.contains_key(token),
            moved(outcome) <= old(self)@.state.panes[token].write_buf.len(),
        ensures
            final(self).wf(),
            ({
                let pane = old(self)@.state.panes[token];
                let left = pane.write_buf.skip(moved(outcome) as int);
                &&& r == next_flush_step(outcome, left.len())
                &&& final(self)@ == (DaemonView {
                    state: old(self)@.state.pane_set(token, PaneView { write_buf: left, ..pane }),
                    ..old(self)@
                })
            }),
    {
        match self.state.take_pane(token) {
            Some(mut pane) => {
                let r = pane.flush_write_buf(outcome);
                self.state.put_pane(token, pane);
                assert(self@.state =~= old(self)@.state.pane_set(token, pane@));
                r
            },
            None => FlushStep::Fail,
        }
    }

    /// Drops a pane that cannot be written to or whose events cannot be
    /// awaited any more. Its clients stay.
    pub fn drop_pane(&mut self, token: Token)
        requires
            old(self).wf(),
        ensures
            final(self).wf(),
            final(self)@ == (DaemonView {
                state: old(self)@.state.pane_removed(token),
                ..old(self)@
            }),
    {
        self.state.take_pane(token);
    }

    /// The clients that follow a pane.
    fn followers_of(&self, pane: Token) -> (r: Vec<Token>)
        ensures
            r@.no_duplicates(),
            r@.to_set() == followers(self@.clients, pane),
    {
        let mut all: Vec<Token> = Vec::new();
        for token in it: self.clients.keys()
            invariant
                it.seq().no_duplicates(),
                it.seq().unref().to_set() == self.clients@.dom(),
                all@.len() == it.index(),
                forall|i: int| 0 <= i < it.index() ==> all@[i] == *#[trigger] it.seq()[i],
                it.index() == it.seq().len() ==> all@.no_duplicates() && all@.to_set()
                    == self.clients@.dom(),
        {
            all.push(*token);
            assert(all@.len() == it.seq().len() ==> all@ =~= it.seq().unref());
        }
        let mut found: Vec<Token> = Vec::new();
        let mut n: usize = 0;
        while n < all.len()
            invariant
                n <= all@.len(),
                all@.no_duplicates(),
                all@.to_set() == self.clients@.dom(),
                found@.no_duplicates(),
                forall|k: int|
                    #![trigger found@[k]]
                    0 <= k < found@.len() ==> self@.clients[found@[k]].attached_pane == Some(pane)
                        && exists|i: int| 0 <= i < n && all@[i] == found@[k],
                forall|i: int|
                    0 <= i < n && self@.clients[#[trigger] all@[i]].attached_pane == Some(pane)
                        ==> found@.contains(all@[i]),
            decreases all@.len() - n,
        {
            let ghost before = found@;
            let token: Token = all[n];
            assert(all@.to_set().contains(token));
            let attached = match self.clients.get(&token) {
                Some(conn) => conn.attached_pane(),
                None => None,
            };
            if attached == Some(pane) {
                found.push(token);
                assert(found@[before.len() as int] == token);
                assert(forall|t: Token| before.contains(t) ==> #[trigger] found@.contains(t)) by {
                    assert forall|t: Token| before.contains(t) implies #[trigger] found@.contains(
                        t,
                    ) by {
                        let k = before.index_of(t);
                        assert(found@[k] == t);
                    }
                }
            }
            n = n + 1;
        }
        assert forall|t: Token| followers(self@.clients, pane).contains(t) implies #[trigger] found@.contains(
            t,
        ) by {
            assert(all@.to_set().contains(t));
            let i = all@.index_of(t);
            assert(all@[i] == t);
        }
        assert forall|t: Token| #[trigger] found@.contains(t) implies followers(
            self@.clients,
            pane,
        ).contains(t) by {
            let k = found@.index_of(t);
            assert(found@[k] == t);
            let i = choose|i: int| 0 <= i < n && all@[i] == found@[k];
            assert(all@.to_set().contains(all@[i]));
        }
        assert(found@.to_set() =~= followers(self@.clients, pane));
        found
    }

    /// Adds a message to what waits for the clients that follow a pane.
    fn deliver(&mut self, pane: Token, msg: &DaemonToClient) -> (r: Result<
        Vec<Token>,
        ProtocolError,
    >)
        requires
            old(self).conns_wf(),
            daemon_wire(msg@).len() <= isize::MAX,
        ensures
            r is Ok,
            final(self).conns_wf(),
            r->Ok_0@.no_duplicates(),
            r->Ok_0@.to_set() == followers(old(self)@.clients, pane),
            final(self)@ == (DaemonView {
                clients: delivered(old(self)@.clients, pane, msg@),
                ..old(self)@
            }),
    {
        let targets: Vec<Token> = self.followers_of(pane);
        if targets.is_empty() {
            assert forall|t: Token| #[trigger] self@.clients.contains_key(t) implies self@.clients[t].attached_pane
                != Some(pane) by {
                if self@.clients[t].attached_pane == Some(pane) {
                    assert(followers(self@.clients, pane).contains(t));
                    assert(targets@.contains(t));
                }
            }
            assert(self@.clients =~= delivered(self@.clients, pane, msg@));
            return Ok(targets);
        }
        let encoded: Vec<u8> = encode_msg(msg)?;
        let ghost before = self@.clients;
        let mut n: usize = 0;
        while n < targets.len()
            invariant
                n <= targets@.len(),
                targets@.no_duplicates(),
                targets@.to_set() == followers(before, pane),
                encoded@ == daemon_wire(msg@),
                self.conns_wf(),
                self@.state == old(self)@.state,
                self@.opening == old(self)@.opening,
                self@.clients.dom() == before.dom(),
                forall|i: int|
                    0 <= i < n ==> self@.clients[#[trigger] targets@[i]]
                        == before[targets@[i]].queued(msg@),
                forall|t: Token| #[trigger]
                    before.contains_key(t) && !targets@.take(n as int).contains(t)
                        ==> self@.clients[t] == before[t],
            decreases targets@.len() - n,
        {
            let token: Token = targets[n];
            let ghost now = self@.clients;
            assert(targets@.to_set().contains(token));
            assert(!targets@.take(n as int).contains(token));
            match self.clients.remove(&token) {
                Some(mut conn) => {
                    conn.queue_encoded(encoded.as_slice());
                    self.clients.insert(token, conn);
                    assert(self@.clients =~= now.insert(token, conn@));
                },
                None => {},
            }
            assert forall|t: Token| #[trigger]
                before.contains_key(t) && !targets@.take(n + 1).contains(t) implies self@.clients[t]
                == before[t] by {
                assert(targets@.take(n + 1)[n as int] == token);
                assert forall|u: Token| targets@.take(n as int).contains(u) implies targets@.take(
                    n + 1,
                ).contains(u) by {
                    let k = targets@.take(n as int).index_of(u);
                    assert(targets@.take(n + 1)[k] == u);
                }
            }
            n = n + 1;
        }
        assert forall|t: Token| #[trigger] before.contains_key(t) implies self@.clients[t]
            == delivered(before, pane, msg@)[t] by {
            if before[t].attached_pane == Some(pane) {
                assert(followers(before, pane).contains(t));
                assert(targets@.to_set().contains(t));
                let i = targets@.index_of(t);
                assert(targets@[i] == t);
            } else {
                assert(targets@.take(n as int) =~= targets@);
                if targets@.contains(t) {
                    assert(targets@.to_set().contains(t));
                }
            }
        }
        assert(self@.clients =~= delivered(before, pane, msg@));
        Ok(targets)
    }

    /// Tears a pane down, and drops the clients that follow it, so that they
    /// notice. Returns those clients.
    pub fn handle_pane_shutdown(&mut self, token: Token) -> (r: Vec<Token>)
        requires
            old(self).wf(),
            old(self)@.stage() == Stage::Ready,
        ensures
            final(self).wf(),
            final(self)@ == old(self)@.shut_down(token),
            r@.no_duplicates(),
            r@.to_set() == if old(self)@.state.panes.contains_key(token) {
                followers(old(self)@.clients, token)
            } else {
                Set::empty()
            },
    {
        proof {
            shutdown_keeps_wf(self@, token);
        }
        match self.state.take_pane(token) {
            Some(pane) => {
                let attached: Vec<Token> = self.followers_of(token);
                let ghost before = self@.clients;
                let mut n: usize = 0;
                while n < attached.len()
                    invariant
                        n <= attached@.len(),
                        self.conns_wf(),
                        self@.state == old(self)@.state.pane_removed(token),
                        self@.opening == old(self)@.opening,
                        self@.clients =~= before.remove_keys(attached@.take(n as int).to_set()),
                    decreases attached@.len() - n,
                {
                    let client: Token = attached[n];
                    let ghost now = self@.clients;
                    self.clients.remove(&client);
                    assert(self@.clients =~= now.remove(client));
                    assert(attached@.take(n + 1) =~= attached@.take(n as int).push(client));
                    assert(attached@.take(n + 1).to_set() =~= attached@.take(
                        n as int,
                    ).to_set().insert(client)) by {
                        broadcast use vstd::seq_lib::group_seq_properties;

                    }
                    n = n + 1;
                }
                assert(attached@.take(n as int) =~= attached@);
                self.state.forget_name(pane.id);
                assert(self@ =~= old(self)@.shut_down(token));
                attached
            },
            None => {
                let none: Vec<Token> = Vec::new();
                assert(none@.to_set() =~= Set::<Token>::empty());
                assert(self@ =~= old(self)@);
                none
            },
        }
    }

    /// Takes what was read from the shell of a pane. Output goes to the
    /// clients that follow the pane; a pane whose shell is gone is torn down.
    pub fn pane_read(&mut self, token: Token, outcome: &ReadOutcome) -> (r: Result<
        PaneStep,
        ProtocolError,
    >)
        requires
            old(self).wf(),
            old(self)@.stage() == Stage::Ready,
            old(self)@.state.panes.contains_key(token),
            outcome matches ReadOutcome::Data(data) ==> data@.len() + 20 <= isize::MAX,
        ensures
            final(self).wf(),
            r is Ok,
            final(self)@ == old(self)@.after_pane_read(token, *outcome),
            outcome matches ReadOutcome::Data(read) ==> read@.len() > 0 ==> (forall|c: Token|
                #[trigger]
                old(self)@.clients.contains_key(c) ==> final(self)@.clients[c].write_buf == if old(
                    self,
                )@.clients[c].attached_pane == Some(token) {
                    old(self)@.clients[c].write_buf + frame(
                        daemon_wire(
                            DaemonMsg::PaneData {
                                pane: old(self)@.state.panes[token].id,
                                data: read@,
                            },
                        ),
                    )
                } else {
                    old(self)@.clients[c].write_buf
                }),
            match r->Ok_0 {
                PaneStep::Kept(tokens) => {
                    &&& final(self)@.state.panes.contains_key(token)
                    &&& tokens@.no_duplicates()
                    &&& tokens@.to_set() == match outcome {
                        ReadOutcome::Data(_) => followers(old(self)@.clients, token),
                        _ => Set::empty(),
                    }
                },
                PaneStep::Closed(tokens) => {
                    &&& !final(self)@.state.panes.contains_key(token)
                    &&& tokens@.no_duplicates()
                    &&& tokens@.to_set() == followers(old(self)@.clients, token)
                },
            },
    {
        proof {
            if let ReadOutcome::Data(read) = outcome {
                if read@.len() > 0 {
                    assert forall|c: Token| #[trigger]
                        self@.clients.contains_key(c) implies self@.after_pane_read(
                        token,
                        *outcome,
                    ).clients[c].write_buf == if self@.clients[c].attached_pane == Some(token) {
                        self@.clients[c].write_buf + frame(
                            daemon_wire(
                                DaemonMsg::PaneData {
                                    pane: self@.state.panes[token].id,
                                    data: read@,
                                },
                            ),
                        )
                    } else {
                        self@.clients[c].write_buf
                    } by {
                        output_is_passed_on_whole(self@, token, *read, c);
                    }
                }
            }
        }
        let step = match self.state.take_pane(token) {
            Some(mut pane) => {
                let step = pane.read_pty(outcome);
                match step {
                    PtyStep::Read(_) => {
                        if !pane.buf.is_empty() {
                            let mut data: Vec<u8> = Vec::new();
                            std::mem::swap(&mut data, &mut pane.buf);
                            let msg = DaemonToClient::PaneData { pane: pane.id, data };
                            proof {
                                lemma_daemon_wire_len(msg@);
                                output_keeps_wf(old(self)@, token, msg->data@);
                            }
                            self.state.put_pane(token, pane);
                            let targets: Vec<Token> = self.deliver(token, &msg)?;
                            assert(self@ =~= old(self)@.after_pane_read(token, *outcome));
                            return Ok(PaneStep::Kept(targets));
                        }
                    },
                    _ => {},
                }
                self.state.put_pane(token, pane);
                assert(self@ =~= old(self)@);
                step
            },
            None => PtyStep::Fail,
        };
        match step {
            PtyStep::Read(_) => {
                let none: Vec<Token> = Vec::new();
                assert(none@.to_set() =~= Set::<Token>::empty());
                Ok(PaneStep::Kept(none))
            },
            _ => Ok(PaneStep::Closed(self.handle_pane_shutdown(token))),
        }
    }
}

/// The output of a pane keeps the daemon sound.
pub proof fn output_keeps_wf(daemon: DaemonView, token: Token, data: Seq<u8>)
    requires
        daemon.wf(),
        daemon.state.panes.contains_key(token),
    ensures
        daemon.fanned_out(token, data).wf(),
{
}

/// The end of a pane keeps the daemon sound.
pub proof fn shutdown_keeps_wf(daemon: DaemonView, token: Token)
    requires
        daemon.wf(),
        daemon.stage() == Stage::Ready,
    ensures
        daemon.shut_down(token).wf(),
{
}


/// A new session keeps the daemon sound.
pub proof fn opening_keeps_wf(daemon: DaemonView)
    requires
        daemon.wf(),
        daemon.stage() == Stage::Started,
    ensures
        daemon.opened().wf(),
{
}


/// A request keeps the daemon sound, whatever it asks for.
pub proof fn answering_keeps_wf(daemon: DaemonView, token: Token, payload: Seq<u8>)
    requires
        daemon.wf(),
        daemon.stage() == Stage::Ready,
        daemon.clients.contains_key(token),
    ensures
        daemon.answered(token, payload).wf(),
{
}

} // verus!
