//! What the daemon knows of its sessions and panes.

use std::collections::HashMap;

use vstd::prelude::*;

use crate::outgoing::{flush, moved, next_flush_step, FlushStep, WriteOutcome};
use crate::protocol::{PaneId, SessionId};

verus! {

broadcast use vstd::std_specs::hash::group_hash_axioms;

/// Tells the sources of events apart.
pub type Token = usize;

/// The socket on which clients arrive.
pub const LISTENER: Token = 0;

/// The waker of the event loop.
pub const WAKER: Token = usize::MAX;

/// What became of an attempt to read.
#[derive(Debug)]
pub enum ReadOutcome {
    /// These bytes came, at least one being asked for. None means that the
    /// peer has closed.
    Data(Vec<u8>),
    /// Nothing is there right now.
    WouldBlock,
    /// The peer is gone, or worse.
    Failed,
}

/// The events to wait for.
#[derive(Debug, PartialEq, Eq, Clone, Copy, Structural)]
pub enum Interest {
    Readable,
    ReadWrite,
}

/// What came of reading from a pane.
#[derive(Debug, PartialEq, Eq, Clone, Copy, Structural)]
pub enum PtyStep {
    /// So many bytes were added.
    Read(usize),
    /// The shell is gone.
    Eof,
    /// The pane cannot be read any more.
    Fail,
}

/// The events to wait for while so many bytes wait for the peer.
pub open spec fn interest_for(waiting: Seq<u8>) -> Interest {
    if waiting.len() == 0 {
        Interest::Readable
    } else {
        Interest::ReadWrite
    }
}

/// A session, which shows one pane.
pub struct Session {
    pub id: SessionId,
    pub name: String,
    pub root_pane: Token,
}

/// A pane: the bytes of its shell that no client has got yet, and the bytes
/// of clients that its shell has not taken yet.
pub struct Pane {
    pub id: PaneId,
    pub buf: Vec<u8>,
    pub write_buf: Vec<u8>,
}

/// The contents of a [`Session`].
pub struct SessionView {
    pub id: SessionId,
    pub name: Seq<char>,
    pub root_pane: Token,
}

/// The contents of a [`Pane`].
pub struct PaneView {
    pub id: PaneId,
    pub buf: Seq<u8>,
    pub write_buf: Seq<u8>,
}

impl View for Session {
    type V = SessionView;

    open spec fn view(&self) -> SessionView {
        SessionView { id: self.id, name: self.name@, root_pane: self.root_pane }
    }
}

impl View for Pane {
    type V = PaneView;

    open spec fn view(&self) -> PaneView {
        PaneView { id: self.id, buf: self.buf@, write_buf: self.write_buf@ }
    }
}

impl Pane {
    /// A pane whose shell has just started.
    pub fn new(id: PaneId) -> (r: Pane)
        ensures
            r@ == (PaneView { id, buf: Seq::empty(), write_buf: Seq::empty() }),
    {
        Pane { id, buf: Vec::with_capacity(4096), write_buf: Vec::with_capacity(4096) }
    }

    /// Takes what was read from the shell.
    pub fn read_pty(&mut self, outcome: &ReadOutcome) -> (r: PtyStep)
        ensures
            match outcome {
                ReadOutcome::Data(data) => {
                    &&& final(self)@ == (PaneView { buf: old(self)@.buf + data@, ..old(self)@ })
                    &&& r == if data@.len() == 0 {
                        PtyStep::Eof
                    } else {
                        PtyStep::Read(data@.len() as usize)
                    }
                },
                ReadOutcome::WouldBlock => final(self)@ == old(self)@ && r == PtyStep::Read(0),
                ReadOutcome::Failed => final(self)@ == old(self)@ && r == PtyStep::Fail,
            },
    {
        match outcome {
            ReadOutcome::Data(data) => {
                if data.is_empty() {
                    assert(self.buf@ + data@ =~= self.buf@);
                    return PtyStep::Eof;
                }
                self.buf.extend_from_slice(data.as_slice());
                assert(self.buf@ =~= old(self)@.buf + data@);
                PtyStep::Read(data.len())
            },
            ReadOutcome::WouldBlock => PtyStep::Read(0),
            ReadOutcome::Failed => PtyStep::Fail,
        }
    }

    /// Takes note of an attempt to write to the shell.
    pub fn flush_write_buf(&mut self, outcome: WriteOutcome) -> (r: FlushStep)
        requires
            moved(outcome) <= old(self)@.write_buf.len(),
        ensures
            final(self)@ == (PaneView {
                write_buf: old(self)@.write_buf.skip(moved(outcome) as int),
                ..old(self)@
            }),
            r == next_flush_step(outcome, final(self)@.write_buf.len()),
    {
        flush(&mut self.write_buf, outcome)
    }

    /// The events to wait for on this pane.
    pub fn interest(&self) -> (r: Interest)
        ensures
            r == interest_for(self@.write_buf),
    {
        if self.write_buf.is_empty() {
            Interest::Readable
        } else {
            Interest::ReadWrite
        }
    }
}

/// All sessions and panes.
pub struct State {
    sessions: HashMap<SessionId, Session>,
    next_session_id: SessionId,
    panes: HashMap<Token, Pane>,
    pane_token_by_id: HashMap<PaneId, Token>,
    next_pane_id: PaneId,
    next_token: Token,
}

/// The contents of a [`State`].
#[verifier::ext_equal]
pub struct StateView {
    pub sessions: Map<SessionId, SessionView>,
    pub next_session_id: SessionId,
    pub panes: Map<Token, PaneView>,
    pub pane_token_by_id: Map<PaneId, Token>,
    pub next_pane_id: PaneId,
    pub next_token: Token,
}

impl View for State {
    type V = StateView;

    closed spec fn view(&self) -> StateView {
        StateView {
            sessions: self.sessions@.map_values(|s: Session| s@),
            next_session_id: self.next_session_id,
            panes: self.panes@.map_values(|p: Pane| p@),
            pane_token_by_id: self.pane_token_by_id@,
            next_pane_id: self.next_pane_id,
            next_token: self.next_token,
        }
    }
}

impl StateView {
    /// What holds of every state that the daemon can be in.
    pub open spec fn wf(self) -> bool {
        &&& 1 <= self.next_token
        &&& forall|t: Token| #[trigger]
            self.panes.contains_key(t) ==> {
                &&& 1 <= t < self.next_token
                &&& self.panes[t].id < self.next_pane_id
                &&& self.pane_token_by_id.contains_key(self.panes[t].id)
                &&& self.pane_token_by_id[self.panes[t].id] == t
                &&& self.panes[t].buf.len() == 0
            }
        &&& forall|id: PaneId| #[trigger]
            self.pane_token_by_id.contains_key(id) ==> {
                let t = self.pane_token_by_id[id];
                &&& id < self.next_pane_id
                &&& 1 <= t < self.next_token
                &&& self.panes.contains_key(t) ==> self.panes[t].id == id
            }
        &&& forall|id: SessionId| #[trigger]
            self.sessions.contains_key(id) ==> {
                &&& id < self.next_session_id
                &&& self.sessions[id].id == id
                &&& 1 <= self.sessions[id].root_pane < self.next_token
            }
        &&& forall|a: SessionId, b: SessionId|
            #![trigger self.sessions.contains_key(a), self.sessions.contains_key(b)]
            self.sessions.contains_key(a) && self.sessions.contains_key(b) && a != b
                ==> self.sessions[a].root_pane != self.sessions[b].root_pane
    }

    /// Whether a token can still be given away.
    pub open spec fn room_for_token(self) -> bool {
        self.next_token < Token::MAX
    }

    /// Whether a session can still be named and its pane get a token.
    pub open spec fn room_for_session(self) -> bool {
        self.next_session_id < SessionId::MAX && self.room_for_token()
    }

    /// Whether a pane can still be named.
    pub open spec fn room_for_pane(self) -> bool {
        self.next_pane_id < PaneId::MAX
    }

    /// The pane behind the name that clients know it by.
    pub open spec fn pane_named(self, id: PaneId) -> Option<PaneView> {
        if self.pane_token_by_id.contains_key(id) && self.panes.contains_key(
            self.pane_token_by_id[id],
        ) {
            Some(self.panes[self.pane_token_by_id[id]])
        } else {
            None
        }
    }

    /// The name of a pane that is gone is zero.
    pub open spec fn pane_id_or_zero(self, token: Token) -> PaneId {
        if self.panes.contains_key(token) {
            self.panes[token].id
        } else {
            0
        }
    }

    /// A token is given away.
    pub open spec fn token_allocated(self) -> StateView {
        StateView { next_token: (self.next_token + 1) as Token, ..self }
    }

    /// The name of a session is given away.
    pub open spec fn session_numbered(self) -> StateView {
        StateView { next_session_id: (self.next_session_id + 1) as SessionId, ..self }
    }

    /// The name of a pane is given away.
    pub open spec fn pane_numbered(self) -> StateView {
        StateView { next_pane_id: (self.next_pane_id + 1) as PaneId, ..self }
    }

    /// A fresh pane is there, and can be found by its name.
    pub open spec fn pane_registered(self, token: Token, id: PaneId) -> StateView {
        StateView {
            panes: self.panes.insert(
                token,
                PaneView { id, buf: Seq::empty(), write_buf: Seq::empty() },
            ),
            pane_token_by_id: self.pane_token_by_id.insert(id, token),
            ..self
        }
    }

    /// A session is there.
    pub open spec fn session_recorded(
        self,
        id: SessionId,
        name: Seq<char>,
        root_pane: Token,
    ) -> StateView {
        StateView {
            sessions: self.sessions.insert(id, SessionView { id, name, root_pane }),
            ..self
        }
    }

    /// A pane has other contents.
    pub open spec fn pane_set(self, token: Token, pane: PaneView) -> StateView {
        StateView { panes: self.panes.insert(token, pane), ..self }
    }

    /// A pane is gone. Its name still leads to its token.
    pub open spec fn pane_removed(self, token: Token) -> StateView {
        StateView { panes: self.panes.remove(token), ..self }
    }

    /// A pane is gone, and its name with it.
    pub open spec fn pane_forgotten(self, token: Token) -> StateView {
        StateView {
            panes: self.panes.remove(token),
            pane_token_by_id: self.pane_token_by_id.remove(self.panes[token].id),
            ..self
        }
    }
}

/// The state of a daemon that has just started.
pub open spec fn initial_state() -> StateView {
    StateView {
        sessions: Map::empty(),
        next_session_id: 0,
        panes: Map::empty(),
        pane_token_by_id: Map::empty(),
        next_pane_id: 0,
        next_token: 1,
    }
}

impl Default for State {
    fn default() -> (r: State)
        ensures
            r@ == initial_state(),
            r@.wf(),
    {
        let r = State {
            sessions: HashMap::new(),
            next_session_id: 0,
            panes: HashMap::new(),
            pane_token_by_id: HashMap::new(),
            next_pane_id: 0,
            next_token: 1,
        };
        assert(r@ =~= initial_state());
        r
    }
}

impl State {
    /// Whether a token can still be given away.
    pub fn room_for_token(&self) -> (r: bool)
        ensures
            r == self@.room_for_token(),
    {
        self.next_token < usize::MAX
    }

    /// Whether a session can still be named and its pane get a token.
    pub fn room_for_session(&self) -> (r: bool)
        ensures
            r == self@.room_for_session(),
    {
        self.next_session_id < u64::MAX && self.room_for_token()
    }

    /// Whether a pane can still be named.
    pub fn room_for_pane(&self) -> (r: bool)
        ensures
            r == self@.room_for_pane(),
    {
        self.next_pane_id < u64::MAX
    }

    /// Gives away a token that was never given away before.
    pub fn alloc_token(&mut self) -> (r: Token)
        requires
            old(self)@.room_for_token(),
        ensures
            r == old(self)@.next_token,
            final(self)@ == old(self)@.token_allocated(),
    {
        let t: usize = self.next_token;
        self.next_token = self.next_token + 1;
        t
    }

    /// Gives away the name of a session.
    pub fn number_session(&mut self) -> (r: SessionId)
        requires
            old(self)@.next_session_id < SessionId::MAX,
        ensures
            r == old(self)@.next_session_id,
            final(self)@ == old(self)@.session_numbered(),
    {
        let id: u64 = self.next_session_id;
        self.next_session_id = self.next_session_id + 1;
        id
    }

    /// Gives away the name of a pane, once its shell has started.
    pub fn number_pane(&mut self) -> (r: PaneId)
        requires
            old(self)@.room_for_pane(),
        ensures
            r == old(self)@.next_pane_id,
            final(self)@ == old(self)@.pane_numbered(),
    {
        let id: u64 = self.next_pane_id;
        self.next_pane_id = self.next_pane_id + 1;
        id
    }

    /// Adds a pane under a token and a name, once its events are awaited.
    pub fn register_new_pane(&mut self, token: Token, id: PaneId)
        ensures
            final(self)@ == old(self)@.pane_registered(token, id),
    {
        self.pane_token_by_id.insert(id, token);
        self.panes.insert(token, Pane::new(id));
        assert(self@ =~= old(self)@.pane_registered(token, id));
    }

    /// Adds a session.
    pub fn record_session(&mut self, id: SessionId, name: String, root_pane: Token)
        ensures
            final(self)@ == old(self)@.session_recorded(id, name@, root_pane),
    {
        self.sessions.insert(id, Session { id, name, root_pane });
        assert(self@ =~= old(self)@.session_recorded(id, name@, root_pane));
    }

    /// The pane that a session shows.
    pub fn root_pane(&self, session: SessionId) -> (r: Option<Token>)
        ensures
            r == if self@.sessions.contains_key(session) {
                Some(self@.sessions[session].root_pane)
            } else {
                None
            },
    {
        match self.sessions.get(&session) {
            Some(s) => Some(s.root_pane),
            None => None,
        }
    }

    /// The token of the pane with a name.
    pub fn pane_token(&self, id: PaneId) -> (r: Option<Token>)
        ensures
            r == if self@.pane_token_by_id.contains_key(id) {
                Some(self@.pane_token_by_id[id])
            } else {
                None
            },
    {
        match self.pane_token_by_id.get(&id) {
            Some(t) => Some(*t),
            None => None,
        }
    }

    /// The pane with a token.
    pub fn pane(&self, token: Token) -> (r: Option<&Pane>)
        ensures
            match r {
                Some(p) => self@.panes.contains_key(token) && p@ == self@.panes[token],
                None => !self@.panes.contains_key(token),
            },
    {
        self.panes.get(&token)
    }

    /// Takes the pane with a token out.
    pub fn take_pane(&mut self, token: Token) -> (r: Option<Pane>)
        ensures
            final(self)@ == old(self)@.pane_removed(token),
            match r {
                Some(p) => old(self)@.panes.contains_key(token) && p@ == old(self)@.panes[token],
                None => !old(self)@.panes.contains_key(token),
            },
    {
        let r = self.panes.remove(&token);
        assert(self@ =~= old(self)@.pane_removed(token));
        r
    }

    /// Puts a pane in under a token.
    pub fn put_pane(&mut self, token: Token, pane: Pane)
        ensures
            final(self)@ == old(self)@.pane_set(token, pane@),
    {
        self.panes.insert(token, pane);
        assert(self@ =~= old(self)@.pane_set(token, pane@));
    }

    /// Forgets the name of a pane.
    pub fn forget_name(&mut self, id: PaneId)
        ensures
            final(self)@ == (StateView {
                pane_token_by_id: old(self)@.pane_token_by_id.remove(id),
                ..old(self)@
            }),
    {
        self.pane_token_by_id.remove(&id);
    }
}

} // verus!
