//! One event of the daemon, from its arrival until the daemon waits again.
//!
//! A [`Turn`] says what to do next, and takes what came of it. Reading comes
//! before writing, and waiting comes last; whoever is gone is left alone.

use vstd::prelude::*;

use crate::conn::{
    inbound_after, next_read_step, read_fits, wanted_after, ConnView, ReadStep, ReadStepView,
};
use crate::daemon::{followers, source_of, Act, Daemon, DaemonView, PaneStep, Source, Stage};
use crate::outgoing::{moved, next_flush_step, FlushStep, WriteOutcome};
use crate::protocol::{DaemonMsg, ProtocolError};
use crate::replies::{error_fits, write_failed_fits, write_failed_text};
use crate::state::{interest_for, Interest, PaneView, ReadOutcome, Token};
use crate::wire::client_parsed;

verus! {

/// What to do next.
#[derive(Debug, PartialEq, Eq, Clone, Copy, Structural)]
pub enum Task {
    /// Take in a client that calls.
    Accept,
    /// Wait for a new client to be readable.
    AwaitNewClient(Token),
    /// Read from a client at most so many bytes.
    ReadClient { token: Token, wanted: usize },
    /// Start a shell on a terminal of its own.
    OpenShell,
    /// Wait for a new pane to be readable.
    AwaitNewPane(Token),
    /// Write to the shell of a pane what waits for it.
    WritePane(Token),
    /// Wait for a pane.
    AwaitPane(Token, Interest),
    /// Tell the shell of a pane the size of its window.
    Resize { token: Token, cols: u16, rows: u16 },
    /// Write to a client what waits for it.
    WriteClient(Token),
    /// Wait for a client.
    AwaitClient(Token, Interest),
    /// Read from the shell of a pane.
    ReadPane(Token),
    /// Release those who are gone, where `deregister` holds after their events
    /// were called off. Nothing else is left to do.
    Finish { deregister: bool },
    /// The daemon cannot go on: an event cannot be awaited.
    Crash,
    /// The daemon cannot go on: a counter or the memory is exhausted.
    Overflow,
}

/// What came of it.
#[derive(Debug)]
pub enum Answer {
    /// It is done.
    Done,
    /// It could not be done.
    Failed,
    /// An attempt to read.
    Read(ReadOutcome),
    /// An attempt to write, and the reason where it failed.
    Wrote(WriteOutcome, String),
}

/// How far an event is handled.
pub enum Phase {
    Accept,
    AwaitNewClient(Token),
    ReadClient,
    OpenShell,
    AwaitNewPane,
    WriteFor(Token),
    AwaitFor(Token),
    Resize { token: Token, cols: u16, rows: u16 },
    WriteClient,
    AwaitClient,
    ReadPane,
    AwaitFollowers(Vec<Token>),
    WritePane,
    AwaitPane,
    Finish { gone: Vec<Token>, deregister: bool, error: Option<ProtocolError> },
    Crash,
    Overflow,
}

/// The contents of a [`Phase`].
pub enum PhaseView {
    Accept,
    AwaitNewClient(Token),
    ReadClient,
    OpenShell,
    AwaitNewPane,
    /// The input of the client goes to this pane.
    WriteFor(Token),
    /// The pane that got the input of the client is awaited.
    AwaitFor(Token),
    Resize { token: Token, cols: u16, rows: u16 },
    WriteClient,
    AwaitClient,
    ReadPane,
    /// These clients are to be awaited, since output waits for them. The last
    /// one is next.
    AwaitFollowers(Seq<Token>),
    WritePane,
    AwaitPane,
    /// Those who are gone are to be released. The error says why the payload of
    /// a client was no request.
    Finish { gone: Seq<Token>, deregister: bool, error: Option<Seq<char>> },
    Crash,
    Overflow,
}

impl View for Phase {
    type V = PhaseView;

    open spec fn view(&self) -> PhaseView {
        match self {
            Phase::Accept => PhaseView::Accept,
            Phase::AwaitNewClient(token) => PhaseView::AwaitNewClient(*token),
            Phase::ReadClient => PhaseView::ReadClient,
            Phase::OpenShell => PhaseView::OpenShell,
            Phase::AwaitNewPane => PhaseView::AwaitNewPane,
            Phase::WriteFor(pane) => PhaseView::WriteFor(*pane),
            Phase::AwaitFor(pane) => PhaseView::AwaitFor(*pane),
            Phase::Resize { token, cols, rows } => PhaseView::Resize {
                token: *token,
                cols: *cols,
                rows: *rows,
            },
            Phase::WriteClient => PhaseView::WriteClient,
            Phase::AwaitClient => PhaseView::AwaitClient,
            Phase::ReadPane => PhaseView::ReadPane,
            Phase::AwaitFollowers(list) => PhaseView::AwaitFollowers(list@),
            Phase::WritePane => PhaseView::WritePane,
            Phase::AwaitPane => PhaseView::AwaitPane,
            Phase::Finish { gone, deregister, error } => PhaseView::Finish {
                gone: gone@,
                deregister: *deregister,
                error: match error {
                    Some(e) => Some(e.text()),
                    None => None,
                },
            },
            Phase::Crash => PhaseView::Crash,
            Phase::Overflow => PhaseView::Overflow,
        }
    }
}

/// The handling of one event.
pub struct Turn {
    token: Token,
    writable: bool,
    phase: Phase,
}

/// The contents of a [`Turn`].
pub struct TurnView {
    /// Where the event comes from.
    pub token: Token,
    /// Whether it says that the source can be written to.
    pub writable: bool,
    pub phase: PhaseView,
}

impl View for Turn {
    type V = TurnView;

    closed spec fn view(&self) -> TurnView {
        TurnView { token: self.token, writable: self.writable, phase: self.phase@ }
    }
}

/// Nothing is left to do and nobody is gone.
pub open spec fn finished() -> PhaseView {
    PhaseView::Finish { gone: Seq::empty(), deregister: false, error: None }
}

/// Nothing is left to do since the source of the event is gone.
pub open spec fn lost(token: Token, deregister: bool) -> PhaseView {
    PhaseView::Finish { gone: seq![token], deregister, error: None }
}

/// Nothing is left to do since the client is gone, whose payload was no
/// request.
pub open spec fn refused(token: Token, reason: Seq<char>) -> PhaseView {
    PhaseView::Finish {
        gone: seq![token],
        deregister: false,
        error: Some("decode error: "@ + reason),
    }
}

/// How it goes on with a client from which all has been read.
pub open spec fn client_read_up(daemon: DaemonView, token: Token, writable: bool) -> PhaseView {
    if writable && daemon.clients[token].write_buf.len() > 0 {
        PhaseView::WriteClient
    } else {
        PhaseView::AwaitClient
    }
}

/// How it goes on with a pane from which all has been read.
pub open spec fn pane_read_up(daemon: DaemonView, token: Token, writable: bool) -> PhaseView {
    if writable && daemon.state.panes[token].write_buf.len() > 0 {
        PhaseView::WritePane
    } else {
        PhaseView::AwaitPane
    }
}

/// How it goes on when the output of a pane waits for some clients.
pub open spec fn fan_out(
    daemon: DaemonView,
    token: Token,
    writable: bool,
    list: Seq<Token>,
) -> PhaseView {
    if list.len() > 0 {
        PhaseView::AwaitFollowers(list)
    } else {
        pane_read_up(daemon, token, writable)
    }
}

/// How the handling of an event starts.
pub open spec fn first_phase(
    daemon: DaemonView,
    token: Token,
    readable: bool,
    writable: bool,
) -> PhaseView {
    match source_of(daemon, token) {
        Source::Listener => PhaseView::Accept,
        Source::Waker => finished(),
        Source::Client => if readable {
            PhaseView::ReadClient
        } else {
            client_read_up(daemon, token, writable)
        },
        Source::Pane => if readable {
            PhaseView::ReadPane
        } else {
            pane_read_up(daemon, token, writable)
        },
        Source::Unknown => finished(),
    }
}

impl TurnView {
    /// What holds of a daemon while an event is handled.
    pub open spec fn wf(self, daemon: DaemonView) -> bool {
        let is_client = daemon.clients.contains_key(self.token);
        let is_pane = daemon.state.panes.contains_key(self.token);
        let is_ready = daemon.stage() == Stage::Ready;
        match self.phase {
            PhaseView::Accept => is_ready,
            PhaseView::AwaitNewClient(token) => is_ready && daemon.clients.contains_key(token),
            PhaseView::ReadClient => is_ready && is_client,
            PhaseView::OpenShell => daemon.stage() == Stage::Starting && daemon.opening->0.client
                == self.token,
            PhaseView::AwaitNewPane => daemon.stage() == Stage::Started && daemon.opening->0.client
                == self.token,
            PhaseView::WriteFor(pane) => {
                &&& is_ready
                &&& is_client
                &&& daemon.state.panes.contains_key(pane)
                &&& daemon.state.panes[pane].write_buf.len() > 0
            },
            PhaseView::AwaitFor(pane) => is_ready && is_client && daemon.state.panes.contains_key(
                pane,
            ),
            PhaseView::Resize { token, cols, rows } => is_ready && is_client
                && daemon.state.panes.contains_key(token),
            PhaseView::WriteClient => is_ready && is_client && daemon.clients[self.token].write_buf.len()
                > 0,
            PhaseView::AwaitClient => is_ready && is_client,
            PhaseView::ReadPane => is_ready && is_pane,
            PhaseView::AwaitFollowers(list) => {
                &&& is_ready
                &&& is_pane
                &&& list.len() > 0
                &&& forall|i: int|
                    0 <= i < list.len() ==> daemon.clients.contains_key(#[trigger] list[i])
            },
            PhaseView::WritePane => is_ready && is_pane
                && daemon.state.panes[self.token].write_buf.len() > 0,
            PhaseView::AwaitPane => is_ready && is_pane,
            PhaseView::Finish { gone, deregister, error } => is_ready && forall|i: int|
                0 <= i < gone.len() ==> !daemon.clients.contains_key(#[trigger] gone[i])
                    && !daemon.state.panes.contains_key(gone[i]),
            PhaseView::Crash => true,
            PhaseView::Overflow => true,
        }
    }

    /// What to do next.
    pub open spec fn task(self, daemon: DaemonView) -> Task {
        match self.phase {
            PhaseView::Accept => Task::Accept,
            PhaseView::AwaitNewClient(token) => Task::AwaitNewClient(token),
            PhaseView::ReadClient => Task::ReadClient {
                token: self.token,
                wanted: wanted_after(daemon.clients[self.token].inbound) as usize,
            },
            PhaseView::OpenShell => Task::OpenShell,
            PhaseView::AwaitNewPane => Task::AwaitNewPane(daemon.opening->0.new.token),
            PhaseView::WriteFor(pane) => Task::WritePane(pane),
            PhaseView::AwaitFor(pane) => Task::AwaitPane(
                pane,
                interest_for(daemon.state.panes[pane].write_buf),
            ),
            PhaseView::Resize { token, cols, rows } => Task::Resize { token, cols, rows },
            PhaseView::WriteClient => Task::WriteClient(self.token),
            PhaseView::AwaitClient => Task::AwaitClient(
                self.token,
                interest_for(daemon.clients[self.token].write_buf),
            ),
            PhaseView::ReadPane => Task::ReadPane(self.token),
            PhaseView::AwaitFollowers(list) => Task::AwaitClient(list.last(), Interest::ReadWrite),
            PhaseView::WritePane => Task::WritePane(self.token),
            PhaseView::AwaitPane => Task::AwaitPane(
                self.token,
                interest_for(daemon.state.panes[self.token].write_buf),
            ),
            PhaseView::Finish { gone, deregister, error } => Task::Finish { deregister },
            PhaseView::Crash => Task::Crash,
            PhaseView::Overflow => Task::Overflow,
        }
    }

    /// Whether an answer is one to what was to be done.
    pub open spec fn expects(self, daemon: DaemonView, answer: Answer) -> bool {
        match self.phase {
            PhaseView::ReadClient => answer matches Answer::Read(outcome) && read_fits(
                daemon.clients[self.token].inbound,
                outcome,
            ),
            PhaseView::ReadPane => answer matches Answer::Read(outcome) && (outcome matches
                ReadOutcome::Data(data) ==> data@.len() + 20 <= isize::MAX),
            PhaseView::WriteFor(pane) => answer matches Answer::Wrote(outcome, reason) && moved(
                outcome,
            ) <= daemon.state.panes[pane].write_buf.len(),
            PhaseView::WritePane => answer matches Answer::Wrote(outcome, reason) && moved(outcome)
                <= daemon.state.panes[self.token].write_buf.len(),
            PhaseView::WriteClient => answer matches Answer::Wrote(outcome, reason) && moved(outcome)
                <= daemon.clients[self.token].write_buf.len(),
            PhaseView::Finish { gone, deregister, error } => false,
            PhaseView::Crash => false,
            PhaseView::Overflow => false,
            _ => answer is Done || answer is Failed,
        }
    }
}

/// How it goes on, and with which daemon.
pub struct Step {
    pub phase: PhaseView,
    pub daemon: DaemonView,
}

/// A client has sent a payload.
pub open spec fn asked(daemon: DaemonView, token: Token, payload: Seq<u8>) -> Step {
    let after = daemon.answered(token, payload);
    Step {
        daemon: after,
        phase: match client_parsed(payload) {
            Err(text) => refused(token, text),
            Ok(msg) => match daemon.act_for(token, msg) {
                Act::Done => PhaseView::ReadClient,
                Act::OpenPane => PhaseView::OpenShell,
                Act::WritePane(pane) => if after.state.panes[pane].write_buf.len() > 0 {
                    PhaseView::WriteFor(pane)
                } else {
                    PhaseView::AwaitFor(pane)
                },
                Act::ResizePane { token, cols, rows } => PhaseView::Resize { token, cols, rows },
                Act::Overflow => PhaseView::Overflow,
            },
        },
    }
}

/// A client was read from.
pub open spec fn heard(
    daemon: DaemonView,
    token: Token,
    writable: bool,
    outcome: ReadOutcome,
) -> Step {
    let conn = daemon.clients[token];
    let inbound = inbound_after(conn.inbound, outcome);
    let after = daemon.client_set(token, ConnView { inbound, ..conn });
    match next_read_step(conn.inbound, outcome) {
        ReadStepView::More => Step { phase: PhaseView::ReadClient, daemon: after },
        ReadStepView::Message(payload) => asked(after, token, payload),
        ReadStepView::Wait => Step {
            phase: client_read_up(after, token, writable),
            daemon: after,
        },
        ReadStepView::Closed => Step {
            phase: lost(token, false),
            daemon: daemon.client_dropped(token),
        },
        ReadStepView::Fail => Step {
            phase: lost(token, false),
            daemon: daemon.client_dropped(token),
        },
    }
}

/// A client was written to.
pub open spec fn told(daemon: DaemonView, token: Token, outcome: WriteOutcome) -> Step {
    let conn = daemon.clients[token];
    let left = conn.write_buf.skip(moved(outcome) as int);
    let after = daemon.client_set(token, ConnView { write_buf: left, ..conn });
    match next_flush_step(outcome, left.len()) {
        FlushStep::Again => Step { phase: PhaseView::WriteClient, daemon: after },
        FlushStep::Stop => Step { phase: PhaseView::AwaitClient, daemon: after },
        FlushStep::Fail => Step {
            phase: lost(token, false),
            daemon: daemon.client_dropped(token),
        },
    }
}

/// A pane has other input left.
pub open spec fn pane_left(daemon: DaemonView, pane: Token, outcome: WriteOutcome) -> DaemonView {
    let before = daemon.state.panes[pane];
    let left = before.write_buf.skip(moved(outcome) as int);
    DaemonView {
        state: daemon.state.pane_set(pane, PaneView { write_buf: left, ..before }),
        ..daemon
    }
}

/// A pane was written to after a request of a client.
pub open spec fn passed_on(
    daemon: DaemonView,
    token: Token,
    pane: Token,
    outcome: WriteOutcome,
    reason: Seq<char>,
) -> Step {
    let after = pane_left(daemon, pane, outcome);
    let message = write_failed_text(reason);
    match next_flush_step(outcome, after.state.panes[pane].write_buf.len()) {
        FlushStep::Again => Step { phase: PhaseView::WriteFor(pane), daemon: after },
        FlushStep::Stop => Step { phase: PhaseView::AwaitFor(pane), daemon: after },
        FlushStep::Fail => if error_fits(message) {
            Step {
                phase: PhaseView::AwaitFor(pane),
                daemon: after.client_set(
                    token,
                    after.clients[token].queued(DaemonMsg::Error { message }),
                ),
            }
        } else {
            Step { phase: PhaseView::Overflow, daemon: after }
        },
    }
}

/// A pane is gone, its clients are not.
pub open spec fn without_pane(daemon: DaemonView, token: Token) -> DaemonView {
    DaemonView { state: daemon.state.pane_removed(token), ..daemon }
}

/// A pane was written to.
pub open spec fn pane_told(daemon: DaemonView, token: Token, outcome: WriteOutcome) -> Step {
    let after = pane_left(daemon, token, outcome);
    match next_flush_step(outcome, after.state.panes[token].write_buf.len()) {
        FlushStep::Again => Step { phase: PhaseView::WritePane, daemon: after },
        FlushStep::Stop => Step { phase: PhaseView::AwaitPane, daemon: after },
        FlushStep::Fail => Step { phase: lost(token, true), daemon: without_pane(daemon, token) },
    }
}

/// A client is taken in, or none calls.
pub open spec fn called(daemon: DaemonView, done: bool) -> Step {
    if !done {
        Step { phase: finished(), daemon }
    } else if !daemon.state.room_for_token() {
        Step { phase: PhaseView::Overflow, daemon }
    } else {
        Step {
            phase: PhaseView::AwaitNewClient(daemon.state.next_token),
            daemon: daemon.accepted(),
        }
    }
}

/// The client that waits for a new session is gone, and the session with it.
pub open spec fn not_opened(daemon: DaemonView, token: Token) -> Step {
    Step {
        phase: lost(token, false),
        daemon: DaemonView {
            clients: daemon.clients.remove(token),
            opening: None,
            ..daemon
        },
    }
}

/// A shell was started, or not.
pub open spec fn shell_opened(daemon: DaemonView, token: Token, done: bool) -> Step {
    if !done {
        not_opened(daemon, token)
    } else if !daemon.state.room_for_pane() {
        Step { phase: PhaseView::Overflow, daemon }
    } else {
        Step { phase: PhaseView::AwaitNewPane, daemon: daemon.named() }
    }
}

/// The output of a pane waits for its followers, or they are gone with it.
/// Nothing is said of their order.
pub open spec fn pane_heard(
    daemon: DaemonView,
    token: Token,
    writable: bool,
    outcome: ReadOutcome,
    list: Seq<Token>,
) -> Step {
    let after = daemon.after_pane_read(token, outcome);
    Step {
        phase: if after.state.panes.contains_key(token) {
            fan_out(after, token, writable, list)
        } else {
            PhaseView::Finish { gone: seq![token] + list, deregister: true, error: None }
        },
        daemon: after,
    }
}

/// Whom the output of a pane, or its end, concerns.
pub open spec fn concerned(daemon: DaemonView, token: Token, outcome: ReadOutcome) -> Set<Token> {
    match outcome {
        ReadOutcome::WouldBlock => Set::empty(),
        _ => followers(daemon.clients, token),
    }
}

/// How an event can go on after an answer.
pub open spec fn turned(turn: TurnView, daemon: DaemonView, answer: Answer, after: Step) -> bool {
    let token = turn.token;
    let done = answer is Done;
    match turn.phase {
        PhaseView::Accept => after == called(daemon, done),
        PhaseView::AwaitNewClient(new) => after == (Step {
            phase: if done {
                PhaseView::Accept
            } else {
                PhaseView::Crash
            },
            daemon,
        }),
        PhaseView::ReadClient => after == heard(daemon, token, turn.writable, answer->Read_0),
        PhaseView::OpenShell => after == shell_opened(daemon, token, done),
        PhaseView::AwaitNewPane => after == if done {
            Step { phase: PhaseView::ReadClient, daemon: daemon.opened() }
        } else {
            not_opened(daemon, token)
        },
        PhaseView::WriteFor(pane) => after == passed_on(
            daemon,
            token,
            pane,
            answer->Wrote_0,
            answer->Wrote_1@,
        ),
        PhaseView::AwaitFor(pane) => after == if done {
            Step { phase: PhaseView::ReadClient, daemon }
        } else {
            Step { phase: lost(token, false), daemon: daemon.client_dropped(token) }
        },
        PhaseView::Resize { .. } => after == (Step { phase: PhaseView::ReadClient, daemon }),
        PhaseView::WriteClient => after == told(daemon, token, answer->Wrote_0),
        PhaseView::AwaitClient => after == if done {
            Step { phase: finished(), daemon }
        } else {
            Step { phase: lost(token, false), daemon: daemon.client_dropped(token) }
        },
        PhaseView::ReadPane => exists|list: Seq<Token>|
            {
                &&& list.no_duplicates()
                &&& list.to_set() == concerned(daemon, token, answer->Read_0)
                &&& after == #[trigger] pane_heard(
                    daemon,
                    token,
                    turn.writable,
                    answer->Read_0,
                    list,
                )
            },
        PhaseView::AwaitFollowers(list) => after == (Step {
            phase: if done {
                fan_out(daemon, token, turn.writable, list.drop_last())
            } else {
                PhaseView::Crash
            },
            daemon,
        }),
        PhaseView::WritePane => after == pane_told(daemon, token, answer->Wrote_0),
        PhaseView::AwaitPane => after == if done {
            Step { phase: finished(), daemon }
        } else {
            Step { phase: lost(token, false), daemon: without_pane(daemon, token) }
        },
        PhaseView::Finish { .. } => false,
        PhaseView::Crash => false,
        PhaseView::Overflow => false,
    }
}

fn just(token: Token) -> (r: Vec<Token>)
    ensures
        r@ == seq![token],
{
    let mut list: Vec<Token> = Vec::new();
    list.push(token);
    assert(list@ =~= seq![token]);
    list
}

impl Turn {
    fn lost(&mut self, deregister: bool)
        ensures
            final(self)@ == (TurnView { phase: lost(old(self)@.token, deregister), ..old(self)@ }),
    {
        self.phase = Phase::Finish { gone: just(self.token), deregister, error: None };
    }

    fn finished(&mut self)
        ensures
            final(self)@ == (TurnView { phase: finished(), ..old(self)@ }),
    {
        self.phase = Phase::Finish { gone: Vec::new(), deregister: false, error: None };
    }

    fn client_read_up(&mut self, daemon: &Daemon)
        requires
            daemon.wf(),
            daemon@.clients.contains_key(old(self)@.token),
        ensures
            final(self)@ == (TurnView {
                phase: client_read_up(daemon@, old(self)@.token, old(self)@.writable),
                ..old(self)@
            }),
    {
        let pending = match daemon.client(self.token) {
            Some(conn) => conn.has_pending_write(),
            None => false,
        };
        self.phase = if self.writable && pending {
            Phase::WriteClient
        } else {
            Phase::AwaitClient
        };
    }

    fn pane_read_up(&mut self, daemon: &Daemon)
        requires
            daemon@.state.panes.contains_key(old(self)@.token),
        ensures
            final(self)@ == (TurnView {
                phase: pane_read_up(daemon@, old(self)@.token, old(self)@.writable),
                ..old(self)@
            }),
    {
        let pending = match daemon.state().pane(self.token) {
            Some(pane) => !pane.write_buf.is_empty(),
            None => false,
        };
        self.phase = if self.writable && pending {
            Phase::WritePane
        } else {
            Phase::AwaitPane
        };
    }

    fn fan_out(&mut self, daemon: &Daemon, list: Vec<Token>)
        requires
            daemon@.state.panes.contains_key(old(self)@.token),
        ensures
            final(self)@ == (TurnView {
                phase: fan_out(daemon@, old(self)@.token, old(self)@.writable, list@),
                ..old(self)@
            }),
    {
        if list.is_empty() {
            self.pane_read_up(daemon);
        } else {
            self.phase = Phase::AwaitFollowers(list);
        }
    }

    /// Starts to handle an event.
    pub fn new(daemon: &Daemon, token: Token, readable: bool, writable: bool) -> (r: Turn)
        requires
            daemon.wf(),
            daemon@.stage() == Stage::Ready,
        ensures
            r@ == (TurnView {
                token,
                writable,
                phase: first_phase(daemon@, token, readable, writable),
            }),
            r@.wf(daemon@),
    {
        let mut turn = Turn { token, writable, phase: Phase::Accept };
        match daemon.source(token) {
            Source::Listener => {},
            Source::Client => {
                if readable {
                    turn.phase = Phase::ReadClient;
                } else {
                    turn.client_read_up(daemon);
                }
            },
            Source::Pane => {
                if readable {
                    turn.phase = Phase::ReadPane;
                } else {
                    turn.pane_read_up(daemon);
                }
            },
            _ => {
                turn.finished();
            },
        }
        turn
    }

    /// Who is gone.
    pub fn gone(&self) -> (r: &[Token])
        ensures
            r@ == match self@.phase {
                PhaseView::Finish { gone, deregister, error } => gone,
                _ => Seq::empty(),
            },
    {
        match &self.phase {
            Phase::Finish { gone, deregister: _, error: _ } => gone.as_slice(),
            _ => &[],
        }
    }

    /// Why the payload of a client was no request, where that is why the client
    /// is gone.
    pub fn error(&self) -> (r: Option<&ProtocolError>)
        ensures
            match self@.phase {
                PhaseView::Finish { gone, deregister, error } => match error {
                    Some(text) => r matches Some(e) && e.text() == text,
                    None => r is None,
                },
                _ => r is None,
            },
    {
        match &self.phase {
            Phase::Finish { gone: _, deregister: _, error: Some(e) } => Some(e),
            _ => None,
        }
    }

    /// What to do next.
    pub fn task(&self, daemon: &Daemon) -> (r: Task)
        requires
            daemon.wf(),
            self@.wf(daemon@),
        ensures
            r == self@.task(daemon@),
    {
        match &self.phase {
            Phase::Accept => Task::Accept,
            Phase::AwaitNewClient(token) => Task::AwaitNewClient(*token),
            Phase::ReadClient => match daemon.client(self.token) {
                Some(conn) => Task::ReadClient { token: self.token, wanted: conn.wanted() },
                None => Task::Crash,
            },
            Phase::OpenShell => Task::OpenShell,
            Phase::AwaitNewPane => match daemon.opening_token() {
                Some(token) => Task::AwaitNewPane(token),
                None => Task::Crash,
            },
            Phase::WriteFor(pane) => Task::WritePane(*pane),
            Phase::AwaitFor(pane) => match daemon.state().pane(*pane) {
                Some(p) => Task::AwaitPane(*pane, p.interest()),
                None => Task::Crash,
            },
            Phase::Resize { token, cols, rows } => Task::Resize {
                token: *token,
                cols: *cols,
                rows: *rows,
            },
            Phase::WriteClient => Task::WriteClient(self.token),
            Phase::AwaitClient => match daemon.client(self.token) {
                Some(conn) => Task::AwaitClient(self.token, conn.interest()),
                None => Task::Crash,
            },
            Phase::ReadPane => Task::ReadPane(self.token),
            Phase::AwaitFollowers(list) => Task::AwaitClient(
                list[list.len() - 1],
                Interest::ReadWrite,
            ),
            Phase::WritePane => Task::WritePane(self.token),
            Phase::AwaitPane => match daemon.state().pane(self.token) {
                Some(p) => Task::AwaitPane(self.token, p.interest()),
                None => Task::Crash,
            },
            Phase::Finish { gone: _, deregister, error: _ } => Task::Finish { deregister: *deregister },
            Phase::Crash => Task::Crash,
            Phase::Overflow => Task::Overflow,
        }
    }

    fn client_was_read(&mut self, daemon: &mut Daemon, outcome: &ReadOutcome)
        requires
            old(daemon).wf(),
            old(daemon)@.stage() == Stage::Ready,
            old(daemon)@.clients.contains_key(old(self)@.token),
            read_fits(old(daemon)@.clients[old(self)@.token].inbound, *outcome),
        ensures
            final(daemon).wf(),
            ({
                let step = heard(old(daemon)@, old(self)@.token, old(self)@.writable, *outcome);
                &&& final(self)@ == (TurnView { phase: step.phase, ..old(self)@ })
                &&& final(daemon)@ == step.daemon
                &&& final(self)@.wf(final(daemon)@)
            }),
    {
        let token: Token = self.token;
        match daemon.client_read(token, outcome) {
            ReadStep::More => {
                self.phase = Phase::ReadClient;
            },
            ReadStep::Message(payload) => match daemon.client_message(token, payload.as_slice()) {
                Ok(Act::Done) => {
                    self.phase = Phase::ReadClient;
                },
                Ok(Act::OpenPane) => {
                    self.phase = Phase::OpenShell;
                },
                Ok(Act::WritePane(pane)) => {
                    let pending = match daemon.state().pane(pane) {
                        Some(p) => !p.write_buf.is_empty(),
                        None => false,
                    };
                    self.phase = if pending {
                        Phase::WriteFor(pane)
                    } else {
                        Phase::AwaitFor(pane)
                    };
                },
                Ok(Act::ResizePane { token: pane, cols, rows }) => {
                    self.phase = Phase::Resize { token: pane, cols, rows };
                },
                Ok(Act::Overflow) => {
                    self.phase = Phase::Overflow;
                },
                Err(e) => {
                    self.phase = Phase::Finish {
                        gone: just(token),
                        deregister: false,
                        error: Some(e),
                    };
                },
            },
            ReadStep::Wait => {
                self.client_read_up(daemon);
            },
            ReadStep::Closed => {
                self.lost(false);
            },
            ReadStep::Fail => {
                self.lost(false);
            },
        }
    }

    fn client_was_written(&mut self, daemon: &mut Daemon, outcome: WriteOutcome)
        requires
            old(daemon).wf(),
            old(daemon)@.stage() == Stage::Ready,
            old(daemon)@.clients.contains_key(old(self)@.token),
            moved(outcome) <= old(daemon)@.clients[old(self)@.token].write_buf.len(),
            old(daemon)@.clients[old(self)@.token].write_buf.len() > 0,
        ensures
            final(daemon).wf(),
            ({
                let step = told(old(daemon)@, old(self)@.token, outcome);
                &&& final(self)@ == (TurnView { phase: step.phase, ..old(self)@ })
                &&& final(daemon)@ == step.daemon
                &&& final(self)@.wf(final(daemon)@)
            }),
    {
        match daemon.client_flush(self.token, outcome) {
            FlushStep::Again => {
                self.phase = Phase::WriteClient;
            },
            FlushStep::Stop => {
                self.phase = Phase::AwaitClient;
            },
            FlushStep::Fail => {
                self.lost(false);
            },
        }
    }

    fn input_was_written(
        &mut self,
        daemon: &mut Daemon,
        pane: Token,
        outcome: WriteOutcome,
        reason: &str,
    )
        requires
            old(daemon).wf(),
            old(daemon)@.stage() == Stage::Ready,
            old(daemon)@.clients.contains_key(old(self)@.token),
            old(daemon)@.state.panes.contains_key(pane),
            moved(outcome) <= old(daemon)@.state.panes[pane].write_buf.len(),
            old(daemon)@.state.panes[pane].write_buf.len() > 0,
        ensures
            final(daemon).wf(),
            ({
                let step = passed_on(old(daemon)@, old(self)@.token, pane, outcome, reason@);
                &&& final(self)@ == (TurnView { phase: step.phase, ..old(self)@ })
                &&& final(daemon)@ == step.daemon
                &&& final(self)@.wf(final(daemon)@)
            }),
    {
        match daemon.pane_flush(pane, outcome) {
            FlushStep::Again => {
                self.phase = Phase::WriteFor(pane);
            },
            FlushStep::Stop => {
                self.phase = Phase::AwaitFor(pane);
            },
            FlushStep::Fail => {
                if write_failed_fits(reason) {
                    match daemon.client_write_failed(self.token, reason) {
                        Ok(()) => {},
                        Err(_) => {},
                    }
                    self.phase = Phase::AwaitFor(pane);
                } else {
                    self.phase = Phase::Overflow;
                }
            },
        }
    }

    fn pane_was_written(&mut self, daemon: &mut Daemon, outcome: WriteOutcome)
        requires
            old(daemon).wf(),
            old(daemon)@.stage() == Stage::Ready,
            old(daemon)@.state.panes.contains_key(old(self)@.token),
            moved(outcome) <= old(daemon)@.state.panes[old(self)@.token].write_buf.len(),
            old(daemon)@.state.panes[old(self)@.token].write_buf.len() > 0,
        ensures
            final(daemon).wf(),
            ({
                let step = pane_told(old(daemon)@, old(self)@.token, outcome);
                &&& final(self)@ == (TurnView { phase: step.phase, ..old(self)@ })
                &&& final(daemon)@ == step.daemon
                &&& final(self)@.wf(final(daemon)@)
            }),
    {
        match daemon.pane_flush(self.token, outcome) {
            FlushStep::Again => {
                self.phase = Phase::WritePane;
            },
            FlushStep::Stop => {
                self.phase = Phase::AwaitPane;
            },
            FlushStep::Fail => {
                daemon.drop_pane(self.token);
                assert(daemon@.state.panes =~= old(daemon)@.state.panes.remove(self@.token));
                self.lost(true);
            },
        }
    }

    fn pane_was_read(&mut self, daemon: &mut Daemon, outcome: &ReadOutcome)
        requires
            old(daemon).wf(),
            old(daemon)@.stage() == Stage::Ready,
            old(daemon)@.state.panes.contains_key(old(self)@.token),
            outcome matches ReadOutcome::Data(data) ==> data@.len() + 20 <= isize::MAX,
        ensures
            final(daemon).wf(),
            exists|list: Seq<Token>|
                {
                    let step = #[trigger] pane_heard(
                        old(daemon)@,
                        old(self)@.token,
                        old(self)@.writable,
                        *outcome,
                        list,
                    );
                    &&& list.no_duplicates()
                    &&& list.to_set() == concerned(old(daemon)@, old(self)@.token, *outcome)
                    &&& final(self)@ == (TurnView { phase: step.phase, ..old(self)@ })
                    &&& final(daemon)@ == step.daemon
                },
            final(self)@.wf(final(daemon)@),
    {
        let token: Token = self.token;
        let ghost writable = self.writable;
        match daemon.pane_read(token, outcome) {
            Ok(PaneStep::Kept(list)) => {
                self.fan_out(daemon, list);
                let ghost step = pane_heard(old(daemon)@, token, writable, *outcome, list@);
                assert(self@ == (TurnView { phase: step.phase, ..old(self)@ }));
                assert forall|i: int| 0 <= i < list@.len() implies daemon@.clients.contains_key(
                    #[trigger] list@[i],
                ) by {
                    assert(list@.to_set().contains(list@[i]));
                }
            },
            Ok(PaneStep::Closed(list)) => {
                let mut gone: Vec<Token> = just(token);
                let ghost clients = list@;
                let mut list = list;
                gone.append(&mut list);
                self.phase = Phase::Finish { gone, deregister: true, error: None };
                let ghost step = pane_heard(old(daemon)@, token, writable, *outcome, clients);
                assert(gone@ =~= seq![token] + clients);
                assert(self@ == (TurnView { phase: step.phase, ..old(self)@ }));
                assert forall|i: int| 0 <= i < gone@.len() implies !daemon@.clients.contains_key(
                    #[trigger] gone@[i],
                ) && !daemon@.state.panes.contains_key(gone@[i]) by {
                    if i > 0 {
                        assert(clients.to_set().contains(clients[i - 1]));
                    }
                }
            },
            Err(_) => {
                self.phase = Phase::Crash;
            },
        }
    }

    /// Takes what came of what was to be done.
    pub fn answer(&mut self, daemon: &mut Daemon, answer: Answer)
        requires
            old(daemon).wf(),
            old(self)@.wf(old(daemon)@),
            old(self)@.expects(old(daemon)@, answer),
        ensures
            final(daemon).wf(),
            final(self)@.wf(final(daemon)@),
            final(self)@.token == old(self)@.token,
            final(self)@.writable == old(self)@.writable,
            turned(
                old(self)@,
                old(daemon)@,
                answer,
                (Step { phase: final(self)@.phase, daemon: final(daemon)@ }),
            ),
    {
        let done = match &answer {
            Answer::Done => true,
            _ => false,
        };
        let token: Token = self.token;
        let mut phase = Phase::Crash;
        std::mem::swap(&mut phase, &mut self.phase);
        match phase {
            Phase::Accept => {
                if !done {
                    self.finished();
                } else if !daemon.state().room_for_token() {
                    self.phase = Phase::Overflow;
                } else {
                    let new: Token = daemon.accept();
                    self.phase = Phase::AwaitNewClient(new);
                }
            },
            Phase::AwaitNewClient(_) => {
                if done {
                    self.phase = Phase::Accept;
                }
            },
            Phase::ReadClient => match answer {
                Answer::Read(outcome) => {
                    self.client_was_read(daemon, &outcome);
                },
                _ => {},
            },
            Phase::OpenShell => {
                if !done {
                    daemon.opening_failed();
                    self.lost(false);
                } else if !daemon.state().room_for_pane() {
                    self.phase = Phase::Overflow;
                } else {
                    daemon.pane_started();
                    self.phase = Phase::AwaitNewPane;
                }
            },
            Phase::AwaitNewPane => {
                if done {
                    match daemon.pane_ready() {
                        Ok(()) => {},
                        Err(_) => {},
                    }
                    self.phase = Phase::ReadClient;
                } else {
                    daemon.opening_failed();
                    self.lost(false);
                }
            },
            Phase::WriteFor(pane) => match answer {
                Answer::Wrote(outcome, reason) => {
                    self.input_was_written(daemon, pane, outcome, reason.as_str());
                },
                _ => {},
            },
            Phase::AwaitFor(_) => {
                if done {
                    self.phase = Phase::ReadClient;
                } else {
                    daemon.drop_client(token);
                    self.lost(false);
                }
            },
            Phase::Resize { token: _, cols: _, rows: _ } => {
                self.phase = Phase::ReadClient;
            },
            Phase::WriteClient => match answer {
                Answer::Wrote(outcome, _) => {
                    self.client_was_written(daemon, outcome);
                },
                _ => {},
            },
            Phase::AwaitClient => {
                if done {
                    self.finished();
                } else {
                    daemon.drop_client(token);
                    self.lost(false);
                }
            },
            Phase::ReadPane => match answer {
                Answer::Read(outcome) => {
                    self.pane_was_read(daemon, &outcome);
                },
                _ => {},
            },
            Phase::AwaitFollowers(list) => {
                if done {
                    let mut list = list;
                    list.pop();
                    self.fan_out(daemon, list);
                }
            },
            Phase::WritePane => match answer {
                Answer::Wrote(outcome, _) => {
                    self.pane_was_written(daemon, outcome);
                },
                _ => {},
            },
            Phase::AwaitPane => {
                if done {
                    self.finished();
                } else {
                    daemon.drop_pane(token);
                    self.lost(false);
                }
            },
            Phase::Finish { gone: _, deregister: _, error: _ } => {},
            Phase::Crash => {},
            Phase::Overflow => {},
        }
    }
}

/// Whether a client or a pane is there no more.
pub open spec fn leaves(before: DaemonView, after: DaemonView, token: Token) -> bool {
    ||| before.clients.contains_key(token) && !after.clients.contains_key(token)
    ||| before.state.panes.contains_key(token) && !after.state.panes.contains_key(token)
}

/// Whoever leaves the daemon is reported at once, so that what belongs to them
/// can be released.
pub proof fn departures_are_reported(
    turn: TurnView,
    daemon: DaemonView,
    answer: Answer,
    after: Step,
    token: Token,
)
    requires
        daemon.wf(),
        turn.wf(daemon),
        turn.expects(daemon, answer),
        turned(turn, daemon, answer, after),
        leaves(daemon, after.daemon, token),
    ensures
        (after.phase matches PhaseView::Finish { gone, deregister, error } && gone.contains(token)),
{
    assert(seq![turn.token].contains(turn.token)) by {
        assert(seq![turn.token][0] == turn.token);
    }
    if let PhaseView::ReadPane = turn.phase {
        let outcome = answer->Read_0;
        let list = choose|list: Seq<Token>|
            {
                &&& list.no_duplicates()
                &&& list.to_set() == concerned(daemon, turn.token, outcome)
                &&& after == #[trigger] pane_heard(
                    daemon,
                    turn.token,
                    turn.writable,
                    outcome,
                    list,
                )
            };
        let gone = seq![turn.token] + list;
        assert(gone[0] == turn.token);
        if token != turn.token {
            assert(list.to_set().contains(token));
            let i = list.index_of(token);
            assert(gone[i + 1] == token);
        }
    }
}

/// An event that was handled leaves the daemon ready for the next one, and
/// those who are gone are really gone.
pub proof fn finished_turns_leave_no_trace(turn: TurnView, daemon: DaemonView, token: Token)
    requires
        turn.wf(daemon),
        (turn.phase matches PhaseView::Finish { gone, deregister, error } && gone.contains(token)),
    ensures
        daemon.stage() == Stage::Ready,
        !daemon.clients.contains_key(token),
        !daemon.state.panes.contains_key(token),
{
}

/// The bytes that wait for the peer that is to be awaited.
pub open spec fn unsent(turn: TurnView, daemon: DaemonView) -> Seq<u8> {
    match turn.phase {
        PhaseView::AwaitFor(pane) => daemon.state.panes[pane].write_buf,
        PhaseView::AwaitPane => daemon.state.panes[turn.token].write_buf,
        _ => daemon.clients[turn.token].write_buf,
    }
}

/// Bytes that a peer has not taken yet are not forgotten: before the daemon
/// waits again, it asks to be told when the peer can be written to. Without
/// such bytes it does not ask. This holds of the client or pane that an event
/// came from, and of a pane that got input from a client.
pub proof fn unsent_bytes_are_remembered(turn: TurnView, daemon: DaemonView)
    requires
        turn.wf(daemon),
        turn.phase is AwaitClient || turn.phase is AwaitPane || turn.phase is AwaitFor,
    ensures
        ({
            let interest = if unsent(turn, daemon).len() > 0 {
                Interest::ReadWrite
            } else {
                Interest::Readable
            };
            turn.task(daemon) == match turn.phase {
                PhaseView::AwaitFor(pane) => Task::AwaitPane(pane, interest),
                PhaseView::AwaitPane => Task::AwaitPane(turn.token, interest),
                _ => Task::AwaitClient(turn.token, interest),
            }
        }),
{
}

} // verus!
