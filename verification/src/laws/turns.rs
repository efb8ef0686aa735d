//! How the daemon goes on after each thing it does for an event.

use vstd::prelude::*;
use vstd::utf8::*;

use crate::conn::{can_serve, created, handled, wanted_after, ConnView, EffectView};
use crate::daemon::{source_of, DaemonView, Source};
use crate::frame::frame;
use crate::laws::events::others_as_before;
use crate::laws::messages::errors_fit_with_their_text;
use crate::laws::requests::{gains, queued_messages_can_be_decoded};
use crate::laws::streams::{
    completed_frames_are_handed_on, parts_of_a_frame_are_kept, reported_bytes_leave_the_queue,
};
use crate::outgoing::WriteOutcome;
use crate::protocol::{ClientMsg, DaemonMsg, ProtocolError};
use crate::state::{Interest, PaneView, ReadOutcome, StateView, Token};
use crate::turn::{first_phase, turned, Answer, Phase, PhaseView, Step, Task, TurnView};
use crate::wire::{client_parsed, daemon_wire, lemma_daemon_wire_len};

verus! {

/// Whether only a client was touched, and is now `conn`.
pub open spec fn only_client(
    before: DaemonView,
    after: DaemonView,
    token: Token,
    conn: ConnView,
) -> bool {
    &&& after.clients.contains_key(token)
    &&& after.clients[token] == conn
    &&& others_as_before(before.clients, after.clients, token)
    &&& after.state == before.state
    &&& after.opening == before.opening
}

/// Whether only a client is gone.
pub open spec fn only_client_gone(before: DaemonView, after: DaemonView, token: Token) -> bool {
    &&& !after.clients.contains_key(token)
    &&& others_as_before(before.clients, after.clients, token)
    &&& after.state == before.state
}

/// Whether only what waits for a pane was touched, and is now `left`.
pub open spec fn only_input(
    before: DaemonView,
    after: DaemonView,
    pane: Token,
    left: Seq<u8>,
) -> bool {
    &&& after.state == (StateView {
        panes: before.state.panes.insert(
            pane,
            PaneView { write_buf: left, ..before.state.panes[pane] },
        ),
        ..before.state
    })
    &&& after.opening == before.opening
}

/// Whether an event is over since a client or pane is gone.
pub open spec fn ends_with(phase: PhaseView, token: Token, calls_off: bool) -> bool {
    phase == (PhaseView::Finish { gone: seq![token], deregister: calls_off, error: None })
}

/// Whether an event is over and nobody is gone.
pub open spec fn ends_quietly(phase: PhaseView) -> bool {
    phase == (PhaseView::Finish { gone: Seq::empty(), deregister: false, error: None })
}

/// An event of a client or pane that can be read from starts with reading. Else
/// what waits for it is written, where it can be written to; where there is
/// nothing to do, it is awaited again. The listener takes clients in. Any other
/// event is over at once.
pub proof fn reading_comes_before_writing(
    daemon: DaemonView,
    token: Token,
    readable: bool,
    writable: bool,
)
    ensures
        ({
            let phase = first_phase(daemon, token, readable, writable);
            match source_of(daemon, token) {
                Source::Listener => phase == PhaseView::Accept,
                Source::Client => if readable {
                    phase == PhaseView::ReadClient
                } else if writable && daemon.clients[token].write_buf.len() > 0 {
                    phase == PhaseView::WriteClient
                } else {
                    phase == PhaseView::AwaitClient
                },
                Source::Pane => if readable {
                    phase == PhaseView::ReadPane
                } else if writable && daemon.state.panes[token].write_buf.len() > 0 {
                    phase == PhaseView::WritePane
                } else {
                    phase == PhaseView::AwaitPane
                },
                _ => ends_quietly(phase),
            }
        }),
{
}

/// What is to be done in each phase: it concerns the client or pane whose turn
/// it is, and the amount that is missing.
pub proof fn tasks_concern_whose_turn_it_is(turn: TurnView, daemon: DaemonView)
    requires
        daemon.wf(),
        turn.wf(daemon),
    ensures
        match turn.phase {
            PhaseView::Accept => turn.task(daemon) == Task::Accept,
            PhaseView::AwaitNewClient(t) => turn.task(daemon) == Task::AwaitNewClient(t),
            PhaseView::ReadClient => turn.task(daemon) matches Task::ReadClient { token, wanted }
                && token == turn.token && (wanted_after(daemon.clients[turn.token].inbound)
                <= usize::MAX ==> wanted == wanted_after(daemon.clients[turn.token].inbound)),
            PhaseView::OpenShell => turn.task(daemon) == Task::OpenShell,
            PhaseView::AwaitNewPane => turn.task(daemon) == Task::AwaitNewPane(
                daemon.opening->0.new.token,
            ),
            PhaseView::WriteFor(pane) => turn.task(daemon) == Task::WritePane(pane),
            PhaseView::WritePane => turn.task(daemon) == Task::WritePane(turn.token),
            PhaseView::WriteClient => turn.task(daemon) == Task::WriteClient(turn.token),
            PhaseView::ReadPane => turn.task(daemon) == Task::ReadPane(turn.token),
            PhaseView::Resize { token, cols, rows } => turn.task(daemon) == (Task::Resize {
                token,
                cols,
                rows,
            }),
            PhaseView::AwaitFollowers(list) => turn.task(daemon) == Task::AwaitClient(
                list[list.len() - 1],
                Interest::ReadWrite,
            ),
            PhaseView::Finish { gone, deregister, error } => turn.task(daemon) == (Task::Finish {
                deregister,
            }),
            PhaseView::Crash => turn.task(daemon) == Task::Crash,
            PhaseView::Overflow => turn.task(daemon) == Task::Overflow,
            PhaseView::AwaitClient => turn.task(daemon) is AwaitClient && turn.task(
                daemon,
            )->AwaitClient_0 == turn.token,
            PhaseView::AwaitPane => turn.task(daemon) is AwaitPane && turn.task(
                daemon,
            )->AwaitPane_0 == turn.token,
            PhaseView::AwaitFor(pane) => turn.task(daemon) is AwaitPane && turn.task(
                daemon,
            )->AwaitPane_0 == pane,
        },
{
}

/// What a phase holds is all that it holds.
pub proof fn phases_are_their_contents(
    list: Vec<Token>,
    deregister: bool,
    e: ProtocolError,
    token: Token,
    cols: u16,
    rows: u16,
)
    ensures
        Phase::AwaitFollowers(list)@ == PhaseView::AwaitFollowers(list@),
        (Phase::Finish { gone: list, deregister, error: None })@ == (PhaseView::Finish {
            gone: list@,
            deregister,
            error: None,
        }),
        (Phase::Finish { gone: list, deregister, error: Some(e) })@ == (PhaseView::Finish {
            gone: list@,
            deregister,
            error: Some(e.text()),
        }),
        Phase::AwaitNewClient(token)@ == PhaseView::AwaitNewClient(token),
        Phase::WriteFor(token)@ == PhaseView::WriteFor(token),
        Phase::AwaitFor(token)@ == PhaseView::AwaitFor(token),
        (Phase::Resize { token, cols, rows })@ == (PhaseView::Resize { token, cols, rows }),
{
}

/// Whatever can come of a task is taken: a read of any size that was wanted, a
/// write of any size that was offered, and success and failure of all else.
pub proof fn every_outcome_is_taken(
    turn: TurnView,
    daemon: DaemonView,
    read: Vec<u8>,
    n: usize,
    reason: String,
)
    ensures
        turn.phase is ReadClient ==> {
            &&& turn.expects(daemon, Answer::Read(ReadOutcome::WouldBlock))
            &&& turn.expects(daemon, Answer::Read(ReadOutcome::Failed))
            &&& read@.len() <= wanted_after(daemon.clients[turn.token].inbound) ==> turn.expects(
                daemon,
                Answer::Read(ReadOutcome::Data(read)),
            )
        },
        turn.phase is ReadPane ==> {
            &&& turn.expects(daemon, Answer::Read(ReadOutcome::WouldBlock))
            &&& turn.expects(daemon, Answer::Read(ReadOutcome::Failed))
            &&& read@.len() + 20 <= isize::MAX ==> turn.expects(
                daemon,
                Answer::Read(ReadOutcome::Data(read)),
            )
        },
        turn.phase matches PhaseView::WriteFor(pane) ==> n
            <= daemon.state.panes[pane].write_buf.len() ==> turn.expects(
            daemon,
            Answer::Wrote(WriteOutcome::Wrote(n), reason),
        ),
        turn.phase is WritePane && n <= daemon.state.panes[turn.token].write_buf.len()
            ==> turn.expects(daemon, Answer::Wrote(WriteOutcome::Wrote(n), reason)),
        turn.phase is WriteClient && n <= daemon.clients[turn.token].write_buf.len()
            ==> turn.expects(daemon, Answer::Wrote(WriteOutcome::Wrote(n), reason)),
        turn.phase is WriteFor || turn.phase is WritePane || turn.phase is WriteClient ==> {
            &&& turn.expects(daemon, Answer::Wrote(WriteOutcome::WouldBlock, reason))
            &&& turn.expects(daemon, Answer::Wrote(WriteOutcome::Interrupted, reason))
            &&& turn.expects(daemon, Answer::Wrote(WriteOutcome::Failed, reason))
        },
        turn.phase is Accept || turn.phase is AwaitNewClient || turn.phase is OpenShell
            || turn.phase is AwaitNewPane || turn.phase is AwaitFor || turn.phase is Resize
            || turn.phase is AwaitClient || turn.phase is AwaitPane || turn.phase is AwaitFollowers
            ==> turn.expects(daemon, Answer::Done) && turn.expects(daemon, Answer::Failed),
{
}

/// Clients are taken in until none calls. Each gets the next token and is
/// awaited before the next one is taken in; where it cannot be, the daemon ends.
pub proof fn clients_are_taken_in_one_by_one(
    turn: TurnView,
    daemon: DaemonView,
    answer: Answer,
    after: Step,
)
    requires
        turned(turn, daemon, answer, after),
        turn.phase is Accept || turn.phase is AwaitNewClient,
    ensures
        turn.phase is Accept && answer !is Done ==> ends_quietly(after.phase) && after.daemon
            == daemon,
        turn.phase is Accept && answer is Done && daemon.state.next_token < usize::MAX ==> {
            let token = daemon.state.next_token;
            &&& after.phase == PhaseView::AwaitNewClient(token)
            &&& after.daemon.clients.contains_key(token)
            &&& !after.daemon.clients[token].handshaken
            &&& after.daemon.clients[token].write_buf.len() == 0
            &&& after.daemon.clients[token].inbound.len() == 0
            &&& after.daemon.clients[token].attached_pane is None
            &&& others_as_before(daemon.clients, after.daemon.clients, token)
            &&& after.daemon.state == (StateView {
                next_token: (token + 1) as Token,
                ..daemon.state
            })
        },
        turn.phase is Accept && answer is Done && daemon.state.next_token == usize::MAX
            ==> after.phase == PhaseView::Overflow && after.daemon == daemon,
        turn.phase is AwaitNewClient ==> after.daemon == daemon && after.phase == if answer
            is Done {
            PhaseView::Accept
        } else {
            PhaseView::Crash
        },
{
}

/// A client that has closed or is broken is dropped, and its event is over.
pub proof fn closed_clients_are_dropped(
    turn: TurnView,
    daemon: DaemonView,
    outcome: ReadOutcome,
    after: Step,
)
    requires
        turn.phase is ReadClient,
        outcome matches ReadOutcome::Data(read) && read@.len() == 0 || outcome is Failed,
        turned(turn, daemon, Answer::Read(outcome), after),
    ensures
        ends_with(after.phase, turn.token, false),
        only_client_gone(daemon, after.daemon, turn.token),
        after.daemon.opening == daemon.opening,
{
}

/// A silent client is not touched: what waits for it is written where it can be,
/// and then it is awaited.
pub proof fn silent_clients_are_written_to(turn: TurnView, daemon: DaemonView, after: Step)
    requires
        turn.phase is ReadClient,
        daemon.clients.contains_key(turn.token),
        turned(turn, daemon, Answer::Read(ReadOutcome::WouldBlock), after),
    ensures
        after.daemon == daemon,
        after.phase == if turn.writable && daemon.clients[turn.token].write_buf.len() > 0 {
            PhaseView::WriteClient
        } else {
            PhaseView::AwaitClient
        },
{
    let conn = daemon.clients[turn.token];
    assert(daemon.clients.insert(turn.token, conn) =~= daemon.clients);
}

/// A part of a frame is kept whole. Behind a complete header the payload is read
/// at once; else what waits for the client is written, or it is awaited.
pub proof fn parts_of_requests_are_kept(
    turn: TurnView,
    daemon: DaemonView,
    payload: Seq<u8>,
    k: int,
    m: int,
    read: Vec<u8>,
    after: Step,
)
    requires
        turn.phase is ReadClient,
        daemon.clients.contains_key(turn.token),
        payload.len() < 0x1_0000_0000,
        0 <= k < m < frame(payload).len(),
        k < 4 ==> m <= 4,
        daemon.clients[turn.token].inbound == frame(payload).take(k),
        read@ == frame(payload).subrange(k, m),
        turned(turn, daemon, Answer::Read(ReadOutcome::Data(read)), after),
    ensures
        only_client(
            daemon,
            after.daemon,
            turn.token,
            (ConnView { inbound: frame(payload).take(m), ..daemon.clients[turn.token] }),
        ),
        after.phase == if m == 4 {
            PhaseView::ReadClient
        } else if turn.writable && daemon.clients[turn.token].write_buf.len() > 0 {
            PhaseView::WriteClient
        } else {
            PhaseView::AwaitClient
        },
{
    parts_of_a_frame_are_kept(payload, k, m, read);
}

/// A request that is complete is answered at once, from its whole payload, and
/// what it asks for is done before the client is read again. Input for a pane is
/// written to that pane where any waits.
pub proof fn complete_requests_are_answered(
    turn: TurnView,
    daemon: DaemonView,
    payload: Seq<u8>,
    k: int,
    read: Vec<u8>,
    msg: ClientMsg,
    after: Step,
)
    requires
        turn.phase is ReadClient,
        daemon.clients.contains_key(turn.token),
        payload.len() < 0x1_0000_0000,
        0 <= k < frame(payload).len(),
        k >= 4 || payload.len() == 0,
        daemon.clients[turn.token].inbound == frame(payload).take(k),
        read@ == frame(payload).skip(k),
        client_parsed(payload) == Ok::<ClientMsg, Seq<char>>(msg),
        can_serve(daemon.clients[turn.token], daemon.state, msg),
        turned(turn, daemon, Answer::Read(ReadOutcome::Data(read)), after),
    ensures
        ({
            let conn = ConnView { inbound: Seq::empty(), ..daemon.clients[turn.token] };
            let h = handled(conn, daemon.state, msg);
            &&& after.daemon.state == h.state
            &&& after.daemon.clients.contains_key(turn.token)
            &&& after.daemon.clients[turn.token] == h.conn
            &&& others_as_before(daemon.clients, after.daemon.clients, turn.token)
            &&& match h.effect {
                EffectView::Done => after.phase == PhaseView::ReadClient,
                EffectView::OpenPane(new) => after.phase == PhaseView::OpenShell
                    && after.daemon.opening is Some && after.daemon.opening->0.client == turn.token
                    && after.daemon.opening->0.new == new,
                EffectView::WritePane(pane) => after.phase
                    == if h.state.panes[pane].write_buf.len() > 0 {
                    PhaseView::WriteFor(pane)
                } else {
                    PhaseView::AwaitFor(pane)
                },
                EffectView::ResizePane { token, cols, rows } => after.phase == (PhaseView::Resize {
                    token,
                    cols,
                    rows,
                }),
            }
        }),
{
    completed_frames_are_handed_on(payload, k, read);
}

/// A payload that holds no request costs the client, and the reason is kept. A
/// request for which nothing is left ends the daemon.
pub proof fn unreadable_requests_are_refused(
    turn: TurnView,
    daemon: DaemonView,
    payload: Seq<u8>,
    k: int,
    read: Vec<u8>,
    after: Step,
)
    requires
        turn.phase is ReadClient,
        daemon.clients.contains_key(turn.token),
        payload.len() < 0x1_0000_0000,
        0 <= k < frame(payload).len(),
        k >= 4 || payload.len() == 0,
        daemon.clients[turn.token].inbound == frame(payload).take(k),
        read@ == frame(payload).skip(k),
        turned(turn, daemon, Answer::Read(ReadOutcome::Data(read)), after),
    ensures
        client_parsed(payload) matches Err(reason) ==> {
            &&& only_client_gone(daemon, after.daemon, turn.token)
            &&& after.phase == (PhaseView::Finish {
                gone: seq![turn.token],
                deregister: false,
                error: Some("decode error: "@ + reason),
            })
        },
        client_parsed(payload) matches Ok(msg) ==> !can_serve(
            daemon.clients[turn.token],
            daemon.state,
            msg,
        ) ==> after.phase == PhaseView::Overflow && after.daemon.state == daemon.state,
{
    completed_frames_are_handed_on(payload, k, read);
}

/// A shell that has started gives its pane the next name; one that has not costs
/// the client who asked. So does a pane that cannot be awaited. Once it is
/// awaited, the session is announced and the client is read again.
pub proof fn shells_are_started_for_clients(
    turn: TurnView,
    daemon: DaemonView,
    answer: Answer,
    after: Step,
)
    requires
        turn.phase is OpenShell || turn.phase is AwaitNewPane,
        turn.wf(daemon),
        turned(turn, daemon, answer, after),
    ensures
        answer !is Done ==> {
            &&& ends_with(after.phase, turn.token, false)
            &&& only_client_gone(daemon, after.daemon, turn.token)
            &&& after.daemon.opening is None
        },
        turn.phase is OpenShell && answer is Done && daemon.state.next_pane_id < u64::MAX ==> {
            &&& after.phase == PhaseView::AwaitNewPane
            &&& after.daemon.clients == daemon.clients
            &&& after.daemon.state == (StateView {
                next_pane_id: (daemon.state.next_pane_id + 1) as u64,
                ..daemon.state
            })
            &&& after.daemon.opening is Some
            &&& after.daemon.opening->0.pane == Some(daemon.state.next_pane_id)
            &&& after.daemon.opening->0.client == daemon.opening->0.client
            &&& after.daemon.opening->0.new == daemon.opening->0.new
        },
        turn.phase is OpenShell && answer is Done && daemon.state.next_pane_id == u64::MAX
            ==> after.phase == PhaseView::Overflow && after.daemon == daemon,
        turn.phase is AwaitNewPane && answer is Done ==> {
            let o = daemon.opening->0;
            let h = created(daemon.clients[turn.token], daemon.state, o.new, o.pane->0);
            &&& after.phase == PhaseView::ReadClient
            &&& after.daemon.state == h.state
            &&& after.daemon.clients.contains_key(turn.token)
            &&& after.daemon.clients[turn.token] == h.conn
            &&& others_as_before(daemon.clients, after.daemon.clients, turn.token)
            &&& after.daemon.opening is None
        },
{
}

/// Input that was written to a pane leaves its queue, byte for byte as the shell
/// reports. Writing goes on while it succeeds and after a signal; then the pane
/// is awaited. A shell that does not take its input is reported to the client,
/// with the reason, and the pane is awaited too.
pub proof fn input_is_written_as_reported(
    turn: TurnView,
    daemon: DaemonView,
    pane: Token,
    outcome: WriteOutcome,
    reason: String,
    after: Step,
)
    requires
        turn.phase == PhaseView::WriteFor(pane),
        turn.wf(daemon),
        turn.expects(daemon, Answer::Wrote(outcome, reason)),
        turned(turn, daemon, Answer::Wrote(outcome, reason), after),
    ensures
        ({
            let waiting = daemon.state.panes[pane].write_buf;
            match outcome {
                WriteOutcome::Wrote(n) => {
                    &&& only_input(daemon, after.daemon, pane, waiting.skip(n as int))
                    &&& after.daemon.clients == daemon.clients
                    &&& after.phase == if 0 < n < waiting.len() {
                        PhaseView::WriteFor(pane)
                    } else {
                        PhaseView::AwaitFor(pane)
                    }
                },
                WriteOutcome::WouldBlock => after.daemon == daemon && after.phase
                    == PhaseView::AwaitFor(pane),
                WriteOutcome::Interrupted => after.daemon == daemon && after.phase
                    == PhaseView::WriteFor(pane),
                WriteOutcome::Failed => {
                    let text = "write failed: "@ + reason@;
                    let before = daemon.clients[turn.token];
                    let now = after.daemon.clients[turn.token];
                    &&& after.daemon.state == daemon.state
                    &&& encode_utf8(text).len() + 12 > isize::MAX ==> after.phase
                        == PhaseView::Overflow
                    &&& encode_utf8(text).len() + 12 <= isize::MAX ==> {
                        &&& after.phase == PhaseView::AwaitFor(pane)
                        &&& others_as_before(daemon.clients, after.daemon.clients, turn.token)
                        &&& now == (ConnView { write_buf: now.write_buf, ..before })
                        &&& now.write_buf == before.write_buf + frame(
                            daemon_wire(DaemonMsg::Error { message: text }),
                        )
                        &&& encode_utf8(text).len() + 12 < 0x1_0000_0000 ==> gains(
                            before.write_buf,
                            now.write_buf,
                            seq![DaemonMsg::Error { message: text }],
                        )
                    }
                },
            }
        }),
{
    let waiting = daemon.state.panes[pane].write_buf;
    let text = "write failed: "@ + reason@;
    if let WriteOutcome::Wrote(n) = outcome {
        reported_bytes_leave_the_queue(waiting, n);
    } else {
        reported_bytes_leave_the_queue(waiting, 0);
        assert(waiting.skip(0) =~= waiting);
        assert(daemon.state.panes.insert(pane, daemon.state.panes[pane]) =~= daemon.state.panes);
    }
    errors_fit_with_their_text(text);
    lemma_daemon_wire_len(DaemonMsg::Error { message: text });
    queued_messages_can_be_decoded(
        daemon.clients[turn.token],
        DaemonMsg::Error { message: text },
    );
}

/// After input was passed on or a size was told, the client is read again. Where
/// the pane cannot be awaited, the client is dropped.
pub proof fn clients_are_read_again(
    turn: TurnView,
    daemon: DaemonView,
    answer: Answer,
    after: Step,
)
    requires
        turn.phase is AwaitFor || turn.phase is Resize,
        turned(turn, daemon, answer, after),
    ensures
        turn.phase is Resize || answer is Done ==> after.phase == PhaseView::ReadClient
            && after.daemon == daemon,
        turn.phase is AwaitFor && answer !is Done ==> ends_with(after.phase, turn.token, false)
            && only_client_gone(daemon, after.daemon, turn.token),
{
}

/// What was written to a client leaves its queue, byte for byte as the client
/// reports. Writing goes on while it succeeds and after a signal; then the
/// client is awaited. A client that is broken is dropped.
pub proof fn replies_are_written_as_reported(
    turn: TurnView,
    daemon: DaemonView,
    outcome: WriteOutcome,
    reason: String,
    after: Step,
)
    requires
        turn.phase is WriteClient,
        turn.wf(daemon),
        turn.expects(daemon, Answer::Wrote(outcome, reason)),
        turned(turn, daemon, Answer::Wrote(outcome, reason), after),
    ensures
        ({
            let conn = daemon.clients[turn.token];
            match outcome {
                WriteOutcome::Wrote(n) => {
                    &&& only_client(
                        daemon,
                        after.daemon,
                        turn.token,
                        ConnView { write_buf: conn.write_buf.skip(n as int), ..conn },
                    )
                    &&& after.phase == if 0 < n < conn.write_buf.len() {
                        PhaseView::WriteClient
                    } else {
                        PhaseView::AwaitClient
                    }
                },
                WriteOutcome::WouldBlock => after.daemon == daemon && after.phase
                    == PhaseView::AwaitClient,
                WriteOutcome::Interrupted => after.daemon == daemon && after.phase
                    == PhaseView::WriteClient,
                WriteOutcome::Failed => ends_with(after.phase, turn.token, false)
                    && only_client_gone(daemon, after.daemon, turn.token),
            }
        }),
{
    let conn = daemon.clients[turn.token];
    if let WriteOutcome::Wrote(n) = outcome {
        reported_bytes_leave_the_queue(conn.write_buf, n);
    } else {
        reported_bytes_leave_the_queue(conn.write_buf, 0);
        assert(conn.write_buf.skip(0) =~= conn.write_buf);
        assert(daemon.clients.insert(turn.token, conn) =~= daemon.clients);
    }
}

/// What waits for a pane and can be written then is written in the same way. A
/// pane that cannot be written to is dropped and its events are called off; its
/// clients stay.
pub proof fn waiting_input_is_written_as_reported(
    turn: TurnView,
    daemon: DaemonView,
    outcome: WriteOutcome,
    reason: String,
    after: Step,
)
    requires
        turn.phase is WritePane,
        turn.wf(daemon),
        turn.expects(daemon, Answer::Wrote(outcome, reason)),
        turned(turn, daemon, Answer::Wrote(outcome, reason), after),
    ensures
        after.daemon.clients == daemon.clients,
        ({
            let waiting = daemon.state.panes[turn.token].write_buf;
            match outcome {
                WriteOutcome::Wrote(n) => {
                    &&& only_input(daemon, after.daemon, turn.token, waiting.skip(n as int))
                    &&& after.phase == if 0 < n < waiting.len() {
                        PhaseView::WritePane
                    } else {
                        PhaseView::AwaitPane
                    }
                },
                WriteOutcome::WouldBlock => after.daemon == daemon && after.phase
                    == PhaseView::AwaitPane,
                WriteOutcome::Interrupted => after.daemon == daemon && after.phase
                    == PhaseView::WritePane,
                WriteOutcome::Failed => {
                    &&& ends_with(after.phase, turn.token, true)
                    &&& after.daemon.state == (StateView {
                        panes: daemon.state.panes.remove(turn.token),
                        ..daemon.state
                    })
                },
            }
        }),
{
    let waiting = daemon.state.panes[turn.token].write_buf;
    if let WriteOutcome::Wrote(n) = outcome {
        reported_bytes_leave_the_queue(waiting, n);
    } else {
        reported_bytes_leave_the_queue(waiting, 0);
        assert(waiting.skip(0) =~= waiting);
        assert(daemon.state.panes.insert(turn.token, daemon.state.panes[turn.token])
            =~= daemon.state.panes);
    }
}

/// Whoever can be awaited is left in peace, and the event is over. Whoever cannot
/// is dropped.
pub proof fn waiting_ends_the_event(
    turn: TurnView,
    daemon: DaemonView,
    answer: Answer,
    after: Step,
)
    requires
        turn.phase is AwaitClient || turn.phase is AwaitPane,
        turned(turn, daemon, answer, after),
    ensures
        answer is Done ==> ends_quietly(after.phase) && after.daemon == daemon,
        answer !is Done ==> ends_with(after.phase, turn.token, false),
        answer !is Done && turn.phase is AwaitClient ==> only_client_gone(
            daemon,
            after.daemon,
            turn.token,
        ),
        answer !is Done && turn.phase is AwaitPane ==> after.daemon.clients == daemon.clients
            && after.daemon.state == (StateView {
            panes: daemon.state.panes.remove(turn.token),
            ..daemon.state
        }),
{
}

/// Output of a pane leads to every attached client being awaited for writing,
/// each of them once. Where nobody is attached, and after a silent read, the pane
/// itself goes on.
pub proof fn output_is_announced_to_followers(
    turn: TurnView,
    daemon: DaemonView,
    outcome: ReadOutcome,
    after: Step,
    c: Token,
)
    requires
        turn.phase is ReadPane,
        daemon.wf(),
        turn.wf(daemon),
        turned(turn, daemon, Answer::Read(outcome), after),
        outcome matches ReadOutcome::Data(read) ==> read@.len() > 0,
        outcome !is Failed,
    ensures
        after.daemon == daemon.after_pane_read(turn.token, outcome),
        ({
            let attached = outcome is Data && daemon.clients.contains_key(c)
                && daemon.clients[c].attached_pane == Some(turn.token);
            match after.phase {
                PhaseView::AwaitFollowers(list) => list.no_duplicates() && (list.contains(c)
                    <==> attached),
                PhaseView::WritePane => !attached && turn.writable
                    && daemon.state.panes[turn.token].write_buf.len() > 0,
                PhaseView::AwaitPane => !attached && !(turn.writable
                    && daemon.state.panes[turn.token].write_buf.len() > 0),
                _ => false,
            }
        }),
{
    let list = choose|list: Seq<Token>|
        {
            &&& list.no_duplicates()
            &&& list.to_set() == crate::turn::concerned(daemon, turn.token, outcome)
            &&& after == #[trigger] crate::turn::pane_heard(
                daemon,
                turn.token,
                turn.writable,
                outcome,
                list,
            )
        };
    assert(list.contains(c) <==> list.to_set().contains(c));
    if list.len() == 0 {
        assert(!list.contains(c));
    }
    assert(after.daemon.state.panes.contains_key(turn.token));
    assert(after.daemon.state.panes[turn.token].write_buf
        == daemon.state.panes[turn.token].write_buf);
}

/// With a pane whose shell is gone, the event is over. The pane and every client
/// that was attached to it are reported as gone, and their events called off.
pub proof fn ended_panes_are_reported(
    turn: TurnView,
    daemon: DaemonView,
    outcome: ReadOutcome,
    after: Step,
    c: Token,
)
    requires
        turn.phase is ReadPane,
        daemon.wf(),
        turn.wf(daemon),
        turned(turn, daemon, Answer::Read(outcome), after),
        outcome matches ReadOutcome::Data(read) && read@.len() == 0 || outcome is Failed,
    ensures
        after.daemon == daemon.after_pane_read(turn.token, outcome),
        after.phase matches PhaseView::Finish { gone, deregister, error } && {
            &&& deregister
            &&& error is None
            &&& gone.contains(c) <==> c == turn.token || (daemon.clients.contains_key(c)
                && daemon.clients[c].attached_pane == Some(turn.token))
        },
{
    let list = choose|list: Seq<Token>|
        {
            &&& list.no_duplicates()
            &&& list.to_set() == crate::turn::concerned(daemon, turn.token, outcome)
            &&& after == #[trigger] crate::turn::pane_heard(
                daemon,
                turn.token,
                turn.writable,
                outcome,
                list,
            )
        };
    let gone = seq![turn.token] + list;
    assert(list.contains(c) <==> list.to_set().contains(c));
    assert(gone[0] == turn.token);
    if list.contains(c) {
        let i = list.index_of(c);
        assert(gone[i + 1] == c);
    }
    if gone.contains(c) && c != turn.token {
        let i = gone.index_of(c);
        assert(list[i - 1] == c);
    }
}

/// The attached clients are awaited one after the other. Where one cannot be, the
/// daemon ends; after the last, the pane itself goes on.
pub proof fn followers_are_awaited_one_by_one(
    turn: TurnView,
    daemon: DaemonView,
    list: Seq<Token>,
    answer: Answer,
    after: Step,
)
    requires
        turn.phase == PhaseView::AwaitFollowers(list),
        list.len() > 0,
        turned(turn, daemon, answer, after),
    ensures
        after.daemon == daemon,
        answer !is Done ==> after.phase == PhaseView::Crash,
        answer is Done && list.len() > 1 ==> after.phase == PhaseView::AwaitFollowers(
            list.take(list.len() - 1),
        ),
        answer is Done && list.len() == 1 ==> after.phase == if turn.writable
            && daemon.state.panes[turn.token].write_buf.len() > 0 {
            PhaseView::WritePane
        } else {
            PhaseView::AwaitPane
        },
{
    assert(list.drop_last() =~= list.take(list.len() - 1));
}

} // verus!
