//! What each event does to the daemon, and what it leads to.

use vstd::prelude::*;

use crate::conn::{can_serve, created, handled, ConnView, EffectView};
use crate::daemon::{
    followers, initial_daemon, source_of, Act, DaemonView, OpeningView, Source, Stage,
};
use crate::frame::frame;
use crate::laws::requests::{gains, new_sessions_are_announced, queued_messages_can_be_decoded};
use crate::protocol::{ClientMsg, DaemonMsg, PaneId, SessionId};
use crate::state::{
    initial_state, PaneView, ReadOutcome, SessionView, StateView, Token,
};
use crate::wire::{client_parsed, daemon_wire, lemma_daemon_wire_len};

verus! {

/// A daemon starts with nothing: no session, no pane, no client. Sessions and
/// panes are counted from zero, tokens from one.
pub proof fn daemons_start_empty(t: Token, s: SessionId, p: PaneId)
    ensures
        !initial_daemon().clients.contains_key(t),
        !initial_daemon().state.panes.contains_key(t),
        !initial_daemon().state.sessions.contains_key(s),
        !initial_daemon().state.pane_token_by_id.contains_key(p),
        initial_daemon().state == initial_state(),
        initial_state().next_session_id == 0,
        initial_state().next_pane_id == 0,
        initial_state().next_token == 1,
        initial_daemon().stage() == Stage::Ready,
{
}

/// Giving a name away raises its counter by one and touches nothing else.
pub proof fn counters_go_up_by_one(state: StateView)
    ensures
        state.room_for_token() <==> state.next_token < usize::MAX,
        state.room_for_session() <==> state.next_session_id < u64::MAX && state.next_token
            < usize::MAX,
        state.room_for_pane() <==> state.next_pane_id < u64::MAX,
        state.room_for_token() ==> state.token_allocated().next_token == state.next_token + 1,
        state.room_for_session() ==> state.session_numbered().next_session_id
            == state.next_session_id + 1,
        state.room_for_pane() ==> state.pane_numbered().next_pane_id == state.next_pane_id + 1,
        state.token_allocated() == (StateView {
            next_token: state.token_allocated().next_token,
            ..state
        }),
        state.session_numbered() == (StateView {
            next_session_id: state.session_numbered().next_session_id,
            ..state
        }),
        state.pane_numbered() == (StateView {
            next_pane_id: state.pane_numbered().next_pane_id,
            ..state
        }),
{
}

/// A pane that is registered is there, empty, and found by its name; every
/// other pane and name is as before.
pub proof fn registered_panes_are_found(
    state: StateView,
    token: Token,
    id: PaneId,
    t: Token,
    p: PaneId,
)
    ensures
        ({
            let after = state.pane_registered(token, id);
            &&& after.panes.contains_key(token)
            &&& after.panes[token].id == id
            &&& after.panes[token].buf.len() == 0
            &&& after.panes[token].write_buf.len() == 0
            &&& after.pane_token_by_id.contains_key(id)
            &&& after.pane_token_by_id[id] == token
            &&& t != token ==> after.panes.contains_key(t) == state.panes.contains_key(t)
                && after.panes[t] == state.panes[t]
            &&& p != id ==> after.pane_token_by_id.contains_key(p)
                == state.pane_token_by_id.contains_key(p) && after.pane_token_by_id[p]
                == state.pane_token_by_id[p]
            &&& after == (StateView {
                panes: after.panes,
                pane_token_by_id: after.pane_token_by_id,
                ..state
            })
        }),
{
}

/// A session that is recorded is there under its number; every other session is
/// as before.
pub proof fn recorded_sessions_are_found(
    state: StateView,
    id: SessionId,
    name: Seq<char>,
    root_pane: Token,
    other: SessionId,
)
    ensures
        ({
            let after = state.session_recorded(id, name, root_pane);
            &&& after.sessions.contains_key(id)
            &&& after.sessions[id].id == id
            &&& after.sessions[id].name == name
            &&& after.sessions[id].root_pane == root_pane
            &&& other != id ==> after.sessions.contains_key(other) == state.sessions.contains_key(
                other,
            ) && after.sessions[other] == state.sessions[other]
            &&& after == (StateView { sessions: after.sessions, ..state })
        }),
{
}

/// Changing, removing and forgetting a pane concerns that pane alone. Only
/// forgetting takes its name away.
pub proof fn panes_are_changed_one_by_one(
    state: StateView,
    token: Token,
    pane: PaneView,
    t: Token,
    p: PaneId,
)
    ensures
        state.pane_set(token, pane).panes.contains_key(token),
        state.pane_set(token, pane).panes[token] == pane,
        !state.pane_removed(token).panes.contains_key(token),
        !state.pane_forgotten(token).panes.contains_key(token),
        !state.pane_forgotten(token).pane_token_by_id.contains_key(state.panes[token].id),
        t != token ==> {
            &&& state.pane_set(token, pane).panes.contains_key(t) == state.panes.contains_key(t)
            &&& state.pane_set(token, pane).panes[t] == state.panes[t]
            &&& state.pane_removed(token).panes.contains_key(t) == state.panes.contains_key(t)
            &&& state.pane_removed(token).panes[t] == state.panes[t]
            &&& state.pane_forgotten(token).panes.contains_key(t) == state.panes.contains_key(t)
            &&& state.pane_forgotten(token).panes[t] == state.panes[t]
        },
        p != state.panes[token].id ==> {
            &&& state.pane_forgotten(token).pane_token_by_id.contains_key(p)
                == state.pane_token_by_id.contains_key(p)
            &&& state.pane_forgotten(token).pane_token_by_id[p] == state.pane_token_by_id[p]
        },
        state.pane_set(token, pane) == (StateView {
            panes: state.pane_set(token, pane).panes,
            ..state
        }),
        state.pane_removed(token) == (StateView {
            panes: state.pane_removed(token).panes,
            ..state
        }),
        state.pane_forgotten(token) == (StateView {
            panes: state.pane_forgotten(token).panes,
            pane_token_by_id: state.pane_forgotten(token).pane_token_by_id,
            ..state
        }),
{
}

/// A name leads to a pane exactly where it leads to a token and that token to a
/// pane.
pub proof fn names_lead_to_panes(state: StateView, id: PaneId, token: Token)
    ensures
        state.pane_named(id) is Some <==> state.pane_token_by_id.contains_key(id)
            && state.panes.contains_key(state.pane_token_by_id[id]),
        state.pane_named(id) is Some ==> state.pane_named(id)->0
            == state.panes[state.pane_token_by_id[id]],
        state.panes.contains_key(token) ==> state.pane_id_or_zero(token) == state.panes[token].id,
        !state.panes.contains_key(token) ==> state.pane_id_or_zero(token) == 0,
{
}

/// Whether all clients but one are as they were.
pub open spec fn others_as_before(
    before: Map<Token, ConnView>,
    after: Map<Token, ConnView>,
    token: Token,
) -> bool {
    forall|t: Token|
        #![trigger after.contains_key(t)]
        #![trigger before.contains_key(t)]
        t != token ==> (after.contains_key(t) <==> before.contains_key(t)) && (
        before.contains_key(t) ==> after[t] == before[t])
}

/// A client that connects gets the next token and starts with nothing. Nobody
/// else notices.
pub proof fn new_clients_get_the_next_token(daemon: DaemonView)
    requires
        daemon.state.room_for_token(),
    ensures
        ({
            let after = daemon.accepted();
            let token = daemon.state.next_token;
            &&& after.clients.contains_key(token)
            &&& after.clients[token].inbound.len() == 0
            &&& after.clients[token].write_buf.len() == 0
            &&& !after.clients[token].handshaken
            &&& after.clients[token].attached_pane is None
            &&& others_as_before(daemon.clients, after.clients, token)
            &&& after.state == (StateView {
                next_token: (token + 1) as Token,
                ..daemon.state
            })
            &&& after.opening == daemon.opening
        }),
{
}

/// Changing and dropping a client concerns that client alone.
pub proof fn clients_are_changed_one_by_one(daemon: DaemonView, token: Token, conn: ConnView)
    ensures
        daemon.client_set(token, conn).clients.contains_key(token),
        daemon.client_set(token, conn).clients[token] == conn,
        !daemon.client_dropped(token).clients.contains_key(token),
        others_as_before(daemon.clients, daemon.client_set(token, conn).clients, token),
        others_as_before(daemon.clients, daemon.client_dropped(token).clients, token),
        daemon.client_set(token, conn).state == daemon.state,
        daemon.client_set(token, conn).opening == daemon.opening,
        daemon.client_dropped(token).state == daemon.state,
        daemon.client_dropped(token).opening == daemon.opening,
{
}

/// A payload that holds a request does to its client and to the state what the
/// request does, and to no other client anything. Only a request for a session
/// starts a shell, and that for the client who asked.
pub proof fn payloads_do_what_they_ask(
    daemon: DaemonView,
    token: Token,
    payload: Seq<u8>,
    msg: ClientMsg,
)
    requires
        client_parsed(payload) == Ok::<ClientMsg, Seq<char>>(msg),
        can_serve(daemon.clients[token], daemon.state, msg),
    ensures
        ({
            let h = handled(daemon.clients[token], daemon.state, msg);
            let after = daemon.answered(token, payload);
            &&& after.state == h.state
            &&& after.clients.contains_key(token)
            &&& after.clients[token] == h.conn
            &&& others_as_before(daemon.clients, after.clients, token)
            &&& match h.effect {
                EffectView::Done => after.opening is None && daemon.act_for(token, msg)
                    == Act::Done,
                EffectView::OpenPane(new) => after.opening == Some(
                    OpeningView { client: token, new, pane: None },
                ) && daemon.act_for(token, msg) == Act::OpenPane,
                EffectView::WritePane(pane) => after.opening is None && daemon.act_for(token, msg)
                    == Act::WritePane(pane),
                EffectView::ResizePane { token: pane, cols, rows } => after.opening is None
                    && daemon.act_for(token, msg) == (Act::ResizePane {
                    token: pane,
                    cols,
                    rows,
                }),
            }
        }),
{
}

/// A payload that holds no request costs the client that sent it, and does
/// nothing else. A request for which nothing is left does nothing at all.
pub proof fn nonsense_costs_the_client(daemon: DaemonView, token: Token, payload: Seq<u8>)
    ensures
        client_parsed(payload) is Err ==> {
            let after = daemon.answered(token, payload);
            &&& !after.clients.contains_key(token)
            &&& others_as_before(daemon.clients, after.clients, token)
            &&& after.state == daemon.state
            &&& after.opening == daemon.opening
        },
        client_parsed(payload) is Ok && !can_serve(
            daemon.clients[token],
            daemon.state,
            client_parsed(payload)->Ok_0,
        ) ==> {
            &&& daemon.answered(token, payload) == daemon
            &&& daemon.act_for(token, client_parsed(payload)->Ok_0) == Act::Overflow
        },
{
}

/// From the request for a session to its announcement: the session gets the
/// next number, its pane the next name and token, and the client is told both
/// and follows the pane. Every other client is as before.
pub proof fn sessions_are_created_as_asked(
    daemon: DaemonView,
    client: Token,
    payload: Seq<u8>,
    name: Seq<char>,
)
    requires
        daemon.wf(),
        daemon.stage() == Stage::Ready,
        daemon.clients.contains_key(client),
        daemon.clients[client].handshaken,
        daemon.state.room_for_session(),
        daemon.state.room_for_pane(),
        client_parsed(payload) == Ok::<ClientMsg, Seq<char>>(ClientMsg::CreateSession { name }),
    ensures
        ({
            let asked = daemon.answered(client, payload);
            let after = asked.named().opened();
            let session = daemon.state.next_session_id;
            let pane = daemon.state.next_pane_id;
            let token = daemon.state.next_token;
            let conn = daemon.clients[client];
            &&& asked.stage() == Stage::Starting
            &&& asked.named().stage() == Stage::Started
            &&& after.stage() == Stage::Ready
            &&& after.state.sessions == daemon.state.sessions.insert(
                session,
                SessionView { id: session, name, root_pane: token },
            )
            &&& after.state.panes == daemon.state.panes.insert(
                token,
                PaneView { id: pane, buf: Seq::empty(), write_buf: Seq::empty() },
            )
            &&& after.state.pane_token_by_id == daemon.state.pane_token_by_id.insert(pane, token)
            &&& after.state.next_session_id == session + 1
            &&& after.state.next_pane_id == pane + 1
            &&& after.state.next_token == token + 1
            &&& after.clients[client].attached_pane == Some(token)
            &&& after.clients[client].handshaken
            &&& after.clients[client].inbound == conn.inbound
            &&& gains(
                conn.write_buf,
                after.clients[client].write_buf,
                seq![DaemonMsg::SessionCreated { session }, DaemonMsg::AttachOk { pane }],
            )
            &&& others_as_before(daemon.clients, after.clients, client)
        }),
{
    let asked = daemon.answered(client, payload);
    let named = asked.named();
    let o = named.opening->0;
    new_sessions_are_announced(
        named.clients[client],
        named.state,
        o.new,
        o.pane->0,
        daemon.clients[client],
    );
}

/// The clients that follow a pane are those that are attached to it.
pub proof fn followers_are_attached(clients: Map<Token, ConnView>, pane: Token, t: Token)
    ensures
        followers(clients, pane).contains(t) <==> clients.contains_key(t)
            && clients[t].attached_pane == Some(pane),
{
}

/// When a read from a live pane brings bytes, the queue of each client that is
/// attached to it gains one message with the name of the pane and exactly those
/// bytes. No other client gains anything, the pane keeps nothing back, and the
/// state is as before.
pub proof fn output_is_passed_on_whole(
    daemon: DaemonView,
    token: Token,
    read: Vec<u8>,
    client: Token,
)
    requires
        daemon.wf(),
        daemon.state.panes.contains_key(token),
        daemon.clients.contains_key(client),
        read@.len() > 0,
    ensures
        ({
            let after = daemon.after_pane_read(token, ReadOutcome::Data(read));
            let msg = DaemonMsg::PaneData { pane: daemon.state.panes[token].id, data: read@ };
            let before = daemon.clients[client];
            let now = after.clients[client];
            &&& after.clients.dom() == daemon.clients.dom()
            &&& after.state == daemon.state
            &&& after.opening == daemon.opening
            &&& now == (ConnView { write_buf: now.write_buf, ..before })
            &&& before.attached_pane != Some(token) ==> now.write_buf == before.write_buf
            &&& before.attached_pane == Some(token) ==> now.write_buf == before.write_buf + frame(
                daemon_wire(msg),
            )
            &&& before.attached_pane == Some(token) && read@.len() + 20 < 0x1_0000_0000 ==> gains(
                before.write_buf,
                now.write_buf,
                seq![msg],
            )
        }),
{
    let after = daemon.after_pane_read(token, ReadOutcome::Data(read));
    let pane = daemon.state.panes[token];
    let msg = DaemonMsg::PaneData { pane: pane.id, data: read@ };
    assert(pane.buf + read@ =~= read@);
    assert(pane.buf =~= Seq::<u8>::empty());
    assert(after.state.panes =~= daemon.state.panes);
    assert(after.clients.dom() =~= daemon.clients.dom());
    lemma_daemon_wire_len(msg);
    if read@.len() + 20 < 0x1_0000_0000 {
        queued_messages_can_be_decoded(daemon.clients[client], msg);
    }
}

/// A silent pane changes nothing. With a pane whose shell is gone go the pane
/// itself, its name and the clients that are attached to it, and nobody else.
pub proof fn panes_end_with_their_shell(daemon: DaemonView, token: Token, end: Vec<u8>, c: Token)
    requires
        daemon.wf(),
        daemon.state.panes.contains_key(token),
        end@.len() == 0,
    ensures
        daemon.after_pane_read(token, ReadOutcome::WouldBlock) == daemon,
        daemon.after_pane_read(token, ReadOutcome::Data(end)) == daemon.after_pane_read(
            token,
            ReadOutcome::Failed,
        ),
        ({
            let after = daemon.after_pane_read(token, ReadOutcome::Failed);
            let id = daemon.state.panes[token].id;
            &&& after.state.panes == daemon.state.panes.remove(token)
            &&& after.state.pane_token_by_id == daemon.state.pane_token_by_id.remove(id)
            &&& after.state.sessions == daemon.state.sessions
            &&& after.state.next_session_id == daemon.state.next_session_id
            &&& after.state.next_pane_id == daemon.state.next_pane_id
            &&& after.state.next_token == daemon.state.next_token
            &&& after.opening == daemon.opening
            &&& after.clients.contains_key(c) <==> daemon.clients.contains_key(c)
                && daemon.clients[c].attached_pane != Some(token)
            &&& after.clients.contains_key(c) ==> after.clients[c] == daemon.clients[c]
        }),
        daemon.shut_down(token) == daemon.after_pane_read(token, ReadOutcome::Failed),
{
    assert(daemon.state.panes[token].buf + Seq::<u8>::empty() =~= Seq::<u8>::empty());
}

/// Shutting down what is no pane does nothing.
pub proof fn only_panes_are_shut_down(daemon: DaemonView, token: Token)
    requires
        !daemon.state.panes.contains_key(token),
    ensures
        daemon.shut_down(token) == daemon,
{
}

/// Where an event comes from: two tokens have a fixed meaning, all others are
/// looked up, clients first.
pub proof fn events_come_from_their_source(daemon: DaemonView, token: Token)
    ensures
        source_of(daemon, 0) == Source::Listener,
        source_of(daemon, usize::MAX) == Source::Waker,
        0 < token < usize::MAX ==> {
            &&& source_of(daemon, token) == Source::Client <==> daemon.clients.contains_key(token)
            &&& source_of(daemon, token) == Source::Pane <==> !daemon.clients.contains_key(token)
                && daemon.state.panes.contains_key(token)
            &&& source_of(daemon, token) == Source::Unknown <==> !daemon.clients.contains_key(token)
                && !daemon.state.panes.contains_key(token)
        },
{
}

/// The stages of a new session: nothing is being started, a shell is to be
/// started, and its pane has got its name.
pub proof fn stages_follow_the_opening(daemon: DaemonView)
    ensures
        daemon.stage() == Stage::Ready <==> daemon.opening is None,
        daemon.stage() == Stage::Starting <==> daemon.opening is Some && daemon.opening->0.pane
            is None,
        daemon.stage() == Stage::Started <==> daemon.opening is Some && daemon.opening->0.pane
            is Some,
{
}

/// The pane of a new session gets the next name, and nothing else changes.
pub proof fn panes_are_named_in_order(daemon: DaemonView)
    requires
        daemon.stage() == Stage::Starting,
        daemon.state.room_for_pane(),
    ensures
        ({
            let after = daemon.named();
            let o = daemon.opening->0;
            &&& after.state.next_pane_id == daemon.state.next_pane_id + 1
            &&& after.state == (StateView {
                next_pane_id: after.state.next_pane_id,
                ..daemon.state
            })
            &&& after.clients == daemon.clients
            &&& after.opening == Some(
                OpeningView {
                    client: o.client,
                    new: o.new,
                    pane: Some(daemon.state.next_pane_id),
                },
            )
        }),
{
}

/// When the pane of a new session is there, the client who asked is told, and
/// nobody else notices.
pub proof fn sessions_open_for_who_asked(daemon: DaemonView)
    requires
        daemon.stage() == Stage::Started,
    ensures
        ({
            let o = daemon.opening->0;
            let h = created(daemon.clients[o.client], daemon.state, o.new, o.pane->0);
            let after = daemon.opened();
            &&& after.state == h.state
            &&& after.clients.contains_key(o.client)
            &&& after.clients[o.client] == h.conn
            &&& others_as_before(daemon.clients, after.clients, o.client)
            &&& after.opening is None
        }),
{
}

} // verus!
