//! What holds across several requests and events.

pub mod events;
pub mod messages;
pub mod requests;
pub mod streams;
pub mod turns;

use vstd::prelude::*;

use crate::bytes::{lemma_be_bytes_of_value, lemma_byte_ranges};
use crate::client::{hello_msg, is_welcome, raw, raw_bits_of, Flags, Modes};
use crate::conn::{
    after_read, handled, initial_conn, is_arriving, wanted_after, ConnView, EffectView,
};
use crate::daemon::{followers, source_of, DaemonView, Source, Stage};
use crate::frame::{
    all_short, first_frame, frame, joined, leftover, lemma_joined_push, payloads,
    payloads_invert_joining, LENGTH_RANGE,
};
use crate::protocol::{
    ClientMsg, ClientToDaemon, DaemonMsg, DaemonToClient, Message, PaneId, SessionId,
    PROTOCOL_VERSION,
};
use crate::replies::{hello_first_text, mismatch_text, no_pane_text};
use crate::state::{ReadOutcome, StateView, Token, LISTENER, WAKER};
use crate::wire::{client_parsed, client_wire, daemon_parsed, daemon_wire, lemma_daemon_wire_len};

verus! {

/// What a client is told that does not get in.
pub open spec fn refusal(msg: ClientMsg) -> Seq<char> {
    match msg {
        ClientMsg::Hello { version, .. } => mismatch_text(version),
        _ => hello_first_text(),
    }
}

/// A client that has not said hello changes nothing but its own standing, and
/// gets one reply to each request: an acknowledgement for a hello of the right
/// version, which opens the door, and an error for anything else.
pub proof fn strangers_change_nothing(conn: ConnView, state: StateView, msg: ClientMsg)
    requires
        !conn.handshaken,
    ensures
        ({
            let h = handled(conn, state, msg);
            let ack = DaemonMsg::HelloAck { version: PROTOCOL_VERSION };
            &&& h.state == state
            &&& h.effect == EffectView::Done
            &&& h.conn.inbound == conn.inbound
            &&& h.conn.attached_pane == conn.attached_pane
            &&& h.conn.handshaken <==> (msg matches ClientMsg::Hello { version, .. } && version
                == PROTOCOL_VERSION)
            &&& h.conn.handshaken ==> h.conn.write_buf == conn.queued(ack).write_buf
            &&& !h.conn.handshaken ==> h.conn.write_buf == conn.queued(
                DaemonMsg::Error { message: refusal(msg) },
            ).write_buf
        }),
{
}

/// A client that has said hello need not do so again.
pub proof fn hello_is_never_forgotten(conn: ConnView, state: StateView, msg: ClientMsg)
    requires
        conn.handshaken,
    ensures
        handled(conn, state, msg).conn.handshaken,
{
}

/// What waits for a client stays in place while it makes requests; a request
/// adds behind it at most one reply. Only three kinds of request can go
/// without one: a new session, which is answered when its shell has started,
/// input for a pane, and a new size.
pub proof fn replies_queue_up(conn: ConnView, state: StateView, msg: ClientMsg)
    ensures
        ({
            let after = handled(conn, state, msg).conn;
            &&& after.inbound == conn.inbound
            &&& after.write_buf == conn.write_buf || exists|reply: DaemonMsg|
                after.write_buf == #[trigger] conn.queued(reply).write_buf
            &&& after.write_buf == conn.write_buf ==> {
                ||| msg is CreateSession
                ||| msg is Resize
                ||| msg is Stdin && state.pane_named(msg->Stdin_pane) is Some
            }
        }),
{
    assert forall|reply: DaemonMsg| (#[trigger] conn.queued(reply)).write_buf.len()
        >= conn.write_buf.len() + 4 by {
        crate::frame::lemma_header_len(daemon_wire(reply).len());
    }
    let after = handled(conn, state, msg).conn;
    assert(forall|reply: DaemonMsg, pane: Option<Token>|
        (#[trigger] conn.attached(pane).queued(reply)).write_buf == conn.queued(reply).write_buf);
    assert(forall|reply: DaemonMsg|
        (#[trigger] (ConnView { handshaken: true, ..conn }).queued(reply)).write_buf
            == conn.queued(reply).write_buf);
}

/// The payloads of some replies.
pub open spec fn reply_payloads(msgs: Seq<DaemonMsg>) -> Seq<Seq<u8>> {
    msgs.map_values(|m: DaemonMsg| daemon_wire(m))
}

/// The payloads of some requests.
pub open spec fn request_payloads(msgs: Seq<ClientMsg>) -> Seq<Seq<u8>> {
    msgs.map_values(|m: ClientMsg| client_wire(m))
}

/// A reply joins the stream of those that wait.
pub proof fn queueing_adds_a_frame(conn: ConnView, list: Seq<Seq<u8>>, msg: DaemonMsg)
    requires
        conn.write_buf == joined(list),
    ensures
        conn.queued(msg).write_buf == joined(list.push(daemon_wire(msg))),
{
    lemma_joined_push(list, daemon_wire(msg));
}

/// A client that reads the frames of some replies and decodes them gets those
/// replies, in their order.
pub proof fn replies_arrive(msgs: Seq<DaemonMsg>)
    requires
        all_short(reply_payloads(msgs)),
    ensures
        payloads(joined(reply_payloads(msgs))) == reply_payloads(msgs),
        leftover(joined(reply_payloads(msgs))) == Seq::<u8>::empty(),
        forall|i: int|
            0 <= i < msgs.len() ==> daemon_parsed(reply_payloads(msgs)[i]) == Ok::<
                DaemonMsg,
                Seq<char>,
            >(#[trigger] msgs[i]),
{
    let list = reply_payloads(msgs);
    payloads_invert_joining(list, Seq::empty());
    assert(joined(list) + Seq::<u8>::empty() =~= joined(list));
    assert forall|i: int| 0 <= i < msgs.len() implies daemon_parsed(list[i]) == Ok::<
        DaemonMsg,
        Seq<char>,
    >(#[trigger] msgs[i]) by {
        assert(list[i].len() < LENGTH_RANGE);
        <DaemonToClient as Message>::lemma_round_trip(msgs[i], Seq::empty());
        assert(list[i] + Seq::<u8>::empty() =~= list[i]);
    }
}

/// What is arriving after several reads, and the payloads that came of them.
pub open spec fn fed(inbound: Seq<u8>, chunks: Seq<Seq<u8>>) -> (Seq<u8>, Seq<Seq<u8>>)
    decreases chunks.len(),
{
    if chunks.len() == 0 {
        (inbound, Seq::empty())
    } else {
        let (before, done) = fed(inbound, chunks.drop_last());
        let (after, complete) = after_read(before, chunks.last());
        (
            after,
            match complete {
                Some(payload) => done.push(payload),
                None => done,
            },
        )
    }
}

/// Whether each read brought something, and no more than was wanted.
pub open spec fn readable(inbound: Seq<u8>, chunks: Seq<Seq<u8>>) -> bool
    decreases chunks.len(),
{
    chunks.len() == 0 || {
        &&& readable(inbound, chunks.drop_last())
        &&& 0 < chunks.last().len() <= wanted_after(fed(inbound, chunks.drop_last()).0)
    }
}

/// The bytes of several reads.
pub open spec fn concatenated(chunks: Seq<Seq<u8>>) -> Seq<u8>
    decreases chunks.len(),
{
    if chunks.len() == 0 {
        Seq::empty()
    } else {
        concatenated(chunks.drop_last()) + chunks.last()
    }
}

/// However a stream is cut into reads, the payloads that come of them and what
/// is still arriving are together the stream.
pub proof fn reads_keep_every_byte(chunks: Seq<Seq<u8>>)
    requires
        readable(Seq::empty(), chunks),
    ensures
        ({
            let (inbound, done) = fed(Seq::empty(), chunks);
            &&& joined(done) + inbound == concatenated(chunks)
            &&& is_arriving(inbound)
            &&& all_short(done)
        }),
    decreases chunks.len(),
{
    if chunks.len() == 0 {
        assert(joined(Seq::<Seq<u8>>::empty()) + Seq::<u8>::empty() =~= concatenated(chunks));
    } else {
        reads_keep_every_byte(chunks.drop_last());
        let (before, done) = fed(Seq::empty(), chunks.drop_last());
        let all = before + chunks.last();
        assert(joined(done) + all =~= concatenated(chunks));
        if before.len() >= 4 {
            assert(all.take(4) =~= before.take(4));
        }
        if let (_, Some(payload)) = after_read(before, chunks.last()) {
            lemma_byte_ranges();
            lemma_be_bytes_of_value(all.take(4));
            assert(frame(payload) =~= all);
            lemma_joined_push(done, payload);
            assert(joined(done.push(payload)) + Seq::<u8>::empty() =~= concatenated(chunks));
        }
    }
}

/// The payloads that come of some reads are those that the stream holds, in
/// their order, however the stream is cut. Empty payloads are among them.
pub proof fn reads_find_every_payload(chunks: Seq<Seq<u8>>)
    requires
        readable(Seq::empty(), chunks),
    ensures
        fed(Seq::empty(), chunks).1 == payloads(concatenated(chunks)),
        fed(Seq::empty(), chunks).0 == leftover(concatenated(chunks)),
{
    reads_keep_every_byte(chunks);
    let (inbound, done) = fed(Seq::empty(), chunks);
    assert(first_frame(inbound) is None);
    payloads_invert_joining(done, inbound);
}

/// The requests of a client arrive at the daemon as they were made and in
/// their order, however the stream between them is cut.
pub proof fn requests_arrive(msgs: Seq<ClientMsg>, chunks: Seq<Seq<u8>>)
    requires
        all_short(request_payloads(msgs)),
        concatenated(chunks) == joined(request_payloads(msgs)),
        readable(Seq::empty(), chunks),
    ensures
        fed(Seq::empty(), chunks) == (Seq::<u8>::empty(), request_payloads(msgs)),
        forall|i: int|
            0 <= i < msgs.len() ==> client_parsed(request_payloads(msgs)[i]) == Ok::<
                ClientMsg,
                Seq<char>,
            >(#[trigger] msgs[i]),
{
    let list = request_payloads(msgs);
    let stream = joined(list);
    payloads_invert_joining(list, Seq::empty());
    assert(stream + Seq::<u8>::empty() =~= stream);
    reads_find_every_payload(chunks);
    assert forall|i: int| 0 <= i < msgs.len() implies client_parsed(list[i]) == Ok::<
        ClientMsg,
        Seq<char>,
    >(#[trigger] msgs[i]) by {
        assert(list[i].len() < LENGTH_RANGE);
        <ClientToDaemon as Message>::lemma_round_trip(msgs[i], Seq::empty());
        assert(list[i] + Seq::<u8>::empty() =~= list[i]);
    }
}

/// The hello of a client opens the door, and the reply is one that the client
/// takes for a welcome.
pub proof fn hello_is_welcome(state: StateView)
    ensures
        ({
            let conn = handled(initial_conn(), state, hello_msg()).conn;
            let received = payloads(conn.write_buf);
            &&& conn.handshaken
            &&& received.len() == 1
            &&& daemon_parsed(received[0]) is Ok
            &&& is_welcome(daemon_parsed(received[0])->Ok_0)
        }),
{
    let ack = DaemonMsg::HelloAck { version: PROTOCOL_VERSION };
    let conn = handled(initial_conn(), state, hello_msg()).conn;
    lemma_daemon_wire_len(ack);
    assert(reply_payloads(seq![ack]) =~= seq![daemon_wire(ack)]);
    replies_arrive(seq![ack]);
    queueing_adds_a_frame(
        ConnView { handshaken: true, ..initial_conn() },
        Seq::empty(),
        ack,
    );
    assert(Seq::<Seq<u8>>::empty().push(daemon_wire(ack)) =~= reply_payloads(seq![ack]));
    assert(seq![ack][0] == ack);
}

/// The names that are given away next belong to nothing yet, and are not those
/// of the listener and the waker.
pub proof fn next_names_are_fresh(daemon: DaemonView)
    requires
        daemon.wf(),
        daemon.state.room_for_token(),
    ensures
        daemon.is_free(daemon.state.next_token),
        daemon.state.next_token != LISTENER,
        daemon.state.next_token != WAKER,
        !daemon.state.sessions.contains_key(daemon.state.next_session_id),
        !daemon.state.pane_token_by_id.contains_key(daemon.state.next_pane_id),
{
}

/// Whether all counters of one state have reached those of another.
pub open spec fn is_later(before: StateView, after: StateView) -> bool {
    &&& before.next_session_id <= after.next_session_id
    &&& before.next_pane_id <= after.next_pane_id
    &&& before.next_token <= after.next_token
}

/// No event takes a counter back, so no name is ever given away twice.
pub proof fn names_are_never_reused(
    daemon: DaemonView,
    token: Token,
    payload: Seq<u8>,
    outcome: ReadOutcome,
)
    requires
        daemon.wf(),
    ensures
        daemon.state.room_for_token() ==> is_later(daemon.state, daemon.accepted().state),
        is_later(daemon.state, daemon.answered(token, payload).state),
        daemon.state.room_for_pane() ==> is_later(daemon.state, daemon.state.pane_numbered()),
        daemon.stage() == Stage::Started ==> is_later(daemon.state, daemon.opened().state),
        is_later(daemon.state, daemon.after_pane_read(token, outcome).state),
{
}

/// A session that is there stays there as it is, whatever happens.
pub proof fn sessions_are_never_forgotten(
    daemon: DaemonView,
    token: Token,
    payload: Seq<u8>,
    outcome: ReadOutcome,
    id: SessionId,
)
    requires
        daemon.wf(),
        daemon.state.sessions.contains_key(id),
    ensures
        has_session(daemon.accepted().state, daemon.state, id),
        has_session(daemon.answered(token, payload).state, daemon.state, id),
        has_session(daemon.named().state, daemon.state, id),
        daemon.stage() == Stage::Started ==> has_session(
            daemon.opened().state,
            daemon.state,
            id,
        ),
        has_session(daemon.after_pane_read(token, outcome).state, daemon.state, id),
        has_session(daemon.state.pane_removed(token), daemon.state, id),
{
}

/// Whether one state has a session of another.
pub open spec fn has_session(after: StateView, before: StateView, id: SessionId) -> bool {
    after.sessions.contains_key(id) && after.sessions[id] == before.sessions[id]
}

/// The request of one client does nothing to another client.
pub proof fn requests_leave_others_alone(
    daemon: DaemonView,
    token: Token,
    payload: Seq<u8>,
    other: Token,
)
    requires
        daemon.clients.contains_key(other),
        other != token,
    ensures
        daemon.answered(token, payload).clients.contains_key(other),
        daemon.answered(token, payload).clients[other] == daemon.clients[other],
{
}

/// A token has one purpose: no client is also a pane, and neither is the
/// listener or the waker.
pub proof fn tokens_have_one_purpose(daemon: DaemonView, token: Token)
    requires
        daemon.wf(),
    ensures
        !(daemon.clients.contains_key(token) && daemon.state.panes.contains_key(token)),
        daemon.clients.contains_key(token) ==> source_of(daemon, token) == Source::Client,
        daemon.state.panes.contains_key(token) ==> source_of(daemon, token) == Source::Pane,
{
}

/// Two sessions never show the same pane.
pub proof fn sessions_have_their_own_panes(state: StateView, a: SessionId, b: SessionId)
    requires
        state.wf(),
        state.sessions.contains_key(a),
        state.sessions.contains_key(b),
        a != b,
    ensures
        state.sessions[a].root_pane != state.sessions[b].root_pane,
{
}

/// Once a session is there, whoever attaches to it follows its pane and is
/// told the name under which the pane can be reached.
pub proof fn new_sessions_can_be_attached(daemon: DaemonView, conn: ConnView)
    requires
        daemon.wf(),
        daemon.stage() == Stage::Started,
        conn.handshaken,
    ensures
        ({
            let o = daemon.opening->0;
            let pane = o.pane->0;
            let after = daemon.opened();
            let h = handled(conn, after.state, ClientMsg::Attach { session: o.new.session });
            &&& h.conn == conn.attached(Some(o.new.token)).queued(DaemonMsg::AttachOk { pane })
            &&& h.state == after.state
            &&& after.clients[o.client].attached_pane == Some(o.new.token)
            &&& after.state.pane_named(pane) is Some
            &&& after.state.pane_token_by_id[pane] == o.new.token
        }),
{
}

/// The input of clients reaches a pane in the order in which it was sent, and
/// no other pane.
pub proof fn input_keeps_its_order(
    conn: ConnView,
    state: StateView,
    pane: PaneId,
    a: Seq<u8>,
    b: Seq<u8>,
)
    requires
        conn.handshaken,
        state.wf(),
        state.pane_named(pane) is Some,
    ensures
        ({
            let first = handled(conn, state, ClientMsg::Stdin { pane, data: a });
            let second = handled(first.conn, first.state, ClientMsg::Stdin { pane, data: b });
            &&& second.conn == conn
            &&& second.state.pane_named(pane)->0.write_buf == state.pane_named(pane)->0.write_buf
                + a + b
            &&& forall|other: PaneId|
                other != pane ==> #[trigger] second.state.pane_named(other) == state.pane_named(
                    other,
                )
        }),
{
    let token = state.pane_token_by_id[pane];
    let first = handled(conn, state, ClientMsg::Stdin { pane, data: a });
    let second = handled(first.conn, first.state, ClientMsg::Stdin { pane, data: b });
    assert forall|other: PaneId| other != pane implies #[trigger] second.state.pane_named(other)
        == state.pane_named(other) by {
        if state.pane_token_by_id.contains_key(other) {
            assert(state.pane_token_by_id[other] != token);
        }
    }
}

/// The output of a pane reaches each client that follows it, once, behind what
/// already waits for that client. Other clients get nothing, and the pane
/// keeps nothing.
pub proof fn output_reaches_followers(
    daemon: DaemonView,
    token: Token,
    data: Seq<u8>,
    client: Token,
)
    requires
        daemon.wf(),
        daemon.state.panes.contains_key(token),
        daemon.clients.contains_key(client),
        data.len() > 0,
    ensures
        ({
            let conn = daemon.clients[client];
            let after = daemon.fanned_out(token, data);
            let msg = DaemonMsg::PaneData { pane: daemon.state.panes[token].id, data };
            &&& after.clients[client] == if followers(daemon.clients, token).contains(client) {
                conn.queued(msg)
            } else {
                conn
            }
            &&& after.clients.dom() == daemon.clients.dom()
            &&& after.state == daemon.state
        }),
{
    let pane = daemon.state.panes[token];
    let after = daemon.fanned_out(token, data);
    assert(pane.buf + data =~= data);
    assert(pane.buf =~= Seq::<u8>::empty());
    assert(after.state.panes =~= daemon.state.panes);
    assert(after.clients.dom() =~= daemon.clients.dom());
}

/// A client that has detached gets no output of any pane.
pub proof fn detached_clients_get_no_output(
    daemon: DaemonView,
    client: Token,
    token: Token,
    data: Seq<u8>,
)
    requires
        daemon.clients.contains_key(client),
        daemon.clients[client].handshaken,
    ensures
        ({
            let conn = handled(daemon.clients[client], daemon.state, ClientMsg::Detach).conn;
            let after = daemon.client_set(client, conn);
            after.fanned_out(token, data).clients[client] == conn
        }),
{
}

/// With a pane go the clients that followed it, and no others. Its name means
/// nothing any more; the other panes and the sessions stay as they are.
pub proof fn shutdown_takes_followers_along(daemon: DaemonView, token: Token, conn: ConnView)
    requires
        daemon.wf(),
        daemon.state.panes.contains_key(token),
        conn.handshaken,
    ensures
        ({
            let after = daemon.shut_down(token);
            let id = daemon.state.panes[token].id;
            &&& forall|c: Token| #[trigger]
                after.clients.contains_key(c) <==> daemon.clients.contains_key(c)
                    && daemon.clients[c].attached_pane != Some(token)
            &&& forall|c: Token| #[trigger]
                after.clients.contains_key(c) ==> after.clients[c] == daemon.clients[c]
            &&& after.state.pane_named(id) is None
            &&& forall|other: PaneId|
                other != id ==> #[trigger] after.state.pane_named(other)
                    == daemon.state.pane_named(other)
            &&& after.state.sessions == daemon.state.sessions
            &&& forall|data: Seq<u8>|
                (#[trigger] handled(conn, after.state, ClientMsg::Stdin { pane: id, data })).conn
                    == conn.queued(DaemonMsg::Error { message: no_pane_text(id) })
        }),
{
    let after = daemon.shut_down(token);
    let id = daemon.state.panes[token].id;
    assert forall|other: PaneId| other != id implies #[trigger] after.state.pane_named(other)
        == daemon.state.pane_named(other) by {
        if daemon.state.pane_token_by_id.contains_key(other) {
            assert(daemon.state.pane_token_by_id[other] != token);
        }
    }
}

/// Raw modes hold none of the bits that are to be cleared and all of those
/// that are to be set. Making raw modes raw changes nothing.
pub proof fn raw_modes_are_raw(modes: Modes, bits: Modes)
    ensures
        raw(modes, bits).input & bits.input == 0,
        raw(modes, bits).output & bits.output == 0,
        raw(modes, bits).local & bits.local == 0,
        raw(modes, bits).control & bits.control == bits.control,
        raw(raw(modes, bits), bits) == raw(modes, bits),
{
    lemma_clear(modes.input, bits.input);
    lemma_clear(modes.output, bits.output);
    lemma_clear(modes.local, bits.local);
    let m = modes.control;
    let b = bits.control;
    assert((m | b) & b == b && (m | b) | b == (m | b)) by (bit_vector);
}

/// In raw modes a terminal does nothing of its own to what is typed and shown,
/// and characters have eight bits.
pub proof fn raw_modes_hand_everything_on(modes: Modes, flags: Flags)
    ensures
        ({
            let made = raw(modes, raw_bits_of(flags));
            &&& made.input & flags.brkint == 0
            &&& made.input & flags.icrnl == 0
            &&& made.input & flags.inpck == 0
            &&& made.input & flags.istrip == 0
            &&& made.input & flags.ixon == 0
            &&& made.output & flags.opost == 0
            &&& made.control & flags.cs8 == flags.cs8
            &&& made.local & flags.echo == 0
            &&& made.local & flags.icanon == 0
            &&& made.local & flags.iexten == 0
            &&& made.local & flags.isig == 0
        }),
{
    let i = modes.input;
    let (a, b, c, d, e) = (flags.brkint, flags.icrnl, flags.inpck, flags.istrip, flags.ixon);
    assert((i & !(a | b | c | d | e)) & a == 0 && (i & !(a | b | c | d | e)) & b == 0 && (i & !(a
        | b | c | d | e)) & c == 0 && (i & !(a | b | c | d | e)) & d == 0 && (i & !(a | b | c | d
        | e)) & e == 0) by (bit_vector);
    let l = modes.local;
    let (p, q, r, s) = (flags.echo, flags.icanon, flags.iexten, flags.isig);
    assert((l & !(p | q | r | s)) & p == 0 && (l & !(p | q | r | s)) & q == 0 && (l & !(p | q | r
        | s)) & r == 0 && (l & !(p | q | r | s)) & s == 0) by (bit_vector);
    raw_modes_are_raw(modes, raw_bits_of(flags));
}

proof fn lemma_clear(m: u32, b: u32)
    ensures
        (m & !b) & b == 0,
        (m & !b) & !b == m & !b,
{
    assert((m & !b) & b == 0 && (m & !b) & !b == m & !b) by (bit_vector);
}

} // verus!
