//! What each request of a client leads to.

use vstd::prelude::*;
use vstd::utf8::*;

use crate::conn::{
    can_serve, created, handled, initial_conn, ConnView, EffectView, NewSessionView,
};
use crate::frame::{
    all_short, frame, joined, leftover, lemma_joined_push, payloads, payloads_invert_joining,
};
use crate::laws::messages::refusals_name_what_was_asked_for;
use crate::protocol::{Capability, ClientMsg, DaemonMsg, DaemonToClient, Message, PaneId, SessionId};
use crate::replies::{
    capability_names, lost_pane_text, mismatch_text, no_pane_text, no_session_text,
    second_hello_text,
};
use crate::state::{PaneView, SessionView, StateView, Token};
use crate::text::{decimal, lemma_u64_decimal_len};
use crate::wire::{daemon_parsed, daemon_wire, lemma_daemon_wire_len};

verus! {

/// Whether a queue has gained some messages and nothing else: behind what was
/// there stand frames that decode to those messages, in their order.
pub open spec fn gains(before: Seq<u8>, after: Seq<u8>, msgs: Seq<DaemonMsg>) -> bool {
    let added = after.skip(before.len() as int);
    &&& before.is_prefix_of(after)
    &&& payloads(added).len() == msgs.len()
    &&& leftover(added).len() == 0
    &&& forall|i: int|
        0 <= i < msgs.len() ==> daemon_parsed(#[trigger] payloads(added)[i]) == Ok::<
            DaemonMsg,
            Seq<char>,
        >(msgs[i])
}

proof fn lemma_gains(before: Seq<u8>, msgs: Seq<DaemonMsg>)
    requires
        forall|i: int|
            0 <= i < msgs.len() ==> daemon_wire(#[trigger] msgs[i]).len() < 0x1_0000_0000,
    ensures
        gains(before, before + joined(msgs.map_values(|m: DaemonMsg| daemon_wire(m))), msgs),
{
    let list = msgs.map_values(|m: DaemonMsg| daemon_wire(m));
    let after = before + joined(list);
    assert(after.skip(before.len() as int) =~= joined(list));
    assert(before.is_prefix_of(after));
    assert(all_short(list));
    payloads_invert_joining(list, Seq::empty());
    assert(joined(list) + Seq::<u8>::empty() =~= joined(list));
    assert forall|i: int| 0 <= i < msgs.len() implies daemon_parsed(#[trigger] list[i]) == Ok::<
        DaemonMsg,
        Seq<char>,
    >(msgs[i]) by {
        assert(list[i] == daemon_wire(msgs[i]));
        <DaemonToClient as Message>::lemma_round_trip(msgs[i], Seq::empty());
        assert(list[i] + Seq::<u8>::empty() =~= list[i]);
    }
}

proof fn lemma_gains_one(before: Seq<u8>, msg: DaemonMsg)
    requires
        daemon_wire(msg).len() < 0x1_0000_0000,
    ensures
        gains(before, before + frame(daemon_wire(msg)), seq![msg]),
{
    let list = seq![msg].map_values(|m: DaemonMsg| daemon_wire(m));
    lemma_joined_push(Seq::empty(), daemon_wire(msg));
    assert(list =~= Seq::<Seq<u8>>::empty().push(daemon_wire(msg)));
    assert(joined(list) =~= frame(daemon_wire(msg)));
    lemma_gains(before, seq![msg]);
}

proof fn lemma_gains_two(before: Seq<u8>, a: DaemonMsg, b: DaemonMsg)
    requires
        daemon_wire(a).len() < 0x1_0000_0000,
        daemon_wire(b).len() < 0x1_0000_0000,
    ensures
        gains(before, before + frame(daemon_wire(a)) + frame(daemon_wire(b)), seq![a, b]),
{
    let msgs = seq![a, b];
    let list = msgs.map_values(|m: DaemonMsg| daemon_wire(m));
    let one = Seq::<Seq<u8>>::empty().push(daemon_wire(a));
    lemma_joined_push(Seq::empty(), daemon_wire(a));
    lemma_joined_push(one, daemon_wire(b));
    assert(list =~= one.push(daemon_wire(b)));
    assert(joined(one) =~= frame(daemon_wire(a)));
    assert(before + joined(list) =~= before + frame(daemon_wire(a)) + frame(daemon_wire(b)));
    lemma_gains(before, msgs);
}

proof fn lemma_short_text(text: Seq<char>)
    requires
        text.len() <= 100,
    ensures
        daemon_wire(DaemonMsg::Error { message: text }).len() < 0x1_0000_0000,
{
    crate::codec::lemma_utf8_len(text);
    lemma_daemon_wire_len(DaemonMsg::Error { message: text });
}

proof fn lemma_short_texts(version: u16, id: u64)
    ensures
        daemon_wire(DaemonMsg::Error { message: mismatch_text(version) }).len() < 0x1_0000_0000,
        daemon_wire(DaemonMsg::Error { message: "send Hello first"@ }).len() < 0x1_0000_0000,
        daemon_wire(DaemonMsg::Error { message: no_session_text(id) }).len() < 0x1_0000_0000,
        daemon_wire(DaemonMsg::Error { message: no_pane_text(id) }).len() < 0x1_0000_0000,
        daemon_wire(DaemonMsg::Error { message: lost_pane_text() }).len() < 0x1_0000_0000,
{
    reveal_strlit("protocol mismatch: daemon 1, client ");
    reveal_strlit("send Hello first");
    reveal_strlit("no such session ");
    reveal_strlit("no such pane ");
    reveal_strlit("pane token missing");
    lemma_u64_decimal_len(version as u64);
    lemma_u64_decimal_len(id);
    refusals_name_what_was_asked_for(version, id, Seq::empty());
    lemma_short_text(mismatch_text(version));
    lemma_short_text("send Hello first"@);
    lemma_short_text(no_session_text(id));
    lemma_short_text(no_pane_text(id));
    lemma_short_text(lost_pane_text());
}

/// A message that is queued for a client is what the client will decode, and
/// queueing it changes nothing else.
pub proof fn queued_messages_can_be_decoded(conn: ConnView, msg: DaemonMsg)
    ensures
        conn.queued(msg).write_buf == conn.write_buf + frame(daemon_wire(msg)),
        daemon_wire(msg).len() < 0x1_0000_0000 ==> gains(
            conn.write_buf,
            conn.queued(msg).write_buf,
            seq![msg],
        ),
        conn.queued(msg).inbound == conn.inbound,
        conn.queued(msg).handshaken == conn.handshaken,
        conn.queued(msg).attached_pane == conn.attached_pane,
{
    if daemon_wire(msg).len() < 0x1_0000_0000 {
        lemma_gains_one(conn.write_buf, msg);
    }
}

/// A payload that is queued for a client stands behind what waits already, with
/// its length in front of it.
pub proof fn queued_payloads_are_framed(conn: ConnView, payload: Seq<u8>)
    requires
        payload.len() < 0x1_0000_0000,
    ensures
        ({
            let after = conn.queued_encoded(payload);
            let added = after.write_buf.skip(conn.write_buf.len() as int);
            &&& conn.write_buf.is_prefix_of(after.write_buf)
            &&& payloads(added) == seq![payload]
            &&& leftover(added).len() == 0
            &&& after.inbound == conn.inbound
            &&& after.handshaken == conn.handshaken
            &&& after.attached_pane == conn.attached_pane
        }),
{
    let after = conn.queued_encoded(payload);
    let added = after.write_buf.skip(conn.write_buf.len() as int);
    let list = seq![payload];
    lemma_joined_push(Seq::empty(), payload);
    assert(list =~= Seq::<Seq<u8>>::empty().push(payload));
    assert(added =~= joined(list));
    assert(all_short(list));
    payloads_invert_joining(list, Seq::empty());
    assert(joined(list) + Seq::<u8>::empty() =~= joined(list));
}

/// A new client has sent nothing, waits for nothing, has not said hello and
/// follows no pane.
pub proof fn new_clients_start_with_nothing()
    ensures
        initial_conn().inbound.len() == 0,
        initial_conn().write_buf.len() == 0,
        !initial_conn().handshaken,
        initial_conn().attached_pane is None,
{
}

/// The first hello of the right version is acknowledged and opens the door.
pub proof fn hello_opens_the_door(
    conn: ConnView,
    state: StateView,
    version: u16,
    capabilities: Seq<Capability>,
)
    requires
        !conn.handshaken,
    ensures
        ({
            let h = handled(conn, state, ClientMsg::Hello { version, capabilities });
            &&& h.state == state
            &&& h.effect == EffectView::Done
            &&& h.conn.handshaken <==> version == 1
            &&& h.conn.inbound == conn.inbound
            &&& h.conn.attached_pane == conn.attached_pane
            &&& gains(
                conn.write_buf,
                h.conn.write_buf,
                seq![
                    if version == 1 {
                        DaemonMsg::HelloAck { version: 1 }
                    } else {
                        DaemonMsg::Error {
                            message: "protocol mismatch: daemon 1, client "@ + decimal(
                                version as nat,
                            ),
                        }
                    },
                ],
            )
        }),
{
    lemma_short_texts(version, 0);
    refusals_name_what_was_asked_for(version, 0, Seq::empty());
    lemma_daemon_wire_len(DaemonMsg::HelloAck { version: 1 });
    if version == 1 {
        lemma_gains_one(conn.write_buf, DaemonMsg::HelloAck { version: 1 });
    } else {
        lemma_gains_one(
            conn.write_buf,
            DaemonMsg::Error {
                message: "protocol mismatch: daemon 1, client "@ + decimal(version as nat),
            },
        );
    }
}

/// Whoever has not said hello is told to, whatever else they ask, and nothing
/// is done for them.
pub proof fn hello_comes_first(conn: ConnView, state: StateView, msg: ClientMsg)
    requires
        !conn.handshaken,
        msg !is Hello,
    ensures
        ({
            let h = handled(conn, state, msg);
            &&& h.state == state
            &&& h.effect == EffectView::Done
            &&& h.conn == (ConnView { write_buf: h.conn.write_buf, ..conn })
            &&& gains(
                conn.write_buf,
                h.conn.write_buf,
                seq![DaemonMsg::Error { message: "send Hello first"@ }],
            )
        }),
{
    lemma_short_texts(0, 0);
    lemma_gains_one(conn.write_buf, DaemonMsg::Error { message: "send Hello first"@ });
}

/// A ping is answered by a pong with the same number, and does nothing else.
pub proof fn pings_come_back(conn: ConnView, state: StateView, nonce: u64)
    requires
        conn.handshaken,
    ensures
        ({
            let h = handled(conn, state, ClientMsg::Ping(nonce));
            &&& h.state == state
            &&& h.effect == EffectView::Done
            &&& h.conn == (ConnView { write_buf: h.conn.write_buf, ..conn })
            &&& gains(conn.write_buf, h.conn.write_buf, seq![DaemonMsg::Pong(nonce)])
        }),
{
    lemma_daemon_wire_len(DaemonMsg::Pong(nonce));
    lemma_gains_one(conn.write_buf, DaemonMsg::Pong(nonce));
}

/// Whoever detaches follows no pane any more, and is told so by a pong of zero.
pub proof fn detaching_is_confirmed(conn: ConnView, state: StateView)
    requires
        conn.handshaken,
    ensures
        ({
            let h = handled(conn, state, ClientMsg::Detach);
            &&& h.state == state
            &&& h.effect == EffectView::Done
            &&& h.conn == (ConnView {
                write_buf: h.conn.write_buf,
                attached_pane: None,
                ..conn
            })
            &&& gains(conn.write_buf, h.conn.write_buf, seq![DaemonMsg::Pong(0)])
        }),
{
    lemma_daemon_wire_len(DaemonMsg::Pong(0));
    lemma_gains_one(conn.write_buf, DaemonMsg::Pong(0));
}

/// Whoever attaches to a session follows its pane, and is told the name of that
/// pane, or zero where the pane is gone. Where there is no such session, they
/// are told that, and follow what they followed.
pub proof fn attaching_follows_the_session(conn: ConnView, state: StateView, session: SessionId)
    requires
        conn.handshaken,
    ensures
        ({
            let h = handled(conn, state, ClientMsg::Attach { session });
            let root = state.sessions[session].root_pane;
            let known = state.sessions.contains_key(session);
            &&& h.state == state
            &&& h.effect == EffectView::Done
            &&& h.conn == (ConnView {
                write_buf: h.conn.write_buf,
                attached_pane: if known {
                    Some(root)
                } else {
                    conn.attached_pane
                },
                ..conn
            })
            &&& gains(
                conn.write_buf,
                h.conn.write_buf,
                seq![
                    if !known {
                        DaemonMsg::Error {
                            message: "no such session "@ + decimal(session as nat),
                        }
                    } else if state.panes.contains_key(root) {
                        DaemonMsg::AttachOk { pane: state.panes[root].id }
                    } else {
                        DaemonMsg::AttachOk { pane: 0 }
                    },
                ],
            )
        }),
{
    let root = state.sessions[session].root_pane;
    lemma_short_texts(0, session);
    refusals_name_what_was_asked_for(0, session, Seq::empty());
    if !state.sessions.contains_key(session) {
        lemma_gains_one(
            conn.write_buf,
            DaemonMsg::Error { message: "no such session "@ + decimal(session as nat) },
        );
    } else {
        let pane = if state.panes.contains_key(root) {
            state.panes[root].id
        } else {
            0
        };
        lemma_daemon_wire_len(DaemonMsg::AttachOk { pane });
        lemma_gains_one(conn.write_buf, DaemonMsg::AttachOk { pane });
    }
}

/// Input for a pane that is there goes behind the input that waits for that
/// pane, all of it, and asks for a write to that pane, whatever the input. No
/// reply is given, and nothing else changes.
pub proof fn input_is_written_to_its_pane(
    conn: ConnView,
    state: StateView,
    pane: PaneId,
    data: Seq<u8>,
)
    requires
        conn.handshaken,
        state.pane_token_by_id.contains_key(pane),
        state.panes.contains_key(state.pane_token_by_id[pane]),
    ensures
        ({
            let h = handled(conn, state, ClientMsg::Stdin { pane, data });
            let token = state.pane_token_by_id[pane];
            &&& h.effect == EffectView::WritePane(token)
            &&& h.conn == conn
            &&& h.state.panes.dom() == state.panes.dom()
            &&& h.state.panes[token].write_buf == state.panes[token].write_buf + data
            &&& h.state.panes[token].buf == state.panes[token].buf
            &&& h.state.panes[token].id == state.panes[token].id
            &&& forall|t: Token|
                t != token && #[trigger] state.panes.contains_key(t) ==> h.state.panes[t]
                    == state.panes[t]
            &&& h.state == (StateView { panes: h.state.panes, ..state })
        }),
{
    let h = handled(conn, state, ClientMsg::Stdin { pane, data });
    assert(h.state.panes.dom() =~= state.panes.dom());
}

/// Input for a pane that is not there is refused, and nothing is written.
pub proof fn input_needs_a_pane(conn: ConnView, state: StateView, pane: PaneId, data: Seq<u8>)
    requires
        conn.handshaken,
        !state.pane_token_by_id.contains_key(pane) || !state.panes.contains_key(
            state.pane_token_by_id[pane],
        ),
    ensures
        ({
            let h = handled(conn, state, ClientMsg::Stdin { pane, data });
            &&& h.state == state
            &&& h.effect == EffectView::Done
            &&& h.conn == (ConnView { write_buf: h.conn.write_buf, ..conn })
            &&& gains(
                conn.write_buf,
                h.conn.write_buf,
                seq![
                    DaemonMsg::Error {
                        message: if state.pane_token_by_id.contains_key(pane) {
                            "pane token missing"@
                        } else {
                            "no such pane "@ + decimal(pane as nat)
                        },
                    },
                ],
            )
        }),
{
    lemma_short_texts(0, pane);
    refusals_name_what_was_asked_for(0, pane, Seq::empty());
    let message = if state.pane_token_by_id.contains_key(pane) {
        "pane token missing"@
    } else {
        "no such pane "@ + decimal(pane as nat)
    };
    lemma_gains_one(conn.write_buf, DaemonMsg::Error { message });
}

/// A new size is passed on to the pane as it is, and is ignored where there is
/// no such pane. It is never answered, and changes nothing.
pub proof fn sizes_are_passed_on(
    conn: ConnView,
    state: StateView,
    pane: PaneId,
    cols: u16,
    rows: u16,
)
    requires
        conn.handshaken,
    ensures
        ({
            let h = handled(conn, state, ClientMsg::Resize { pane, cols, rows });
            &&& h.state == state
            &&& h.conn == conn
            &&& h.effect == if state.pane_token_by_id.contains_key(pane)
                && state.panes.contains_key(state.pane_token_by_id[pane]) {
                EffectView::ResizePane { token: state.pane_token_by_id[pane], cols, rows }
            } else {
                EffectView::Done
            }
        }),
{
}

/// A new session gets the next number, its pane the next token, and both
/// counters go up by one. The shell is started before anything is answered.
pub proof fn sessions_are_numbered_in_order(conn: ConnView, state: StateView, name: Seq<char>)
    requires
        conn.handshaken,
        state.room_for_session(),
    ensures
        ({
            let h = handled(conn, state, ClientMsg::CreateSession { name });
            &&& h.conn == conn
            &&& h.effect == EffectView::OpenPane(
                NewSessionView {
                    session: state.next_session_id,
                    name,
                    token: state.next_token,
                },
            )
            &&& h.state.next_session_id == state.next_session_id + 1
            &&& h.state.next_token == state.next_token + 1
            &&& h.state == (StateView {
                next_session_id: h.state.next_session_id,
                next_token: h.state.next_token,
                ..state
            })
        }),
{
}

/// A second hello is answered by an error that quotes it, and changes nothing.
pub proof fn second_hellos_are_refused(
    conn: ConnView,
    state: StateView,
    version: u16,
    capabilities: Seq<Capability>,
)
    requires
        conn.handshaken,
    ensures
        ({
            let h = handled(conn, state, ClientMsg::Hello { version, capabilities });
            let reply = DaemonMsg::Error {
                message: "unsupported request: Hello { version: "@ + decimal(version as nat)
                    + ", capabilities: ["@ + capability_names(capabilities) + "] }"@,
            };
            &&& h.state == state
            &&& h.effect == EffectView::Done
            &&& h.conn == (ConnView { write_buf: h.conn.write_buf, ..conn })
            &&& h.conn.write_buf == conn.write_buf + frame(daemon_wire(reply))
            &&& daemon_wire(reply).len() < 0x1_0000_0000 ==> gains(
                conn.write_buf,
                h.conn.write_buf,
                seq![reply],
            )
        }),
{
    let message = second_hello_text(version, capabilities);
    queued_messages_can_be_decoded(conn, DaemonMsg::Error { message });
}

/// Only two requests of a client that has said hello can find the daemon
/// exhausted: one for a session that cannot be numbered, and a second hello that
/// cannot be quoted.
pub proof fn few_requests_exhaust_the_daemon(conn: ConnView, state: StateView, msg: ClientMsg)
    ensures
        !can_serve(conn, state, msg) <==> conn.handshaken && match msg {
            ClientMsg::CreateSession { name } => state.next_session_id == u64::MAX
                || state.next_token == usize::MAX,
            ClientMsg::Hello { version, capabilities } => encode_utf8(
                second_hello_text(version, capabilities),
            ).len() + 12 > isize::MAX,
            _ => false,
        },
{
    if let ClientMsg::Hello { version, capabilities } = msg {
        crate::laws::messages::errors_fit_with_their_text(
            second_hello_text(version, capabilities),
        );
    }
}

/// Once the shell of a new session has started, the client is told the number
/// under which the session is recorded and then the name of its pane, and
/// follows that pane. Attaching to the number that was told leads to the new
/// pane, and the name that was told leads there too.
pub proof fn new_sessions_are_announced(
    conn: ConnView,
    state: StateView,
    new: NewSessionView,
    pane: PaneId,
    other: ConnView,
)
    requires
        other.handshaken,
    ensures
        ({
            let h = created(conn, state, new, pane);
            let attached = handled(other, h.state, ClientMsg::Attach { session: new.session });
            &&& h.effect == EffectView::Done
            &&& h.conn.inbound == conn.inbound
            &&& h.conn.handshaken == conn.handshaken
            &&& h.conn.attached_pane == Some(new.token)
            &&& gains(
                conn.write_buf,
                h.conn.write_buf,
                seq![
                    DaemonMsg::SessionCreated { session: new.session },
                    DaemonMsg::AttachOk { pane },
                ],
            )
            &&& h.state.sessions == state.sessions.insert(
                new.session,
                SessionView { id: new.session, name: new.name, root_pane: new.token },
            )
            &&& h.state.panes == state.panes.insert(
                new.token,
                PaneView { id: pane, buf: Seq::empty(), write_buf: Seq::empty() },
            )
            &&& h.state.pane_token_by_id == state.pane_token_by_id.insert(pane, new.token)
            &&& h.state.next_session_id == state.next_session_id
            &&& h.state.next_pane_id == state.next_pane_id
            &&& h.state.next_token == state.next_token
            &&& attached.conn.attached_pane == Some(new.token)
            &&& gains(
                other.write_buf,
                attached.conn.write_buf,
                seq![DaemonMsg::AttachOk { pane }],
            )
        }),
{
    lemma_daemon_wire_len(DaemonMsg::SessionCreated { session: new.session });
    lemma_daemon_wire_len(DaemonMsg::AttachOk { pane });
    lemma_gains_two(
        conn.write_buf,
        DaemonMsg::SessionCreated { session: new.session },
        DaemonMsg::AttachOk { pane },
    );
    attaching_follows_the_session(other, created(conn, state, new, pane).state, new.session);
}

} // verus!
