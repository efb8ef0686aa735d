//! What messages, texts and settings mean.

use vstd::prelude::*;
use vstd::string::*;
use vstd::utf8::*;

use crate::bytes::le_bytes;
use crate::client::{
    is_welcome, parsed_command, raw, raw_bits_of, request_of, texts, Command, CommandView, Flags,
    Modes, UsageError,
};
use crate::codec::{
    bad_text_text, blob_at_front, int_at_front, len_at_front, oversize_text, text_at_front,
    truncated_text,
};
use crate::conn::{Effect, EffectView, NewSession, ReadStep, ReadStepView};
use crate::paths::socket_of;
use crate::protocol::{
    Capability, ClientMsg, ClientToDaemon, DaemonMsg, DaemonToClient, ProtocolError, SessionId,
};
use crate::replies::{
    capability_name, capability_names, error_fits, hello_first_text, lost_pane_text, mismatch_text,
    no_pane_text, no_session_text, second_hello_text, write_failed_text,
};
use crate::state::{Pane, Session, Token};
use crate::text::{decimal, decimal_round_trip, parsed_u64, parsing_inverts_printing};
use crate::wire::{
    capabilities_at_front, capabilities_bytes, capabilities_from, capability_at_front,
    capability_index, client_parsed, client_wire, daemon_parsed, daemon_wire,
    lemma_daemon_wire_len,
};

verus! {

/// What is said of a request is said of all of it: requests with the same
/// contents have the same fields.
pub proof fn requests_are_their_contents(msg: ClientToDaemon)
    ensures
        match msg {
            ClientToDaemon::Hello { version, capabilities } => msg@ == (ClientMsg::Hello {
                version,
                capabilities: capabilities@,
            }),
            ClientToDaemon::CreateSession { name } => msg@ == (ClientMsg::CreateSession {
                name: name@,
            }),
            ClientToDaemon::Attach { session } => msg@ == (ClientMsg::Attach { session }),
            ClientToDaemon::Detach => msg@ == ClientMsg::Detach,
            ClientToDaemon::Stdin { pane, data } => msg@ == (ClientMsg::Stdin {
                pane,
                data: data@,
            }),
            ClientToDaemon::Resize { pane, cols, rows } => msg@ == (ClientMsg::Resize {
                pane,
                cols,
                rows,
            }),
            ClientToDaemon::Ping(nonce) => msg@ == ClientMsg::Ping(nonce),
        },
{
}

/// What is said of a reply is said of all of it: replies with the same contents
/// have the same fields.
pub proof fn replies_are_their_contents(msg: DaemonToClient)
    ensures
        match msg {
            DaemonToClient::HelloAck { version } => msg@ == (DaemonMsg::HelloAck { version }),
            DaemonToClient::SessionCreated { session } => msg@ == (DaemonMsg::SessionCreated {
                session,
            }),
            DaemonToClient::AttachOk { pane } => msg@ == (DaemonMsg::AttachOk { pane }),
            DaemonToClient::PaneData { pane, data } => msg@ == (DaemonMsg::PaneData {
                pane,
                data: data@,
            }),
            DaemonToClient::Error { message } => msg@ == (DaemonMsg::Error { message: message@ }),
            DaemonToClient::Pong(nonce) => msg@ == DaemonMsg::Pong(nonce),
        },
{
}

/// What is said of a session, a pane, a step, an effect or a command is said of
/// all of it.
pub proof fn values_are_their_contents(
    session: Session,
    pane: Pane,
    new: NewSession,
    payload: Vec<u8>,
    token: Token,
    cols: u16,
    rows: u16,
)
    ensures
        session@.id == session.id,
        session@.name == session.name@,
        session@.root_pane == session.root_pane,
        pane@.id == pane.id,
        pane@.buf == pane.buf@,
        pane@.write_buf == pane.write_buf@,
        new@.session == new.session,
        new@.name == new.name@,
        new@.token == new.token,
        ReadStep::Message(payload)@ == ReadStepView::Message(payload@),
        ReadStep::More@ == ReadStepView::More,
        ReadStep::Wait@ == ReadStepView::Wait,
        ReadStep::Closed@ == ReadStepView::Closed,
        ReadStep::Fail@ == ReadStepView::Fail,
        Effect::Done@ == EffectView::Done,
        Effect::OpenPane(new)@ == EffectView::OpenPane(new@),
        Effect::WritePane(token)@ == EffectView::WritePane(token),
        (Effect::ResizePane { token, cols, rows })@ == (EffectView::ResizePane {
            token,
            cols,
            rows,
        }),
        (Command::Create { name: new.name })@ == (CommandView::Create { name: new.name@ }),
        (Command::Attach { session: new.session })@ == (CommandView::Attach {
            session: new.session,
        }),
        Command::Ping@ == CommandView::Ping,
{
}

/// The bytes of every request: the number of its kind in four bytes, then its
/// fields in order. A sequence is its length in eight bytes, then its items; a
/// text is the sequence of its bytes in UTF-8.
pub proof fn requests_are_laid_out_field_by_field(
    version: u16,
    caps: Seq<Capability>,
    name: Seq<char>,
    id: u64,
    data: Seq<u8>,
    cols: u16,
    rows: u16,
)
    ensures
        client_wire(ClientMsg::Hello { version, capabilities: caps }) == le_bytes(0, 4) + le_bytes(
            version as nat,
            2,
        ) + capabilities_bytes(caps),
        client_wire(ClientMsg::CreateSession { name }) == le_bytes(1, 4) + le_bytes(
            encode_utf8(name).len(),
            8,
        ) + encode_utf8(name),
        client_wire(ClientMsg::Attach { session: id }) == le_bytes(2, 4) + le_bytes(id as nat, 8),
        client_wire(ClientMsg::Detach) == le_bytes(3, 4),
        client_wire(ClientMsg::Stdin { pane: id, data }) == le_bytes(4, 4) + le_bytes(id as nat, 8)
            + le_bytes(data.len(), 8) + data,
        client_wire(ClientMsg::Resize { pane: id, cols, rows }) == le_bytes(5, 4) + le_bytes(
            id as nat,
            8,
        ) + le_bytes(cols as nat, 2) + le_bytes(rows as nat, 2),
        client_wire(ClientMsg::Ping(id)) == le_bytes(6, 4) + le_bytes(id as nat, 8),
{
    let bytes = encode_utf8(name);
    assert(le_bytes(1, 4) + (le_bytes(bytes.len(), 8) + bytes) =~= le_bytes(1, 4) + le_bytes(
        bytes.len(),
        8,
    ) + bytes);
    let head = le_bytes(4, 4) + le_bytes(id as nat, 8);
    assert(head + (le_bytes(data.len(), 8) + data) =~= head + le_bytes(data.len(), 8) + data);
}

/// A list of capabilities is its length in eight bytes, then the number of each
/// one in four.
pub proof fn capabilities_are_listed_one_by_one(caps: Seq<Capability>, i: int)
    requires
        0 <= i < caps.len(),
    ensures
        capabilities_bytes(caps).len() == 8 + 4 * caps.len(),
        capabilities_bytes(caps).take(8) == le_bytes(caps.len(), 8),
        capabilities_bytes(caps).subrange(8 + 4 * i, 12 + 4 * i) == le_bytes(
            match caps[i] {
                Capability::SplitVertical => 0,
                Capability::SplitHorizontal => 1,
                Capability::Tabs => 2,
            },
            4,
        ),
{
    crate::bytes::lemma_le_bytes_len(caps.len(), 8);
    lemma_listed(caps, i);
    assert(capabilities_bytes(caps).take(8) =~= le_bytes(caps.len(), 8));
    let body = crate::wire::capabilities_body(caps);
    assert(capabilities_bytes(caps).subrange(8 + 4 * i, 12 + 4 * i) =~= body.subrange(
        4 * i,
        4 + 4 * i,
    ));
}

proof fn lemma_listed(caps: Seq<Capability>, i: int)
    requires
        0 <= i < caps.len(),
    ensures
        crate::wire::capabilities_body(caps).len() == 4 * caps.len(),
        crate::wire::capabilities_body(caps).subrange(4 * i, 4 + 4 * i) == le_bytes(
            capability_index(caps[i]),
            4,
        ),
    decreases caps.len(),
{
    let body = crate::wire::capabilities_body(caps);
    let more = crate::wire::capabilities_body(caps.drop_first());
    let first = le_bytes(capability_index(caps[0]), 4);
    crate::bytes::lemma_le_bytes_len(capability_index(caps[0]), 4);
    if caps.len() > 1 {
        lemma_listed(caps.drop_first(), if i == 0 { 0 } else { i - 1 });
    }
    if i == 0 {
        assert(body.subrange(0, 4) =~= first);
    } else {
        assert(body.subrange(4 * i, 4 + 4 * i) =~= more.subrange(4 * (i - 1), 4 + 4 * (i - 1)));
    }
}

/// The bytes of every reply, in the same way.
pub proof fn replies_are_laid_out_field_by_field(
    version: u16,
    id: u64,
    data: Seq<u8>,
    message: Seq<char>,
)
    ensures
        daemon_wire(DaemonMsg::HelloAck { version }) == le_bytes(0, 4) + le_bytes(
            version as nat,
            2,
        ),
        daemon_wire(DaemonMsg::SessionCreated { session: id }) == le_bytes(1, 4) + le_bytes(
            id as nat,
            8,
        ),
        daemon_wire(DaemonMsg::AttachOk { pane: id }) == le_bytes(2, 4) + le_bytes(id as nat, 8),
        daemon_wire(DaemonMsg::PaneData { pane: id, data }) == le_bytes(3, 4) + le_bytes(
            id as nat,
            8,
        ) + le_bytes(data.len(), 8) + data,
        daemon_wire(DaemonMsg::Error { message }) == le_bytes(4, 4) + le_bytes(
            encode_utf8(message).len(),
            8,
        ) + encode_utf8(message),
        daemon_wire(DaemonMsg::Pong(id)) == le_bytes(5, 4) + le_bytes(id as nat, 8),
{
    let bytes = encode_utf8(message);
    assert(le_bytes(4, 4) + (le_bytes(bytes.len(), 8) + bytes) =~= le_bytes(4, 4) + le_bytes(
        bytes.len(),
        8,
    ) + bytes);
    let head = le_bytes(3, 4) + le_bytes(id as nat, 8);
    assert(head + (le_bytes(data.len(), 8) + data) =~= head + le_bytes(data.len(), 8) + data);
}

/// A number in front of an input is missing exactly where the input is too
/// short for it.
pub proof fn numbers_are_missing_from_short_inputs(input: Seq<u8>, width: nat)
    ensures
        int_at_front(input, width) is Err <==> input.len() < width,
        int_at_front(input, width) is Err ==> int_at_front(input, width) == Err::<nat, Seq<char>>(
            truncated_text(input),
        ),
{
}

/// A length in front of an input is a number of eight bytes that some object
/// can have. Any other is named, and the largest beside it.
pub proof fn lengths_are_possible(input: Seq<u8>)
    ensures
        len_at_front(input) == match int_at_front(input, 8) {
            Err(reason) => Err::<nat, Seq<char>>(reason),
            Ok(n) => if n <= usize::MAX {
                Ok(n)
            } else {
                Err(
                    "Invalid size "@ + decimal(n) + ": sizes must fit in a usize (0 to "@ + decimal(
                        usize::MAX as nat,
                    ) + ")"@,
                )
            },
        },
{
}

/// Bytes in front of an input are missing where their length is, where no
/// object can be that long, and where the input is too short for them.
pub proof fn bytes_are_missing_from_short_inputs(input: Seq<u8>)
    ensures
        ({
            let len = int_at_front(input, 8)->Ok_0;
            blob_at_front(input) is Err <==> input.len() < 8 || len > usize::MAX || input.len() < 8
                + len
        }),
        input.len() < 8 ==> blob_at_front(input) == Err::<Seq<u8>, Seq<char>>(
            truncated_text(input),
        ),
        input.len() >= 8 && int_at_front(input, 8)->Ok_0 > usize::MAX ==> blob_at_front(input)
            == Err::<Seq<u8>, Seq<char>>(oversize_text(int_at_front(input, 8)->Ok_0)),
        input.len() >= 8 && int_at_front(input, 8)->Ok_0 <= usize::MAX && input.len() < 8
            + int_at_front(input, 8)->Ok_0 ==> blob_at_front(input) == Err::<Seq<u8>, Seq<char>>(
            truncated_text(input),
        ),
{
}

/// A text in front of an input is missing where its bytes are, and where they
/// are no UTF-8.
pub proof fn texts_are_missing_from_bad_inputs(input: Seq<u8>)
    ensures
        match blob_at_front(input) {
            Ok(bytes) => if valid_utf8(bytes) {
                text_at_front(input) == Ok::<Seq<char>, Seq<char>>(decode_utf8(bytes))
            } else {
                text_at_front(input) == Err::<Seq<char>, Seq<char>>(bad_text_text(input))
            },
            Err(reason) => text_at_front(input) == Err::<Seq<char>, Seq<char>>(
                if len_at_front(input) is Ok {
                    bad_text_text(input)
                } else {
                    reason
                },
            ),
        },
{
}

/// A capability is one of three numbers. A list that ends too early or holds
/// another number is refused for the first such item.
pub proof fn capabilities_are_read_one_by_one(input: Seq<u8>, count: nat)
    requires
        count > 0,
    ensures
        ({
            let n = int_at_front(input, 4);
            capability_at_front(input) == match n {
                Err(reason) => Err::<Capability, Seq<char>>(reason),
                Ok(n) => if n == 0 {
                    Ok(Capability::SplitVertical)
                } else if n == 1 {
                    Ok(Capability::SplitHorizontal)
                } else if n == 2 {
                    Ok(Capability::Tabs)
                } else {
                    Err(
                        "invalid value: integer `"@ + decimal(n)
                            + "`, expected variant index 0 <= i < 3"@,
                    )
                },
            }
        }),
        capabilities_from(input, 0) == Ok::<Seq<Capability>, Seq<char>>(Seq::empty()),
        match (
            capability_at_front(input),
            capabilities_from(input.skip(4), (count - 1) as nat),
        ) {
            (Err(reason), _) => capabilities_from(input, count) == Err::<
                Seq<Capability>,
                Seq<char>,
            >(reason),
            (Ok(c), Err(reason)) => capabilities_from(input, count) == Err::<
                Seq<Capability>,
                Seq<char>,
            >(reason),
            (Ok(c), Ok(more)) => capabilities_from(input, count) == Ok::<
                Seq<Capability>,
                Seq<char>,
            >(seq![c] + more),
        },
        match len_at_front(input) {
            Ok(n) => capabilities_at_front(input) == capabilities_from(input.skip(8), n),
            Err(reason) => capabilities_at_front(input) == Err::<Seq<Capability>, Seq<char>>(
                reason,
            ),
        },
{
    reveal_strlit("`, expected variant index 0 <= i < 3");
    reveal_strlit("`, expected variant index 0 <= i < ");
    if let Ok(n) = int_at_front(input, 4) {
        lemma_single_digits();
        assert("`, expected variant index 0 <= i < "@ + decimal(3)
            =~= "`, expected variant index 0 <= i < 3"@);
        assert("invalid value: integer `"@ + decimal(n) + "`, expected variant index 0 <= i < "@
            + decimal(3) =~= "invalid value: integer `"@ + decimal(n)
            + "`, expected variant index 0 <= i < 3"@);
    }
}

proof fn lemma_single_digits()
    ensures
        decimal(1) == seq!['1'],
        decimal(3) == seq!['3'],
        decimal(6) == seq!['6'],
        decimal(7) == seq!['7'],
{
    assert(decimal(1) =~= seq!['1']);
    assert(decimal(3) =~= seq!['3']);
    assert(decimal(6) =~= seq!['6']);
    assert(decimal(7) =~= seq!['7']);
}

/// A request whose kind is unknown is refused by a text that names the number.
pub proof fn unknown_requests_are_named(input: Seq<u8>, kind: nat)
    requires
        int_at_front(input, 4) == Ok::<nat, Seq<char>>(kind),
        kind >= 7,
    ensures
        client_parsed(input) == Err::<ClientMsg, Seq<char>>(
            "invalid value: integer `"@ + decimal(kind) + "`, expected variant index 0 <= i < 7"@,
        ),
{
    reveal_strlit("`, expected variant index 0 <= i < 7");
    reveal_strlit("`, expected variant index 0 <= i < ");
    lemma_single_digits();
    assert("invalid value: integer `"@ + decimal(kind) + "`, expected variant index 0 <= i < "@
        + decimal(7) =~= "invalid value: integer `"@ + decimal(kind)
        + "`, expected variant index 0 <= i < 7"@);
}

/// A reply whose kind is unknown is refused by a text that names the number.
pub proof fn unknown_replies_are_named(input: Seq<u8>, kind: nat)
    requires
        int_at_front(input, 4) == Ok::<nat, Seq<char>>(kind),
        kind >= 6,
    ensures
        daemon_parsed(input) == Err::<DaemonMsg, Seq<char>>(
            "invalid value: integer `"@ + decimal(kind) + "`, expected variant index 0 <= i < 6"@,
        ),
{
    reveal_strlit("`, expected variant index 0 <= i < 6");
    reveal_strlit("`, expected variant index 0 <= i < ");
    lemma_single_digits();
    assert("invalid value: integer `"@ + decimal(kind) + "`, expected variant index 0 <= i < "@
        + decimal(6) =~= "invalid value: integer `"@ + decimal(kind)
        + "`, expected variant index 0 <= i < 6"@);
}

/// A request that cannot be read is refused for the first of its fields that
/// cannot be read.
pub proof fn requests_are_refused_for_a_field(input: Seq<u8>, reason: Seq<char>)
    requires
        client_parsed(input) == Err::<ClientMsg, Seq<char>>(reason),
    ensures
        ({
            let fields = input.skip(4);
            match int_at_front(input, 4) {
                Err(e) => reason == e,
                Ok(kind) => {
                    &&& kind != 3
                    &&& kind == 0 ==> match int_at_front(fields, 2) {
                        Err(e) => reason == e,
                        Ok(_) => capabilities_at_front(fields.skip(2)) == Err::<
                            Seq<Capability>,
                            Seq<char>,
                        >(reason),
                    }
                    &&& kind == 1 ==> text_at_front(fields) == Err::<Seq<char>, Seq<char>>(reason)
                    &&& kind == 2 || kind == 6 ==> int_at_front(fields, 8) == Err::<
                        nat,
                        Seq<char>,
                    >(reason)
                    &&& kind == 4 ==> match int_at_front(fields, 8) {
                        Err(e) => reason == e,
                        Ok(_) => blob_at_front(fields.skip(8)) == Err::<Seq<u8>, Seq<char>>(
                            reason,
                        ),
                    }
                    &&& kind == 5 ==> match int_at_front(fields, 8) {
                        Err(e) => reason == e,
                        Ok(_) => match int_at_front(fields.skip(8), 2) {
                            Err(e) => reason == e,
                            Ok(_) => int_at_front(fields.skip(10), 2) == Err::<nat, Seq<char>>(
                                reason,
                            ),
                        },
                    }
                },
            }
        }),
{
}

/// A reply that cannot be read is refused for the first of its fields that
/// cannot be read.
pub proof fn replies_are_refused_for_a_field(input: Seq<u8>, reason: Seq<char>)
    requires
        daemon_parsed(input) == Err::<DaemonMsg, Seq<char>>(reason),
    ensures
        ({
            let fields = input.skip(4);
            match int_at_front(input, 4) {
                Err(e) => reason == e,
                Ok(kind) => {
                    &&& kind == 0 ==> int_at_front(fields, 2) == Err::<nat, Seq<char>>(reason)
                    &&& kind == 1 || kind == 2 || kind == 5 ==> int_at_front(fields, 8) == Err::<
                        nat,
                        Seq<char>,
                    >(reason)
                    &&& kind == 3 ==> match int_at_front(fields, 8) {
                        Err(e) => reason == e,
                        Ok(_) => blob_at_front(fields.skip(8)) == Err::<Seq<u8>, Seq<char>>(
                            reason,
                        ),
                    }
                    &&& kind == 4 ==> text_at_front(fields) == Err::<Seq<char>, Seq<char>>(reason)
                },
            }
        }),
{
}

/// The text of a protocol error is what went wrong, and then the version or the
/// reason that it carries.
pub proof fn protocol_errors_tell_their_reason(version: u16, reason: String)
    ensures
        ProtocolError::VersionMismatch(version).text()
            == "peer requested incompatible protocol version "@ + decimal(version as nat),
        ProtocolError::Decode(reason).text() == "decode error: "@ + reason@,
        ProtocolError::Encode(reason).text() == "encode error: "@ + reason@,
{
}

/// A number in decimal is that of its tens, and then the digit of its ones. It
/// does not start with a zero unless it is zero.
pub proof fn decimals_are_built_digit_by_digit(n: nat)
    ensures
        n < 10 ==> decimal(n) == seq![(48 + n) as char],
        n >= 10 ==> decimal(n) == decimal(n / 10) + seq![(48 + n % 10) as char],
        n > 0 ==> decimal(n)[0] != '0',
    decreases n,
{
    if n >= 10 {
        decimals_are_built_digit_by_digit(n / 10);
        decimal_round_trip(n / 10);
        assert(decimal(n) =~= decimal(n / 10) + seq![(48 + n % 10) as char]);
    }
}

/// A number is read digit by digit: each further digit counts ten times what
/// stands before it. Anything but a digit, behind a plus sign in front, makes
/// a text no number, and so does a number that is too large.
pub proof fn numbers_are_read_digit_by_digit(s: Seq<char>, c: char)
    ensures
        parsed_u64(Seq::empty()) is None,
        parsed_u64(seq!['+']) is None,
        parsed_u64(seq![c]) == if 48 <= c as int <= 57 {
            Some((c as int - 48) as u64)
        } else {
            None
        },
        parsed_u64(seq!['+', c]) == if 48 <= c as int <= 57 {
            Some((c as int - 48) as u64)
        } else {
            None
        },
        s.len() > 0 && s != seq!['+'] ==> parsed_u64(s.push(c)) == match parsed_u64(s) {
            Some(v) => if 48 <= c as int <= 57 && 10 * v + (c as int - 48) <= u64::MAX {
                Some((10 * v + (c as int - 48)) as u64)
            } else {
                None
            },
            None => None,
        },
{
    reveal_with_fuel(crate::text::decimal_value, 2);
    assert(seq![c].drop_last() =~= Seq::empty());
    assert(crate::text::decimal_value(Seq::empty()) == 0);
    assert(seq!['+', c].drop_first() =~= seq![c]);
    assert(seq!['+'].drop_first() =~= Seq::<char>::empty());
    if s.len() > 0 && s != seq!['+'] {
        let d = crate::text::strip_plus(s);
        assert(d.len() > 0) by {
            if d.len() == 0 {
                assert(s =~= seq!['+']);
            }
        }
        assert(crate::text::strip_plus(s.push(c)) =~= d.push(c));
        assert(d.push(c).drop_last() =~= d);
        assert(d.push(c).last() == c);
        assert(forall|i: int| 0 <= i < d.len() ==> d.push(c)[i] == d[i]);
        if crate::text::all_digits(d.push(c)) {
            assert(crate::text::is_digit(d.push(c)[d.len() as int]));
            assert forall|i: int| 0 <= i < d.len() implies crate::text::is_digit(
                #[trigger] d[i],
            ) by {
                assert(crate::text::is_digit(d.push(c)[i]));
            }
        }
    }
}

/// The texts of the daemon's refusals: what is wrong, and the number that the
/// client gave.
pub proof fn refusals_name_what_was_asked_for(version: u16, id: u64, reason: Seq<char>)
    ensures
        mismatch_text(version) == "protocol mismatch: daemon 1, client "@ + decimal(
            version as nat,
        ),
        hello_first_text() == "send Hello first"@,
        no_session_text(id) == "no such session "@ + decimal(id as nat),
        no_pane_text(id) == "no such pane "@ + decimal(id as nat),
        lost_pane_text() == "pane token missing"@,
        write_failed_text(reason) == "write failed: "@ + reason,
{
    reveal_strlit("protocol mismatch: daemon 1, client ");
    reveal_strlit("protocol mismatch: daemon ");
    reveal_strlit(", client ");
    lemma_single_digits();
    assert(mismatch_text(version) =~= "protocol mismatch: daemon 1, client "@ + decimal(
        version as nat,
    ));
}

/// The number in a refusal is the one that the client gave: reading it from the
/// text gives it back.
pub proof fn refusals_can_be_read_back(version: u16, id: u64)
    ensures
        parsed_u64(mismatch_text(version).skip(36)) == Some(version as u64),
        parsed_u64(no_session_text(id).skip(16)) == Some(id),
        parsed_u64(no_pane_text(id).skip(13)) == Some(id),
{
    refusals_name_what_was_asked_for(version, id, Seq::empty());
    reveal_strlit("protocol mismatch: daemon 1, client ");
    reveal_strlit("no such session ");
    reveal_strlit("no such pane ");
    parsing_inverts_printing(version as u64);
    parsing_inverts_printing(id);
    assert(mismatch_text(version).skip(36) =~= decimal(version as nat));
    assert(no_session_text(id).skip(16) =~= decimal(id as nat));
    assert(no_pane_text(id).skip(13) =~= decimal(id as nat));
}

/// A second hello is quoted in full: its version, and each of its capabilities,
/// with a comma and a space between two.
pub proof fn second_hellos_are_quoted(version: u16, caps: Seq<Capability>, c: Capability)
    ensures
        second_hello_text(version, caps) == "unsupported request: Hello { version: "@ + decimal(
            version as nat,
        ) + ", capabilities: ["@ + capability_names(caps) + "] }"@,
        capability_names(Seq::empty()) == Seq::<char>::empty(),
        capability_names(caps.push(c)) == if caps.len() == 0 {
            capability_name(c)
        } else {
            capability_names(caps) + ", "@ + capability_name(c)
        },
        capability_name(Capability::SplitVertical) == "SplitVertical"@,
        capability_name(Capability::SplitHorizontal) == "SplitHorizontal"@,
        capability_name(Capability::Tabs) == "Tabs"@,
{
    assert(caps.push(c).drop_last() =~= caps);
}

/// An error fits exactly where its text and twelve bytes more do.
pub proof fn errors_fit_with_their_text(text: Seq<char>)
    ensures
        error_fits(text) <==> encode_utf8(text).len() + 12 <= isize::MAX,
{
    lemma_daemon_wire_len(DaemonMsg::Error { message: text });
}

/// Only an acknowledgement of this version is a welcome.
pub proof fn welcomes_confirm_the_version(reply: DaemonMsg)
    ensures
        is_welcome(reply) <==> reply == (DaemonMsg::HelloAck { version: 1 }),
{
}

/// The word `create` names a session after the next word, or `default`.
pub proof fn create_names_the_session(args: Seq<Seq<char>>)
    requires
        args.len() >= 2,
        args[1] == "create"@,
    ensures
        ({
            let name = if args.len() == 2 {
                "default"@
            } else {
                args[2]
            };
            &&& parsed_command(args) == Ok::<CommandView, UsageError>(CommandView::Create { name })
            &&& request_of(parsed_command(args)->Ok_0) == (ClientMsg::CreateSession { name })
        }),
{
}

/// The word `attach` asks for the session with the number that follows, and
/// needs such a number.
pub proof fn attach_asks_for_the_number(args: Seq<Seq<char>>)
    requires
        args.len() >= 2,
        args[1] == "attach"@,
    ensures
        args.len() == 2 ==> parsed_command(args) == Err::<CommandView, UsageError>(
            UsageError::SessionRequired,
        ),
        args.len() > 2 ==> match parsed_u64(args[2]) {
            Some(n) => parsed_command(args) == Ok::<CommandView, UsageError>(
                CommandView::Attach { session: n },
            ) && request_of(parsed_command(args)->Ok_0) == (ClientMsg::Attach { session: n }),
            None => parsed_command(args) == Err::<CommandView, UsageError>(
                UsageError::SessionNotNumber,
            ),
        },
{
    reveal_strlit("create");
    reveal_strlit("attach");
    assert("create"@[0] != "attach"@[0]);
}

/// A session that was named by its number is the one that is asked for.
pub proof fn attach_reads_what_was_printed(args: Seq<Seq<char>>, session: SessionId)
    requires
        args.len() > 2,
        args[1] == "attach"@,
        args[2] == decimal(session as nat),
    ensures
        parsed_command(args) is Ok,
        request_of(parsed_command(args)->Ok_0) == (ClientMsg::Attach { session }),
{
    attach_asks_for_the_number(args);
    parsing_inverts_printing(session);
}

/// Any other word, and none, means a ping.
pub proof fn other_words_mean_a_ping(args: Seq<Seq<char>>)
    requires
        args.len() < 2 || (args[1] != "create"@ && args[1] != "attach"@),
    ensures
        parsed_command(args) is Ok,
        request_of(parsed_command(args)->Ok_0) == ClientMsg::Ping(42),
{
}

/// The arguments are taken word by word, as they are.
pub proof fn arguments_are_taken_as_they_are(args: Seq<String>, i: int)
    requires
        0 <= i < args.len(),
    ensures
        texts(args).len() == args.len(),
        texts(args)[i] == args[i]@,
{
}

/// The bits that raw modes turn on are those of the named flags and no others.
pub proof fn raw_bits_are_the_named_flags(flags: Flags)
    ensures
        raw_bits_of(flags).input == flags.brkint | flags.icrnl | flags.inpck | flags.istrip
            | flags.ixon,
        raw_bits_of(flags).output == flags.opost,
        raw_bits_of(flags).control == flags.cs8,
        raw_bits_of(flags).local == flags.echo | flags.icanon | flags.iexten | flags.isig,
{
}

/// Making modes raw touches none but the named bits.
pub proof fn raw_modes_keep_the_rest(modes: Modes, bits: Modes)
    ensures
        raw(modes, bits).input & !bits.input == modes.input & !bits.input,
        raw(modes, bits).output & !bits.output == modes.output & !bits.output,
        raw(modes, bits).local & !bits.local == modes.local & !bits.local,
        raw(modes, bits).control & !bits.control == modes.control & !bits.control,
{
    lemma_kept(modes.input, bits.input);
    lemma_kept(modes.output, bits.output);
    lemma_kept(modes.local, bits.local);
    lemma_kept(modes.control, bits.control);
}

proof fn lemma_kept(m: u32, b: u32)
    ensures
        (m & !b) & !b == m & !b,
        (m | b) & !b == m & !b,
{
    assert((m & !b) & !b == m & !b && (m | b) & !b == m & !b) by (bit_vector);
}

/// The socket lies in the directory that is set, under its own name, with one
/// separator between; else in the directory for temporary files.
pub proof fn the_socket_lies_in_its_directory(dir: Seq<u8>)
    ensures
        dir.len() > 0 && dir.last() != 0x2f ==> socket_of(Some(dir)) == dir + encode_utf8(
            "/mxr.sock"@,
        ),
        dir.len() > 0 && dir.last() == 0x2f ==> socket_of(Some(dir)) == dir + encode_utf8(
            "mxr.sock"@,
        ),
        dir.len() == 0 ==> socket_of(Some(dir)) == encode_utf8("/tmp/mxr.sock"@),
        socket_of(None) == encode_utf8("/tmp/mxr.sock"@),
{
    reveal_strlit("/mxr.sock");
    reveal_strlit("mxr.sock");
    reveal_strlit("/tmp");
    reveal_strlit("/tmp/mxr.sock");
    is_ascii_chars_encode_utf8("/mxr.sock"@);
    is_ascii_chars_encode_utf8("mxr.sock"@);
    is_ascii_chars_encode_utf8("/tmp"@);
    is_ascii_chars_encode_utf8("/tmp/mxr.sock"@);
    let name = encode_utf8("mxr.sock"@);
    assert(seq![0x2fu8] + name =~= encode_utf8("/mxr.sock"@)) by {
        assert("/mxr.sock"@.skip(1) =~= "mxr.sock"@);
        assert forall|i: int| 0 <= i < 9 implies #[trigger] (seq![0x2fu8] + name)[i]
            == encode_utf8("/mxr.sock"@)[i] by {
            if i > 0 {
                assert("mxr.sock"@[i - 1] == "/mxr.sock"@[i]);
            } else {
                assert("/mxr.sock"@[0] == '/');
            }
        }
    }
    assert(dir.push(0x2f) + name =~= dir + (seq![0x2fu8] + name));
    let tmp = encode_utf8("/tmp"@);
    assert("/tmp"@[3] == 'p');
    assert(tmp[3] == 0x70);
    assert(tmp.push(0x2f) + name =~= encode_utf8("/tmp/mxr.sock"@)) by {
        assert forall|i: int| 0 <= i < 13 implies #[trigger] (tmp.push(0x2f) + name)[i]
            == encode_utf8("/tmp/mxr.sock"@)[i] by {
            if i < 4 {
                assert("/tmp"@[i] == "/tmp/mxr.sock"@[i]);
            } else if i == 4 {
                assert("/tmp/mxr.sock"@[4] == '/');
            } else {
                assert("mxr.sock"@[i - 5] == "/tmp/mxr.sock"@[i]);
            }
        }
    }
}

} // verus!
