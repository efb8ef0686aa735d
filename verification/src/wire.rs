//! Messages as bytes.
//!
//! A message is the number of its variant, four bytes, followed by the fields
//! of that variant in order.

use vstd::prelude::*;
use vstd::slice::slice_subrange;
use vstd::string::*;
use vstd::utf8::encode_utf8;

use crate::bytes::{byte_range, le_bytes, lemma_byte_ranges, lemma_le_bytes_len};
use crate::codec::{
    blob_at_front, blob_bytes, blob_is_canonical, blob_round_trip, decode_blob, decode_text,
    decode_u16, decode_u32, decode_u64, encode_blob, encode_text, encode_u16, encode_u32,
    encode_u64, int_at_front, int_is_canonical, int_round_trip, len_at_front, oversize_text,
    text_at_front, text_bytes, text_is_canonical, text_round_trip,
};
use crate::protocol::{
    Capability, ClientMsg, ClientToDaemon, DaemonMsg, DaemonToClient, Message, PaneId,
    ProtocolError,
};
use crate::text::{decimal, decimal_text};

verus! {

/// The four bytes of a variant number.
pub open spec fn tag(index: nat) -> Seq<u8> {
    le_bytes(index, 4)
}

/// What is said of a variant number that is not below `count`.
pub open spec fn bad_variant_text(index: nat, count: nat) -> Seq<char> {
    "invalid value: integer `"@ + decimal(index) + "`, expected variant index 0 <= i < "@ + decimal(
        count,
    )
}

fn bad_variant(index: u32, count: u64) -> (r: ProtocolError)
    ensures
        r matches ProtocolError::Decode(reason) && reason@ == bad_variant_text(
            index as nat,
            count as nat,
        ),
{
    let mut text = "invalid value: integer `".to_owned();
    text.append(decimal_text(index as u64).as_str());
    text.append("`, expected variant index 0 <= i < ");
    text.append(decimal_text(count).as_str());
    ProtocolError::Decode(text)
}

fn oversize(n: u64) -> (r: ProtocolError)
    ensures
        r matches ProtocolError::Decode(reason) && reason@ == oversize_text(n as nat),
{
    let mut text = "Invalid size ".to_owned();
    text.append(decimal_text(n).as_str());
    text.append(": sizes must fit in a usize (0 to ");
    text.append(decimal_text(usize::MAX as u64).as_str());
    text.append(")");
    ProtocolError::Decode(text)
}

/// Appends what an encoder returned.
fn put(out: &mut Vec<u8>, piece: Result<Vec<u8>, String>) -> (r: Result<(), ProtocolError>)
    ensures
        match piece {
            Ok(b) => r is Ok && final(out)@ == old(out)@ + b@,
            Err(reason) => r == Err::<(), ProtocolError>(ProtocolError::Encode(reason)) && final(out)@ == old(out)@,
        },
{
    match piece {
        Ok(b) => {
            let mut b = b;
            out.append(&mut b);
            Ok(())
        },
        Err(reason) => Err(ProtocolError::Encode(reason)),
    }
}

/// Names the reason for which a value could not be read.
fn got<T>(value: Result<T, String>) -> (r: Result<T, ProtocolError>)
    ensures
        match value {
            Ok(v) => r == Ok::<T, ProtocolError>(v),
            Err(reason) => r == Err::<T, ProtocolError>(ProtocolError::Decode(reason)),
        },
{
    match value {
        Ok(v) => Ok(v),
        Err(reason) => Err(ProtocolError::Decode(reason)),
    }
}

/// The number of a capability.
pub open spec fn capability_index(c: Capability) -> nat {
    match c {
        Capability::SplitVertical => 0,
        Capability::SplitHorizontal => 1,
        Capability::Tabs => 2,
    }
}

/// The capabilities of a list, one after the other.
pub open spec fn capabilities_body(caps: Seq<Capability>) -> Seq<u8>
    decreases caps.len(),
{
    if caps.len() == 0 {
        Seq::empty()
    } else {
        tag(capability_index(caps[0])) + capabilities_body(caps.drop_first())
    }
}

/// A list of capabilities: its length, then its items.
pub open spec fn capabilities_bytes(caps: Seq<Capability>) -> Seq<u8> {
    le_bytes(caps.len(), 8) + capabilities_body(caps)
}

/// The capability at the front of `input`.
pub open spec fn capability_at_front(input: Seq<u8>) -> Result<Capability, Seq<char>> {
    match int_at_front(input, 4) {
        Err(text) => Err(text),
        Ok(n) => if n == 0 {
            Ok(Capability::SplitVertical)
        } else if n == 1 {
            Ok(Capability::SplitHorizontal)
        } else if n == 2 {
            Ok(Capability::Tabs)
        } else {
            Err(bad_variant_text(n, 3))
        },
    }
}

/// The first `count` capabilities of `input`.
pub open spec fn capabilities_from(input: Seq<u8>, count: nat) -> Result<
    Seq<Capability>,
    Seq<char>,
>
    decreases count,
{
    if count == 0 {
        Ok(Seq::empty())
    } else {
        match capability_at_front(input) {
            Err(text) => Err(text),
            Ok(cap) => match capabilities_from(input.skip(4), (count - 1) as nat) {
                Err(text) => Err(text),
                Ok(caps) => Ok(seq![cap] + caps),
            },
        }
    }
}

/// The list of capabilities at the front of `input`.
pub open spec fn capabilities_at_front(input: Seq<u8>) -> Result<Seq<Capability>, Seq<char>> {
    match len_at_front(input) {
        Err(text) => Err(text),
        Ok(n) => capabilities_from(input.skip(8), n),
    }
}

proof fn lemma_capabilities_body_len(caps: Seq<Capability>)
    ensures
        capabilities_body(caps).len() == 4 * caps.len(),
    decreases caps.len(),
{
    if caps.len() > 0 {
        lemma_le_bytes_len(capability_index(caps[0]), 4);
        lemma_capabilities_body_len(caps.drop_first());
    }
}

proof fn lemma_capabilities_from_body(caps: Seq<Capability>, rest: Seq<u8>)
    ensures
        capabilities_from(capabilities_body(caps) + rest, caps.len()) == Ok::<
            Seq<Capability>,
            Seq<char>,
        >(caps),
    decreases caps.len(),
{
    if caps.len() > 0 {
        let tail = caps.drop_first();
        let head = tag(capability_index(caps[0]));
        let more = capabilities_body(tail) + rest;
        lemma_byte_ranges();
        int_round_trip(capability_index(caps[0]), 4, more);
        assert(capabilities_body(caps) + rest =~= head + more);
        lemma_capabilities_from_body(tail, rest);
        assert(seq![caps[0]] + tail =~= caps);
    } else {
        assert(caps =~= Seq::empty());
    }
}

proof fn lemma_capabilities_from_canonical(input: Seq<u8>, count: nat)
    requires
        capabilities_from(input, count) is Ok,
    ensures
        capabilities_from(input, count)->Ok_0.len() == count,
        capabilities_body(capabilities_from(input, count)->Ok_0).is_prefix_of(input),
    decreases count,
{
    if count > 0 {
        let caps = capabilities_from(input, count)->Ok_0;
        let tail = capabilities_from(input.skip(4), (count - 1) as nat)->Ok_0;
        lemma_capabilities_from_canonical(input.skip(4), (count - 1) as nat);
        assert(caps.drop_first() =~= tail);
        int_is_canonical(input, 4);
        lemma_capabilities_body_len(tail);
        let k = capabilities_body(tail).len();
        assert(capabilities_body(tail) =~= input.skip(4).take(k as int));
        lemma_le_bytes_len(capability_index(caps[0]), 4);
        assert(capabilities_body(caps) =~= input.take(4 + k as int));
    } else {
        assert(capabilities_body(capabilities_from(input, count)->Ok_0) =~= input.take(0));
    }
}

proof fn lemma_capabilities_round_trip(caps: Seq<Capability>, rest: Seq<u8>)
    requires
        caps.len() <= usize::MAX,
    ensures
        capabilities_at_front(capabilities_bytes(caps) + rest) == Ok::<Seq<Capability>, Seq<char>>(
            caps,
        ),
{
    let more = capabilities_body(caps) + rest;
    lemma_byte_ranges();
    int_round_trip(caps.len(), 8, more);
    assert(capabilities_bytes(caps) + rest =~= le_bytes(caps.len(), 8) + more);
    lemma_capabilities_from_body(caps, rest);
}

proof fn lemma_capabilities_canonical(input: Seq<u8>)
    requires
        capabilities_at_front(input) is Ok,
    ensures
        capabilities_bytes(capabilities_at_front(input)->Ok_0).is_prefix_of(input),
{
    let n = len_at_front(input)->Ok_0;
    let caps = capabilities_at_front(input)->Ok_0;
    int_is_canonical(input, 8);
    lemma_capabilities_from_canonical(input.skip(8), n);
    let k = capabilities_body(caps).len();
    assert(capabilities_body(caps) =~= input.skip(8).take(k as int));
    lemma_le_bytes_len(n, 8);
    assert(capabilities_bytes(caps) =~= input.take(8 + k as int));
}

fn capability_number(c: Capability) -> (r: u32)
    ensures
        r == capability_index(c),
{
    match c {
        Capability::SplitVertical => 0,
        Capability::SplitHorizontal => 1,
        Capability::Tabs => 2,
    }
}

fn put_capabilities(out: &mut Vec<u8>, caps: &Vec<Capability>) -> (r: Result<(), ProtocolError>)
    ensures
        r is Ok,
        final(out)@ == old(out)@ + capabilities_bytes(caps@),
{
    put(out, encode_u64(caps.len() as u64))?;
    let mut i: usize = 0;
    assert(caps@.skip(0) =~= caps@);
    assert(out@ + capabilities_body(caps@) =~= old(out)@ + capabilities_bytes(caps@));
    while i < caps.len()
        invariant
            i <= caps@.len(),
            out@ + capabilities_body(caps@.skip(i as int)) == old(out)@ + capabilities_bytes(caps@),
        decreases caps@.len() - i,
    {
        let ghost before = out@;
        put(out, encode_u32(capability_number(caps[i])))?;
        proof {
            let left = caps@.skip(i as int);
            assert(left.drop_first() =~= caps@.skip(i + 1));
            assert(out@ + capabilities_body(caps@.skip(i + 1)) =~= before + capabilities_body(
                left,
            ));
        }
        i = i + 1;
    }
    assert(out@ + capabilities_body(caps@.skip(i as int)) =~= out@);
    Ok(())
}

fn get_capabilities(input: &[u8]) -> (r: Result<Vec<Capability>, ProtocolError>)
    ensures
        match capabilities_at_front(input@) {
            Ok(caps) => r matches Ok(v) && v@ == caps,
            Err(text) => r matches Err(ProtocolError::Decode(reason)) && reason@ == text,
        },
{
    let n: u64 = got(decode_u64(input))?;
    if n > usize::MAX as u64 {
        return Err(oversize(n));
    }
    let mut caps: Vec<Capability> = Vec::new();
    let mut left: u64 = n;
    let mut rest: &[u8] = slice_subrange(input, 8, input.len());
    assert(rest@ =~= input@.skip(8));
    assert(forall|more: Seq<Capability>| #[trigger] (caps@ + more) =~= more);
    while left > 0
        invariant
            len_at_front(input@) is Ok,
            match capabilities_from(rest@, left as nat) {
                Ok(more) => capabilities_at_front(input@) == Ok::<Seq<Capability>, Seq<char>>(
                    caps@ + more,
                ),
                Err(text) => capabilities_at_front(input@) == Err::<Seq<Capability>, Seq<char>>(
                    text,
                ),
            },
        decreases left,
    {
        let index: u32 = got(decode_u32(rest))?;
        let cap: Capability = match index {
            0 => Capability::SplitVertical,
            1 => Capability::SplitHorizontal,
            2 => Capability::Tabs,
            _ => return Err(bad_variant(index, 3)),
        };
        let ghost before = caps@;
        caps.push(cap);
        let next: &[u8] = slice_subrange(rest, 4, rest.len());
        proof {
            assert(next@ =~= rest@.skip(4));
            assert forall|more: Seq<Capability>| #[trigger]
                (caps@ + more) =~= before + (seq![cap] + more) by {}
        }
        rest = next;
        left = left - 1;
    }
    assert(caps@ + Seq::<Capability>::empty() =~= caps@);
    Ok(caps)
}

/// The bytes of a client's message.
pub open spec fn client_wire(msg: ClientMsg) -> Seq<u8> {
    match msg {
        ClientMsg::Hello { version, capabilities } => tag(0) + le_bytes(version as nat, 2)
            + capabilities_bytes(capabilities),
        ClientMsg::CreateSession { name } => tag(1) + text_bytes(name),
        ClientMsg::Attach { session } => tag(2) + le_bytes(session as nat, 8),
        ClientMsg::Detach => tag(3),
        ClientMsg::Stdin { pane, data } => tag(4) + le_bytes(pane as nat, 8) + blob_bytes(data),
        ClientMsg::Resize { pane, cols, rows } => tag(5) + le_bytes(pane as nat, 8) + le_bytes(
            cols as nat,
            2,
        ) + le_bytes(rows as nat, 2),
        ClientMsg::Ping(nonce) => tag(6) + le_bytes(nonce as nat, 8),
    }
}

/// The fields of a client's message of the given variant.
pub open spec fn client_fields(variant: nat, input: Seq<u8>) -> Result<ClientMsg, Seq<char>> {
    if variant == 0 {
        match int_at_front(input, 2) {
            Err(text) => Err(text),
            Ok(version) => match capabilities_at_front(input.skip(2)) {
                Err(text) => Err(text),
                Ok(capabilities) => Ok(ClientMsg::Hello { version: version as u16, capabilities }),
            },
        }
    } else if variant == 1 {
        match text_at_front(input) {
            Err(text) => Err(text),
            Ok(name) => Ok(ClientMsg::CreateSession { name }),
        }
    } else if variant == 2 {
        match int_at_front(input, 8) {
            Err(text) => Err(text),
            Ok(session) => Ok(ClientMsg::Attach { session: session as u64 }),
        }
    } else if variant == 3 {
        Ok(ClientMsg::Detach)
    } else if variant == 4 {
        match int_at_front(input, 8) {
            Err(text) => Err(text),
            Ok(pane) => match blob_at_front(input.skip(8)) {
                Err(text) => Err(text),
                Ok(data) => Ok(ClientMsg::Stdin { pane: pane as u64, data }),
            },
        }
    } else if variant == 5 {
        match int_at_front(input, 8) {
            Err(text) => Err(text),
            Ok(pane) => match int_at_front(input.skip(8), 2) {
                Err(text) => Err(text),
                Ok(cols) => match int_at_front(input.skip(10), 2) {
                    Err(text) => Err(text),
                    Ok(rows) => Ok(
                        ClientMsg::Resize {
                            pane: pane as u64,
                            cols: cols as u16,
                            rows: rows as u16,
                        },
                    ),
                },
            },
        }
    } else if variant == 6 {
        match int_at_front(input, 8) {
            Err(text) => Err(text),
            Ok(nonce) => Ok(ClientMsg::Ping(nonce as u64)),
        }
    } else {
        Err(bad_variant_text(variant, 7))
    }
}

/// The client's message at the front of `input`.
pub open spec fn client_parsed(input: Seq<u8>) -> Result<ClientMsg, Seq<char>> {
    match int_at_front(input, 4) {
        Err(text) => Err(text),
        Ok(variant) => client_fields(variant, input.skip(4)),
    }
}

/// The bytes of a daemon's message.
pub open spec fn daemon_wire(msg: DaemonMsg) -> Seq<u8> {
    match msg {
        DaemonMsg::HelloAck { version } => tag(0) + le_bytes(version as nat, 2),
        DaemonMsg::SessionCreated { session } => tag(1) + le_bytes(session as nat, 8),
        DaemonMsg::AttachOk { pane } => tag(2) + le_bytes(pane as nat, 8),
        DaemonMsg::PaneData { pane, data } => tag(3) + le_bytes(pane as nat, 8) + blob_bytes(data),
        DaemonMsg::Error { message } => tag(4) + text_bytes(message),
        DaemonMsg::Pong(nonce) => tag(5) + le_bytes(nonce as nat, 8),
    }
}

/// The fields of a daemon's message of the given variant.
pub open spec fn daemon_fields(variant: nat, input: Seq<u8>) -> Result<DaemonMsg, Seq<char>> {
    if variant == 0 {
        match int_at_front(input, 2) {
            Err(text) => Err(text),
            Ok(version) => Ok(DaemonMsg::HelloAck { version: version as u16 }),
        }
    } else if variant == 1 {
        match int_at_front(input, 8) {
            Err(text) => Err(text),
            Ok(session) => Ok(DaemonMsg::SessionCreated { session: session as u64 }),
        }
    } else if variant == 2 {
        match int_at_front(input, 8) {
            Err(text) => Err(text),
            Ok(pane) => Ok(DaemonMsg::AttachOk { pane: pane as u64 }),
        }
    } else if variant == 3 {
        match int_at_front(input, 8) {
            Err(text) => Err(text),
            Ok(pane) => match blob_at_front(input.skip(8)) {
                Err(text) => Err(text),
                Ok(data) => Ok(DaemonMsg::PaneData { pane: pane as u64, data }),
            },
        }
    } else if variant == 4 {
        match text_at_front(input) {
            Err(text) => Err(text),
            Ok(message) => Ok(DaemonMsg::Error { message }),
        }
    } else if variant == 5 {
        match int_at_front(input, 8) {
            Err(text) => Err(text),
            Ok(nonce) => Ok(DaemonMsg::Pong(nonce as u64)),
        }
    } else {
        Err(bad_variant_text(variant, 6))
    }
}

/// The daemon's message at the front of `input`.
pub open spec fn daemon_parsed(input: Seq<u8>) -> Result<DaemonMsg, Seq<char>> {
    match int_at_front(input, 4) {
        Err(text) => Err(text),
        Ok(variant) => daemon_fields(variant, input.skip(4)),
    }
}

/// The part of `input` from `at` on.
fn rest_from(input: &[u8], at: usize) -> (r: &[u8])
    requires
        at <= input@.len(),
    ensures
        r@ == input@.skip(at as int),
{
    let r: &[u8] = slice_subrange(input, at, input.len());
    assert(r@ =~= input@.skip(at as int));
    r
}

proof fn lemma_client_tag(variant: nat, fields: Seq<u8>, rest: Seq<u8>)
    requires
        variant < 7,
    ensures
        client_parsed(tag(variant) + fields + rest) == client_fields(variant, fields + rest),
{
    lemma_byte_ranges();
    lemma_int_in_front(variant, 4, fields, rest);
}

/// Reading an integer in front of other fields gives it back and leads to
/// those fields.
proof fn lemma_int_in_front(n: nat, width: nat, more: Seq<u8>, rest: Seq<u8>)
    requires
        n < byte_range(width),
    ensures
        int_at_front(le_bytes(n, width) + more + rest, width) == Ok::<nat, Seq<char>>(n),
        (le_bytes(n, width) + more + rest).skip(width as int) == more + rest,
{
    int_round_trip(n, width, more + rest);
    assert(le_bytes(n, width) + more + rest =~= le_bytes(n, width) + (more + rest));
}

proof fn lemma_grouped(a: Seq<u8>, b: Seq<u8>, c: Seq<u8>)
    ensures
        a + b + c == a + (b + c),
{
    assert(a + b + c =~= a + (b + c));
}

proof fn lemma_hello_round_trip(version: u16, capabilities: Seq<Capability>, rest: Seq<u8>)
    requires
        capabilities.len() <= usize::MAX,
    ensures
        client_parsed(client_wire(ClientMsg::Hello { version, capabilities }) + rest) == Ok::<
            ClientMsg,
            Seq<char>,
        >(ClientMsg::Hello { version, capabilities }),
{
    let caps = capabilities_bytes(capabilities);
    let b = le_bytes(version as nat, 2);
    lemma_byte_ranges();
    lemma_grouped(tag(0), b, caps);
    lemma_client_tag(0, b + caps, rest);
    lemma_int_in_front(version as nat, 2, caps, rest);
    lemma_capabilities_round_trip(capabilities, rest);
}

proof fn lemma_stdin_round_trip(pane: PaneId, data: Seq<u8>, rest: Seq<u8>)
    requires
        data.len() <= usize::MAX,
    ensures
        client_parsed(client_wire(ClientMsg::Stdin { pane, data }) + rest) == Ok::<
            ClientMsg,
            Seq<char>,
        >(ClientMsg::Stdin { pane, data }),
{
    let b = le_bytes(pane as nat, 8);
    lemma_byte_ranges();
    lemma_grouped(tag(4), b, blob_bytes(data));
    lemma_client_tag(4, b + blob_bytes(data), rest);
    lemma_int_in_front(pane as nat, 8, blob_bytes(data), rest);
    blob_round_trip(data, rest);
}

proof fn lemma_resize_round_trip(pane: PaneId, cols: u16, rows: u16, rest: Seq<u8>)
    ensures
        client_parsed(client_wire(ClientMsg::Resize { pane, cols, rows }) + rest) == Ok::<
            ClientMsg,
            Seq<char>,
        >(ClientMsg::Resize { pane, cols, rows }),
{
    let b = le_bytes(pane as nat, 8);
    let c = le_bytes(cols as nat, 2);
    let d = le_bytes(rows as nat, 2);
    let fields = b + c + d;
    lemma_byte_ranges();
    lemma_client_tag(5, fields, rest);
    int_round_trip(pane as nat, 8, c + d + rest);
    int_round_trip(cols as nat, 2, d + rest);
    int_round_trip(rows as nat, 2, rest);
    assert(tag(5) + b + c + d =~= tag(5) + fields);
    assert(fields + rest =~= b + (c + d + rest));
    assert(c + d + rest =~= c + (d + rest));
    assert((fields + rest).skip(10) =~= (fields + rest).skip(8).skip(2));
}

impl Message for ClientToDaemon {
    open spec fn wire(msg: ClientMsg) -> Seq<u8> {
        client_wire(msg)
    }

    open spec fn parsed(input: Seq<u8>) -> Result<ClientMsg, Seq<char>> {
        client_parsed(input)
    }

    fn to_wire(&self) -> (r: Result<Vec<u8>, ProtocolError>) {
        let mut out: Vec<u8> = Vec::new();
        let ghost none = out@;
        assert(forall|more: Seq<u8>| #[trigger] (none + more) =~= more);
        proof {
            lemma_client_wire_len(self@);
        }
        match self {
            ClientToDaemon::Hello { version, capabilities } => {
                put(&mut out, encode_u32(0))?;
                put(&mut out, encode_u16(*version))?;
                put_capabilities(&mut out, capabilities)?;
            },
            ClientToDaemon::CreateSession { name } => {
                put(&mut out, encode_u32(1))?;
                put(&mut out, encode_text(name.as_str()))?;
            },
            ClientToDaemon::Attach { session } => {
                put(&mut out, encode_u32(2))?;
                put(&mut out, encode_u64(*session))?;
            },
            ClientToDaemon::Detach => {
                put(&mut out, encode_u32(3))?;
            },
            ClientToDaemon::Stdin { pane, data } => {
                put(&mut out, encode_u32(4))?;
                put(&mut out, encode_u64(*pane))?;
                put(&mut out, encode_blob(data.as_slice()))?;
            },
            ClientToDaemon::Resize { pane, cols, rows } => {
                put(&mut out, encode_u32(5))?;
                put(&mut out, encode_u64(*pane))?;
                put(&mut out, encode_u16(*cols))?;
                put(&mut out, encode_u16(*rows))?;
            },
            ClientToDaemon::Ping(nonce) => {
                put(&mut out, encode_u32(6))?;
                put(&mut out, encode_u64(*nonce))?;
            },
        }
        Ok(out)
    }

    fn from_wire(input: &[u8]) -> (r: Result<ClientToDaemon, ProtocolError>) {
        let variant: u32 = got(decode_u32(input))?;
        let fields: &[u8] = rest_from(input, 4);
        match variant {
            0 => {
                let version: u16 = got(decode_u16(fields))?;
                let capabilities: Vec<Capability> = get_capabilities(rest_from(fields, 2))?;
                Ok(ClientToDaemon::Hello { version, capabilities })
            },
            1 => {
                let name: String = got(decode_text(fields))?;
                Ok(ClientToDaemon::CreateSession { name })
            },
            2 => {
                let session: u64 = got(decode_u64(fields))?;
                Ok(ClientToDaemon::Attach { session })
            },
            3 => Ok(ClientToDaemon::Detach),
            4 => {
                let pane: u64 = got(decode_u64(fields))?;
                let data: Vec<u8> = got(decode_blob(rest_from(fields, 8)))?;
                Ok(ClientToDaemon::Stdin { pane, data })
            },
            5 => {
                let pane: u64 = got(decode_u64(fields))?;
                let cols: u16 = got(decode_u16(rest_from(fields, 8)))?;
                let rows: u16 = got(decode_u16(rest_from(fields, 10)))?;
                Ok(ClientToDaemon::Resize { pane, cols, rows })
            },
            6 => {
                let nonce: u64 = got(decode_u64(fields))?;
                Ok(ClientToDaemon::Ping(nonce))
            },
            _ => Err(bad_variant(variant, 7)),
        }
    }

    proof fn lemma_round_trip(msg: ClientMsg, rest: Seq<u8>) {
        lemma_byte_ranges();
        lemma_client_wire_len(msg);
        match msg {
            ClientMsg::Hello { version, capabilities } => {
                lemma_hello_round_trip(version, capabilities, rest);
            },
            ClientMsg::CreateSession { name } => {
                lemma_client_tag(1, text_bytes(name), rest);
                text_round_trip(name, rest);
            },
            ClientMsg::Attach { session } => {
                lemma_client_tag(2, le_bytes(session as nat, 8), rest);
                int_round_trip(session as nat, 8, rest);
            },
            ClientMsg::Detach => {
                lemma_client_tag(3, Seq::empty(), rest);
                assert(tag(3) + Seq::<u8>::empty() =~= tag(3));
            },
            ClientMsg::Stdin { pane, data } => {
                lemma_stdin_round_trip(pane, data, rest);
            },
            ClientMsg::Resize { pane, cols, rows } => {
                lemma_resize_round_trip(pane, cols, rows, rest);
            },
            ClientMsg::Ping(nonce) => {
                lemma_client_tag(6, le_bytes(nonce as nat, 8), rest);
                int_round_trip(nonce as nat, 8, rest);
            },
        }
    }

    proof fn lemma_canonical(input: Seq<u8>) {
        if let Ok(msg) = client_parsed(input) {
            lemma_byte_ranges();
            int_is_canonical(input, 4);
            let variant = int_at_front(input, 4)->Ok_0;
            let fields = input.skip(4);
            lemma_le_bytes_len(variant, 4);
            match msg {
                ClientMsg::Hello { version, capabilities } => {
                    int_is_canonical(fields, 2);
                    lemma_capabilities_canonical(fields.skip(2));
                    let caps = capabilities_bytes(capabilities);
                    assert(client_wire(msg) =~= input.take(6 + caps.len() as int));
                },
                ClientMsg::CreateSession { name } => {
                    text_is_canonical(fields);
                    assert(client_wire(msg) =~= input.take(4 + text_bytes(name).len() as int));
                },
                ClientMsg::Attach { session } => {
                    int_is_canonical(fields, 8);
                    assert(client_wire(msg) =~= input.take(12));
                },
                ClientMsg::Detach => {
                    assert(client_wire(msg) =~= input.take(4));
                },
                ClientMsg::Stdin { pane, data } => {
                    int_is_canonical(fields, 8);
                    blob_is_canonical(fields.skip(8));
                    assert(client_wire(msg) =~= input.take(12 + blob_bytes(data).len() as int));
                },
                ClientMsg::Resize { pane, cols, rows } => {
                    int_is_canonical(fields, 8);
                    int_is_canonical(fields.skip(8), 2);
                    int_is_canonical(fields.skip(10), 2);
                    assert(client_wire(msg) =~= input.take(16));
                },
                ClientMsg::Ping(nonce) => {
                    int_is_canonical(fields, 8);
                    assert(client_wire(msg) =~= input.take(12));
                },
            }
        }
    }
}

/// How long the parts of a client's message are.
pub proof fn lemma_client_wire_len(msg: ClientMsg)
    ensures
        client_wire(msg).len() == match msg {
            ClientMsg::Hello { version, capabilities } => 14 + 4 * capabilities.len(),
            ClientMsg::CreateSession { name } => 12 + encode_utf8(name).len(),
            ClientMsg::Attach { session } => 12,
            ClientMsg::Detach => 4,
            ClientMsg::Stdin { pane, data } => 20 + data.len(),
            ClientMsg::Resize { pane, cols, rows } => 16,
            ClientMsg::Ping(nonce) => 12,
        },
{
    assert forall|n: nat, width: nat| #[trigger] le_bytes(n, width).len() == width by {
        lemma_le_bytes_len(n, width);
    }
    if let ClientMsg::Hello { version, capabilities } = msg {
        lemma_capabilities_body_len(capabilities);
    }
}

/// Whether the bytes of a request can be held in memory.
pub fn request_fits(msg: &ClientToDaemon) -> (r: bool)
    ensures
        r == (client_wire(msg@).len() <= isize::MAX),
{
    proof {
        lemma_client_wire_len(msg@);
    }
    let len: u128 = match msg {
        ClientToDaemon::Hello { version: _, capabilities } => 14 + 4 * (capabilities.len() as u128),
        ClientToDaemon::CreateSession { name } => 12 + name.as_str().as_bytes().len() as u128,
        ClientToDaemon::Attach { session: _ } => 12,
        ClientToDaemon::Detach => 4,
        ClientToDaemon::Stdin { pane: _, data } => 20 + data.len() as u128,
        ClientToDaemon::Resize { pane: _, cols: _, rows: _ } => 16,
        ClientToDaemon::Ping(_) => 12,
    };
    len <= isize::MAX as u128
}

/// How long the parts of a daemon's message are.
pub proof fn lemma_daemon_wire_len(msg: DaemonMsg)
    ensures
        daemon_wire(msg).len() == match msg {
            DaemonMsg::HelloAck { version } => 6,
            DaemonMsg::SessionCreated { session } => 12,
            DaemonMsg::AttachOk { pane } => 12,
            DaemonMsg::PaneData { pane, data } => 20 + data.len(),
            DaemonMsg::Error { message } => 12 + encode_utf8(message).len(),
            DaemonMsg::Pong(nonce) => 12,
        },
{
    assert forall|n: nat, width: nat| #[trigger] le_bytes(n, width).len() == width by {
        lemma_le_bytes_len(n, width);
    }
}

proof fn lemma_daemon_tag(variant: nat, fields: Seq<u8>, rest: Seq<u8>)
    requires
        variant < 6,
    ensures
        daemon_parsed(tag(variant) + fields + rest) == daemon_fields(variant, fields + rest),
{
    lemma_byte_ranges();
    lemma_int_in_front(variant, 4, fields, rest);
}

proof fn lemma_pane_data_round_trip(pane: PaneId, data: Seq<u8>, rest: Seq<u8>)
    requires
        data.len() <= usize::MAX,
    ensures
        daemon_parsed(daemon_wire(DaemonMsg::PaneData { pane, data }) + rest) == Ok::<
            DaemonMsg,
            Seq<char>,
        >(DaemonMsg::PaneData { pane, data }),
{
    let b = le_bytes(pane as nat, 8);
    lemma_byte_ranges();
    lemma_grouped(tag(3), b, blob_bytes(data));
    lemma_daemon_tag(3, b + blob_bytes(data), rest);
    lemma_int_in_front(pane as nat, 8, blob_bytes(data), rest);
    blob_round_trip(data, rest);
}

impl Message for DaemonToClient {
    open spec fn wire(msg: DaemonMsg) -> Seq<u8> {
        daemon_wire(msg)
    }

    open spec fn parsed(input: Seq<u8>) -> Result<DaemonMsg, Seq<char>> {
        daemon_parsed(input)
    }

    fn to_wire(&self) -> (r: Result<Vec<u8>, ProtocolError>) {
        let mut out: Vec<u8> = Vec::new();
        let ghost none = out@;
        assert(forall|more: Seq<u8>| #[trigger] (none + more) =~= more);
        proof {
            lemma_daemon_wire_len(self@);
        }
        match self {
            DaemonToClient::HelloAck { version } => {
                put(&mut out, encode_u32(0))?;
                put(&mut out, encode_u16(*version))?;
            },
            DaemonToClient::SessionCreated { session } => {
                put(&mut out, encode_u32(1))?;
                put(&mut out, encode_u64(*session))?;
            },
            DaemonToClient::AttachOk { pane } => {
                put(&mut out, encode_u32(2))?;
                put(&mut out, encode_u64(*pane))?;
            },
            DaemonToClient::PaneData { pane, data } => {
                put(&mut out, encode_u32(3))?;
                put(&mut out, encode_u64(*pane))?;
                put(&mut out, encode_blob(data.as_slice()))?;
            },
            DaemonToClient::Error { message } => {
                put(&mut out, encode_u32(4))?;
                put(&mut out, encode_text(message.as_str()))?;
            },
            DaemonToClient::Pong(nonce) => {
                put(&mut out, encode_u32(5))?;
                put(&mut out, encode_u64(*nonce))?;
            },
        }
        Ok(out)
    }

    fn from_wire(input: &[u8]) -> (r: Result<DaemonToClient, ProtocolError>) {
        let variant: u32 = got(decode_u32(input))?;
        let fields: &[u8] = rest_from(input, 4);
        match variant {
            0 => {
                let version: u16 = got(decode_u16(fields))?;
                Ok(DaemonToClient::HelloAck { version })
            },
            1 => {
                let session: u64 = got(decode_u64(fields))?;
                Ok(DaemonToClient::SessionCreated { session })
            },
            2 => {
                let pane: u64 = got(decode_u64(fields))?;
                Ok(DaemonToClient::AttachOk { pane })
            },
            3 => {
                let pane: u64 = got(decode_u64(fields))?;
                let data: Vec<u8> = got(decode_blob(rest_from(fields, 8)))?;
                Ok(DaemonToClient::PaneData { pane, data })
            },
            4 => {
                let message: String = got(decode_text(fields))?;
                Ok(DaemonToClient::Error { message })
            },
            5 => {
                let nonce: u64 = got(decode_u64(fields))?;
                Ok(DaemonToClient::Pong(nonce))
            },
            _ => Err(bad_variant(variant, 6)),
        }
    }

    proof fn lemma_round_trip(msg: DaemonMsg, rest: Seq<u8>) {
        lemma_byte_ranges();
        lemma_daemon_wire_len(msg);
        match msg {
            DaemonMsg::HelloAck { version } => {
                lemma_daemon_tag(0, le_bytes(version as nat, 2), rest);
                int_round_trip(version as nat, 2, rest);
            },
            DaemonMsg::SessionCreated { session } => {
                lemma_daemon_tag(1, le_bytes(session as nat, 8), rest);
                int_round_trip(session as nat, 8, rest);
            },
            DaemonMsg::AttachOk { pane } => {
                lemma_daemon_tag(2, le_bytes(pane as nat, 8), rest);
                int_round_trip(pane as nat, 8, rest);
            },
            DaemonMsg::PaneData { pane, data } => {
                lemma_pane_data_round_trip(pane, data, rest);
            },
            DaemonMsg::Error { message } => {
                lemma_daemon_tag(4, text_bytes(message), rest);
                text_round_trip(message, rest);
            },
            DaemonMsg::Pong(nonce) => {
                lemma_daemon_tag(5, le_bytes(nonce as nat, 8), rest);
                int_round_trip(nonce as nat, 8, rest);
            },
        }
    }

    proof fn lemma_canonical(input: Seq<u8>) {
        if let Ok(msg) = daemon_parsed(input) {
            lemma_byte_ranges();
            int_is_canonical(input, 4);
            let variant = int_at_front(input, 4)->Ok_0;
            let fields = input.skip(4);
            lemma_le_bytes_len(variant, 4);
            match msg {
                DaemonMsg::HelloAck { version } => {
                    int_is_canonical(fields, 2);
                    assert(daemon_wire(msg) =~= input.take(6));
                },
                DaemonMsg::SessionCreated { session } => {
                    int_is_canonical(fields, 8);
                    assert(daemon_wire(msg) =~= input.take(12));
                },
                DaemonMsg::AttachOk { pane } => {
                    int_is_canonical(fields, 8);
                    assert(daemon_wire(msg) =~= input.take(12));
                },
                DaemonMsg::PaneData { pane, data } => {
                    int_is_canonical(fields, 8);
                    blob_is_canonical(fields.skip(8));
                    assert(daemon_wire(msg) =~= input.take(12 + blob_bytes(data).len() as int));
                },
                DaemonMsg::Error { message } => {
                    text_is_canonical(fields);
                    assert(daemon_wire(msg) =~= input.take(4 + text_bytes(message).len() as int));
                },
                DaemonMsg::Pong(nonce) => {
                    int_is_canonical(fields, 8);
                    assert(daemon_wire(msg) =~= input.take(12));
                },
            }
        }
    }
}

} // verus!
