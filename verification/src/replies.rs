//! The texts of the daemon's replies.

use vstd::prelude::*;
use vstd::string::*;
use vstd::utf8::*;

use crate::codec::lemma_utf8_len;
use crate::protocol::{Capability, DaemonMsg, PROTOCOL_VERSION};
use crate::text::{decimal, decimal_text, lemma_u64_decimal_len};
use crate::wire::{daemon_wire, lemma_daemon_wire_len};

verus! {

/// A client speaks another version of the protocol.
pub open spec fn mismatch_text(version: u16) -> Seq<char> {
    "protocol mismatch: daemon "@ + decimal(PROTOCOL_VERSION as nat) + ", client "@ + decimal(
        version as nat,
    )
}

/// A client asks for something before it has said hello.
pub open spec fn hello_first_text() -> Seq<char> {
    "send Hello first"@
}

/// A client names a session that does not exist.
pub open spec fn no_session_text(session: u64) -> Seq<char> {
    "no such session "@ + decimal(session as nat)
}

/// A client names a pane that does not exist.
pub open spec fn no_pane_text(pane: u64) -> Seq<char> {
    "no such pane "@ + decimal(pane as nat)
}

/// A client names a pane whose shell is out of reach.
pub open spec fn lost_pane_text() -> Seq<char> {
    "pane token missing"@
}

/// A shell does not take the input of a client.
pub open spec fn write_failed_text(reason: Seq<char>) -> Seq<char> {
    "write failed: "@ + reason
}

/// The name of a capability.
pub open spec fn capability_name(c: Capability) -> Seq<char> {
    match c {
        Capability::SplitVertical => "SplitVertical"@,
        Capability::SplitHorizontal => "SplitHorizontal"@,
        Capability::Tabs => "Tabs"@,
    }
}

/// The names of some capabilities, with a comma and a space between two.
pub open spec fn capability_names(caps: Seq<Capability>) -> Seq<char>
    decreases caps.len(),
{
    if caps.len() == 0 {
        Seq::empty()
    } else if caps.len() == 1 {
        capability_name(caps[0])
    } else {
        capability_names(caps.drop_last()) + ", "@ + capability_name(caps.last())
    }
}

/// A client says hello for a second time.
pub open spec fn second_hello_text(version: u16, caps: Seq<Capability>) -> Seq<char> {
    "unsupported request: Hello { version: "@ + decimal(version as nat) + ", capabilities: ["@
        + capability_names(caps) + "] }"@
}

/// Writes the text of a version mismatch.
pub fn mismatch(version: u16) -> (r: String)
    ensures
        r@ == mismatch_text(version),
{
    let mut text = "protocol mismatch: daemon ".to_owned();
    text.append(decimal_text(PROTOCOL_VERSION as u64).as_str());
    text.append(", client ");
    text.append(decimal_text(version as u64).as_str());
    text
}

/// Writes the text about a missing session.
pub fn no_session(session: u64) -> (r: String)
    ensures
        r@ == no_session_text(session),
{
    let mut text = "no such session ".to_owned();
    text.append(decimal_text(session).as_str());
    text
}

/// Writes the text about a missing pane.
pub fn no_pane(pane: u64) -> (r: String)
    ensures
        r@ == no_pane_text(pane),
{
    let mut text = "no such pane ".to_owned();
    text.append(decimal_text(pane).as_str());
    text
}

/// Writes the text about a shell that does not take its input.
pub fn write_failed(reason: &str) -> (r: String)
    ensures
        r@ == write_failed_text(reason@),
{
    let mut text = "write failed: ".to_owned();
    text.append(reason);
    text
}

fn name_of(c: Capability) -> (r: &'static str)
    ensures
        r@ == capability_name(c),
{
    match c {
        Capability::SplitVertical => "SplitVertical",
        Capability::SplitHorizontal => "SplitHorizontal",
        Capability::Tabs => "Tabs",
    }
}

/// Writes the text about a second hello.
pub fn second_hello(version: u16, caps: &Vec<Capability>) -> (r: String)
    ensures
        r@ == second_hello_text(version, caps@),
{
    let mut text = "unsupported request: Hello { version: ".to_owned();
    text.append(decimal_text(version as u64).as_str());
    text.append(", capabilities: [");
    let ghost head = text@;
    let mut i: usize = 0;
    assert(head + capability_names(caps@.take(0)) =~= head);
    while i < caps.len()
        invariant
            i <= caps@.len(),
            text@ == head + capability_names(caps@.take(i as int)),
        decreases caps@.len() - i,
    {
        let ghost before = caps@.take(i as int);
        let ghost after = caps@.take(i + 1);
        if i > 0 {
            text.append(", ");
        }
        text.append(name_of(caps[i]));
        assert(after.drop_last() =~= before);
        assert(text@ =~= head + capability_names(after));
        i = i + 1;
    }
    assert(caps@.take(caps@.len() as int) =~= caps@);
    text.append("] }");
    assert(text@ =~= second_hello_text(version, caps@));
    text
}

/// Whether the reply with a text can be held in memory.
pub open spec fn error_fits(text: Seq<char>) -> bool {
    daemon_wire(DaemonMsg::Error { message: text }).len() <= isize::MAX
}

proof fn lemma_short_text_fits(text: Seq<char>)
    requires
        text.len() <= 100,
    ensures
        error_fits(text),
{
    lemma_utf8_len(text);
    lemma_daemon_wire_len(DaemonMsg::Error { message: text });
}

/// All texts fit but those of a length that a peer decides.
pub proof fn lemma_texts_fit(version: u16, id: u64)
    ensures
        error_fits(mismatch_text(version)),
        error_fits(hello_first_text()),
        error_fits(no_session_text(id)),
        error_fits(no_pane_text(id)),
        error_fits(lost_pane_text()),
{
    reveal_strlit("protocol mismatch: daemon ");
    reveal_strlit(", client ");
    reveal_strlit("send Hello first");
    reveal_strlit("no such session ");
    reveal_strlit("no such pane ");
    reveal_strlit("pane token missing");
    lemma_u64_decimal_len(PROTOCOL_VERSION as u64);
    lemma_u64_decimal_len(version as u64);
    lemma_u64_decimal_len(id);
    lemma_short_text_fits(mismatch_text(version));
    lemma_short_text_fits(hello_first_text());
    lemma_short_text_fits(no_session_text(id));
    lemma_short_text_fits(no_pane_text(id));
    lemma_short_text_fits(lost_pane_text());
}

proof fn lemma_decimal_ascii(n: nat)
    ensures
        is_ascii_chars(decimal(n)),
    decreases n,
{
    if n >= 10 {
        lemma_decimal_ascii(n / 10);
    }
}

proof fn lemma_names_ascii(caps: Seq<Capability>)
    ensures
        is_ascii_chars(capability_names(caps)),
    decreases caps.len(),
{
    reveal_strlit("SplitVertical");
    reveal_strlit("SplitHorizontal");
    reveal_strlit("Tabs");
    reveal_strlit(", ");
    if caps.len() > 0 {
        lemma_names_ascii(caps.drop_last());
    }
}

proof fn lemma_second_hello_ascii(version: u16, caps: Seq<Capability>)
    ensures
        is_ascii_chars(second_hello_text(version, caps)),
{
    reveal_strlit("unsupported request: Hello { version: ");
    reveal_strlit(", capabilities: [");
    reveal_strlit("] }");
    lemma_decimal_ascii(version as nat);
    lemma_names_ascii(caps);
}

proof fn lemma_utf8_concat(a: Seq<char>, b: Seq<char>)
    ensures
        encode_utf8(a + b).len() == encode_utf8(a).len() + encode_utf8(b).len(),
    decreases a.len(),
{
    if a.len() == 0 {
        assert(a + b =~= b);
    } else {
        lemma_utf8_concat(a.drop_first(), b);
        assert((a + b).drop_first() =~= a.drop_first() + b);
    }
}

/// Whether the reply to a second hello can be held in memory.
pub fn second_hello_fits(version: u16, caps: &Vec<Capability>) -> (r: bool)
    ensures
        r == error_fits(second_hello_text(version, caps@)),
{
    let digits: usize = decimal_text(version as u64).as_str().unicode_len();
    let mut names: u128 = 0;
    let mut i: usize = 0;
    while i < caps.len()
        invariant
            i <= caps@.len(),
            names == capability_names(caps@.take(i as int)).len(),
            names <= 17 * i,
        decreases caps@.len() - i,
    {
        proof {
            reveal_strlit("SplitVertical");
            reveal_strlit("SplitHorizontal");
            reveal_strlit("Tabs");
            reveal_strlit(", ");
            assert(caps@.take(i + 1).drop_last() =~= caps@.take(i as int));
        }
        if i > 0 {
            names = names + 2;
        }
        names = names + name_of(caps[i]).unicode_len() as u128;
        i = i + 1;
    }
    proof {
        let text = second_hello_text(version, caps@);
        assert(caps@.take(caps@.len() as int) =~= caps@);
        reveal_strlit("unsupported request: Hello { version: ");
        reveal_strlit(", capabilities: [");
        reveal_strlit("] }");
        lemma_u64_decimal_len(version as u64);
        lemma_second_hello_ascii(version, caps@);
        is_ascii_chars_encode_utf8(text);
        lemma_daemon_wire_len(DaemonMsg::Error { message: text });
    }
    70 + digits as u128 + names <= isize::MAX as u128
}

/// Whether the reply about a shell that does not take its input can be held in
/// memory.
pub fn write_failed_fits(reason: &str) -> (r: bool)
    ensures
        r == error_fits(write_failed_text(reason@)),
{
    let prefix: &str = "write failed: ";
    let len: u128 = prefix.as_bytes().len() as u128 + reason.as_bytes().len() as u128 + 12;
    proof {
        lemma_utf8_concat(prefix@, reason@);
        lemma_daemon_wire_len(DaemonMsg::Error { message: write_failed_text(reason@) });
    }
    len <= isize::MAX as u128
}

} // verus!
