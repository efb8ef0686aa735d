//! The values that messages are made of, as bytes.
//!
//! Integers are little-endian and of fixed width. Texts and blobs are a
//! 64-bit length followed by that many bytes. Reading stops at the end of the
//! value and leaves what follows it alone. The bytes themselves are written
//! and read by `bincode`.

use vstd::prelude::*;
use vstd::utf8::*;

use crate::bytes::{
    byte_range, le_bytes, le_value, lemma_byte_ranges, lemma_le_bytes_len, lemma_le_bytes_of_value,
    lemma_le_value_of_bytes,
};
use crate::text::decimal;

verus! {

/// What `bincode::deserialize` says of an input that ends inside an integer
/// or inside a sequence of bytes.
pub uninterp spec fn truncated_text(input: Seq<u8>) -> Seq<char>;

/// What `bincode::deserialize` says of an input that announces a text and
/// then ends too early or holds bytes that are no UTF-8.
pub uninterp spec fn bad_text_text(input: Seq<u8>) -> Seq<char>;

/// What is said of a length that no object in memory can have.
pub open spec fn oversize_text(n: nat) -> Seq<char> {
    "Invalid size "@ + decimal(n) + ": sizes must fit in a usize (0 to "@ + decimal(
        usize::MAX as nat,
    ) + ")"@
}

/// A blob: its length, then its bytes.
pub open spec fn blob_bytes(data: Seq<u8>) -> Seq<u8> {
    le_bytes(data.len(), 8) + data
}

/// A text: the length of its UTF-8 form, then that form.
pub open spec fn text_bytes(text: Seq<char>) -> Seq<u8> {
    blob_bytes(encode_utf8(text))
}

/// The integer at the front of `input`.
pub open spec fn int_at_front(input: Seq<u8>, width: nat) -> Result<nat, Seq<char>> {
    if input.len() < width {
        Err(truncated_text(input))
    } else {
        Ok(le_value(input.take(width as int)))
    }
}

/// The length at the front of `input`.
pub open spec fn len_at_front(input: Seq<u8>) -> Result<nat, Seq<char>> {
    match int_at_front(input, 8) {
        Err(text) => Err(text),
        Ok(n) => if n > usize::MAX {
            Err(oversize_text(n))
        } else {
            Ok(n)
        },
    }
}

/// The blob at the front of `input`.
pub open spec fn blob_at_front(input: Seq<u8>) -> Result<Seq<u8>, Seq<char>> {
    match len_at_front(input) {
        Err(text) => Err(text),
        Ok(n) => if input.len() - 8 < n {
            Err(truncated_text(input))
        } else {
            Ok(input.subrange(8, 8 + n as int))
        },
    }
}

/// The text at the front of `input`.
pub open spec fn text_at_front(input: Seq<u8>) -> Result<Seq<char>, Seq<char>> {
    match len_at_front(input) {
        Err(text) => Err(text),
        Ok(n) => if input.len() - 8 < n || !valid_utf8(input.subrange(8, 8 + n as int)) {
            Err(bad_text_text(input))
        } else {
            Ok(decode_utf8(input.subrange(8, 8 + n as int)))
        },
    }
}

/// Reading an integer that was written gives it back, whatever follows.
pub proof fn int_round_trip(n: nat, width: nat, rest: Seq<u8>)
    requires
        n < byte_range(width),
    ensures
        int_at_front(le_bytes(n, width) + rest, width) == Ok::<nat, Seq<char>>(n),
        (le_bytes(n, width) + rest).skip(width as int) == rest,
{
    let written = le_bytes(n, width);
    lemma_le_bytes_len(n, width);
    lemma_le_value_of_bytes(n, width);
    assert((written + rest).take(width as int) =~= written);
    assert((written + rest).skip(width as int) =~= rest);
}

/// An input that starts with an integer starts with the bytes that are
/// written for that integer.
pub proof fn int_is_canonical(input: Seq<u8>, width: nat)
    requires
        input.len() >= width,
    ensures
        int_at_front(input, width) is Ok,
        input.take(width as int) == le_bytes(int_at_front(input, width)->Ok_0, width),
        int_at_front(input, width)->Ok_0 < byte_range(width),
{
    lemma_le_bytes_of_value(input.take(width as int));
}

/// Reading a blob that was written gives it back, whatever follows.
pub proof fn blob_round_trip(data: Seq<u8>, rest: Seq<u8>)
    requires
        data.len() <= usize::MAX,
    ensures
        len_at_front(blob_bytes(data) + rest) == Ok::<nat, Seq<char>>(data.len()),
        (blob_bytes(data) + rest).subrange(8, 8 + data.len() as int) == data,
        blob_bytes(data).len() == 8 + data.len(),
        blob_at_front(blob_bytes(data) + rest) == Ok::<Seq<u8>, Seq<char>>(data),
{
    lemma_byte_ranges();
    lemma_le_bytes_len(data.len(), 8);
    int_round_trip(data.len(), 8, data + rest);
    assert(blob_bytes(data) + rest =~= le_bytes(data.len(), 8) + (data + rest));
    assert((blob_bytes(data) + rest).subrange(8, 8 + data.len() as int) =~= data);
}

/// An input that starts with a blob starts with the bytes that are written
/// for that blob.
pub proof fn blob_is_canonical(input: Seq<u8>)
    requires
        blob_at_front(input) is Ok,
    ensures
        blob_bytes(blob_at_front(input)->Ok_0).is_prefix_of(input),
{
    int_is_canonical(input, 8);
    let data = blob_at_front(input)->Ok_0;
    lemma_le_bytes_len(data.len(), 8);
    assert(blob_bytes(data) =~= input.take(8 + data.len() as int));
}

/// Reading a text that was written gives it back, whatever follows.
pub proof fn text_round_trip(text: Seq<char>, rest: Seq<u8>)
    requires
        encode_utf8(text).len() <= usize::MAX,
    ensures
        text_at_front(text_bytes(text) + rest) == Ok::<Seq<char>, Seq<char>>(text),
{
    blob_round_trip(encode_utf8(text), rest);
    encode_utf8_valid_utf8(text);
    encode_utf8_decode_utf8(text);
}

/// An input that starts with a text starts with the bytes that are written
/// for that text.
pub proof fn text_is_canonical(input: Seq<u8>)
    requires
        text_at_front(input) is Ok,
    ensures
        text_bytes(text_at_front(input)->Ok_0).is_prefix_of(input),
{
    let n = len_at_front(input)->Ok_0;
    decode_utf8_encode_utf8(input.subrange(8, 8 + n as int));
    blob_is_canonical(input);
}

/// A text of `k` characters takes at most `4 * k` bytes.
pub proof fn lemma_utf8_len(text: Seq<char>)
    ensures
        encode_utf8(text).len() <= 4 * text.len(),
    decreases text.len(),
{
    if text.len() > 0 {
        lemma_utf8_len(text.drop_first());
    }
}

/// Calls `bincode::serialize` on a `u16`, which writes two little-endian bytes
/// and cannot fail.
#[verifier::external_body]
pub(crate) fn encode_u16(v: u16) -> (r: Result<Vec<u8>, String>)
    ensures
        r is Ok,
        r->Ok_0@ == le_bytes(v as nat, 2),
{
    match bincode::serialize(&v) {
        Ok(b) => Ok(b),
        Err(e) => Err(e.to_string()),
    }
}

/// Calls `bincode::serialize` on a `u32`, which writes four little-endian
/// bytes and cannot fail.
#[verifier::external_body]
pub(crate) fn encode_u32(v: u32) -> (r: Result<Vec<u8>, String>)
    ensures
        r is Ok,
        r->Ok_0@ == le_bytes(v as nat, 4),
{
    match bincode::serialize(&v) {
        Ok(b) => Ok(b),
        Err(e) => Err(e.to_string()),
    }
}

/// Calls `bincode::serialize` on a `u64`, which writes eight little-endian
/// bytes and cannot fail.
#[verifier::external_body]
pub(crate) fn encode_u64(v: u64) -> (r: Result<Vec<u8>, String>)
    ensures
        r is Ok,
        r->Ok_0@ == le_bytes(v as nat, 8),
{
    match bincode::serialize(&v) {
        Ok(b) => Ok(b),
        Err(e) => Err(e.to_string()),
    }
}

/// Calls `bincode::serialize` on a slice of bytes, which writes their number
/// as a `u64` and then the bytes, and cannot fail. The vector that it returns
/// has to exist, hence the bound.
#[verifier::external_body]
pub(crate) fn encode_blob(data: &[u8]) -> (r: Result<Vec<u8>, String>)
    requires
        data@.len() + 8 <= isize::MAX,
    ensures
        r is Ok,
        r->Ok_0@ == blob_bytes(data@),
{
    match bincode::serialize(data) {
        Ok(b) => Ok(b),
        Err(e) => Err(e.to_string()),
    }
}

/// Calls `bincode::serialize` on a text, which writes the length of its UTF-8
/// form as a `u64` and then that form, and cannot fail. The vector that it
/// returns has to exist, hence the bound.
#[verifier::external_body]
pub(crate) fn encode_text(text: &str) -> (r: Result<Vec<u8>, String>)
    requires
        encode_utf8(text@).len() + 8 <= isize::MAX,
    ensures
        r is Ok,
        r->Ok_0@ == text_bytes(text@),
{
    match bincode::serialize(text) {
        Ok(b) => Ok(b),
        Err(e) => Err(e.to_string()),
    }
}

/// Calls `bincode::deserialize` for a `u16`: the first two bytes, little-endian.
/// What follows them is ignored. It fails on a shorter input only, with an
/// error whose text is a function of the input.
#[verifier::external_body]
pub(crate) fn decode_u16(input: &[u8]) -> (r: Result<u16, String>)
    ensures
        match r {
            Ok(v) => int_at_front(input@, 2) == Ok::<nat, Seq<char>>(v as nat),
            Err(e) => input@.len() < 2 && e@ == truncated_text(input@),
        },
{
    match bincode::deserialize::<u16>(input) {
        Ok(v) => Ok(v),
        Err(e) => Err(e.to_string()),
    }
}

/// Calls `bincode::deserialize` for a `u32`: the first four bytes,
/// little-endian. What follows them is ignored. It fails on a shorter input
/// only, with an error whose text is a function of the input.
#[verifier::external_body]
pub(crate) fn decode_u32(input: &[u8]) -> (r: Result<u32, String>)
    ensures
        match r {
            Ok(v) => int_at_front(input@, 4) == Ok::<nat, Seq<char>>(v as nat),
            Err(e) => input@.len() < 4 && e@ == truncated_text(input@),
        },
{
    match bincode::deserialize::<u32>(input) {
        Ok(v) => Ok(v),
        Err(e) => Err(e.to_string()),
    }
}

/// Calls `bincode::deserialize` for a `u64`: the first eight bytes,
/// little-endian. What follows them is ignored. It fails on a shorter input
/// only, with an error whose text is a function of the input.
#[verifier::external_body]
pub(crate) fn decode_u64(input: &[u8]) -> (r: Result<u64, String>)
    ensures
        match r {
            Ok(v) => int_at_front(input@, 8) == Ok::<nat, Seq<char>>(v as nat),
            Err(e) => input@.len() < 8 && e@ == truncated_text(input@),
        },
{
    match bincode::deserialize::<u64>(input) {
        Ok(v) => Ok(v),
        Err(e) => Err(e.to_string()),
    }
}

/// Calls `bincode::deserialize` for a vector of bytes: a `u64` length, then as
/// many bytes. What follows them is ignored. It fails where the length is no
/// `usize` and where the input is too short.
#[verifier::external_body]
pub(crate) fn decode_blob(input: &[u8]) -> (r: Result<Vec<u8>, String>)
    ensures
        match r {
            Ok(v) => blob_at_front(input@) == Ok::<Seq<u8>, Seq<char>>(v@),
            Err(e) => blob_at_front(input@) == Err::<Seq<u8>, Seq<char>>(e@),
        },
{
    match bincode::deserialize::<Vec<u8>>(input) {
        Ok(v) => Ok(v),
        Err(e) => Err(e.to_string()),
    }
}

/// Calls `bincode::deserialize` for a `String`: a `u64` length, then as many
/// bytes of UTF-8. What follows them is ignored. It fails where the length is
/// no `usize`, where the input is too short and where the bytes are no UTF-8.
#[verifier::external_body]
pub(crate) fn decode_text(input: &[u8]) -> (r: Result<String, String>)
    ensures
        match r {
            Ok(v) => text_at_front(input@) == Ok::<Seq<char>, Seq<char>>(v@),
            Err(e) => text_at_front(input@) is Err && match len_at_front(input@) {
                Ok(_) => e@ == bad_text_text(input@),
                Err(text) => e@ == text,
            },
        },
{
    match bincode::deserialize::<String>(input) {
        Ok(v) => Ok(v),
        Err(e) => Err(e.to_string()),
    }
}

} // verus!
