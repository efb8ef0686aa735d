//! Messages on a byte stream: each payload follows its length, four bytes,
//! most significant first.

use vstd::prelude::*;
use vstd::slice::slice_subrange;

use crate::bytes::{
    be_bytes, be_value, le_bytes, le_value, lemma_be_bytes_len, lemma_be_bytes_of_value,
    lemma_be_value_of_bytes, lemma_byte_ranges,
};

verus! {

/// How many lengths four bytes can tell apart.
pub const LENGTH_RANGE: u64 = 0x1_0000_0000;

/// The four bytes that precede a payload of `len` bytes. A longer payload than
/// they can express has its length taken modulo [`LENGTH_RANGE`].
pub open spec fn header(len: nat) -> Seq<u8> {
    be_bytes(len % (LENGTH_RANGE as nat), 4)
}

/// A payload with its header.
pub open spec fn frame(payload: Seq<u8>) -> Seq<u8> {
    header(payload.len()) + payload
}

/// The first frame of a stream and what follows it, or nothing while the
/// frame is incomplete.
pub open spec fn first_frame(stream: Seq<u8>) -> Option<(Seq<u8>, Seq<u8>)> {
    if stream.len() < 4 {
        None
    } else {
        let len = be_value(stream.take(4));
        if stream.len() < 4 + len {
            None
        } else {
            Some((stream.subrange(4, 4 + len as int), stream.skip(4 + len as int)))
        }
    }
}

/// The payloads of the frames that a stream holds.
pub open spec fn payloads(stream: Seq<u8>) -> Seq<Seq<u8>>
    decreases stream.len(),
{
    match first_frame(stream) {
        Some((payload, rest)) => seq![payload] + payloads(rest),
        None => Seq::empty(),
    }
}

/// What is left of a stream behind its last complete frame.
pub open spec fn leftover(stream: Seq<u8>) -> Seq<u8>
    decreases stream.len(),
{
    match first_frame(stream) {
        Some((payload, rest)) => leftover(rest),
        None => stream,
    }
}

/// A stream made of the frames of some payloads.
pub open spec fn joined(list: Seq<Seq<u8>>) -> Seq<u8>
    decreases list.len(),
{
    if list.len() == 0 {
        Seq::empty()
    } else {
        frame(list[0]) + joined(list.drop_first())
    }
}

/// Whether the length of each payload can be expressed.
pub open spec fn all_short(list: Seq<Seq<u8>>) -> bool {
    forall|i: int| 0 <= i < list.len() ==> (#[trigger] list[i]).len() < LENGTH_RANGE
}

pub proof fn lemma_header_len(len: nat)
    ensures
        header(len).len() == 4,
{
    lemma_be_bytes_len(len % (LENGTH_RANGE as nat), 4);
}

/// Reading a stream that starts with a frame gives the payload of that frame,
/// and leaves the rest of the stream.
pub proof fn reading_inverts_framing(payload: Seq<u8>, rest: Seq<u8>)
    requires
        payload.len() < LENGTH_RANGE,
    ensures
        first_frame(frame(payload) + rest) == Some((payload, rest)),
{
    let stream = frame(payload) + rest;
    lemma_header_len(payload.len());
    lemma_byte_ranges();
    lemma_be_value_of_bytes(payload.len(), 4);
    assert(stream.take(4) =~= header(payload.len()));
    assert(stream.subrange(4, 4 + payload.len() as int) =~= payload);
    assert(stream.skip(4 + payload.len() as int) =~= rest);
}

/// A complete first frame is the frame of its payload.
pub proof fn framing_inverts_reading(stream: Seq<u8>)
    requires
        first_frame(stream) is Some,
    ensures
        ({
            let (payload, rest) = first_frame(stream)->0;
            stream == frame(payload) + rest && payload.len() < LENGTH_RANGE
        }),
{
    let (payload, rest) = first_frame(stream)->0;
    lemma_byte_ranges();
    lemma_be_bytes_of_value(stream.take(4));
    assert(payload.len() == be_value(stream.take(4)));
    assert(header(payload.len()) == stream.take(4));
    assert(frame(payload) + rest =~= stream);
}

/// A stream of frames holds exactly the payloads that it was made of, however
/// an incomplete frame ends it.
pub proof fn payloads_invert_joining(list: Seq<Seq<u8>>, rest: Seq<u8>)
    requires
        all_short(list),
        first_frame(rest) is None,
    ensures
        payloads(joined(list) + rest) == list,
        leftover(joined(list) + rest) == rest,
    decreases list.len(),
{
    if list.len() == 0 {
        assert(joined(list) + rest =~= rest);
        assert(list =~= Seq::empty());
    } else {
        let tail = list.drop_first();
        let more = joined(tail) + rest;
        assert forall|i: int| 0 <= i < tail.len() implies (#[trigger] tail[i]).len()
            < LENGTH_RANGE by {
            assert(tail[i] == list[i + 1]);
        }
        payloads_invert_joining(tail, rest);
        reading_inverts_framing(list[0], more);
        assert(joined(list) + rest =~= frame(list[0]) + more);
        assert(seq![list[0]] + tail =~= list);
    }
}

/// Adding a payload to a list adds its frame to the stream.
pub proof fn lemma_joined_push(list: Seq<Seq<u8>>, payload: Seq<u8>)
    ensures
        joined(list.push(payload)) == joined(list) + frame(payload),
    decreases list.len(),
{
    let longer = list.push(payload);
    if list.len() == 0 {
        assert(longer.drop_first() =~= Seq::empty());
        assert(joined(longer.drop_first()) == Seq::<u8>::empty());
        assert(joined(longer) =~= joined(list) + frame(payload));
    } else {
        lemma_joined_push(list.drop_first(), payload);
        assert(longer.drop_first() =~= list.drop_first().push(payload));
        assert(joined(longer) =~= joined(list) + frame(payload));
    }
}

/// The header of a payload of `len` bytes.
pub fn frame_header(len: usize) -> (r: [u8; 4])
    ensures
        r@ == header(len as nat),
{
    let n: u64 = len as u64 % LENGTH_RANGE;
    let d: u64 = n;
    let c: u64 = d / 256;
    let b: u64 = c / 256;
    let a: u64 = b / 256;
    let r: [u8; 4] = [a as u8, (b % 256) as u8, (c % 256) as u8, (d % 256) as u8];
    proof {
        reveal_with_fuel(le_bytes, 5);
        assert(a < 256);
        assert(r@ =~= header(len as nat));
    }
    r
}

/// The length that a header expresses.
pub fn payload_len(header: &[u8; 4]) -> (r: usize)
    ensures
        r == be_value(header@),
{
    let n: u32 = ((header[0] as u32 * 256 + header[1] as u32) * 256 + header[2] as u32) * 256
        + header[3] as u32;
    proof {
        reveal_with_fuel(le_value, 5);
        let s = header@.reverse();
        assert(s.drop_first().drop_first().drop_first().drop_first() =~= Seq::empty());
        assert(n == be_value(header@));
    }
    n as usize
}

/// The stream took no byte of a frame that is not written yet.
#[derive(Debug, PartialEq, Eq, Clone, Copy, Structural)]
pub struct WriteZero;

/// A frame on its way to a stream that may take less than it is offered.
pub struct FrameWriter<'a> {
    payload: &'a [u8],
    len: [u8; 4],
    len_sent: usize,
    payload_sent: usize,
}

impl<'a> FrameWriter<'a> {
    /// The payload that is being written.
    pub closed spec fn payload(&self) -> Seq<u8> {
        self.payload@
    }

    /// How many bytes of the frame the stream has taken.
    pub closed spec fn sent(&self) -> nat {
        self.len_sent as nat + self.payload_sent as nat
    }

    pub closed spec fn wf(&self) -> bool {
        &&& self.payload@.len() + 4 <= usize::MAX
        &&& self.len@ == header(self.payload@.len())
        &&& self.len_sent <= 4
        &&& self.payload_sent <= self.payload@.len()
        &&& self.payload_sent > 0 ==> self.len_sent == 4
    }

    /// Starts to write the frame of `payload`.
    pub fn new(payload: &'a [u8]) -> (r: FrameWriter<'a>)
        requires
            payload@.len() + 4 <= usize::MAX,
        ensures
            r.wf(),
            r.payload() == payload@,
            r.sent() == 0,
    {
        FrameWriter { payload, len: frame_header(payload.len()), len_sent: 0, payload_sent: 0 }
    }

    /// Whether the stream has taken the whole frame.
    pub fn is_done(&self) -> (r: bool)
        requires
            self.wf(),
        ensures
            r == (self.sent() == frame(self.payload()).len()),
    {
        proof {
            lemma_header_len(self.payload@.len());
        }
        self.len_sent + self.payload_sent == 4 + self.payload.len()
    }

    /// The two pieces to offer next, one after the other: together, all that
    /// is left of the frame.
    pub fn pending(&self) -> (r: (&[u8], &[u8]))
        requires
            self.wf(),
        ensures
            r.0@ + r.1@ == frame(self.payload()).skip(self.sent() as int),
    {
        proof {
            lemma_header_len(self.payload@.len());
        }
        if self.len_sent < 4 {
            let head: &[u8] = slice_subrange(self.len.as_slice(), self.len_sent, 4);
            let body: &[u8] = slice_subrange(self.payload, self.payload_sent, self.payload.len());
            assert(head@ + body@ =~= frame(self.payload()).skip(self.sent() as int));
            (head, body)
        } else {
            let body: &[u8] = slice_subrange(self.payload, self.payload_sent, self.payload.len());
            let none: &[u8] = slice_subrange(self.payload, self.payload.len(), self.payload.len());
            assert(body@ + none@ =~= frame(self.payload()).skip(self.sent() as int));
            (body, none)
        }
    }

    /// Takes note that the stream took `n` bytes of what was pending. That it
    /// took none is an error.
    pub fn advance(&mut self, n: usize) -> (r: Result<(), WriteZero>)
        requires
            old(self).wf(),
            old(self).sent() + n <= frame(old(self).payload()).len(),
        ensures
            final(self).wf(),
            final(self).payload() == old(self).payload(),
            r is Err <==> n == 0,
            final(self).sent() == old(self).sent() + n,
    {
        proof {
            lemma_header_len(self.payload@.len());
        }
        if n == 0 {
            return Err(WriteZero);
        }
        if self.len_sent < 4 {
            let room: usize = 4 - self.len_sent;
            let step: usize = if n < room {
                n
            } else {
                room
            };
            self.len_sent = self.len_sent + step;
            self.payload_sent = self.payload_sent + (n - step);
        } else {
            self.payload_sent = self.payload_sent + n;
        }
        Ok(())
    }
}

/// What a stream has received after taking `counts[0]`, `counts[1]` and so on
/// of the bytes that were pending each time.
pub open spec fn taken(whole: Seq<u8>, counts: Seq<nat>) -> Seq<u8>
    decreases counts.len(),
{
    if counts.len() == 0 {
        Seq::empty()
    } else {
        let before = taken(whole, counts.drop_last());
        before + whole.skip(before.len() as int).take(counts.last() as int)
    }
}

/// The sum of some counts.
pub open spec fn total(counts: Seq<nat>) -> nat
    decreases counts.len(),
{
    if counts.len() == 0 {
        0
    } else {
        total(counts.drop_last()) + counts.last()
    }
}

/// However a stream cuts a frame into pieces, it receives the frame: every
/// byte once, in order.
pub proof fn partial_writes_add_up(whole: Seq<u8>, counts: Seq<nat>)
    requires
        total(counts) <= whole.len(),
    ensures
        taken(whole, counts) == whole.take(total(counts) as int),
        total(counts) == whole.len() ==> taken(whole, counts) == whole,
    decreases counts.len(),
{
    if counts.len() == 0 {
        assert(taken(whole, counts) =~= whole.take(0));
    } else {
        partial_writes_add_up(whole, counts.drop_last());
        assert(taken(whole, counts) =~= whole.take(total(counts) as int));
    }
    assert(whole.take(whole.len() as int) =~= whole);
}

/// A frame on its way from a stream that delivers what it is asked for.
pub struct FrameReader {
    expected_payload: Option<usize>,
}

impl FrameReader {
    /// The length of the payload, once the header has been read.
    pub closed spec fn expected(&self) -> Option<nat> {
        match self.expected_payload {
            Some(len) => Some(len as nat),
            None => None,
        }
    }

    /// Starts to read a frame.
    pub fn new() -> (r: FrameReader)
        ensures
            r.expected() is None,
    {
        FrameReader { expected_payload: None }
    }

    /// How many bytes to read next: four for the header, then the payload.
    pub fn wanted(&self) -> (r: usize)
        ensures
            r == match self.expected() {
                None => 4,
                Some(len) => len,
            },
    {
        match self.expected_payload {
            None => 4,
            Some(len) => len,
        }
    }

    /// Takes the bytes that were wanted. Returns the payload when it is there.
    pub fn received(&mut self, bytes: Vec<u8>) -> (r: Option<Vec<u8>>)
        requires
            bytes@.len() == match old(self).expected() {
                None => 4,
                Some(len) => len,
            },
        ensures
            match old(self).expected() {
                None => r is None && final(self).expected() == Some(be_value(bytes@)),
                Some(len) => r is Some && r->0@ == bytes@ && final(self).expected() is None,
            },
    {
        match self.expected_payload {
            None => {
                let head: [u8; 4] = [bytes[0], bytes[1], bytes[2], bytes[3]];
                assert(head@ =~= bytes@);
                self.expected_payload = Some(payload_len(&head));
                None
            },
            Some(_) => {
                self.expected_payload = None;
                Some(bytes)
            },
        }
    }
}

/// Reading a stream four bytes and then as many as those express gives its
/// first frame.
pub proof fn two_reads_give_the_first_frame(stream: Seq<u8>)
    requires
        first_frame(stream) is Some,
    ensures
        ({
            let len = be_value(stream.take(4));
            first_frame(stream) == Some(
                (stream.skip(4).take(len as int), stream.skip(4).skip(len as int)),
            )
        }),
{
    let len = be_value(stream.take(4));
    assert(stream.skip(4).take(len as int) =~= stream.subrange(4, 4 + len as int));
    assert(stream.skip(4).skip(len as int) =~= stream.skip(4 + len as int));
}

} // verus!
