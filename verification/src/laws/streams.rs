//! What becomes of bytes: numbers as bytes, frames, reads and writes.

use vstd::arithmetic::div_mod::{
    lemma_div_denominator, lemma_fundamental_div_mod_converse, lemma_mod_breakdown, lemma_mod_mod,
};
use vstd::arithmetic::power::{lemma_pow_positive, pow};
use vstd::prelude::*;

use crate::bytes::{
    be_bytes, be_value, le_bytes, lemma_be_bytes_of_value, lemma_be_value_of_bytes,
    lemma_byte_ranges, lemma_le_bytes_len,
};
use crate::conn::{
    inbound_after, initial_conn, is_arriving, next_read_step, read_fits, wanted_after, ReadStepView,
};
use crate::frame::{
    all_short, first_frame, frame, header, joined, leftover, lemma_header_len, lemma_joined_push,
    payloads, payloads_invert_joining, LENGTH_RANGE,
};
use crate::outgoing::{moved, next_flush_step, FlushStep, WriteOutcome};
use crate::state::{interest_for, Interest, ReadOutcome};

verus! {

/// The bytes of a number are its digits to the base 256: the byte at place `i`
/// counts powers of 256.
pub proof fn bytes_are_digits(n: nat, width: nat, i: int)
    requires
        0 <= i < width,
    ensures
        le_bytes(n, width).len() == width,
        le_bytes(n, width)[i] as int == (n as int / pow(256, i as nat)) % 256,
        be_bytes(n, width).len() == width,
        be_bytes(n, width)[width - 1 - i] as int == (n as int / pow(256, i as nat)) % 256,
    decreases width,
{
    reveal(pow);
    lemma_le_bytes_len(n, width);
    lemma_le_bytes_len(n / 256, (width - 1) as nat);
    if i > 0 {
        bytes_are_digits(n / 256, (width - 1) as nat, i - 1);
        lemma_pow_positive(256, (i - 1) as nat);
        lemma_div_denominator(n as int, 256, pow(256, (i - 1) as nat));
    }
}

/// The header of a frame is the length of its payload in four bytes, the most
/// significant one first. Of a longer payload it holds the lowest four bytes.
pub proof fn headers_are_big_endian(len: nat)
    ensures
        header(len).len() == 4,
        header(len)[0] as nat == (len / 0x100_0000) % 256,
        header(len)[1] as nat == (len / 0x1_0000) % 256,
        header(len)[2] as nat == (len / 0x100) % 256,
        header(len)[3] as nat == len % 256,
{
    let n = len % (LENGTH_RANGE as nat);
    lemma_four_bytes(n);
    lemma_low_bytes(len);
}

proof fn lemma_four_bytes(n: nat)
    ensures
        be_bytes(n, 4).len() == 4,
        be_bytes(n, 4)[0] as nat == (n / 0x100_0000) % 256,
        be_bytes(n, 4)[1] as nat == (n / 0x1_0000) % 256,
        be_bytes(n, 4)[2] as nat == (n / 0x100) % 256,
        be_bytes(n, 4)[3] as nat == n % 256,
{
    bytes_are_digits(n, 4, 0);
    bytes_are_digits(n, 4, 1);
    bytes_are_digits(n, 4, 2);
    bytes_are_digits(n, 4, 3);
    assert(pow(256, 0) == 1 && pow(256, 1) == 0x100 && pow(256, 2) == 0x1_0000 && pow(256, 3)
        == 0x100_0000) by {
        reveal_with_fuel(pow, 4);
    }
}

proof fn lemma_low_bytes(len: nat)
    ensures
        ((len % 0x1_0000_0000) / 0x100_0000) % 256 == (len / 0x100_0000) % 256,
        ((len % 0x1_0000_0000) / 0x1_0000) % 256 == (len / 0x1_0000) % 256,
        ((len % 0x1_0000_0000) / 0x100) % 256 == (len / 0x100) % 256,
        (len % 0x1_0000_0000) % 256 == len % 256,
{
    let n = len as int;
    lemma_low_byte(n, 0x100_0000, 0x100);
    lemma_low_byte(n, 0x1_0000, 0x1_0000);
    lemma_low_byte(n, 0x100, 0x100_0000);
    lemma_mod_mod(n / 0x1_0000, 256, 0x100);
    lemma_mod_mod(n / 0x100, 256, 0x1_0000);
    lemma_mod_mod(n, 256, 0x100_0000);
    lemma_mod_mod(n / 0x100_0000, 256, 1);
}

proof fn lemma_low_byte(n: int, y: int, z: int)
    requires
        n >= 0,
        y > 0,
        z > 0,
    ensures
        (n % (y * z)) / y == (n / y) % z,
{
    lemma_mod_breakdown(n, y, z);
    let q = (n / y) % z;
    let r = n % y;
    assert(n % (y * z) == q * y + r) by (nonlinear_arith)
        requires
            n % (y * z) == y * q + r,
    ;
    lemma_fundamental_div_mod_converse(n % (y * z), y, q, r);
}

/// A frame is a header of four bytes that tells the length of what follows,
/// and then the payload itself, all of it.
pub proof fn frames_hold_their_payload(payload: Seq<u8>)
    ensures
        frame(payload).len() == 4 + payload.len(),
        frame(payload).skip(4) == payload,
        payload.len() < 0x1_0000_0000 ==> be_value(frame(payload).take(4)) == payload.len(),
{
    lemma_header_len(payload.len());
    lemma_byte_ranges();
    assert(frame(payload).skip(4) =~= payload);
    assert(frame(payload).take(4) =~= header(payload.len()));
    if payload.len() < 0x1_0000_0000 {
        lemma_be_value_of_bytes(payload.len(), 4);
    }
}

/// A stream that stops inside its first frame holds no frame yet.
pub proof fn unfinished_frames_are_not_read(payload: Seq<u8>, k: int)
    requires
        payload.len() < 0x1_0000_0000,
        0 <= k < frame(payload).len(),
    ensures
        first_frame(frame(payload).take(k)) is None,
        payloads(frame(payload).take(k)) == Seq::<Seq<u8>>::empty(),
        leftover(frame(payload).take(k)) == frame(payload).take(k),
{
    frames_hold_their_payload(payload);
    if k >= 4 {
        assert(frame(payload).take(k).take(4) =~= frame(payload).take(4));
    }
}

/// While a frame arrives, the daemon wants the rest of its header, and then
/// the rest of its payload, and never more than that.
pub proof fn the_rest_of_a_frame_is_wanted(payload: Seq<u8>, k: int)
    requires
        payload.len() < 0x1_0000_0000,
        0 <= k < frame(payload).len(),
    ensures
        is_arriving(frame(payload).take(k)),
        wanted_after(frame(payload).take(k)) == if k < 4 {
            4 - k
        } else {
            4 + payload.len() - k
        },
{
    frames_hold_their_payload(payload);
    if k >= 4 {
        assert(frame(payload).take(k).take(4) =~= frame(payload).take(4));
    }
}

/// A read that completes a frame hands its payload on, whole and unchanged,
/// and nothing of it is left.
pub proof fn completed_frames_are_handed_on(payload: Seq<u8>, k: int, read: Vec<u8>)
    requires
        payload.len() < 0x1_0000_0000,
        0 <= k < frame(payload).len(),
        read@ == frame(payload).skip(k),
        k >= 4 || payload.len() == 0,
    ensures
        ({
            let arrived = frame(payload).take(k);
            let outcome = ReadOutcome::Data(read);
            &&& read_fits(arrived, outcome)
            &&& next_read_step(arrived, outcome) == ReadStepView::Message(payload)
            &&& inbound_after(arrived, outcome) == Seq::<u8>::empty()
        }),
{
    let arrived = frame(payload).take(k);
    frames_hold_their_payload(payload);
    the_rest_of_a_frame_is_wanted(payload, k);
    assert(arrived + read@ =~= frame(payload));
}

/// A read that brings a part of a frame keeps every byte of it. Where it
/// completes the header, the payload is read at once; else the daemon waits.
pub proof fn parts_of_a_frame_are_kept(payload: Seq<u8>, k: int, m: int, read: Vec<u8>)
    requires
        payload.len() < 0x1_0000_0000,
        0 <= k < m < frame(payload).len(),
        k < 4 ==> m <= 4,
        read@ == frame(payload).subrange(k, m),
    ensures
        ({
            let arrived = frame(payload).take(k);
            let outcome = ReadOutcome::Data(read);
            &&& read_fits(arrived, outcome)
            &&& inbound_after(arrived, outcome) == frame(payload).take(m)
            &&& next_read_step(arrived, outcome) == if m == 4 {
                ReadStepView::More
            } else {
                ReadStepView::Wait
            }
        }),
{
    let arrived = frame(payload).take(k);
    frames_hold_their_payload(payload);
    the_rest_of_a_frame_is_wanted(payload, k);
    the_rest_of_a_frame_is_wanted(payload, m);
    assert(arrived + read@ =~= frame(payload).take(m));
    if m >= 4 {
        assert(frame(payload).take(m).take(4) =~= frame(payload).take(4));
    }
}

/// A read that brings nothing leaves what has arrived alone, and tells a client
/// that has closed from one that is silent and from one that is broken.
pub proof fn reads_of_nothing_lose_nothing(inbound: Seq<u8>, read: Vec<u8>)
    requires
        read@.len() == 0,
    ensures
        inbound_after(inbound, ReadOutcome::Data(read)) == inbound,
        inbound_after(inbound, ReadOutcome::WouldBlock) == inbound,
        inbound_after(inbound, ReadOutcome::Failed) == inbound,
        next_read_step(inbound, ReadOutcome::Data(read)) == ReadStepView::Closed,
        next_read_step(inbound, ReadOutcome::WouldBlock) == ReadStepView::Wait,
        next_read_step(inbound, ReadOutcome::Failed) == ReadStepView::Fail,
{
}

/// What is arriving after several attempts to read, and the payloads that were
/// handed on.
pub open spec fn after_reads(outcomes: Seq<ReadOutcome>) -> (Seq<u8>, Seq<Seq<u8>>)
    decreases outcomes.len(),
{
    if outcomes.len() == 0 {
        (initial_conn().inbound, Seq::empty())
    } else {
        let (inbound, done) = after_reads(outcomes.drop_last());
        (
            inbound_after(inbound, outcomes.last()),
            match next_read_step(inbound, outcomes.last()) {
                ReadStepView::Message(payload) => done.push(payload),
                _ => done,
            },
        )
    }
}

/// The bytes that several attempts to read have brought.
pub open spec fn brought(outcomes: Seq<ReadOutcome>) -> Seq<u8>
    decreases outcomes.len(),
{
    if outcomes.len() == 0 {
        Seq::empty()
    } else {
        brought(outcomes.drop_last()) + match outcomes.last() {
            ReadOutcome::Data(read) => read@,
            _ => Seq::empty(),
        }
    }
}

/// Whether no attempt to read brought more than was wanted.
pub open spec fn reads_fit(outcomes: Seq<ReadOutcome>) -> bool
    decreases outcomes.len(),
{
    outcomes.len() == 0 || {
        &&& reads_fit(outcomes.drop_last())
        &&& read_fits(after_reads(outcomes.drop_last()).0, outcomes.last())
    }
}

/// However a stream is cut into reads, the payloads that the reads hand on are
/// those of the frames in the stream, and what is arriving is what is left of
/// it.
pub proof fn reads_hand_on_what_was_sent(outcomes: Seq<ReadOutcome>)
    requires
        reads_fit(outcomes),
    ensures
        ({
            let (inbound, done) = after_reads(outcomes);
            &&& joined(done) + inbound == brought(outcomes)
            &&& done == payloads(brought(outcomes))
            &&& inbound == leftover(brought(outcomes))
            &&& all_short(done)
            &&& is_arriving(inbound)
        }),
    decreases outcomes.len(),
{
    let (inbound, done) = after_reads(outcomes);
    if outcomes.len() == 0 {
        assert(joined(done) + inbound =~= brought(outcomes));
    } else {
        reads_hand_on_what_was_sent(outcomes.drop_last());
        let (before, old_done) = after_reads(outcomes.drop_last());
        lemma_read_keeps_bytes(before, old_done, outcomes.last());
        assert(joined(done) + inbound =~= brought(outcomes));
    }
    assert(first_frame(inbound) is None);
    payloads_invert_joining(done, inbound);
}

proof fn lemma_read_keeps_bytes(before: Seq<u8>, done: Seq<Seq<u8>>, outcome: ReadOutcome)
    requires
        is_arriving(before),
        all_short(done),
        read_fits(before, outcome),
    ensures
        ({
            let after = inbound_after(before, outcome);
            let read = match outcome {
                ReadOutcome::Data(read) => read@,
                _ => Seq::empty(),
            };
            let now = match next_read_step(before, outcome) {
                ReadStepView::Message(payload) => done.push(payload),
                _ => done,
            };
            &&& joined(now) + after == joined(done) + before + read
            &&& all_short(now)
            &&& is_arriving(after)
        }),
{
    if let ReadOutcome::Data(read) = outcome {
        let all = before + read@;
        assert(joined(done) + before + read@ =~= joined(done) + all);
        if before.len() >= 4 {
            assert(all.take(4) =~= before.take(4));
        }
        if read@.len() == 0 {
            assert(all =~= before);
        } else if all.len() >= 4 && all.len() == 4 + be_value(all.take(4)) {
            let payload = all.skip(4);
            lemma_whole_frame(all);
            lemma_joined_push(done, payload);
            assert(joined(done.push(payload)) + Seq::<u8>::empty() =~= joined(done) + all);
        }
    } else {
        assert(joined(done) + before + Seq::<u8>::empty() =~= joined(done) + before);
    }
}

proof fn lemma_whole_frame(all: Seq<u8>)
    requires
        all.len() >= 4,
        all.len() == 4 + be_value(all.take(4)),
    ensures
        frame(all.skip(4)) == all,
        all.skip(4).len() < 0x1_0000_0000,
{
    lemma_byte_ranges();
    lemma_be_bytes_of_value(all.take(4));
    assert(frame(all.skip(4)) =~= all);
}

/// When the peer reports that it took `n` bytes, those `n` and no others leave
/// the queue: what it took and what still waits are together the queue. Any
/// other report takes nothing.
pub proof fn reported_bytes_leave_the_queue(queue: Seq<u8>, n: usize)
    requires
        n <= queue.len(),
    ensures
        moved(WriteOutcome::Wrote(n)) == n,
        queue.take(n as int) + queue.skip(moved(WriteOutcome::Wrote(n)) as int) == queue,
        queue.skip(moved(WriteOutcome::Wrote(n)) as int).len() == queue.len() - n,
        moved(WriteOutcome::WouldBlock) == 0,
        moved(WriteOutcome::Interrupted) == 0,
        moved(WriteOutcome::Failed) == 0,
{
    assert(queue.take(n as int) + queue.skip(n as int) =~= queue);
}

/// Writing goes on at once while the peer takes bytes and some are left, and
/// after a signal. A peer that takes none is not asked again until it is
/// writable. Only a failure ends the connection.
pub proof fn writing_goes_on_while_it_succeeds(outcome: WriteOutcome, left: nat)
    ensures
        next_flush_step(outcome, left) == FlushStep::Again <==> outcome
            == WriteOutcome::Interrupted || (outcome is Wrote && outcome != WriteOutcome::Wrote(0)
            && left > 0),
        next_flush_step(outcome, left) == FlushStep::Fail <==> outcome == WriteOutcome::Failed,
        next_flush_step(outcome, left) == FlushStep::Stop <==> outcome == WriteOutcome::WouldBlock
            || outcome == WriteOutcome::Wrote(0) || (outcome is Wrote && left == 0),
{
}

/// A peer is watched for room to write exactly while bytes wait for it.
pub proof fn room_is_awaited_while_bytes_wait(waiting: Seq<u8>)
    ensures
        interest_for(waiting) == Interest::ReadWrite <==> waiting.len() > 0,
        interest_for(waiting) == Interest::Readable <==> waiting.len() == 0,
{
}

} // verus!
