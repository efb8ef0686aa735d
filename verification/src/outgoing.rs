//! Bytes that wait for a peer that may take only some of them.

use vstd::prelude::*;

use crate::frame::{partial_writes_add_up, taken, total};

verus! {

/// What became of an attempt to write.
#[derive(Debug, PartialEq, Eq, Clone, Copy, Structural)]
pub enum WriteOutcome {
    /// The peer took so many bytes.
    Wrote(usize),
    /// The peer takes nothing right now.
    WouldBlock,
    /// A signal came first.
    Interrupted,
    /// The peer is gone, or worse.
    Failed,
}

/// What to do after an attempt to write.
#[derive(Debug, PartialEq, Eq, Clone, Copy, Structural)]
pub enum FlushStep {
    /// Write again at once.
    Again,
    /// Stop. What is left waits until the peer is writable.
    Stop,
    /// Give up on the peer.
    Fail,
}

/// How many bytes an attempt to write has moved.
pub open spec fn moved(outcome: WriteOutcome) -> nat {
    match outcome {
        WriteOutcome::Wrote(n) => n as nat,
        _ => 0,
    }
}

/// What to do after an attempt to write that leaves `left` bytes.
pub open spec fn next_flush_step(outcome: WriteOutcome, left: nat) -> FlushStep {
    match outcome {
        WriteOutcome::Wrote(n) => if n == 0 || left == 0 {
            FlushStep::Stop
        } else {
            FlushStep::Again
        },
        WriteOutcome::WouldBlock => FlushStep::Stop,
        WriteOutcome::Interrupted => FlushStep::Again,
        WriteOutcome::Failed => FlushStep::Fail,
    }
}

/// Removes from the front of `queue` what an attempt to write has moved, and
/// says what to do next. A peer that takes nothing is left alone until it is
/// writable.
pub fn flush(queue: &mut Vec<u8>, outcome: WriteOutcome) -> (r: FlushStep)
    requires
        moved(outcome) <= old(queue)@.len(),
    ensures
        final(queue)@ == old(queue)@.skip(moved(outcome) as int),
        r == next_flush_step(outcome, final(queue)@.len()),
        outcome matches WriteOutcome::Wrote(n) ==> old(queue)@.take(n as int) + final(queue)@
            == old(queue)@,
        outcome !is Wrote ==> final(queue)@ == old(queue)@,
{
    match outcome {
        WriteOutcome::Wrote(n) => {
            if n == 0 {
                assert(queue@.skip(0) =~= queue@);
                return FlushStep::Stop;
            }
            let rest: Vec<u8> = queue.split_off(n);
            assert(rest@ =~= old(queue)@.skip(n as int));
            assert(old(queue)@.take(n as int) + rest@ =~= old(queue)@);
            *queue = rest;
            if queue.is_empty() {
                FlushStep::Stop
            } else {
                FlushStep::Again
            }
        },
        WriteOutcome::WouldBlock => {
            assert(queue@.skip(0) =~= queue@);
            FlushStep::Stop
        },
        WriteOutcome::Interrupted => {
            assert(queue@.skip(0) =~= queue@);
            FlushStep::Again
        },
        WriteOutcome::Failed => {
            assert(queue@.skip(0) =~= queue@);
            FlushStep::Fail
        },
    }
}

/// What some attempts to write leave of a queue.
pub open spec fn after_flushes(queue: Seq<u8>, outcomes: Seq<WriteOutcome>) -> Seq<u8>
    decreases outcomes.len(),
{
    if outcomes.len() == 0 {
        queue
    } else {
        after_flushes(queue, outcomes.drop_last()).skip(moved(outcomes.last()) as int)
    }
}

/// How many bytes each of some attempts to write has moved.
pub open spec fn moves(outcomes: Seq<WriteOutcome>) -> Seq<nat> {
    outcomes.map_values(|outcome: WriteOutcome| moved(outcome))
}

/// Whatever the attempts to write come to, what the peer has received and what
/// still waits are together the queue: no byte is lost, doubled or moved.
pub proof fn flushing_keeps_every_byte(queue: Seq<u8>, outcomes: Seq<WriteOutcome>)
    requires
        total(moves(outcomes)) <= queue.len(),
    ensures
        taken(queue, moves(outcomes)) + after_flushes(queue, outcomes) == queue,
    decreases outcomes.len(),
{
    let counts = moves(outcomes);
    partial_writes_add_up(queue, counts);
    if outcomes.len() > 0 {
        let before = outcomes.drop_last();
        assert(moves(before) =~= counts.drop_last());
        flushing_keeps_every_byte(queue, before);
        partial_writes_add_up(queue, counts.drop_last());
        let sent = total(counts.drop_last());
        assert(after_flushes(queue, before) =~= queue.skip(sent as int));
        assert(after_flushes(queue, outcomes) =~= queue.skip(total(counts) as int));
    } else {
        assert(after_flushes(queue, outcomes) =~= queue.skip(0));
    }
    assert(taken(queue, counts) + after_flushes(queue, outcomes) =~= queue);
}

} // verus!
