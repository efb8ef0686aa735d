use mxr::frame::{frame_header, payload_len, FrameReader, FrameWriter, WriteZero};
use mxr::outgoing::{flush, FlushStep, WriteOutcome};

#[test]
fn headers_are_big_endian() {
    assert_eq!(frame_header(0), [0, 0, 0, 0]);
    assert_eq!(frame_header(5), [0, 0, 0, 5]);
    assert_eq!(frame_header(0x01020304), [1, 2, 3, 4]);
    assert_eq!(frame_header(0xffff_ffff), [255, 255, 255, 255]);
    assert_eq!(frame_header(0x1_0000_0007), [0, 0, 0, 7]);
}

#[test]
fn headers_are_read_back() {
    for n in [0usize, 1, 255, 256, 65536, 0x01020304, 0xffff_ffff] {
        assert_eq!(payload_len(&frame_header(n)), n);
    }
}

fn written(payload: &[u8], counts: &[usize]) -> Vec<u8> {
    let mut stream: Vec<u8> = Vec::new();
    let mut writer = FrameWriter::new(payload);
    for n in counts {
        assert!(!writer.is_done());
        let (a, b) = writer.pending();
        let mut offered = a.to_vec();
        offered.extend_from_slice(b);
        stream.extend_from_slice(&offered[..*n]);
        assert!(writer.advance(*n).is_ok());
    }
    assert!(writer.is_done());
    stream
}

#[test]
fn a_frame_survives_partial_writes() {
    let whole = vec![0, 0, 0, 3, 7, 8, 9];
    assert_eq!(written(&[7, 8, 9], &[7]), whole);
    assert_eq!(written(&[7, 8, 9], &[1, 1, 1, 1, 1, 1, 1]), whole);
    assert_eq!(written(&[7, 8, 9], &[2, 4, 1]), whole);
    assert_eq!(written(&[7, 8, 9], &[4, 3]), whole);
    assert_eq!(written(&[], &[3, 1]), vec![0, 0, 0, 0]);
}

#[test]
fn a_stream_that_takes_nothing_is_an_error() {
    let mut writer = FrameWriter::new(&[1]);
    assert_eq!(writer.advance(0), Err(WriteZero));
}

#[test]
fn the_header_is_offered_before_the_payload() {
    let mut writer = FrameWriter::new(&[5, 6]);
    assert_eq!(writer.pending(), (&[0u8, 0, 0, 2][..], &[5u8, 6][..]));
    assert!(writer.advance(3).is_ok());
    assert_eq!(writer.pending(), (&[2u8][..], &[5u8, 6][..]));
    assert!(writer.advance(2).is_ok());
    assert_eq!(writer.pending(), (&[6u8][..], &[][..]));
}

#[test]
fn a_frame_is_read_in_two_steps() {
    let stream = [0u8, 0, 0, 2, 40, 41, 99];
    let mut reader = FrameReader::new();
    assert_eq!(reader.wanted(), 4);
    assert_eq!(reader.received(stream[..4].to_vec()), None);
    assert_eq!(reader.wanted(), 2);
    assert_eq!(reader.received(stream[4..6].to_vec()), Some(vec![40, 41]));
    assert_eq!(reader.wanted(), 4);
}

#[test]
fn an_empty_frame_has_an_empty_payload() {
    let mut reader = FrameReader::new();
    assert_eq!(reader.received(vec![0, 0, 0, 0]), None);
    assert_eq!(reader.wanted(), 0);
    assert_eq!(reader.received(vec![]), Some(vec![]));
}

#[test]
fn flushing_removes_what_was_taken() {
    let mut queue = vec![1, 2, 3, 4];
    assert_eq!(flush(&mut queue, WriteOutcome::Wrote(1)), FlushStep::Again);
    assert_eq!(queue, vec![2, 3, 4]);
    assert_eq!(flush(&mut queue, WriteOutcome::Interrupted), FlushStep::Again);
    assert_eq!(flush(&mut queue, WriteOutcome::WouldBlock), FlushStep::Stop);
    assert_eq!(flush(&mut queue, WriteOutcome::Wrote(0)), FlushStep::Stop);
    assert_eq!(flush(&mut queue, WriteOutcome::Failed), FlushStep::Fail);
    assert_eq!(queue, vec![2, 3, 4]);
    assert_eq!(flush(&mut queue, WriteOutcome::Wrote(3)), FlushStep::Stop);
    assert!(queue.is_empty());
}

#[test]
fn flushing_keeps_the_order() {
    let queue: Vec<u8> = (0..100).collect();
    let mut left = queue.clone();
    let mut sent: Vec<u8> = Vec::new();
    let mut n = 1;
    while !left.is_empty() {
        let k = if n < left.len() { n } else { left.len() };
        sent.extend_from_slice(&left[..k]);
        flush(&mut left, WriteOutcome::Wrote(k));
        let mut all = sent.clone();
        all.extend_from_slice(&left);
        assert_eq!(all, queue);
        n += 3;
    }
    assert_eq!(sent, queue);
}
