use tokio_solicit::io::{
    FrameReceiver, FrameSender, ReadAction, ReadEvent, ReadOutcome, WriteAction, WriteEvent,
    WriteFailure, WriteOutcome,
};

/// Drives one flushing attempt against a socket that accepts at most `per_write` bytes per
/// write and stops accepting after `budget` writes (then it would block).
fn flush(sender: &mut FrameSender, per_write: usize, budget: usize, wire: &mut Vec<u8>) -> bool {
    let mut writes = 0;
    let mut event = WriteEvent::Begin;
    loop {
        match sender.try_write(event) {
            WriteAction::PollWrite => event = WriteEvent::Polled { ready: writes < budget },
            WriteAction::Write => {
                let chunk = sender.current_chunk();
                let n = chunk.len().min(per_write);
                wire.extend_from_slice(&chunk[..n]);
                writes += 1;
                event = WriteEvent::Wrote(WriteOutcome::Written(n));
            }
            WriteAction::Finished { all_written } => return all_written,
            WriteAction::Failed => panic!("no failure expected"),
        }
    }
}

#[test]
fn sender_writes_frames_in_order() {
    let mut sender = FrameSender::new();
    sender.append(vec![1, 2, 3]);
    sender.append(vec![4, 5]);
    sender.append(vec![6]);
    let mut wire = Vec::new();
    assert!(flush(&mut sender, 2, 100, &mut wire));
    assert_eq!(wire, vec![1, 2, 3, 4, 5, 6]);
}

#[test]
fn sender_partial_writes_resume_where_they_stopped() {
    let mut sender = FrameSender::new();
    sender.append(vec![10, 11, 12, 13, 14]);
    let mut wire = Vec::new();
    // Two writes of two bytes each, then the socket blocks.
    assert!(!flush(&mut sender, 2, 2, &mut wire));
    assert_eq!(wire, vec![10, 11, 12, 13]);
    assert_eq!(sender.current_chunk(), &[14u8][..]);
    assert!(flush(&mut sender, 2, 2, &mut wire));
    assert_eq!(wire, vec![10, 11, 12, 13, 14]);
}

#[test]
fn sender_with_nothing_buffered_reports_all_written() {
    let mut sender = FrameSender::new();
    assert_eq!(
        sender.try_write(WriteEvent::Begin),
        WriteAction::Finished { all_written: true }
    );
    assert!(!sender.prepare_next());
}

#[test]
fn sender_not_writable_socket_blocks() {
    let mut sender = FrameSender::new();
    sender.append(vec![1]);
    assert_eq!(sender.try_write(WriteEvent::Begin), WriteAction::PollWrite);
    assert_eq!(
        sender.try_write(WriteEvent::Polled { ready: false }),
        WriteAction::Finished { all_written: false }
    );
    // Nothing was lost.
    assert_eq!(sender.current_chunk(), &[1u8][..]);
}

#[test]
fn sender_would_block_and_failure() {
    let mut sender = FrameSender::new();
    sender.append(vec![1, 2]);
    assert!(sender.prepare_next());
    assert_eq!(sender.write_next(WriteOutcome::WouldBlock), Ok(false));
    assert_eq!(sender.current_chunk(), &[1u8, 2][..]);
    assert_eq!(sender.write_next(WriteOutcome::Failed), Err(WriteFailure));
    assert_eq!(
        sender.try_write(WriteEvent::Wrote(WriteOutcome::Failed)),
        WriteAction::Failed
    );
    assert_eq!(sender.current_chunk(), &[1u8, 2][..]);
}

#[test]
fn sender_write_next_without_buffer_is_ok() {
    let mut sender = FrameSender::new();
    assert_eq!(sender.write_next(WriteOutcome::Written(5)), Ok(true));
    assert_eq!(sender.write_next(WriteOutcome::WouldBlock), Ok(true));
}

#[test]
fn sender_empty_frame_is_written_as_nothing() {
    let mut sender = FrameSender::new();
    sender.append(Vec::new());
    sender.append(vec![9]);
    let mut wire = Vec::new();
    assert!(flush(&mut sender, 8, 10, &mut wire));
    assert_eq!(wire, vec![9]);
}

fn frame(payload: &[u8]) -> Vec<u8> {
    let len = payload.len();
    let mut f = vec![(len >> 16) as u8, (len >> 8) as u8, len as u8, 0, 0, 0, 0, 0, 1];
    f.extend_from_slice(payload);
    f
}

#[test]
fn receiver_reads_until_would_block() {
    let mut receiver = FrameReceiver::new();
    assert_eq!(receiver.try_read(ReadEvent::Begin), ReadAction::Read);
    assert_eq!(
        receiver.try_read(ReadEvent::Read { data: vec![1, 2, 3], outcome: ReadOutcome::WouldBlock }),
        ReadAction::Done { total: 3 }
    );
    assert_eq!(receiver.buffered_len(), 3);
    assert_eq!(receiver.try_read(ReadEvent::Begin), ReadAction::Read);
    assert_eq!(
        receiver.try_read(ReadEvent::Read { data: vec![4, 5], outcome: ReadOutcome::WouldBlock }),
        ReadAction::Done { total: 2 }
    );
    assert_eq!(receiver.buffered_len(), 5);
}

#[test]
fn receiver_end_of_stream_is_unexpected() {
    let mut receiver = FrameReceiver::new();
    receiver.try_read(ReadEvent::Begin);
    assert_eq!(
        receiver.try_read(ReadEvent::Read { data: vec![7], outcome: ReadOutcome::EndOfStream }),
        ReadAction::Read
    );
    assert_eq!(
        receiver.try_read(ReadEvent::Read { data: vec![], outcome: ReadOutcome::EndOfStream }),
        ReadAction::UnexpectedEof
    );
    assert_eq!(receiver.buffered_len(), 1);
}

#[test]
fn receiver_read_failure() {
    let mut receiver = FrameReceiver::new();
    receiver.try_read(ReadEvent::Begin);
    assert_eq!(
        receiver.try_read(ReadEvent::Read { data: vec![1], outcome: ReadOutcome::Failed }),
        ReadAction::Failed
    );
    assert_eq!(receiver.buffered_len(), 1);
}

#[test]
fn receiver_cuts_frames_off_the_front() {
    let first = frame(&[0xaa, 0xbb]);
    let second = frame(&[0xcc]);
    let mut bytes = first.clone();
    bytes.extend_from_slice(&second);
    bytes.extend_from_slice(&[0, 0]); // the start of a third frame
    let mut receiver = FrameReceiver::new();
    receiver.try_read(ReadEvent::Begin);
    receiver.try_read(ReadEvent::Read { data: bytes, outcome: ReadOutcome::WouldBlock });

    let size = {
        let c = receiver.get_next_frame().expect("first frame");
        assert_eq!(c.frame(), &first[..]);
        c.len()
    };
    assert_eq!(size, 11);
    receiver.discard_frame(size);

    let size = {
        let c = receiver.get_next_frame().expect("second frame");
        assert_eq!(c.frame(), &second[..]);
        c.len()
    };
    assert_eq!(size, 10);
    receiver.discard_frame(size);

    assert!(receiver.get_next_frame().is_none());
    assert_eq!(receiver.buffered_len(), 2);
}

#[test]
fn receiver_waits_for_the_whole_payload() {
    // The header announces 0x000102 = 258 payload bytes.
    let mut bytes = vec![0, 1, 2, 0, 0, 0, 0, 0, 3];
    bytes.extend(std::iter::repeat(7u8).take(257));
    let mut receiver = FrameReceiver::new();
    receiver.try_read(ReadEvent::Begin);
    receiver.try_read(ReadEvent::Read { data: bytes, outcome: ReadOutcome::WouldBlock });
    assert!(receiver.get_next_frame().is_none());
    receiver.try_read(ReadEvent::Begin);
    receiver.try_read(ReadEvent::Read { data: vec![7], outcome: ReadOutcome::WouldBlock });
    let c = receiver.get_next_frame().expect("complete now");
    assert_eq!(c.len(), 9 + 258);
}

#[test]
fn receiver_short_header_is_no_frame() {
    let mut receiver = FrameReceiver::new();
    receiver.try_read(ReadEvent::Begin);
    receiver.try_read(ReadEvent::Read { data: vec![0, 0, 0, 4], outcome: ReadOutcome::WouldBlock });
    assert!(receiver.get_next_frame().is_none());
    let mut receiver = FrameReceiver::new();
    receiver.try_read(ReadEvent::Begin);
    receiver.try_read(ReadEvent::Read {
        data: vec![0, 0, 0, 4, 0, 0, 0, 0, 0],
        outcome: ReadOutcome::WouldBlock,
    });
    assert_eq!(receiver.get_next_frame().map(|c| c.len()), Some(9));
}

#[test]
fn receiver_attempt_of_several_reads_counts_them_all() {
    let mut receiver = FrameReceiver::new();
    receiver.try_read(ReadEvent::Begin);
    receiver.try_read(ReadEvent::Read { data: vec![1, 2], outcome: ReadOutcome::WouldBlock });
    assert_eq!(receiver.try_read(ReadEvent::Begin), ReadAction::Read);
    assert_eq!(
        receiver.try_read(ReadEvent::Read { data: vec![3, 4, 5], outcome: ReadOutcome::EndOfStream }),
        ReadAction::Read
    );
    assert_eq!(
        receiver.try_read(ReadEvent::Read { data: vec![6], outcome: ReadOutcome::WouldBlock }),
        ReadAction::Done { total: 4 }
    );
    assert_eq!(receiver.buffered_len(), 6);
}

#[test]
fn sender_blocked_attempt_keeps_a_buffer_in_flight() {
    let mut sender = FrameSender::new();
    sender.append(vec![1, 2, 3]);
    assert_eq!(sender.try_write(WriteEvent::Begin), WriteAction::PollWrite);
    assert_eq!(sender.try_write(WriteEvent::Polled { ready: true }), WriteAction::Write);
    assert_eq!(
        sender.try_write(WriteEvent::Wrote(WriteOutcome::WouldBlock)),
        WriteAction::Finished { all_written: false }
    );
    assert_eq!(sender.current_chunk(), &[1u8, 2, 3][..]);
}

#[test]
fn sender_zero_byte_write_is_no_progress() {
    let mut sender = FrameSender::new();
    sender.append(vec![5, 6]);
    assert!(sender.prepare_next());
    assert_eq!(sender.write_next(WriteOutcome::Written(0)), Ok(false));
    assert_eq!(sender.current_chunk(), &[5u8, 6][..]);
    // In a flushing attempt the same write ends the attempt, with the buffer still in flight.
    assert_eq!(
        sender.try_write(WriteEvent::Wrote(WriteOutcome::Written(0))),
        WriteAction::Finished { all_written: false }
    );
    assert_eq!(sender.current_chunk(), &[5u8, 6][..]);
    // An empty frame is finished by a write of nothing.
    let mut sender = FrameSender::new();
    sender.append(Vec::new());
    assert!(sender.prepare_next());
    assert_eq!(sender.write_next(WriteOutcome::Written(0)), Ok(true));
    assert!(!sender.prepare_next());
}
