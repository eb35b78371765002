use orb::io::buf_io::{AsyncBufRead, AsyncBufStream, AsyncBufWrite, ReadPlan, WritePlan};
use orb::io::buffer::{fit, AllocateBuf};
use orb::io::{
    after_probe, read_at_least_begin, read_at_least_step, read_exact_begin, read_exact_step,
    write_all_begin, write_all_step, Attempt, ErrorKind, IoError, Step,
};

fn err(kind: ErrorKind) -> IoError {
    IoError::new(kind, "boom")
}

#[test]
fn would_block_parks_and_everything_else_returns() {
    assert_eq!(after_probe::<usize>(Err(err(ErrorKind::WouldBlock))), Attempt::Park);
    assert_eq!(after_probe(Ok(7usize)), Attempt::Return(Ok(7)));
    assert_eq!(after_probe(Ok(0usize)), Attempt::Return(Ok(0)));
    assert_eq!(
        after_probe::<usize>(Err(err(ErrorKind::ConnectionReset))),
        Attempt::Return(Err(err(ErrorKind::ConnectionReset)))
    );
    assert_eq!(
        after_probe::<usize>(Err(err(ErrorKind::Interrupted))),
        Attempt::Return(Err(err(ErrorKind::Interrupted)))
    );
}

#[test]
fn a_spurious_wake_up_costs_one_more_probe() {
    // The descriptor is reported ready three times before it has anything.
    let mut answers = vec![Ok(5usize), Err(err(ErrorKind::WouldBlock)), Err(err(ErrorKind::WouldBlock))];
    let mut probes = 0;
    let got = loop {
        probes += 1;
        match after_probe(answers.pop().unwrap()) {
            Attempt::Park => continue,
            Attempt::Return(r) => break r,
        }
    };
    assert_eq!(got, Ok(5));
    assert_eq!(probes, 3);
}

#[test]
fn io_error_keeps_kind_and_message() {
    let e = IoError::new(ErrorKind::BrokenPipe, "pipe is gone");
    assert_eq!(e.kind(), ErrorKind::BrokenPipe);
    assert_eq!(e.message, "pipe is gone");
}

#[test]
fn read_exact_steps() {
    assert_eq!(read_exact_begin(0), Step::Done(()));
    assert_eq!(read_exact_begin(9), Step::Again(0));
    assert_eq!(read_exact_step(10, 0, Ok(4)), Step::Again(4));
    assert_eq!(read_exact_step(10, 4, Ok(6)), Step::Done(()));
    assert_eq!(read_exact_step(10, 4, Ok(5)), Step::Again(9));
    assert_eq!(read_exact_step(10, 4, Err(err(ErrorKind::Interrupted))), Step::Again(4));
    assert_eq!(
        read_exact_step(10, 4, Err(err(ErrorKind::ConnectionReset))),
        Step::Failed(err(ErrorKind::ConnectionReset))
    );
    assert_eq!(
        read_exact_step(10, 4, Ok(0)),
        Step::Failed(IoError::new(ErrorKind::UnexpectedEof, "failed to fill whole buffer"))
    );
}

#[test]
fn read_at_least_steps() {
    assert_eq!(read_at_least_begin(10, 0), Step::Done(0));
    assert_eq!(read_at_least_begin(0, 3), Step::Done(0));
    assert_eq!(read_at_least_begin(10, 3), Step::Again(0));
    assert_eq!(read_at_least_step(10, 6, 0, Ok(4)), Step::Again(4));
    assert_eq!(read_at_least_step(10, 6, 4, Ok(2)), Step::Done(6));
    assert_eq!(read_at_least_step(10, 6, 4, Ok(6)), Step::Done(10));
    // A minimum beyond the buffer is met by a full buffer.
    assert_eq!(read_at_least_step(4, 6, 1, Ok(3)), Step::Done(4));
    assert_eq!(read_at_least_step(10, 6, 4, Err(err(ErrorKind::Interrupted))), Step::Again(4));
    assert_eq!(
        read_at_least_step(10, 6, 4, Err(err(ErrorKind::TimedOut))),
        Step::Failed(err(ErrorKind::TimedOut))
    );
    assert_eq!(
        read_at_least_step(10, 6, 4, Ok(0)),
        Step::Failed(IoError::new(
            ErrorKind::UnexpectedEof,
            "failed to read minimum number of bytes"
        ))
    );
}

#[test]
fn write_all_steps() {
    assert_eq!(write_all_begin(0), Step::Done(()));
    assert_eq!(write_all_begin(1), Step::Again(0));
    assert_eq!(write_all_step(8, 0, Ok(8)), Step::Done(()));
    assert_eq!(write_all_step(8, 0, Ok(3)), Step::Again(3));
    assert_eq!(write_all_step(8, 3, Ok(5)), Step::Done(()));
    assert_eq!(write_all_step(8, 3, Err(err(ErrorKind::Interrupted))), Step::Again(3));
    assert_eq!(
        write_all_step(8, 3, Err(err(ErrorKind::BrokenPipe))),
        Step::Failed(err(ErrorKind::BrokenPipe))
    );
    assert_eq!(
        write_all_step(8, 3, Ok(0)),
        Step::Failed(IoError::new(ErrorKind::WriteZero, "failed to write whole buffer"))
    );
}

/// A source that hands out its bytes in pieces of a given size and counts
/// the reads made of it.
struct Pieces {
    data: Vec<u8>,
    at: usize,
    piece: usize,
    reads: usize,
}

impl Pieces {
    fn read(&mut self, buf: &mut [u8]) -> usize {
        self.reads += 1;
        let n = buf.len().min(self.piece).min(self.data.len() - self.at);
        buf[..n].copy_from_slice(&self.data[self.at..self.at + n]);
        self.at += n;
        n
    }
}

fn read_buffered(state: &mut AsyncBufRead, source: &mut Pieces, out: &mut [u8]) -> usize {
    match state.plan(out.len()) {
        ReadPlan::Serve(n) => {
            assert_eq!(state.serve(out), n);
            n
        }
        ReadPlan::Direct => source.read(out),
        ReadPlan::Refill => {
            let n = source.read(state.refill_target());
            state.refilled(n);
            state.serve(out)
        }
    }
}

#[test]
fn buffered_reads_deliver_the_stream_in_order() {
    let data: Vec<u8> = (0..200u16).map(|i| (i % 251) as u8).collect();
    let mut source = Pieces { data: data.clone(), at: 0, piece: 13, reads: 0 };
    let mut state = AsyncBufRead::new(16);
    let mut got: Vec<u8> = Vec::new();
    let mut sizes = [1usize, 5, 3, 16, 40, 2, 7, 0, 9].iter().cycle();
    while got.len() < data.len() {
        let want = *sizes.next().unwrap();
        let mut out = vec![0xeeu8; want];
        let n = read_buffered(&mut state, &mut source, &mut out);
        assert!(n <= want);
        got.extend_from_slice(&out[..n]);
        assert!(out[n..].iter().all(|b| *b == 0xee));
    }
    assert_eq!(got, data);
}

#[test]
fn small_reads_share_one_read_of_the_stream() {
    let mut source = Pieces { data: (0..32).collect(), at: 0, piece: 32, reads: 0 };
    let mut state = AsyncBufRead::new(8);
    assert_eq!(state.plan(3), ReadPlan::Refill);
    let mut out = [0u8; 3];
    assert_eq!(read_buffered(&mut state, &mut source, &mut out), 3);
    assert_eq!(out, [0, 1, 2]);
    assert_eq!(state.staged_len(), 5);
    assert_eq!(state.plan(3), ReadPlan::Serve(3));
    assert_eq!(read_buffered(&mut state, &mut source, &mut out), 3);
    assert_eq!(out, [3, 4, 5]);
    // Fewer bytes are staged than are asked for: they are served alone.
    assert_eq!(state.plan(3), ReadPlan::Serve(2));
    assert_eq!(read_buffered(&mut state, &mut source, &mut out), 2);
    assert_eq!(out, [6, 7, 5]);
    assert_eq!(source.reads, 1);
}

#[test]
fn a_request_of_the_capacity_bypasses_the_read_buffer() {
    let mut source = Pieces { data: (0..64).collect(), at: 0, piece: 64, reads: 0 };
    let mut state = AsyncBufRead::new(8);
    assert_eq!(state.plan(8), ReadPlan::Direct);
    assert_eq!(state.plan(9), ReadPlan::Direct);
    assert_eq!(state.plan(7), ReadPlan::Refill);
    assert_eq!(state.plan(0), ReadPlan::Refill);
    let mut out = [0u8; 20];
    assert_eq!(read_buffered(&mut state, &mut source, &mut out), 20);
    assert_eq!(state.staged_len(), 0);
    assert_eq!(source.reads, 1);
}

/// A sink that records every write made of it.
struct Sink {
    writes: Vec<Vec<u8>>,
}

fn flush(state: &mut AsyncBufWrite, sink: &mut Sink) {
    if !state.pending().is_empty() {
        sink.writes.push(state.pending().to_vec());
        state.flushed();
    }
}

fn write_buffered(state: &mut AsyncBufWrite, sink: &mut Sink, data: &[u8]) -> usize {
    let plan = state.plan(data.len());
    if plan.flush_first {
        flush(state, sink);
    }
    if plan.direct {
        sink.writes.push(data.to_vec());
        data.len()
    } else {
        state.stage(data)
    }
}

#[test]
fn a_small_write_reaches_the_stream_in_one_write_on_flush() {
    let mut sink = Sink { writes: Vec::new() };
    let mut state = AsyncBufWrite::new(32);
    let data = b"Hello from client!";
    assert_eq!(state.plan(data.len()), WritePlan { flush_first: false, direct: false });
    assert_eq!(write_buffered(&mut state, &mut sink, data), data.len());
    assert!(sink.writes.is_empty());
    flush(&mut state, &mut sink);
    assert_eq!(sink.writes, vec![data.to_vec()]);
    // Nothing is staged any more: another flush writes nothing.
    flush(&mut state, &mut sink);
    assert_eq!(sink.writes.len(), 1);
}

#[test]
fn a_write_of_the_capacity_bypasses_the_write_buffer() {
    let mut sink = Sink { writes: Vec::new() };
    let mut state = AsyncBufWrite::new(8);
    let big = [7u8; 8];
    assert_eq!(state.plan(8), WritePlan { flush_first: false, direct: true });
    assert_eq!(write_buffered(&mut state, &mut sink, &big), 8);
    assert_eq!(sink.writes, vec![big.to_vec()]);
    assert!(state.pending().is_empty());
}

#[test]
fn staged_bytes_go_out_before_what_follows_them() {
    let mut sink = Sink { writes: Vec::new() };
    let mut state = AsyncBufWrite::new(8);
    assert_eq!(write_buffered(&mut state, &mut sink, &[1, 2, 3]), 3);
    assert_eq!(write_buffered(&mut state, &mut sink, &[4, 5]), 2);
    assert_eq!(state.pending(), &[1, 2, 3, 4, 5]);
    // Four more do not fit behind five: the five are flushed first.
    assert_eq!(state.plan(4), WritePlan { flush_first: true, direct: false });
    assert_eq!(write_buffered(&mut state, &mut sink, &[6, 7, 8, 9]), 4);
    assert_eq!(sink.writes, vec![vec![1, 2, 3, 4, 5]]);
    assert_eq!(state.pending(), &[6, 7, 8, 9]);
    // A large write flushes what is staged and then goes out as it is.
    assert_eq!(state.plan(100), WritePlan { flush_first: true, direct: true });
    let big = [0xabu8; 100];
    assert_eq!(write_buffered(&mut state, &mut sink, &big), 100);
    assert_eq!(sink.writes, vec![vec![1, 2, 3, 4, 5], vec![6, 7, 8, 9], big.to_vec()]);
    // A write that fills the rest exactly is staged without a flush.
    assert_eq!(write_buffered(&mut state, &mut sink, &[1, 1, 1]), 3);
    assert_eq!(state.plan(5), WritePlan { flush_first: false, direct: false });
}

#[test]
fn a_buffered_stream_keeps_its_stream_and_two_empty_buffers() {
    let mut s = AsyncBufStream::new(String::from("inner"), 4);
    s.get_inner().push('!');
    assert_eq!(s.get_inner().as_str(), "inner!");
    let (reader, writer, inner) = s.parts();
    assert_eq!(reader.plan(1), ReadPlan::Refill);
    assert_eq!(reader.plan(4), ReadPlan::Direct);
    assert_eq!(writer.plan(3), WritePlan { flush_first: false, direct: false });
    assert_eq!(writer.stage(&[1, 2]), 2);
    inner.push('?');
    assert_eq!(s.get_inner().as_str(), "inner!?");
    let (_, writer, _) = s.parts();
    assert_eq!(writer.pending(), &[1, 2]);
}

#[test]
fn a_vector_is_fitted_to_the_length_asked_for() {
    let mut v = vec![1u8, 2, 3];
    fit(&mut v, 5);
    assert_eq!(v, vec![1, 2, 3, 0, 0]);
    fit(&mut v, 2);
    assert_eq!(v, vec![1, 2]);
    fit(&mut v, 0);
    assert!(v.is_empty());
}

#[test]
fn reserve_lends_exactly_the_room_asked_for() {
    let mut v: Vec<u8> = vec![9, 9];
    {
        let room = AllocateBuf::reserve(&mut v, 4).expect("a vector never refuses");
        assert_eq!(room.len(), 4);
        room[3] = 7;
    }
    assert_eq!(v, vec![9, 9, 0, 7]);
    let mut slot: Option<Vec<u8>> = None;
    {
        let room = slot.reserve(3).expect("an empty slot is filled");
        assert_eq!(room.len(), 3);
        room[0] = 1;
    }
    assert_eq!(slot, Some(vec![1, 0, 0]));
    {
        let room = slot.reserve(1).expect("a vector never refuses");
        assert_eq!(room.len(), 1);
    }
    assert_eq!(slot, Some(vec![1]));
    assert_eq!(slot.reserve(0).map(|r| r.len()), Some(0));
}
