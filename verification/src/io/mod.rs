//! Error values and the decisions of readiness-driven I/O.
//!
//! A descriptor in non-blocking mode answers every attempt at once: with a
//! result, with an error, or with "would block". The functions here say what
//! a driver does with each answer: whether it hands it to the caller, waits
//! for readiness, or tries again.
pub mod buf_io;
pub mod buffer;

use vstd::prelude::*;

verus! {

/// The category of an I/O failure.
#[derive(Clone, Copy, PartialEq, Eq, Debug, Structural)]
pub enum ErrorKind {
    NotFound,
    PermissionDenied,
    ConnectionRefused,
    ConnectionReset,
    ConnectionAborted,
    NotConnected,
    AddrInUse,
    AddrNotAvailable,
    BrokenPipe,
    AlreadyExists,
    WouldBlock,
    InvalidInput,
    InvalidData,
    TimedOut,
    WriteZero,
    Interrupted,
    Unsupported,
    UnexpectedEof,
    OutOfMemory,
    Other,
}

/// An I/O failure: its category and a message for people.
#[derive(PartialEq, Eq, Debug)]
pub struct IoError {
    pub kind: ErrorKind,
    pub message: String,
}

impl IoError {
    /// An error of the given category with the given message.
    pub fn new(kind: ErrorKind, message: &str) -> (e: IoError)
        ensures
            e.kind == kind,
            e.message@ == message@,
    {
        IoError { kind, message: message.to_owned() }
    }

    /// The category of this error.
    pub fn kind(&self) -> (k: ErrorKind)
        ensures
            k == self.kind,
    {
        self.kind
    }
}

/// What a driver does after one attempt on a non-blocking descriptor.
#[derive(PartialEq, Eq, Debug)]
pub enum Attempt<R> {
    /// The attempt is over; this is what the caller gets.
    Return(Result<R, IoError>),
    /// The descriptor was not ready: wait for the reactor, then probe again.
    Park,
}

/// What `after_probe` decides.
pub open spec fn probe_outcome<R>(outcome: Result<R, IoError>) -> Attempt<R> {
    match outcome {
        Err(e) if e.kind == ErrorKind::WouldBlock => Attempt::Park,
        _ => Attempt::Return(outcome),
    }
}

/// Judges the outcome of one probe of a descriptor.
///
/// "Would block" is never handed to the caller: it parks the task until the
/// reactor reports readiness, after which the probe is made again, so a
/// spurious wake-up costs one more probe and nothing else. Every other
/// outcome, success or failure, is returned as it is.
pub fn after_probe<R>(outcome: Result<R, IoError>) -> (next: Attempt<R>)
    ensures
        next == probe_outcome(outcome),
        next is Park <==> (outcome is Err && outcome->Err_0.kind == ErrorKind::WouldBlock),
{
    match outcome {
        Ok(r) => Attempt::Return(Ok(r)),
        Err(e) => match e.kind {
            ErrorKind::WouldBlock => Attempt::Park,
            _ => Attempt::Return(Err(e)),
        },
    }
}

/// Where a driver stands after the given probes, made one after the other:
/// parked, while every probe so far would have blocked, or done with the
/// first outcome that was anything else.
pub open spec fn after_probes<R>(outcomes: Seq<Result<R, IoError>>) -> Attempt<R>
    decreases outcomes.len(),
{
    if outcomes.len() == 0 {
        Attempt::Park
    } else {
        match probe_outcome(outcomes[0]) {
            Attempt::Park => after_probes(outcomes.skip(1)),
            done => done,
        }
    }
}

/// A descriptor that is not ready never finishes the operation and never
/// fails it: however many probes would have blocked, the task is parked, and
/// the first probe that gives anything else, however late it comes, ends the
/// operation with exactly what it gave.
pub proof fn lemma_resumes_after_any_wait<R>(
    waits: Seq<Result<R, IoError>>,
    last: Result<R, IoError>,
)
    requires
        forall|i: int|
            0 <= i < waits.len() ==> (#[trigger] waits[i]) is Err && waits[i]->Err_0.kind
                == ErrorKind::WouldBlock,
        !(last is Err && last->Err_0.kind == ErrorKind::WouldBlock),
    ensures
        after_probes(waits) == Attempt::<R>::Park,
        after_probes(waits.push(last)) == Attempt::Return(last),
    decreases waits.len(),
{
    if waits.len() == 0 {
        assert(waits.push(last)[0] == last);
    } else {
        let rest = waits.skip(1);
        assert forall|i: int| 0 <= i < rest.len() implies (#[trigger] rest[i]) is Err
            && rest[i]->Err_0.kind == ErrorKind::WouldBlock by {
            assert(rest[i] == waits[i + 1]);
        }
        lemma_resumes_after_any_wait(rest, last);
        assert(waits[0] is Err);
        assert(waits.push(last)[0] == waits[0]);
        assert(waits.push(last).skip(1) =~= rest.push(last));
    }
}

/// The next move of a transfer loop.
#[derive(PartialEq, Eq, Debug)]
pub enum Step<T> {
    /// Attempt again; the number is the count of bytes moved so far, which is
    /// also the offset in the caller's buffer at which the next attempt starts.
    Again(usize),
    /// The transfer is complete.
    Done(T),
    /// The transfer is abandoned with this error.
    Failed(IoError),
}

/// The error of a source that ended before the buffer was full.
pub open spec fn is_short_read(e: IoError) -> bool {
    e.kind == ErrorKind::UnexpectedEof && e.message@ == "failed to fill whole buffer"@
}

/// The error of a source that ended before the minimum was read.
pub open spec fn is_below_minimum(e: IoError) -> bool {
    e.kind == ErrorKind::UnexpectedEof && e.message@ == "failed to read minimum number of bytes"@
}

/// The error of a sink that took nothing.
pub open spec fn is_write_zero(e: IoError) -> bool {
    e.kind == ErrorKind::WriteZero && e.message@ == "failed to write whole buffer"@
}

/// How filling a buffer of `len` bytes starts: an empty buffer is full
/// without any read.
pub fn read_exact_begin(len: usize) -> (step: Step<()>)
    ensures
        step == if len == 0 { Step::<()>::Done(()) } else { Step::<()>::Again(0) },
{
    if len == 0 {
        Step::Done(())
    } else {
        Step::Again(0)
    }
}

/// One round of filling a buffer of `len` bytes completely.
///
/// `filled` bytes are in place and the last read, into the rest of the
/// buffer, gave `outcome`. A read of zero bytes means the source has ended
/// short; an interrupted read is repeated; any other error ends the transfer
/// and is handed on unchanged.
pub fn read_exact_step(len: usize, filled: usize, outcome: Result<usize, IoError>) -> (step: Step<()>)
    requires
        filled < len,
        outcome matches Ok(n) ==> n <= len - filled,
    ensures
        match outcome {
            Ok(n) => if n == 0 {
                step matches Step::Failed(e) && is_short_read(e)
            } else if filled + n == len {
                step == Step::<()>::Done(())
            } else {
                step == Step::<()>::Again((filled + n) as usize)
            },
            Err(e) => if e.kind == ErrorKind::Interrupted {
                step == Step::<()>::Again(filled)
            } else {
                step == Step::<()>::Failed(e)
            },
        },
{
    match outcome {
        Ok(n) => {
            if n == 0 {
                Step::Failed(IoError::new(ErrorKind::UnexpectedEof, "failed to fill whole buffer"))
            } else if n == len - filled {
                Step::Done(())
            } else {
                Step::Again(filled + n)
            }
        },
        Err(e) => match e.kind {
            ErrorKind::Interrupted => Step::Again(filled),
            _ => Step::Failed(e),
        },
    }
}

/// Whether a read of at least `min_len` bytes into a buffer of `len` bytes
/// goes on after `total` bytes.
pub open spec fn wants_more(len: usize, min_len: usize, total: usize) -> bool {
    total < min_len && total < len
}

/// How reading at least `min_len` bytes into a buffer of `len` bytes starts.
pub fn read_at_least_begin(len: usize, min_len: usize) -> (step: Step<usize>)
    ensures
        step == if wants_more(len, min_len, 0) {
            Step::<usize>::Again(0)
        } else {
            Step::<usize>::Done(0)
        },
{
    if 0 < min_len && 0 < len {
        Step::Again(0)
    } else {
        Step::Done(0)
    }
}

/// One round of reading at least `min_len` bytes into a buffer of `len` bytes.
///
/// `total` bytes are in place and the last read, into the rest of the buffer,
/// gave `outcome`. The transfer is complete as soon as the minimum is reached
/// or the buffer is full, and reports how many bytes were read, which may be
/// more than the minimum. A read of zero bytes before that is an error.
pub fn read_at_least_step(
    len: usize,
    min_len: usize,
    total: usize,
    outcome: Result<usize, IoError>,
) -> (step: Step<usize>)
    requires
        wants_more(len, min_len, total),
        outcome matches Ok(n) ==> n <= len - total,
    ensures
        match outcome {
            Ok(n) => if n == 0 {
                step matches Step::Failed(e) && is_below_minimum(e)
            } else if wants_more(len, min_len, (total + n) as usize) {
                step == Step::<usize>::Again((total + n) as usize)
            } else {
                step == Step::<usize>::Done((total + n) as usize)
            },
            Err(e) => if e.kind == ErrorKind::Interrupted {
                step == Step::<usize>::Again(total)
            } else {
                step == Step::<usize>::Failed(e)
            },
        },
{
    match outcome {
        Ok(n) => {
            if n == 0 {
                Step::Failed(
                    IoError::new(
                        ErrorKind::UnexpectedEof,
                        "failed to read minimum number of bytes",
                    ),
                )
            } else {
                let sum: usize = total + n;
                if sum < min_len && sum < len {
                    Step::Again(sum)
                } else {
                    Step::Done(sum)
                }
            }
        },
        Err(e) => match e.kind {
            ErrorKind::Interrupted => Step::Again(total),
            _ => Step::Failed(e),
        },
    }
}

/// How writing a buffer of `len` bytes starts: an empty buffer is written
/// without any write.
pub fn write_all_begin(len: usize) -> (step: Step<()>)
    ensures
        step == if len == 0 { Step::<()>::Done(()) } else { Step::<()>::Again(0) },
{
    if len == 0 {
        Step::Done(())
    } else {
        Step::Again(0)
    }
}

/// One round of writing a buffer of `len` bytes completely.
///
/// `written` bytes are out and the last write, of the rest of the buffer,
/// gave `outcome`. A write of zero bytes means the sink takes no more; an
/// interrupted write is repeated; any other error ends the transfer and is
/// handed on unchanged.
pub fn write_all_step(len: usize, written: usize, outcome: Result<usize, IoError>) -> (step: Step<()>)
    requires
        written < len,
        outcome matches Ok(n) ==> n <= len - written,
    ensures
        match outcome {
            Ok(n) => if n == 0 {
                step matches Step::Failed(e) && is_write_zero(e)
            } else if written + n == len {
                step == Step::<()>::Done(())
            } else {
                step == Step::<()>::Again((written + n) as usize)
            },
            Err(e) => if e.kind == ErrorKind::Interrupted {
                step == Step::<()>::Again(written)
            } else {
                step == Step::<()>::Failed(e)
            },
        },
{
    match outcome {
        Ok(n) => {
            if n == 0 {
                Step::Failed(IoError::new(ErrorKind::WriteZero, "failed to write whole buffer"))
            } else if n == len - written {
                Step::Done(())
            } else {
                Step::Again(written + n)
            }
        },
        Err(e) => match e.kind {
            ErrorKind::Interrupted => Step::Again(written),
            _ => Step::Failed(e),
        },
    }
}

} // verus!
