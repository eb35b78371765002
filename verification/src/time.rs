//! Timeouts and interval adapters.
use crate::io::{ErrorKind, IoError};
use crate::utils::Poll;
use std::task::Context;
use std::time::Instant;
use vstd::prelude::*;

verus! {

/// The task context that a poll registers its waker with. This library
/// carries it through and never looks inside.
#[verifier::external_type_specification]
#[verifier::external_body]
pub struct ExContext<'a>(Context<'a>);

/// A point in time as the system's monotonic clock gives it. This library
/// carries it through and never looks inside.
#[verifier::external_type_specification]
#[verifier::external_body]
pub struct ExInstant(Instant);

/// A periodic timer.
pub trait TimeInterval: Unpin + Send {
    /// What one poll may do: whether a timer in the state `before` can
    /// answer `answer` and be left in the state `after`. Each timer says
    /// this of itself. A timer that says nothing goes by the clock alone,
    /// and admits every answer.
    open spec fn polled(before: &Self, after: &Self, answer: Poll<Instant>) -> bool {
        true
    }

    /// Asks whether the next tick has come: the instant of the tick, or
    /// `Pending` after the waker of `ctx` was registered for it.
    fn poll_tick(&mut self, ctx: &mut Context<'_>) -> (answer: Poll<Instant>)
        ensures
            Self::polled(&*old(self), &*final(self), answer),
    ;
}

/// An interval seen as a stream of ticks that never ends.
pub struct IntervalStream<T: TimeInterval> {
    interval: T,
}

impl<T: TimeInterval> IntervalStream<T> {
    /// The timer behind the stream.
    pub closed spec fn interval(&self) -> T {
        self.interval
    }

    /// The stream of the ticks of `interval`.
    pub fn new(interval: T) -> (r: Self)
        ensures
            r.interval() == interval,
    {
        Self { interval }
    }

    /// Turns a poll of the timer into a poll of the stream: every tick is
    /// an item, and there is no end of stream.
    pub fn item(tick: Poll<Instant>) -> (r: Poll<Option<Instant>>)
        ensures
            r == Self::item_of(tick),
    {
        match tick {
            Poll::Ready(i) => Poll::Ready(Some(i)),
            Poll::Pending => Poll::Pending,
        }
    }

    /// What the stream gives for an answer of its timer: every tick is an
    /// item, and there is no end of stream.
    pub open spec fn item_of(tick: Poll<Instant>) -> Poll<Option<Instant>> {
        match tick {
            Poll::Ready(i) => Poll::Ready(Some(i)),
            Poll::Pending => Poll::Pending,
        }
    }

    /// Polls for the next item: the timer is polled once, and its answer
    /// is the stream's, a tick as an item. Whatever the timer answers, the
    /// stream does not end.
    pub fn poll_next(&mut self, ctx: &mut Context<'_>) -> (r: Poll<Option<Instant>>)
        ensures
            exists|tick: Poll<Instant>|
                T::polled(&old(self).interval(), &final(self).interval(), tick) && r
                    == #[trigger] Self::item_of(tick),
            r matches Poll::Ready(item) ==> item is Some,
    {
        let tick = self.interval.poll_tick(ctx);
        let r = Self::item(tick);
        proof {
            assert(r == Self::item_of(tick));
        }
        r
    }
}

/// The wait for the next tick of an interval.
pub struct TickFuture<T: TimeInterval> {
    interval: T,
}

impl<T: TimeInterval> TickFuture<T> {
    /// The timer that is waited for.
    pub closed spec fn interval(&self) -> T {
        self.interval
    }

    /// The wait for the next tick of `interval`.
    pub fn new(interval: T) -> (r: Self)
        ensures
            r.interval() == interval,
    {
        Self { interval }
    }

    /// Polls the timer once and hands on its answer.
    pub fn poll(&mut self, ctx: &mut Context<'_>) -> (r: Poll<Instant>)
        ensures
            T::polled(&old(self).interval(), &final(self).interval(), r),
    {
        self.interval.poll_tick(ctx)
    }
}

/// How an operation with a time limit is run.
#[derive(Clone, Copy, PartialEq, Eq, Debug, Structural)]
pub enum TimeoutMode {
    /// No limit: the operation is awaited as it is, without timer or race.
    Unbounded,
    /// The operation races against a timer that fires after the limit.
    Race,
}

/// Chooses how an operation with the given limit, in nanoseconds, is run.
/// A limit of zero stands for "no limit", not for "expire at once".
pub fn timeout_mode(limit_nanos: u128) -> (mode: TimeoutMode)
    ensures
        mode == if limit_nanos == 0 {
            TimeoutMode::Unbounded
        } else {
            TimeoutMode::Race
        },
{
    if limit_nanos == 0 {
        TimeoutMode::Unbounded
    } else {
        TimeoutMode::Race
    }
}

/// The error that stands for a lost race.
pub open spec fn is_timed_out(e: IoError) -> bool {
    e.kind == ErrorKind::TimedOut && e.message@ == "timed out"@
}

/// Turns the outcome of a race into the outcome of the I/O operation that
/// ran in it: the operation's own result where it completed, and a
/// `TimedOut` error where the timer won.
pub fn timed_outcome<T>(raced: Result<Result<T, IoError>, ()>) -> (r: Result<T, IoError>)
    ensures
        match raced {
            Ok(inner) => r == inner,
            Err(_) => r matches Err(e) && is_timed_out(e),
        },
{
    match raced {
        Ok(Ok(v)) => Ok(v),
        Ok(Err(e)) => Err(e),
        Err(_) => Err(IoError::new(ErrorKind::TimedOut, "timed out")),
    }
}

} // verus!
