//! The two-way race behind every timeout.
//!
//! A race runs a primary operation against a cancellation signal. Each time
//! the task is scheduled the primary operation is polled first; only when it
//! is still pending is the signal polled. So an operation that finishes in
//! the same turn as the signal wins, and the loser is never polled again.
use vstd::prelude::*;

verus! {

/// What one poll of an operation gives: its value, or nothing yet.
#[derive(PartialEq, Eq, Debug)]
pub enum Poll<T> {
    Ready(T),
    Pending,
}

/// What one turn of the race gives, from what the two polls would give.
/// The signal's poll counts only where the primary operation is pending.
pub open spec fn race_outcome<T, S>(primary: Poll<T>, signal: Poll<S>) -> Poll<Result<T, ()>> {
    match primary {
        Poll::Ready(out) => Poll::Ready(Ok(out)),
        Poll::Pending => match signal {
            Poll::Ready(_) => Poll::Ready(Err(())),
            Poll::Pending => Poll::Pending,
        },
    }
}

/// What a poll gives at time `now` of an operation that completes with
/// `value` once `ready_from` time units have passed.
pub open spec fn poll_at<T>(ready_from: nat, value: T, now: nat) -> Poll<T> {
    if now >= ready_from {
        Poll::Ready(value)
    } else {
        Poll::Pending
    }
}

/// A primary operation and the signal that cancels it.
pub struct Cancellable<F, C> {
    future: F,
    cancel_future: C,
}

impl<F, C> Cancellable<F, C> {
    /// The primary operation.
    pub closed spec fn primary(&self) -> F {
        self.future
    }

    /// The cancellation signal.
    pub closed spec fn signal(&self) -> C {
        self.cancel_future
    }

    /// Sets `future` to race against `cancel_future`.
    pub fn new(future: F, cancel_future: C) -> (r: Self)
        ensures
            r.primary() == future,
            r.signal() == cancel_future,
    {
        Self { future, cancel_future }
    }

    /// The two operations, each on its own, for the driver that polls them.
    pub fn parts(&mut self) -> (p: (&mut F, &mut C))
        ensures
            *p.0 == old(self).primary(),
            *p.1 == old(self).signal(),
            final(self).primary() == *final(p.0),
            final(self).signal() == *final(p.1),
    {
        (&mut self.future, &mut self.cancel_future)
    }
}

/// Judges the poll of the primary operation, which comes first in every
/// turn. `Some` ends the race with the operation's output, and the signal is
/// not polled; `None` says that the signal is polled next.
pub fn after_primary<T>(polled: Poll<T>) -> (r: Option<Result<T, ()>>)
    ensures
        r == match polled {
            Poll::Ready(out) => Some(Ok::<T, ()>(out)),
            Poll::Pending => None,
        },
        forall|signal: Poll<()>|
            r matches Some(x) ==> #[trigger] race_outcome(polled, signal) == Poll::Ready(x),
{
    match polled {
        Poll::Ready(out) => Some(Ok(out)),
        Poll::Pending => None,
    }
}

/// Judges the poll of the signal, made because the primary operation was
/// pending: a signal that fired ends the race with the cancellation outcome,
/// otherwise the task stays suspended until either side wakes it.
pub fn after_signal<T, S>(polled: Poll<S>) -> (r: Poll<Result<T, ()>>)
    ensures
        r == race_outcome(Poll::<T>::Pending, polled),
        r == match polled {
            Poll::Ready(_) => Poll::Ready(Err::<T, ()>(())),
            Poll::Pending => Poll::Pending,
        },
{
    match polled {
        Poll::Ready(_) => Poll::Ready(Err(())),
        Poll::Pending => Poll::Pending,
    }
}

/// Whichever side completes first decides the race, and a tie goes to the
/// primary operation: with a primary operation that completes after
/// `primary_after` time units and a signal that fires after `signal_after`,
/// every turn before the earlier of the two is pending, and every turn from
/// then on gives the operation's output if it is not the later one,
/// otherwise the cancellation outcome.
pub proof fn lemma_first_to_complete_wins<T>(
    primary_after: nat,
    value: T,
    signal_after: nat,
    now: nat,
)
    ensures
        race_outcome(poll_at(primary_after, value, now), poll_at(signal_after, (), now)) == if now
            < primary_after && now < signal_after {
            Poll::<Result<T, ()>>::Pending
        } else if primary_after <= now {
            Poll::Ready(Ok(value))
        } else {
            Poll::Ready(Err(()))
        },
        (primary_after <= signal_after && now == primary_after) ==> race_outcome(
            poll_at(primary_after, value, now),
            poll_at(signal_after, (), now),
        ) == Poll::Ready(Ok::<T, ()>(value)),
        (signal_after < primary_after && now == signal_after) ==> race_outcome(
            poll_at(primary_after, value, now),
            poll_at(signal_after, (), now),
        ) == Poll::Ready(Err::<T, ()>(())),
{
}

} // verus!
