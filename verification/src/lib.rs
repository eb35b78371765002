//! Runtime-agnostic building blocks for asynchronous socket I/O.
//!
//! Nothing in this crate suspends, sleeps or touches a descriptor. Every
//! operation that an executor would drive is cut at its suspension points:
//! the caller performs one attempt (a read, a write, a poll), hands the
//! outcome to a function of this crate, and is told what to do next. The
//! functions are total, do not panic, and carry contracts that say exactly
//! which step follows which outcome.
//!
//! - [`io`]: error values, the retry rules of the transfer loops, and the
//!   staging buffers of buffered readers and writers.
//! - [`net`]: the unified address (socket endpoint or filesystem path), its
//!   text syntax, and the choice of transport that follows from it.
//! - [`time`]: timeout handling and interval adapters.
//! - [`utils`]: the two-way race behind every timeout.
//! - [`runtime`]: handles of spawned work.
pub mod io;
pub mod net;
pub mod runtime;
pub mod time;
pub mod utils;
