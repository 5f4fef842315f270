//! The core of a single-threaded asynchronous I/O runtime for Linux
//! `io_uring`.
//!
//! The crate holds the bookkeeping of the runtime and proves it:
//!
//! - [`slots`] is the model of the reactor, a table with one slot per
//!   token, and the laws of that table;
//! - [`reactor`] keeps the tables themselves: it mints tokens, records
//!   wakers and results, and forgets the tokens of a closed descriptor;
//! - [`io`], [`fs`] and [`net`] are the state machines of the suspendable
//!   read, write and accept operations;
//! - [`executor`] takes the scheduling decisions: which computations a
//!   tick polls, and whether the executor polls again, pumps or is stalled;
//! - [`error`] reads the kernel's result word.
//!
//! The ring, the descriptors, the buffers and the computations live with
//! the caller, who queues the submission entries that this crate hands out,
//! feeds the drained completions back in, and invokes the wakers that come
//! out.

pub mod error;
pub mod executor;
pub mod fs;
pub mod io;
pub mod net;
pub mod reactor;
pub mod slots;
