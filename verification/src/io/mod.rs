//! Suspendable reads and writes on a raw descriptor.
//!
//! An operation is a small state machine driven by `poll`. The first poll
//! registers the operation with the reactor and hands out the submission
//! entry to queue; a later poll consumes the result once the completion has
//! been drained. The buffer stays with the caller, who queues the entry with
//! the buffer's address and keeps the buffer alive until the operation is
//! done or its descriptor is closed.

use crate::error::{outcome_of_transfer, transfer_outcome, IoError};
use crate::reactor::{entry_len, Opcode, Reactor, Submission};
use crate::slots::{after_submit, after_take, issued, result_at, Slot};
use std::task::Waker;
use vstd::prelude::*;

verus! {

/// Where an operation stands.
#[derive(Clone, Copy, Debug, PartialEq, Eq, Structural)]
pub enum OpState {
    /// Not polled yet: no token.
    Unsubmitted,
    /// Submitted under this token; the result has not been observed.
    Awaiting(u64),
    /// The result has been handed out.
    Done,
}

/// The record of one operation: what it asks of the kernel, on which
/// descriptor, for a buffer of which length, and where it stands.
#[derive(Clone, Copy, Debug, PartialEq, Eq, Structural)]
pub struct Operation {
    pub opcode: Opcode,
    pub fd: i32,
    pub len: usize,
    pub state: OpState,
}

/// What one poll of an operation came to.
#[derive(Debug, PartialEq, Eq)]
pub enum Step<T> {
    /// The operation was registered. The entry is to be queued on the ring;
    /// the computation then waits.
    Submitted(Submission),
    /// The completion has not arrived; the computation keeps waiting.
    Pending,
    /// The operation is over, with this outcome.
    Ready(Result<T, IoError>),
}

impl Operation {
    /// An operation that has not been polled.
    pub open spec fn fresh(opcode: Opcode, fd: i32, len: usize) -> Operation {
        Operation { opcode, fd, len, state: OpState::Unsubmitted }
    }

    /// The submission entry of this operation under `token`. An `accept` or
    /// `fsync` has no buffer and carries length 0.
    pub open spec fn entry(self, token: u64) -> Submission {
        Submission {
            opcode: self.opcode,
            fd: self.fd,
            len: match self.opcode {
                Opcode::Accept | Opcode::Fsync => 0,
                _ => entry_len(self.len),
            },
            token,
        }
    }

    /// This operation in another state.
    pub open spec fn in_state(self, state: OpState) -> Operation {
        Operation { state, ..self }
    }

    /// A token that the operation waits on was issued by this table.
    pub open spec fn known_to(self, slots: Seq<Slot>) -> bool {
        self.state matches OpState::Awaiting(token) ==> issued(slots, token)
    }

    /// What the first poll does: the operation takes the next token, a slot
    /// waits for it, and the entry goes out.
    pub open spec fn submitted(self, slots: Seq<Slot>, waker: Waker) -> (
        Operation,
        Seq<Slot>,
        Submission,
    ) {
        let token = slots.len() as u64;
        (
            self.in_state(OpState::Awaiting(token)),
            after_submit(slots, self.fd, waker),
            self.entry(token),
        )
    }

    /// What one poll does to a read or write and to the table of slots, and
    /// what it yields. The waker is used by the first poll only.
    pub open spec fn polled(self, slots: Seq<Slot>, waker: Waker) -> (
        Operation,
        Seq<Slot>,
        Step<usize>,
    ) {
        match self.state {
            OpState::Unsubmitted => {
                let (op, table, entry) = self.submitted(slots, waker);
                (op, table, Step::Submitted(entry))
            },
            OpState::Awaiting(token) => match result_at(slots, token) {
                Some(result) => (
                    self.in_state(OpState::Done),
                    after_take(slots, token),
                    Step::Ready(transfer_outcome(result)),
                ),
                None => (self, slots, Step::Pending),
            },
            OpState::Done => (self, slots, Step::Pending),
        }
    }

    /// An operation that has not been polled.
    pub fn new(opcode: Opcode, fd: i32, len: usize) -> (op: Operation)
        ensures
            op == Operation::fresh(opcode, fd, len),
    {
        Operation { opcode, fd, len, state: OpState::Unsubmitted }
    }

    /// Registers the operation with the reactor under the next token.
    pub fn submit(&mut self, reactor: &mut Reactor, waker: Waker) -> (entry: Submission)
        requires
            old(reactor).wf(),
        ensures
            final(reactor).wf(),
            (*final(self), final(reactor)@, entry) == old(self).submitted(old(reactor)@, waker),
            final(self).known_to(final(reactor)@),
    {
        let entry = match self.opcode {
            Opcode::Read => reactor.read(self.fd, waker, self.len),
            Opcode::Write => reactor.write(self.fd, waker, self.len),
            Opcode::Readv => reactor.readv(self.fd, waker, self.len),
            Opcode::Writev => reactor.writev(self.fd, waker, self.len),
            Opcode::Fsync => reactor.fsync(self.fd, waker),
            Opcode::Accept => reactor.accept(self.fd, waker),
        };
        self.state = OpState::Awaiting(entry.token);
        entry
    }

    /// Polls a read or write.
    pub fn poll(&mut self, reactor: &mut Reactor, waker: Waker) -> (step: Step<usize>)
        requires
            old(reactor).wf(),
            old(self).known_to(old(reactor)@),
        ensures
            final(reactor).wf(),
            (*final(self), final(reactor)@, step) == old(self).polled(old(reactor)@, waker),
            final(self).known_to(final(reactor)@),
    {
        match self.state {
            OpState::Unsubmitted => Step::Submitted(self.submit(reactor, waker)),
            OpState::Awaiting(token) => match reactor.take_token_result(token) {
                Some(result) => {
                    self.state = OpState::Done;
                    Step::Ready(outcome_of_transfer(result))
                },
                None => Step::Pending,
            },
            OpState::Done => Step::Pending,
        }
    }
}

/// How far an operation is: not submitted, then waiting, then done.
pub open spec fn rank(state: OpState) -> nat {
    match state {
        OpState::Unsubmitted => 0,
        OpState::Awaiting(_) => 1,
        OpState::Done => 2,
    }
}

/// A poll never takes a read or write back. It yields an outcome exactly
/// when it moves the operation from waiting to done, and a finished
/// operation stays as it is and touches no slot.
pub proof fn lemma_poll_moves_forward(op: Operation, slots: Seq<Slot>, waker: Waker)
    requires
        op.known_to(slots),
    ensures
        ({
            let (next, table, step) = op.polled(slots, waker);
            &&& next == op.in_state(next.state)
            &&& rank(next.state) >= rank(op.state)
            &&& next.known_to(table)
            &&& step is Submitted <==> op.state is Unsubmitted
            &&& step is Ready <==> op.state is Awaiting && next.state is Done
            &&& op.state is Done ==> next == op && table == slots
        }),
{
}

/// A read from a raw descriptor into a buffer of `len` bytes.
pub struct AsyncReader {
    op: Operation,
}

impl View for AsyncReader {
    type V = Operation;

    closed spec fn view(&self) -> Operation {
        self.op
    }
}

impl AsyncReader {
    /// A read of up to `len` bytes from `fd`, not yet submitted.
    pub fn new(fd: i32, len: usize) -> (reader: AsyncReader)
        ensures
            reader@ == Operation::fresh(Opcode::Read, fd, len),
    {
        AsyncReader { op: Operation::new(Opcode::Read, fd, len) }
    }

    /// Where the read stands.
    pub fn state(&self) -> (state: OpState)
        ensures
            state == self@.state,
    {
        self.op.state
    }

    /// Polls the read: submits it on the first poll, and afterwards yields
    /// the number of bytes read, or the error, once the completion is in.
    pub fn poll(&mut self, reactor: &mut Reactor, waker: Waker) -> (step: Step<usize>)
        requires
            old(reactor).wf(),
            old(self)@.known_to(old(reactor)@),
        ensures
            final(reactor).wf(),
            (final(self)@, final(reactor)@, step) == old(self)@.polled(old(reactor)@, waker),
            final(self)@.known_to(final(reactor)@),
    {
        self.op.poll(reactor, waker)
    }
}

/// A write to a raw descriptor from a buffer of `len` bytes.
pub struct AsyncWriter {
    op: Operation,
}

impl View for AsyncWriter {
    type V = Operation;

    closed spec fn view(&self) -> Operation {
        self.op
    }
}

impl AsyncWriter {
    /// A write of `len` bytes to `fd`, not yet submitted.
    pub fn new(fd: i32, len: usize) -> (writer: AsyncWriter)
        ensures
            writer@ == Operation::fresh(Opcode::Write, fd, len),
    {
        AsyncWriter { op: Operation::new(Opcode::Write, fd, len) }
    }

    /// Where the write stands.
    pub fn state(&self) -> (state: OpState)
        ensures
            state == self@.state,
    {
        self.op.state
    }

    /// Polls the write: submits it on the first poll, and afterwards yields
    /// the number of bytes written, or the error, once the completion is in.
    pub fn poll(&mut self, reactor: &mut Reactor, waker: Waker) -> (step: Step<usize>)
        requires
            old(reactor).wf(),
            old(self)@.known_to(old(reactor)@),
        ensures
            final(reactor).wf(),
            (final(self)@, final(reactor)@, step) == old(self)@.polled(old(reactor)@, waker),
            final(self)@.known_to(final(reactor)@),
    {
        self.op.poll(reactor, waker)
    }
}

} // verus!
