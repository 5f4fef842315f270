//! TCP listeners and streams: accepting a connection, and reading from and
//! writing to one.

use crate::error::{errno_of, IoError};
use crate::io::{rank, AsyncReader, AsyncWriter, OpState, Operation, Step};
use crate::reactor::{Opcode, Reactor};
use crate::slots::{after_take, result_at, Slot};
use std::task::Waker;
use vstd::prelude::*;

verus! {

/// The length of the queue of pending connections that a listener asks for.
pub const BACKLOG: i32 = 1024;

/// A listening socket.
#[derive(Debug, PartialEq, Eq)]
pub struct TcpListener {
    fd: i32,
}

impl View for TcpListener {
    type V = i32;

    closed spec fn view(&self) -> i32 {
        self.fd
    }
}

impl TcpListener {
    /// Takes ownership of a socket that the caller bound and set listening.
    pub fn from_fd(fd: i32) -> (listener: TcpListener)
        ensures
            listener@ == fd,
    {
        TcpListener { fd }
    }

    /// The descriptor.
    pub fn as_raw_fd(&self) -> (fd: i32)
        ensures
            fd == self@,
    {
        self.fd
    }

    /// An `accept` on this listener.
    pub fn accept(&self) -> (op: TcpAccpeter)
        ensures
            op@ == Operation::fresh(Opcode::Accept, self@, 0),
    {
        TcpAccpeter::new(self.fd)
    }
}

/// What one poll does to an `accept` and to the table of slots, and what it
/// yields. A positive result is the descriptor of the accepted connection;
/// the result 0 is no descriptor, and the `accept` is submitted again under
/// a new token; a negative result is an error.
pub open spec fn accept_polled(op: Operation, slots: Seq<Slot>, waker: Waker) -> (
    Operation,
    Seq<Slot>,
    Step<TcpSteam>,
) {
    match op.state {
        OpState::Unsubmitted => {
            let (op, table, entry) = op.submitted(slots, waker);
            (op, table, Step::Submitted(entry))
        },
        OpState::Awaiting(token) => match result_at(slots, token) {
            Some(result) => {
                let taken = after_take(slots, token);
                if result > 0 {
                    (op.in_state(OpState::Done), taken, Step::Ready(Ok(TcpSteam::owning(result))))
                } else if result == 0 {
                    let (op, table, entry) = op.submitted(taken, waker);
                    (op, table, Step::Submitted(entry))
                } else {
                    (
                        op.in_state(OpState::Done),
                        taken,
                        Step::Ready(Err(IoError::of_errno(errno_of(result)))),
                    )
                }
            },
            None => (op, slots, Step::Pending),
        },
        OpState::Done => (op, slots, Step::Pending),
    }
}

/// A poll never takes an `accept` back. It yields an outcome exactly when
/// it moves the `accept` from waiting to done, which it does on every
/// result but 0; on 0 the `accept` waits on, under the next token.
pub proof fn lemma_accept_moves_forward(op: Operation, slots: Seq<Slot>, waker: Waker)
    requires
        op.known_to(slots),
    ensures
        ({
            let (next, table, step) = accept_polled(op, slots, waker);
            &&& next == op.in_state(next.state)
            &&& rank(next.state) >= rank(op.state)
            &&& next.known_to(table)
            &&& step is Ready <==> op.state is Awaiting && next.state is Done
            &&& op.state is Done ==> next == op && table == slots
            &&& step is Submitted <==> op.state is Unsubmitted || (op.state matches OpState::Awaiting(
                token,
            ) && result_at(slots, token) == Some(0i32))
            &&& step is Submitted ==> next.state == OpState::Awaiting(slots.len() as u64)
        }),
{
}

/// An `accept` on a listening socket.
pub struct TcpAccpeter {
    op: Operation,
}

impl View for TcpAccpeter {
    type V = Operation;

    closed spec fn view(&self) -> Operation {
        self.op
    }
}

impl TcpAccpeter {
    /// An `accept` on the listening socket `fd`, not yet submitted.
    pub fn new(fd: i32) -> (op: TcpAccpeter)
        ensures
            op@ == Operation::fresh(Opcode::Accept, fd, 0),
    {
        TcpAccpeter { op: Operation::new(Opcode::Accept, fd, 0) }
    }

    /// Where the `accept` stands.
    pub fn state(&self) -> (state: OpState)
        ensures
            state == self@.state,
    {
        self.op.state
    }

    /// Polls the `accept`: submits it on the first poll, and afterwards
    /// yields the accepted stream, or the error, once the completion is in.
    pub fn poll(&mut self, reactor: &mut Reactor, waker: Waker) -> (step: Step<TcpSteam>)
        requires
            old(reactor).wf(),
            old(self)@.known_to(old(reactor)@),
        ensures
            final(reactor).wf(),
            (final(self)@, final(reactor)@, step) == accept_polled(
                old(self)@,
                old(reactor)@,
                waker,
            ),
            final(self)@.known_to(final(reactor)@),
    {
        match self.op.state {
            OpState::Unsubmitted => Step::Submitted(self.op.submit(reactor, waker)),
            OpState::Awaiting(token) => match reactor.take_token_result(token) {
                Some(result) => {
                    if result > 0 {
                        self.op.state = OpState::Done;
                        Step::Ready(Ok(TcpSteam::new(result)))
                    } else if result == 0 {
                        Step::Submitted(self.op.submit(reactor, waker))
                    } else {
                        self.op.state = OpState::Done;
                        Step::Ready(Err(IoError::of_result(result)))
                    }
                },
                None => Step::Pending,
            },
            OpState::Done => Step::Pending,
        }
    }
}

/// A connected socket. The value owns the descriptor.
#[derive(Debug, PartialEq, Eq)]
pub struct TcpSteam {
    fd: i32,
}

impl View for TcpSteam {
    type V = i32;

    closed spec fn view(&self) -> i32 {
        self.fd
    }
}

impl TcpSteam {
    /// The stream that owns `fd`.
    pub closed spec fn owning(fd: i32) -> TcpSteam {
        TcpSteam { fd }
    }

    /// A stream is known by its descriptor.
    pub proof fn lemma_owning(fd: i32)
        ensures
            TcpSteam::owning(fd)@ == fd,
    {
    }

    /// Takes ownership of a connected socket.
    pub fn new(fd: i32) -> (stream: TcpSteam)
        ensures
            stream == TcpSteam::owning(fd),
            stream@ == fd,
    {
        TcpSteam { fd }
    }

    /// The descriptor.
    pub fn as_raw_fd(&self) -> (fd: i32)
        ensures
            fd == self@,
    {
        self.fd
    }

    /// A read from this stream into a buffer of `len` bytes.
    pub fn read(&self, len: usize) -> (op: TcpStreamReader)
        ensures
            op@ == Operation::fresh(Opcode::Read, self@, len),
    {
        TcpStreamReader::new(self, len)
    }

    /// A write to this stream from a buffer of `len` bytes.
    pub fn write(&self, len: usize) -> (op: TcpStreamWriter)
        ensures
            op@ == Operation::fresh(Opcode::Write, self@, len),
    {
        TcpStreamWriter::new(self, len)
    }

    /// Gives the stream up: the reactor forgets every computation that
    /// waits on the descriptor, and the descriptor is handed back to be
    /// closed.
    pub fn close(self, reactor: &mut Reactor) -> (fd: i32)
        requires
            old(reactor).wf(),
        ensures
            final(reactor).wf(),
            fd == self@,
            final(reactor).closes(old(reactor), self@),
    {
        reactor.unregister_fd(self.fd);
        self.fd
    }
}

/// What a stream read makes of a step of the underlying read: a read of no
/// bytes is the end of the stream, and an error.
pub open spec fn surfacing_eof(step: Step<usize>) -> Step<usize> {
    if step == Step::<usize>::Ready(Ok(0)) {
        Step::Ready(Err(IoError::UnexpectedEof))
    } else {
        step
    }
}

/// A read from a stream.
pub struct TcpStreamReader {
    reader: AsyncReader,
}

impl View for TcpStreamReader {
    type V = Operation;

    closed spec fn view(&self) -> Operation {
        self.reader@
    }
}

impl TcpStreamReader {
    /// A read of up to `len` bytes from `stream`, not yet submitted.
    pub fn new(stream: &TcpSteam, len: usize) -> (op: TcpStreamReader)
        ensures
            op@ == Operation::fresh(Opcode::Read, stream@, len),
    {
        TcpStreamReader { reader: AsyncReader::new(stream.fd, len) }
    }

    /// Where the read stands.
    pub fn state(&self) -> (state: OpState)
        ensures
            state == self@.state,
    {
        self.reader.state()
    }

    /// Polls the read. It yields what a read of the descriptor yields, but
    /// for a read of no bytes, which is the error `UnexpectedEof`.
    pub fn poll(&mut self, reactor: &mut Reactor, waker: Waker) -> (step: Step<usize>)
        requires
            old(reactor).wf(),
            old(self)@.known_to(old(reactor)@),
        ensures
            final(reactor).wf(),
            final(self)@ == old(self)@.polled(old(reactor)@, waker).0,
            final(reactor)@ == old(self)@.polled(old(reactor)@, waker).1,
            step == surfacing_eof(old(self)@.polled(old(reactor)@, waker).2),
            final(self)@.known_to(final(reactor)@),
    {
        match self.reader.poll(reactor, waker) {
            Step::Ready(Ok(n)) => {
                if n > 0 {
                    Step::Ready(Ok(n))
                } else {
                    Step::Ready(Err(IoError::UnexpectedEof))
                }
            },
            Step::Ready(Err(e)) => Step::Ready(Err(e)),
            Step::Submitted(entry) => Step::Submitted(entry),
            Step::Pending => Step::Pending,
        }
    }
}

/// A write to a stream.
pub struct TcpStreamWriter {
    writer: AsyncWriter,
}

impl View for TcpStreamWriter {
    type V = Operation;

    closed spec fn view(&self) -> Operation {
        self.writer@
    }
}

impl TcpStreamWriter {
    /// A write of `len` bytes to `stream`, not yet submitted.
    pub fn new(stream: &TcpSteam, len: usize) -> (op: TcpStreamWriter)
        ensures
            op@ == Operation::fresh(Opcode::Write, stream@, len),
    {
        TcpStreamWriter { writer: AsyncWriter::new(stream.fd, len) }
    }

    /// Where the write stands.
    pub fn state(&self) -> (state: OpState)
        ensures
            state == self@.state,
    {
        self.writer.state()
    }

    /// Polls the write: submits it on the first poll, and afterwards yields
    /// the number of bytes written, or the error, once the completion is in.
    pub fn poll(&mut self, reactor: &mut Reactor, waker: Waker) -> (step: Step<usize>)
        requires
            old(reactor).wf(),
            old(self)@.known_to(old(reactor)@),
        ensures
            final(reactor).wf(),
            (final(self)@, final(reactor)@, step) == old(self)@.polled(old(reactor)@, waker),
            final(self)@.known_to(final(reactor)@),
    {
        match self.writer.poll(reactor, waker) {
            Step::Ready(Ok(n)) => Step::Ready(Ok(n)),
            Step::Ready(Err(e)) => Step::Ready(Err(e)),
            Step::Submitted(entry) => Step::Submitted(entry),
            Step::Pending => Step::Pending,
        }
    }
}

} // verus!
