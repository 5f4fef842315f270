//! A file descriptor and its suspendable reads and writes.

use crate::io::{OpState, Operation, Step};
use crate::reactor::{Opcode, Reactor};
use std::task::Waker;
use vstd::prelude::*;

verus! {

/// An open file. The value owns the descriptor, which may be negative when
/// the file could not be opened: operations on it then fail as the kernel
/// says.
#[derive(Debug, PartialEq, Eq)]
pub struct File {
    fd: i32,
}

impl View for File {
    type V = i32;

    closed spec fn view(&self) -> i32 {
        self.fd
    }
}

impl File {
    /// Takes ownership of a descriptor that the caller opened.
    pub fn from_fd(fd: i32) -> (file: File)
        ensures
            file@ == fd,
    {
        File { fd }
    }

    /// The descriptor.
    pub fn as_raw_fd(&self) -> (fd: i32)
        ensures
            fd == self@,
    {
        self.fd
    }

    /// A read from this file into a buffer of `len` bytes.
    pub fn read(&self, len: usize) -> (op: FileRead)
        ensures
            op@ == Operation::fresh(Opcode::Read, self@, len),
    {
        FileRead::new(self, len)
    }

    /// A write to this file from a buffer of `len` bytes.
    pub fn write(&self, len: usize) -> (op: FileWrite)
        ensures
            op@ == Operation::fresh(Opcode::Write, self@, len),
    {
        FileWrite::new(self, len)
    }

    /// Gives the file up: the reactor forgets every computation that waits
    /// on the descriptor, and the descriptor is handed back to be closed.
    pub fn close(self, reactor: &mut Reactor) -> (fd: i32)
        requires
            old(reactor).wf(),
        ensures
            final(reactor).wf(),
            fd == self@,
            final(reactor).closes(old(reactor), self@),
    {
        reactor.unregister_fd(self.fd);
        self.fd
    }
}

/// A read from a file.
pub struct FileRead {
    op: Operation,
}

impl View for FileRead {
    type V = Operation;

    closed spec fn view(&self) -> Operation {
        self.op
    }
}

impl FileRead {
    /// A read of up to `len` bytes from `file`, not yet submitted.
    pub fn new(file: &File, len: usize) -> (op: FileRead)
        ensures
            op@ == Operation::fresh(Opcode::Read, file@, len),
    {
        FileRead { op: Operation::new(Opcode::Read, file.fd, len) }
    }

    /// Where the read stands.
    pub fn state(&self) -> (state: OpState)
        ensures
            state == self@.state,
    {
        self.op.state
    }

    /// Polls the read: submits it on the first poll, and afterwards yields
    /// the number of bytes read, or the error, once the completion is in.
    pub fn poll(&mut self, reactor: &mut Reactor, waker: Waker) -> (step: Step<usize>)
        requires
            old(reactor).wf(),
            old(self)@.known_to(old(reactor)@),
        ensures
            final(reactor).wf(),
            (final(self)@, final(reactor)@, step) == old(self)@.polled(old(reactor)@, waker),
            final(self)@.known_to(final(reactor)@),
    {
        self.op.poll(reactor, waker)
    }
}

/// A write to a file.
pub struct FileWrite {
    op: Operation,
}

impl View for FileWrite {
    type V = Operation;

    closed spec fn view(&self) -> Operation {
        self.op
    }
}

impl FileWrite {
    /// A write of `len` bytes to `file`, not yet submitted.
    pub fn new(file: &File, len: usize) -> (op: FileWrite)
        ensures
            op@ == Operation::fresh(Opcode::Write, file@, len),
    {
        FileWrite { op: Operation::new(Opcode::Write, file.fd, len) }
    }

    /// Where the write stands.
    pub fn state(&self) -> (state: OpState)
        ensures
            state == self@.state,
    {
        self.op.state
    }

    /// Polls the write: submits it on the first poll, and afterwards yields
    /// the number of bytes written, or the error, once the completion is in.
    pub fn poll(&mut self, reactor: &mut Reactor, waker: Waker) -> (step: Step<usize>)
        requires
            old(reactor).wf(),
            old(self)@.known_to(old(reactor)@),
        ensures
            final(reactor).wf(),
            (final(self)@, final(reactor)@, step) == old(self)@.polled(old(reactor)@, waker),
            final(self)@.known_to(final(reactor)@),
    {
        self.op.poll(reactor, waker)
    }
}

} // verus!
