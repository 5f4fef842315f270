//! Errors of completed operations, derived from the kernel's result word.

use vstd::prelude::*;

verus! {

/// Why an operation failed.
#[derive(Clone, Copy, Debug, PartialEq, Eq, Structural)]
pub enum IoError {
    /// The kernel answered `EAGAIN`: the operation would have blocked.
    WouldBlock,
    /// A stream read reached the end of the stream.
    UnexpectedEof,
    /// Any other failure, with its `errno`.
    Os(i32),
}

/// The `errno` value that marks an operation that would block.
pub const EAGAIN: i32 = 11;

/// `libc::EAGAIN`, which on every Linux target is 11.
#[verifier::external_body]
fn would_block_errno() -> (code: i32)
    ensures
        code == EAGAIN,
{
    libc::EAGAIN
}

/// The `errno` that a negative result word carries: its negation. The one
/// word without a negation, `i32::MIN`, stands for itself.
pub open spec fn errno_of(result: i32) -> i32 {
    if result == i32::MIN {
        i32::MIN
    } else {
        (-result) as i32
    }
}

impl IoError {
    /// The error that an `errno` value stands for.
    pub open spec fn of_errno(code: i32) -> IoError {
        if code == EAGAIN {
            IoError::WouldBlock
        } else {
            IoError::Os(code)
        }
    }

    /// Reads an `errno` value: `EAGAIN` is `WouldBlock`, every other
    /// value is carried as it is.
    pub fn from_errno(code: i32) -> (err: IoError)
        ensures
            err == IoError::of_errno(code),
    {
        if code == would_block_errno() {
            IoError::WouldBlock
        } else {
            IoError::Os(code)
        }
    }

    /// The error that a negative result word stands for.
    pub fn of_result(result: i32) -> (err: IoError)
        ensures
            err == IoError::of_errno(errno_of(result)),
    {
        if result == i32::MIN {
            IoError::from_errno(result)
        } else {
            IoError::from_errno(-result)
        }
    }
}

/// What a result word means for a read or a write: a byte count when it is
/// not negative, otherwise the error of its `errno`.
pub open spec fn transfer_outcome(result: i32) -> Result<usize, IoError> {
    if result >= 0 {
        Ok(result as usize)
    } else {
        Err(IoError::of_errno(errno_of(result)))
    }
}

/// Reads a result word as the outcome of a read or a write.
pub fn outcome_of_transfer(result: i32) -> (out: Result<usize, IoError>)
    ensures
        out == transfer_outcome(result),
{
    if result >= 0 {
        Ok(result as usize)
    } else {
        Err(IoError::of_result(result))
    }
}

} // verus!
