//! What generated code and the routines it calls agree on.
//!
//! Generated code calls the I/O routine with the context in `rdi`, a
//! direction in `rsi` and the address of the current cell in `rdx`, and the
//! abort routine with a code in `rdi`.

use crate::vm::RuntimeError;
use vstd::prelude::*;

verus! {

/// The direction with which generated code asks for a byte to be read.
pub const IO_READ: u8 = 0;

/// The direction with which generated code asks for a byte to be written.
pub const IO_WRITE: u8 = 1;

/// The code with which generated code reports a cursor off the tape.
pub const ABORT_MEMORY: u8 = 0;

/// What the I/O routine is asked to do.
#[derive(PartialEq, Eq, Structural, Debug, Clone, Copy)]
pub enum IoRequest {
    /// Read one byte and return it, or `EOF` where none is left.
    Read,
    /// Write the byte of the current cell.
    Write,
    /// Nothing: the direction is not known.
    Nothing,
}

/// What a direction asks for.
pub open spec fn io_request_spec(direction: u8) -> IoRequest {
    if direction == IO_READ {
        IoRequest::Read
    } else if direction == IO_WRITE {
        IoRequest::Write
    } else {
        IoRequest::Nothing
    }
}

/// Tells what the I/O routine is asked to do.
pub fn io_request(direction: u8) -> (r: IoRequest)
    ensures
        r == io_request_spec(direction),
{
    if direction == IO_READ {
        IoRequest::Read
    } else if direction == IO_WRITE {
        IoRequest::Write
    } else {
        IoRequest::Nothing
    }
}

/// Tells the error that an abort code stands for, if it stands for one.
pub fn abort_reason(code: u8) -> (r: Option<RuntimeError>)
    ensures
        r == (if code == ABORT_MEMORY {
            Some(RuntimeError::MemoryOutofRange)
        } else {
            None
        }),
{
    if code == ABORT_MEMORY {
        Some(RuntimeError::MemoryOutofRange)
    } else {
        None
    }
}

} // verus!
