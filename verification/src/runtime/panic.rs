//! Portable panic / abort / trap routines.
//!
//! These functions return runtime errors rather than halting the machine; a
//! host that can halt cleanly may handle the error as a fatal exit.

use vstd::prelude::*;

use crate::runtime::RuntimeError;

verus! {

/// Abruptly terminate execution: signals [`RuntimeError::Abort`].
pub fn abort() -> (r: Result<(), RuntimeError>)
    ensures
        r == Err::<(), RuntimeError>(RuntimeError::Abort),
{
    Err(RuntimeError::Abort)
}

/// Report a fatal logic error: signals [`RuntimeError::Panic`] carrying the
/// supplied message.
pub fn panic(msg: &str) -> (r: Result<(), RuntimeError>)
    ensures
        match r {
            Err(RuntimeError::Panic { msg: Some(m) }) => m@ == msg@,
            _ => false,
        },
{
    Err(RuntimeError::Panic { msg: Some(String::from_str(msg)) })
}

/// Execute a debug / breakpoint trap: signals [`RuntimeError::Trap`].
pub fn trap() -> (r: Result<(), RuntimeError>)
    ensures
        r == Err::<(), RuntimeError>(RuntimeError::Trap),
{
    Err(RuntimeError::Trap)
}

} // verus!
