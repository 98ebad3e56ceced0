//! Portable, architecture-independent runtime routines.
//!
//! Every routine works through the [`ByteMemory`] trait, whose contract models
//! a memory as a finite sequence of bytes addressed from zero.

pub mod bitops;
pub mod intrinsics;
pub mod memory;
pub mod panic;
pub mod string;

pub use bitops::{bit_intrinsic_value, BitIntrinsicKind};
pub use intrinsics::{dispatch_intrinsic, IntrinsicFn, IntrinsicRegistry, IntrinsicSignature};
pub use memory::{memcmp, memcpy, memmove, memset};
pub use panic::{abort, trap};
pub use string::{strcmp, strcpy, strlen, strncpy};

use vstd::prelude::*;

verus! {

/// Errors that can be returned by runtime routines.
#[derive(Debug, Clone, PartialEq, Eq)]
pub enum RuntimeError {
    /// A memory access fell outside the available address space.
    MemoryOutOfBounds { addr: u32 },
    /// A string exceeded the available memory without finding a null terminator.
    UnterminatedString { addr: u32 },
    /// `abort` was called.
    Abort,
    /// `panic` was called, optionally with a message.
    Panic { msg: Option<String> },
    /// `trap` was called.
    Trap,
    /// An unknown intrinsic name was dispatched.
    UnknownIntrinsic(String),
    /// An intrinsic was called with the wrong number of arguments.
    BadIntrinsicArgs { name: String, expected: usize, got: usize },
}

/// A runtime value returned by an intrinsic.
#[derive(Debug, Clone, Copy, PartialEq, Eq)]
pub enum Value {
    /// Unsigned 32-bit integer result.
    U32(u32),
    /// Signed 32-bit integer result.
    I32(i32),
    /// Pointer result.
    Pointer(u32),
}

/// Result of invoking an intrinsic.
#[derive(Debug, Clone, Copy, PartialEq, Eq)]
pub enum IntrinsicResult {
    /// The intrinsic has no meaningful return value.
    Void,
    /// The intrinsic produced a value.
    Value(Value),
}

/// Architecture-independent byte-level memory interface.
///
/// A memory is modelled by `bytes()`: the byte at address `a` is
/// `bytes()[a]` for every `a < bytes().len()`, and every other address is out
/// of bounds. Implementations perform their own bounds checking and answer an
/// out-of-bounds access with [`RuntimeError::MemoryOutOfBounds`].
pub trait ByteMemory {
    /// The contents of the memory, indexed by address.
    spec fn bytes(&self) -> Seq<u8>;

    /// Read a single byte from `addr`.
    fn load_u8(&self, addr: u32) -> (r: Result<u8, RuntimeError>)
        ensures
            addr < self.bytes().len() ==> r == Ok::<u8, RuntimeError>(self.bytes()[addr as int]),
            addr >= self.bytes().len() ==> r == Err::<u8, RuntimeError>(
                RuntimeError::MemoryOutOfBounds { addr },
            ),
    ;

    /// Write a single byte to `addr`.
    fn store_u8(&mut self, addr: u32, value: u8) -> (r: Result<(), RuntimeError>)
        ensures
            addr < old(self).bytes().len() ==> r == Ok::<(), RuntimeError>(())
                && final(self).bytes() == old(self).bytes().update(addr as int, value),
            addr >= old(self).bytes().len() ==> r == Err::<(), RuntimeError>(
                RuntimeError::MemoryOutOfBounds { addr },
            ) && final(self).bytes() == old(self).bytes(),
    ;
}

impl ByteMemory for Vec<u8> {
    open spec fn bytes(&self) -> Seq<u8> {
        self@
    }

    fn load_u8(&self, addr: u32) -> (r: Result<u8, RuntimeError>) {
        let i = addr as usize;
        if i < self.len() {
            Ok(self[i])
        } else {
            Err(RuntimeError::MemoryOutOfBounds { addr })
        }
    }

    fn store_u8(&mut self, addr: u32, value: u8) -> (r: Result<(), RuntimeError>) {
        let i = addr as usize;
        if i < self.len() {
            self.set(i, value);
            Ok(())
        } else {
            Err(RuntimeError::MemoryOutOfBounds { addr })
        }
    }
}

impl<'a> ByteMemory for &'a mut [u8] {
    open spec fn bytes(&self) -> Seq<u8> {
        (**self)@
    }

    fn load_u8(&self, addr: u32) -> (r: Result<u8, RuntimeError>) {
        let i = addr as usize;
        if i < self.len() {
            Ok(self[i])
        } else {
            Err(RuntimeError::MemoryOutOfBounds { addr })
        }
    }

    fn store_u8(&mut self, addr: u32, value: u8) -> (r: Result<(), RuntimeError>) {
        let i = addr as usize;
        if i < self.len() {
            self[i] = value;
            Ok(())
        } else {
            Err(RuntimeError::MemoryOutOfBounds { addr })
        }
    }
}

} // verus!
