//! SAIR value types.

use vstd::prelude::*;

verus! {

/// The static type of a SAIR value.
#[derive(Debug, Clone, Copy, PartialEq, Eq, Hash, Structural)]
pub enum IrType {
    I1,
    I8,
    I16,
    I32,
    I64,
    F64,
    Pointer,
    Void,
}

/// Size of a value of type `t` in bytes (pointers are 32-bit).
pub open spec fn type_size(t: IrType) -> u32 {
    match t {
        IrType::Void => 0,
        IrType::I1 => 1,
        IrType::I8 => 1,
        IrType::I16 => 2,
        IrType::I32 => 4,
        IrType::I64 => 8,
        IrType::F64 => 8,
        IrType::Pointer => 4,
    }
}

/// Alignment of a value of type `t` in bytes.
pub open spec fn type_align(t: IrType) -> u32 {
    match t {
        IrType::Void => 1,
        IrType::I1 => 1,
        IrType::I8 => 1,
        IrType::I16 => 2,
        IrType::I32 => 4,
        IrType::I64 => 8,
        IrType::F64 => 8,
        IrType::Pointer => 4,
    }
}

/// Bit width of an integer type.
pub open spec fn int_width(t: IrType) -> Option<u32> {
    match t {
        IrType::I1 => Some(1u32),
        IrType::I8 => Some(8u32),
        IrType::I16 => Some(16u32),
        IrType::I32 => Some(32u32),
        IrType::I64 => Some(64u32),
        _ => None,
    }
}

/// The textual spelling of a type.
pub open spec fn type_text(t: IrType) -> Seq<char> {
    match t {
        IrType::I1 => "i1"@,
        IrType::I8 => "i8"@,
        IrType::I16 => "i16"@,
        IrType::I32 => "i32"@,
        IrType::I64 => "i64"@,
        IrType::F64 => "f64"@,
        IrType::Pointer => "ptr"@,
        IrType::Void => "void"@,
    }
}

impl IrType {
    pub fn size_in_bytes(&self) -> (r: u32)
        ensures
            r == type_size(*self),
    {
        match self {
            IrType::Void => 0,
            IrType::I1 => 1,
            IrType::I8 => 1,
            IrType::I16 => 2,
            IrType::I32 => 4,
            IrType::I64 => 8,
            IrType::F64 => 8,
            IrType::Pointer => 4,
        }
    }

    pub fn alignment(&self) -> (r: u32)
        ensures
            r == type_align(*self),
    {
        match self {
            IrType::Void => 1,
            IrType::I1 => 1,
            IrType::I8 => 1,
            IrType::I16 => 2,
            IrType::I32 => 4,
            IrType::I64 => 8,
            IrType::F64 => 8,
            IrType::Pointer => 4,
        }
    }

    pub fn is_void(&self) -> (r: bool)
        ensures
            r == (*self == IrType::Void),
    {
        matches!(self, IrType::Void)
    }

    pub fn is_integer(&self) -> (r: bool)
        ensures
            r == int_width(*self).is_some(),
    {
        matches!(self, IrType::I1 | IrType::I8 | IrType::I16 | IrType::I32 | IrType::I64)
    }

    /// Bit width of an integer type, `None` for non-integers.
    pub fn integer_width(&self) -> (r: Option<u32>)
        ensures
            r == int_width(*self),
    {
        match self {
            IrType::I1 => Some(1),
            IrType::I8 => Some(8),
            IrType::I16 => Some(16),
            IrType::I32 => Some(32),
            IrType::I64 => Some(64),
            _ => None,
        }
    }

    /// The scalar types that a `ptr` may be cast to and from (pointers are
    /// 32-bit cells).
    pub fn is_pointer_sized_integer(&self) -> (r: bool)
        ensures
            r == (*self == IrType::I32 || *self == IrType::I64),
    {
        matches!(self, IrType::I32 | IrType::I64)
    }

    /// The textual spelling of the type (`i32`, `ptr`, ...).
    pub fn as_str(&self) -> (r: &'static str)
        ensures
            r@ == type_text(*self),
    {
        match self {
            IrType::I1 => "i1",
            IrType::I8 => "i8",
            IrType::I16 => "i16",
            IrType::I32 => "i32",
            IrType::I64 => "i64",
            IrType::F64 => "f64",
            IrType::Pointer => "ptr",
            IrType::Void => "void",
        }
    }
}

} // verus!
