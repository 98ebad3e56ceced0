//! SAIR constants and SSA values.

use vstd::prelude::*;

use crate::ir::types::IrType;
use crate::strings::{decimal, push_char, push_decimal, push_str};

verus! {

/// Identifier of an SSA value within a function.
pub type ValueId = usize;

/// A constant operand. A 64-bit float is held as its IEEE-754 bit pattern.
#[derive(Debug, Clone, Copy, PartialEq, Eq, Structural)]
pub enum Constant {
    I64(u64),
    I32(u32),
    F64(u64),
    I1(bool),
    I8(u8),
    I16(u16),
}

/// The type of a constant.
pub open spec fn constant_type(c: Constant) -> IrType {
    match c {
        Constant::I64(_) => IrType::I64,
        Constant::I1(_) => IrType::I1,
        Constant::I8(_) => IrType::I8,
        Constant::I16(_) => IrType::I16,
        Constant::I32(_) => IrType::I32,
        Constant::F64(_) => IrType::F64,
    }
}

impl Constant {
    pub fn ty(&self) -> (r: IrType)
        ensures
            r == constant_type(*self),
    {
        match self {
            Constant::I64(_) => IrType::I64,
            Constant::I1(_) => IrType::I1,
            Constant::I8(_) => IrType::I8,
            Constant::I16(_) => IrType::I16,
            Constant::I32(_) => IrType::I32,
            Constant::F64(_) => IrType::F64,
        }
    }
}

/// An SSA value: its id, type and optional source name.
#[derive(Debug, Clone)]
pub struct SsaValue {
    pub id: ValueId,
    pub ty: IrType,
    pub name: Option<String>,
}

/// How a value is shown: `%name` when it has a name, else `%id`.
pub open spec fn value_display(id: nat, name: Option<String>) -> Seq<char> {
    match name {
        Some(n) => seq!['%'] + n@,
        None => seq!['%'] + decimal(id),
    }
}

impl SsaValue {
    pub fn new(id: ValueId, ty: IrType, name: Option<String>) -> (r: Self)
        ensures
            r.id == id,
            r.ty == ty,
            r.name == name,
    {
        SsaValue { id, ty, name }
    }

    pub fn display_name(&self) -> (r: String)
        ensures
            r@ == value_display(self.id as nat, self.name),
    {
        let mut s = String::new();
        push_char(&mut s, '%');
        match &self.name {
            Some(n) => push_str(&mut s, n.as_str()),
            None => push_decimal(&mut s, self.id as u64),
        }
        s
    }
}

} // verus!
