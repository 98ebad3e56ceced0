//! SAIR instructions and block terminators.

use vstd::prelude::*;

use crate::ir::types::IrType;
use crate::ir::value::{constant_type, Constant, ValueId};

verus! {

/// A GEP index: a dynamic value or a constant struct field number.
#[derive(Debug, Clone, Copy, PartialEq, Eq, Structural)]
pub enum GepIndex {
    Dynamic(ValueId),
    StructField(u32),
}

/// The LLVM integer/pointer conversions that SAIR models directly.
///
/// Pointers are 32-bit, so `PtrToInt`/`IntToPtr` only change static type;
/// `Zext`/`Sext`/`Trunc` change bit width with LLVM semantics; `Bitcast`
/// keeps the bits and only reinterprets the static type.
#[derive(Debug, Clone, Copy, PartialEq, Eq, Hash, Structural)]
pub enum CastOp {
    Zext,
    Sext,
    Trunc,
    Bitcast,
    PtrToInt,
    IntToPtr,
}

/// The textual name of a cast operator.
pub open spec fn cast_op_text(op: CastOp) -> Seq<char> {
    match op {
        CastOp::Zext => "zext"@,
        CastOp::Sext => "sext"@,
        CastOp::Trunc => "trunc"@,
        CastOp::Bitcast => "bitcast"@,
        CastOp::PtrToInt => "ptrtoint"@,
        CastOp::IntToPtr => "inttoptr"@,
    }
}

impl CastOp {
    pub fn name(&self) -> (r: &'static str)
        ensures
            r@ == cast_op_text(*self),
    {
        match self {
            CastOp::Zext => "zext",
            CastOp::Sext => "sext",
            CastOp::Trunc => "trunc",
            CastOp::Bitcast => "bitcast",
            CastOp::PtrToInt => "ptrtoint",
            CastOp::IntToPtr => "inttoptr",
        }
    }
}

/// A SAIR instruction. Value-producing instructions define the next SSA id
/// of their function in program order.
#[derive(Debug, Clone)]
pub enum Instruction {
    Add { ty: IrType, lhs: ValueId, rhs: ValueId },
    Sub { ty: IrType, lhs: ValueId, rhs: ValueId },
    Mul { ty: IrType, lhs: ValueId, rhs: ValueId },
    Div { ty: IrType, lhs: ValueId, rhs: ValueId },
    Rem { ty: IrType, lhs: ValueId, rhs: ValueId },
    And { ty: IrType, lhs: ValueId, rhs: ValueId },
    Or { ty: IrType, lhs: ValueId, rhs: ValueId },
    Xor { ty: IrType, lhs: ValueId, rhs: ValueId },
    Shl { ty: IrType, lhs: ValueId, rhs: ValueId },
    Lshr { ty: IrType, lhs: ValueId, rhs: ValueId },
    Ashr { ty: IrType, lhs: ValueId, rhs: ValueId },
    Eq { ty: IrType, lhs: ValueId, rhs: ValueId },
    Lt { ty: IrType, lhs: ValueId, rhs: ValueId },
    Gt { ty: IrType, lhs: ValueId, rhs: ValueId },
    /// Conversion of `value` (of static type `from_ty`) to `to_ty`.
    Cast { op: CastOp, from_ty: IrType, to_ty: IrType, value: ValueId },
    /// `select`: yields `then_value` when `condition` is true, else
    /// `else_value`.
    Select { ty: IrType, condition: ValueId, then_value: ValueId, else_value: ValueId },
    Const(Constant),
    Alloca { ty: IrType, count: u32 },
    Load { ty: IrType, addr: ValueId },
    Store { ty: IrType, value: ValueId, addr: ValueId },
    Call { return_ty: IrType, callee: String, args: Vec<ValueId> },
    Phi { ty: IrType, incoming: Vec<(ValueId, String)> },
    Gep { result_ty: IrType, elem_ty: IrType, base: ValueId, indices: Vec<GepIndex> },
}

/// The type of the value an instruction defines, `None` when it defines
/// none (a store, or a call returning void).
pub open spec fn result_type_of(i: Instruction) -> Option<IrType> {
    match i {
        Instruction::Const(c) => Some(constant_type(c)),
        Instruction::Add { ty, .. }
        | Instruction::Sub { ty, .. }
        | Instruction::Mul { ty, .. }
        | Instruction::Div { ty, .. }
        | Instruction::Rem { ty, .. }
        | Instruction::And { ty, .. }
        | Instruction::Or { ty, .. }
        | Instruction::Xor { ty, .. }
        | Instruction::Shl { ty, .. }
        | Instruction::Lshr { ty, .. }
        | Instruction::Ashr { ty, .. } => Some(ty),
        Instruction::Eq { .. } | Instruction::Lt { .. } | Instruction::Gt { .. } => Some(IrType::I1),
        Instruction::Cast { to_ty, .. } => Some(to_ty),
        Instruction::Select { ty, .. } => Some(ty),
        Instruction::Alloca { .. } => Some(IrType::Pointer),
        Instruction::Load { ty, .. } => Some(ty),
        Instruction::Store { .. } => None,
        Instruction::Call { return_ty, .. } => if return_ty == IrType::Void {
            None
        } else {
            Some(return_ty)
        },
        Instruction::Phi { ty, .. } => Some(ty),
        Instruction::Gep { result_ty, .. } => Some(result_ty),
    }
}

impl Instruction {
    pub fn result_type(&self) -> (r: Option<IrType>)
        ensures
            r == result_type_of(*self),
    {
        match self {
            Instruction::Const(c) => Some(c.ty()),
            Instruction::Add { ty, .. }
            | Instruction::Sub { ty, .. }
            | Instruction::Mul { ty, .. }
            | Instruction::Div { ty, .. }
            | Instruction::Rem { ty, .. }
            | Instruction::And { ty, .. }
            | Instruction::Or { ty, .. }
            | Instruction::Xor { ty, .. }
            | Instruction::Shl { ty, .. }
            | Instruction::Lshr { ty, .. }
            | Instruction::Ashr { ty, .. } => Some(*ty),
            Instruction::Eq { .. } | Instruction::Lt { .. } | Instruction::Gt { .. } => Some(
                IrType::I1,
            ),
            Instruction::Cast { to_ty, .. } => Some(*to_ty),
            Instruction::Select { ty, .. } => Some(*ty),
            Instruction::Alloca { .. } => Some(IrType::Pointer),
            Instruction::Load { ty, .. } => Some(*ty),
            Instruction::Store { .. } => None,
            Instruction::Call { return_ty, .. } => {
                if return_ty.is_void() {
                    None
                } else {
                    Some(*return_ty)
                }
            },
            Instruction::Phi { ty, .. } => Some(*ty),
            Instruction::Gep { result_ty, .. } => Some(*result_ty),
        }
    }
}

/// How a block ends.
#[derive(Debug, Clone)]
pub enum Terminator {
    Branch { target: String },
    CondBranch { condition: ValueId, true_target: String, false_target: String },
    Return { value: Option<ValueId> },
    /// Control must never reach here. A block ending in `Unreachable` may be
    /// a predecessor in the CFG but never produces a runtime edge.
    Unreachable,
}

/// The labels a terminator may pass control to, in order.
pub open spec fn terminator_targets(t: Terminator) -> Seq<Seq<char>> {
    match t {
        Terminator::Branch { target } => seq![target@],
        Terminator::CondBranch { true_target, false_target, .. } => seq![true_target@, false_target@],
        Terminator::Return { .. } | Terminator::Unreachable => seq![],
    }
}

impl Terminator {
    /// Blocks this terminator may pass control to.
    pub fn referenced_labels(&self) -> (r: Vec<String>)
        ensures
            r@.map_values(|s: String| s@) == terminator_targets(*self),
    {
        match self {
            Terminator::Branch { target } => {
                let v = vec![target.clone()];
                assert(v@.map_values(|s: String| s@) =~= terminator_targets(*self));
                v
            },
            Terminator::CondBranch { true_target, false_target, .. } => {
                let v = vec![true_target.clone(), false_target.clone()];
                assert(v@.map_values(|s: String| s@) =~= terminator_targets(*self));
                v
            },
            Terminator::Return { .. } | Terminator::Unreachable => {
                let v = Vec::new();
                assert(v@.map_values(|s: String| s@) =~= terminator_targets(*self));
                v
            },
        }
    }
}

} // verus!
