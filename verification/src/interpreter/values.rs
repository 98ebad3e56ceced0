//! Runtime values and the pure operations the interpreter applies to them.
//!
//! Integers travel in carriers: `i1` as `I1`, a sub-64-bit arithmetic result
//! as an `I32` whose low bits hold the value, a 64-bit one as `I64`. Reading
//! a value at a type masks it to that type's width. An `f64` is held as its
//! IEEE-754 bit pattern.

use vstd::prelude::*;
use vstd::arithmetic::div_mod::{lemma_div_is_ordered_by_denominator, lemma_mod_bound, lemma_mod_mod, lemma_small_mod};

use crate::ir::instruction::{cast_op_text, CastOp};
use crate::ir::types::{int_width, type_size, type_text, IrType};
use crate::runtime::{IntrinsicResult, Value};
use crate::strings::{owned, push_str};

verus! {

/// A value held in an interpreter frame.
#[derive(Debug, Clone, Copy, PartialEq, Eq, Structural)]
pub enum RuntimeValue {
    I1(bool),
    I8(u8),
    I16(u16),
    I32(u32),
    I64(u64),
    /// The IEEE-754 binary64 bit pattern of the value.
    F64(u64),
    Pointer(u32),
}

/// Why execution stopped.
#[derive(Debug, Clone, PartialEq)]
pub enum InterpError {
    UndefinedValue(usize),
    TypeMismatch(String),
    DivisionByZero,
    MemoryOutOfBounds(u32),
    NullPointer,
    StackOverflow,
    UndefinedFunction(String),
    UndefinedBlock(String),
    CallStackEmpty,
    CallStackOverflow,
    InvalidGepIndex(String),
    UnsupportedInstruction(String),
    /// Control reached an `unreachable` terminator.
    Trap,
    /// The static data segment does not fit below the stack floor.
    StaticDataTooLarge { base: u32, size: usize, stack_limit: u32 },
    Runtime(crate::runtime::RuntimeError),
    /// A run took `u64::MAX` steps without finishing.
    StepLimit,
}

/// An [`InterpError`] with its texts taken as character sequences.
pub enum Fault {
    UndefinedValue(usize),
    TypeMismatch(Seq<char>),
    DivisionByZero,
    MemoryOutOfBounds(u32),
    NullPointer,
    StackOverflow,
    UndefinedFunction(Seq<char>),
    UndefinedBlock(Seq<char>),
    CallStackEmpty,
    CallStackOverflow,
    InvalidGepIndex(Seq<char>),
    UnsupportedInstruction(Seq<char>),
    Trap,
    StaticDataTooLarge { base: u32, size: usize, stack_limit: u32 },
    Runtime(crate::runtime::RuntimeError),
    StepLimit,
}

impl View for InterpError {
    type V = Fault;

    open spec fn view(&self) -> Fault {
        match *self {
            InterpError::UndefinedValue(id) => Fault::UndefinedValue(id),
            InterpError::TypeMismatch(s) => Fault::TypeMismatch(s@),
            InterpError::DivisionByZero => Fault::DivisionByZero,
            InterpError::MemoryOutOfBounds(a) => Fault::MemoryOutOfBounds(a),
            InterpError::NullPointer => Fault::NullPointer,
            InterpError::StackOverflow => Fault::StackOverflow,
            InterpError::UndefinedFunction(s) => Fault::UndefinedFunction(s@),
            InterpError::UndefinedBlock(s) => Fault::UndefinedBlock(s@),
            InterpError::CallStackEmpty => Fault::CallStackEmpty,
            InterpError::CallStackOverflow => Fault::CallStackOverflow,
            InterpError::InvalidGepIndex(s) => Fault::InvalidGepIndex(s@),
            InterpError::UnsupportedInstruction(s) => Fault::UnsupportedInstruction(s@),
            InterpError::Trap => Fault::Trap,
            InterpError::StaticDataTooLarge { base, size, stack_limit } => Fault::StaticDataTooLarge {
                base,
                size,
                stack_limit,
            },
            InterpError::Runtime(e) => Fault::Runtime(e),
            InterpError::StepLimit => Fault::StepLimit,
        }
    }
}

/// A result with its error viewed as a [`Fault`].
pub open spec fn lift<T>(r: Result<T, InterpError>) -> Result<T, Fault> {
    match r {
        Ok(v) => Ok(v),
        Err(e) => Err(e@),
    }
}

/// A type-mismatch fault reading `msg`.
pub open spec fn type_fault<T>(msg: Seq<char>) -> Result<T, Fault> {
    Err(Fault::TypeMismatch(msg))
}

/// `r` failed with a type mismatch reading `msg`.
pub open spec fn mismatch<T>(r: Result<T, InterpError>, msg: Seq<char>) -> bool {
    lift(r) == type_fault::<T>(msg)
}

/// A type-mismatch error reading `msg`.
pub fn mismatch_error<T>(msg: &str) -> (r: Result<T, InterpError>)
    ensures
        mismatch(r, msg@),
{
    Err(InterpError::TypeMismatch(owned(msg)))
}

/// `bits` reduced to the width of `ty` (integers narrower than 64 bits;
/// every other type keeps all bits).
pub open spec fn mask_bits(bits: u64, ty: IrType) -> u64 {
    match ty {
        IrType::I1 => bits % 2,
        IrType::I8 => bits % 0x100,
        IrType::I16 => bits % 0x1_0000,
        IrType::I32 => bits % 0x1_0000_0000,
        _ => bits,
    }
}

proof fn lemma_masks(bits: u64)
    by (bit_vector)
    ensures
        bits & 1 == bits % 2,
        bits & 0xff == bits % 0x100,
        bits & 0xffff == bits % 0x1_0000,
        bits & 0xffff_ffff == bits % 0x1_0000_0000,
{
}

/// Mask `bits` to the width of `ty`.
pub fn mask_to_width(bits: u64, ty: IrType) -> (r: u64)
    ensures
        r == mask_bits(bits, ty),
{
    proof {
        lemma_masks(bits);
    }
    match ty {
        IrType::I1 => bits & 1,
        IrType::I8 => bits & 0xff,
        IrType::I16 => bits & 0xffff,
        IrType::I32 => bits & 0xffff_ffff,
        _ => bits,
    }
}

/// The unsigned bits an integer carrier holds; zero for `f64` and
/// pointers.
pub open spec fn raw_bits(v: RuntimeValue) -> u64 {
    match v {
        RuntimeValue::I1(b) => if b {
            1
        } else {
            0
        },
        RuntimeValue::I8(x) => x as u64,
        RuntimeValue::I16(x) => x as u64,
        RuntimeValue::I32(x) => x as u64,
        RuntimeValue::I64(x) => x,
        _ => 0,
    }
}

/// A value read as an unsigned integer of type `ty`.
pub open spec fn int_bits_of(v: RuntimeValue, ty: IrType) -> u64 {
    mask_bits(raw_bits(v), ty)
}

/// Read `val` as an unsigned `ty`-bit integer.
pub fn int_bits(val: &RuntimeValue, ty: IrType) -> (r: u64)
    ensures
        r == int_bits_of(*val, ty),
{
    let raw: u64 = match val {
        RuntimeValue::I1(b) => if *b {
            1
        } else {
            0
        },
        RuntimeValue::I8(x) => *x as u64,
        RuntimeValue::I16(x) => *x as u64,
        RuntimeValue::I32(x) => *x as u64,
        RuntimeValue::I64(x) => *x,
        _ => 0,
    };
    mask_to_width(raw, ty)
}

/// The bits an integer or pointer carrier holds.
pub open spec fn carried_bits(v: RuntimeValue) -> u64 {
    match v {
        RuntimeValue::Pointer(x) => x as u64,
        _ => raw_bits(v),
    }
}

/// What [`value_bits`] gives for `v`.
pub open spec fn value_bits_spec(v: RuntimeValue) -> Result<u64, Fault> {
    if v is F64 {
        type_fault("integer intrinsic argument cannot be f64"@)
    } else {
        Ok(carried_bits(v))
    }
}

/// The raw bits of an integer or pointer value; an `f64` is refused.
pub fn value_bits(val: &RuntimeValue) -> (r: Result<u64, InterpError>)
    ensures
        lift(r) == value_bits_spec(*val),
{
    match val {
        RuntimeValue::I1(b) => Ok(
            if *b {
                1
            } else {
                0
            },
        ),
        RuntimeValue::I8(x) => Ok(*x as u64),
        RuntimeValue::I16(x) => Ok(*x as u64),
        RuntimeValue::I32(x) => Ok(*x as u64),
        RuntimeValue::Pointer(x) => Ok(*x as u64),
        RuntimeValue::I64(x) => Ok(*x),
        RuntimeValue::F64(_) => mismatch_error("integer intrinsic argument cannot be f64"),
    }
}

/// The address a pointer or `i32` value holds.
pub open spec fn address_of(v: RuntimeValue) -> Option<u32> {
    match v {
        RuntimeValue::Pointer(a) => Some(a),
        RuntimeValue::I32(a) => Some(a),
        _ => None,
    }
}

/// What [`as_mem_addr`] gives for `v`.
pub open spec fn mem_addr_spec(v: RuntimeValue) -> Result<u32, Fault> {
    match address_of(v) {
        Some(a) => Ok(a),
        None => type_fault("memory intrinsic address must be a pointer or address integer"@),
    }
}

/// A value used as a byte address by a memory intrinsic.
pub fn as_mem_addr(val: &RuntimeValue) -> (r: Result<u32, InterpError>)
    ensures
        lift(r) == mem_addr_spec(*val),
{
    match val {
        RuntimeValue::Pointer(a) => Ok(*a),
        RuntimeValue::I32(a) => Ok(*a),
        _ => mismatch_error("memory intrinsic address must be a pointer or address integer"),
    }
}

/// What [`as_mem_len`] gives for `v`.
pub open spec fn mem_len_spec(v: RuntimeValue) -> Result<u64, Fault> {
    if v is F64 {
        type_fault("memory intrinsic length cannot be f64"@)
    } else {
        Ok(carried_bits(v))
    }
}

/// A value used as a byte count by a memory intrinsic.
pub fn as_mem_len(val: &RuntimeValue) -> (r: Result<u64, InterpError>)
    ensures
        lift(r) == mem_len_spec(*val),
{
    match val {
        RuntimeValue::I1(b) => Ok(
            if *b {
                1
            } else {
                0
            },
        ),
        RuntimeValue::I8(x) => Ok(*x as u64),
        RuntimeValue::I16(x) => Ok(*x as u64),
        RuntimeValue::I32(x) => Ok(*x as u64),
        RuntimeValue::Pointer(x) => Ok(*x as u64),
        RuntimeValue::I64(x) => Ok(*x),
        RuntimeValue::F64(_) => mismatch_error("memory intrinsic length cannot be f64"),
    }
}

/// What [`as_mem_byte`] gives for `v`.
pub open spec fn mem_byte_spec(v: RuntimeValue) -> Result<u8, Fault> {
    if v is F64 {
        type_fault("memory intrinsic value cannot be f64"@)
    } else {
        Ok((carried_bits(v) % 0x100) as u8)
    }
}

/// A value used as the fill byte of a memory intrinsic: its low eight
/// bits.
pub fn as_mem_byte(val: &RuntimeValue) -> (r: Result<u8, InterpError>)
    ensures
        lift(r) == mem_byte_spec(*val),
{
    match val {
        RuntimeValue::F64(_) => mismatch_error("memory intrinsic value cannot be f64"),
        _ => {
            let bits = match val {
                RuntimeValue::I1(b) => if *b {
                    1u64
                } else {
                    0u64
                },
                RuntimeValue::I8(x) => *x as u64,
                RuntimeValue::I16(x) => *x as u64,
                RuntimeValue::I32(x) => *x as u64,
                RuntimeValue::Pointer(x) => *x as u64,
                RuntimeValue::I64(x) => *x,
                RuntimeValue::F64(_) => 0u64,
            };
            Ok((bits % 0x100) as u8)
        },
    }
}

/// What [`runtime_value_to_u32`] gives for `v`.
pub open spec fn word_spec(v: RuntimeValue) -> Result<u32, Fault> {
    if v is F64 {
        type_fault("runtime intrinsic argument cannot be f64"@)
    } else {
        Ok((carried_bits(v) % 0x1_0000_0000) as u32)
    }
}

/// A value passed as a word to a runtime intrinsic: its low 32 bits.
pub fn runtime_value_to_u32(val: &RuntimeValue) -> (r: Result<u32, InterpError>)
    ensures
        lift(r) == word_spec(*val),
{
    match val {
        RuntimeValue::F64(_) => mismatch_error("runtime intrinsic argument cannot be f64"),
        RuntimeValue::I1(b) => Ok(
            if *b {
                1
            } else {
                0
            },
        ),
        RuntimeValue::I8(x) => Ok(*x as u32),
        RuntimeValue::I16(x) => Ok(*x as u32),
        RuntimeValue::I32(x) => Ok(*x),
        RuntimeValue::Pointer(x) => Ok(*x),
        RuntimeValue::I64(x) => Ok((*x % 0x1_0000_0000) as u32),
    }
}

/// The value a runtime intrinsic call yields at `return_ty`, when the
/// intrinsic's result fits it.
pub open spec fn intrinsic_value(res: IntrinsicResult, return_ty: IrType) -> Option<RuntimeValue> {
    match res {
        IntrinsicResult::Void => if return_ty == IrType::Void {
            Some(RuntimeValue::I32(0))
        } else {
            None
        },
        IntrinsicResult::Value(v) => match (v, return_ty) {
            (Value::Pointer(p), _) => Some(RuntimeValue::Pointer(p)),
            (Value::U32(u), IrType::I32) => Some(RuntimeValue::I32(u)),
            (Value::U32(u), IrType::Pointer) => Some(RuntimeValue::I32(u)),
            (Value::I32(i), IrType::I32) => Some(RuntimeValue::I32(i as u32)),
            (Value::I32(i), IrType::I1) => Some(RuntimeValue::I1(i != 0)),
            (Value::U32(u), IrType::I1) => Some(RuntimeValue::I1(u != 0)),
            _ => None,
        },
    }
}

/// A runtime intrinsic's result at the call's return type.
pub open spec fn intrinsic_value_spec(res: IntrinsicResult, return_ty: IrType) -> Result<RuntimeValue, Fault> {
    match intrinsic_value(res, return_ty) {
        Some(v) => Ok(v),
        None => if res is Void {
            type_fault("runtime intrinsic returned void for non-void call"@)
        } else {
            type_fault("runtime intrinsic return type mismatch"@)
        },
    }
}

/// Convert a runtime intrinsic's result to the call's return type.
pub fn intrinsic_result_to_runtime_value(res: IntrinsicResult, return_ty: IrType) -> (r: Result<
    RuntimeValue,
    InterpError,
>)
    ensures
        lift(r) == intrinsic_value_spec(res, return_ty),
{
    match res {
        IntrinsicResult::Void => match return_ty {
            IrType::Void => Ok(RuntimeValue::I32(0)),
            _ => mismatch_error("runtime intrinsic returned void for non-void call"),
        },
        IntrinsicResult::Value(v) => match (v, return_ty) {
            (Value::Pointer(p), _) => Ok(RuntimeValue::Pointer(p)),
            (Value::U32(u), IrType::I32) => Ok(RuntimeValue::I32(u)),
            (Value::U32(u), IrType::Pointer) => Ok(RuntimeValue::I32(u)),
            (Value::I32(i), IrType::I32) => Ok(RuntimeValue::I32(i as u32)),
            (Value::I32(i), IrType::I1) => Ok(RuntimeValue::I1(i != 0)),
            (Value::U32(u), IrType::I1) => Ok(RuntimeValue::I1(u != 0)),
            _ => mismatch_error("runtime intrinsic return type mismatch"),
        },
    }
}

/// The carrier of `bits` at type `ty`.
pub open spec fn width_value(ty: IrType, bits: u64) -> RuntimeValue {
    match ty {
        IrType::I1 => RuntimeValue::I1(bits % 2 != 0),
        IrType::I64 => RuntimeValue::I64(bits),
        IrType::Pointer => RuntimeValue::Pointer((bits % 0x1_0000_0000) as u32),
        _ => RuntimeValue::I32((bits % 0x1_0000_0000) as u32),
    }
}

/// Represent `bits` in the carrier of `ty`.
pub fn to_width_value(ty: IrType, bits: u64) -> (r: RuntimeValue)
    ensures
        r == width_value(ty, bits),
{
    proof {
        lemma_masks(bits);
    }
    match ty {
        IrType::I1 => RuntimeValue::I1(bits & 1 != 0),
        IrType::I64 => RuntimeValue::I64(bits),
        IrType::Pointer => RuntimeValue::Pointer((bits % 0x1_0000_0000) as u32),
        _ => RuntimeValue::I32((bits % 0x1_0000_0000) as u32),
    }
}

/// Wrapping arithmetic operators.
#[derive(Debug, Clone, Copy, PartialEq, Eq, Structural)]
pub enum BinOp {
    Add,
    Sub,
    Mul,
    Div,
    Rem,
}

/// Bitwise and shift operators.
#[derive(Debug, Clone, Copy, PartialEq, Eq, Structural)]
pub enum BitOp {
    And,
    Or,
    Xor,
    Shl,
    Lshr,
    Ashr,
}

/// The name of an arithmetic operator.
pub open spec fn bin_op_text(op: BinOp) -> Seq<char> {
    match op {
        BinOp::Add => "Add"@,
        BinOp::Sub => "Sub"@,
        BinOp::Mul => "Mul"@,
        BinOp::Div => "Div"@,
        BinOp::Rem => "Rem"@,
    }
}

/// The name of a bitwise operator.
pub open spec fn bit_op_text(op: BitOp) -> Seq<char> {
    match op {
        BitOp::And => "And"@,
        BitOp::Or => "Or"@,
        BitOp::Xor => "Xor"@,
        BitOp::Shl => "Shl"@,
        BitOp::Lshr => "Lshr"@,
        BitOp::Ashr => "Ashr"@,
    }
}

/// `v` reduced modulo 2^64.
pub open spec fn wrap64(v: int) -> u64 {
    (v % 0x1_0000_0000_0000_0000) as u64
}

/// The unsigned result of `x op y` on 64-bit patterns; division and
/// remainder need `y != 0`.
pub open spec fn bin_value(op: BinOp, x: u64, y: u64) -> u64 {
    match op {
        BinOp::Add => wrap64(x + y),
        BinOp::Sub => wrap64(x - y),
        BinOp::Mul => wrap64(x * y),
        BinOp::Div => x / y,
        BinOp::Rem => x % y,
    }
}

/// The carrier of a `w`-bit result: `I64` for 64 bits, else an `I32`
/// holding the low 32 bits.
pub open spec fn carrier(w: u32, res: u64) -> RuntimeValue {
    if w >= 64 {
        RuntimeValue::I64(res)
    } else {
        RuntimeValue::I32((res % 0x1_0000_0000) as u32)
    }
}

/// The message for an operator applied at a non-integer type.
pub open spec fn non_integer_text(name: Seq<char>, ty: IrType) -> Seq<char> {
    name + " requires integer type, got "@ + type_text(ty)
}

fn bin_op_name(op: BinOp) -> (r: &'static str)
    ensures
        r@ == bin_op_text(op),
{
    match op {
        BinOp::Add => "Add",
        BinOp::Sub => "Sub",
        BinOp::Mul => "Mul",
        BinOp::Div => "Div",
        BinOp::Rem => "Rem",
    }
}

fn bit_op_name(op: BitOp) -> (r: &'static str)
    ensures
        r@ == bit_op_text(op),
{
    match op {
        BitOp::And => "And",
        BitOp::Or => "Or",
        BitOp::Xor => "Xor",
        BitOp::Shl => "Shl",
        BitOp::Lshr => "Lshr",
        BitOp::Ashr => "Ashr",
    }
}

fn non_integer_error<T>(name: &str, ty: IrType) -> (r: Result<T, InterpError>)
    ensures
        mismatch(r, non_integer_text(name@, ty)),
{
    let mut s = owned(name);
    push_str(&mut s, " requires integer type, got ");
    push_str(&mut s, ty.as_str());
    Err(InterpError::TypeMismatch(s))
}

/// Arithmetic `op` at type `ty` on `a` and `b`.
pub open spec fn binop_spec(op: BinOp, ty: IrType, a: RuntimeValue, b: RuntimeValue) -> Result<RuntimeValue, Fault> {
    match int_width(ty) {
        None => type_fault(non_integer_text(bin_op_text(op), ty)),
        Some(w) => {
            let x = int_bits_of(a, ty);
            let y = int_bits_of(b, ty);
            if (op == BinOp::Div || op == BinOp::Rem) && y == 0 {
                Err(Fault::DivisionByZero)
            } else {
                Ok(carrier(w, bin_value(op, x, y)))
            }
        },
    }
}

/// `r` is the outcome of arithmetic `op` at `ty` on `a` and `b`.
pub open spec fn binop_outcome(op: BinOp, ty: IrType, a: RuntimeValue, b: RuntimeValue, r: Result<RuntimeValue, InterpError>) -> bool {
    lift(r) == binop_spec(op, ty, a, b)
}

/// Wrapping two's-complement arithmetic at an integer type; division and
/// remainder are unsigned and refuse a zero divisor.
pub fn int_binop(op: BinOp, ty: IrType, a: &RuntimeValue, b: &RuntimeValue) -> (r: Result<RuntimeValue, InterpError>)
    ensures
        binop_outcome(op, ty, *a, *b, r),
{
    let w = match ty.integer_width() {
        Some(w) => w,
        None => return non_integer_error(bin_op_name(op), ty),
    };
    let x = int_bits(a, ty);
    let y = int_bits(b, ty);
    let res: u64 = match op {
        BinOp::Add => x.wrapping_add(y),
        BinOp::Sub => x.wrapping_sub(y),
        BinOp::Mul => x.wrapping_mul(y),
        BinOp::Div => {
            if y == 0 {
                return Err(InterpError::DivisionByZero);
            }
            x / y
        },
        BinOp::Rem => {
            if y == 0 {
                return Err(InterpError::DivisionByZero);
            }
            x % y
        },
    };
    if w >= 64 {
        Ok(RuntimeValue::I64(res))
    } else {
        Ok(RuntimeValue::I32((res % 0x1_0000_0000) as u32))
    }
}

/// All ones in the low `w` bits, for the integer widths 1, 8, 16, 32
/// and 64.
pub open spec fn low_mask(w: u64) -> u64 {
    if w == 1 {
        1
    } else if w == 8 {
        0xff
    } else if w == 16 {
        0xffff
    } else if w == 32 {
        0xffff_ffff
    } else {
        0xffff_ffff_ffff_ffff
    }
}

proof fn lemma_shift_bounds(y: u64, k: u64)
    by (bit_vector)
    ensures
        y & 63 < 64,
        y & 31 < 32,
        y & 15 < 16,
        y & 7 < 8,
        y & 0 == 0,
        k < 64 ==> (1u64 << k) >= 1,
        (1u64 << 1u64) - 1 == 1,
        (1u64 << 8u64) - 1 == 0xff,
        (1u64 << 16u64) - 1 == 0xffff,
        (1u64 << 32u64) - 1 == 0xffff_ffff,
{
}

/// The effective shift amount: `y` modulo the width.
pub open spec fn shift_amount(w: u64, y: u64) -> u64 {
    if w >= 64 {
        y & 63
    } else {
        y & ((w - 1) as u64)
    }
}

/// The result of a bitwise op on `w`-bit patterns `x` and `y`: shifts move
/// by `y` modulo `w`, and an arithmetic right shift fills with the sign bit
/// of the `w`-bit pattern.
pub open spec fn bit_value_of(op: BitOp, w: u64, x: u64, y: u64) -> u64 {
    let mask = low_mask(w);
    let eff = shift_amount(w, y);
    match op {
        BitOp::And => x & y,
        BitOp::Or => x | y,
        BitOp::Xor => x ^ y,
        _ => if eff == 0 {
            x & mask
        } else {
            let shifted = match op {
                BitOp::Shl => x << eff,
                BitOp::Lshr => x >> eff,
                _ => if (x & (1u64 << ((w - 1) as u64))) != 0 {
                    (x >> eff) | (mask ^ (((1u64 << ((w - eff) as u64)) - 1) as u64))
                } else {
                    x >> eff
                },
            };
            shifted & mask
        },
    }
}

/// Bitwise `op` at type `ty` on `a` and `b`.
pub open spec fn bitop_spec(op: BitOp, ty: IrType, a: RuntimeValue, b: RuntimeValue) -> Result<RuntimeValue, Fault> {
    match int_width(ty) {
        None => type_fault(non_integer_text(bit_op_text(op), ty)),
        Some(w) => Ok(carrier(w, bit_value_of(op, w as u64, int_bits_of(a, ty), int_bits_of(b, ty)))),
    }
}

/// `r` is the outcome of bitwise `op` at `ty` on `a` and `b`.
pub open spec fn bitop_outcome(op: BitOp, ty: IrType, a: RuntimeValue, b: RuntimeValue, r: Result<RuntimeValue, InterpError>) -> bool {
    lift(r) == bitop_spec(op, ty, a, b)
}

/// Bitwise `xor`, `and` and `or` at `i32` act bit by bit on the operands:
/// the result is the machine exclusive-or, and, or of the two words. In
/// particular a word `xor` itself is zero, and `xor` and `or` differ exactly
/// where both operands have a bit set.
pub proof fn lemma_bitwise_logic_i32(a: u32, b: u32)
    ensures
        bitop_spec(BitOp::Xor, IrType::I32, RuntimeValue::I32(a), RuntimeValue::I32(b)) == Ok::<RuntimeValue, Fault>(
            RuntimeValue::I32(a ^ b),
        ),
        bitop_spec(BitOp::And, IrType::I32, RuntimeValue::I32(a), RuntimeValue::I32(b)) == Ok::<RuntimeValue, Fault>(
            RuntimeValue::I32(a & b),
        ),
        bitop_spec(BitOp::Or, IrType::I32, RuntimeValue::I32(a), RuntimeValue::I32(b)) == Ok::<RuntimeValue, Fault>(
            RuntimeValue::I32(a | b),
        ),
        bitop_spec(BitOp::Xor, IrType::I32, RuntimeValue::I32(a), RuntimeValue::I32(a)) == Ok::<RuntimeValue, Fault>(
            RuntimeValue::I32(0),
        ),
        (a & b) != 0 ==> bitop_spec(BitOp::Xor, IrType::I32, RuntimeValue::I32(a), RuntimeValue::I32(b))
            != bitop_spec(BitOp::Or, IrType::I32, RuntimeValue::I32(a), RuntimeValue::I32(b)),
{
    let x = a as u64;
    let y = b as u64;
    assert(x % 0x1_0000_0000 == x && y % 0x1_0000_0000 == y) by (bit_vector)
        requires
            x == a as u64,
            y == b as u64,
    ;
    assert((((x ^ y) % 0x1_0000_0000) as u32) == a ^ b && (((x & y) % 0x1_0000_0000) as u32) == a & b && (((x
        | y) % 0x1_0000_0000) as u32) == a | b && x ^ x == 0 && a ^ a == 0) by (bit_vector)
        requires
            x == a as u64,
            y == b as u64,
    ;
    assert((a & b) != 0 ==> a ^ b != a | b) by (bit_vector);
}

/// Bitwise `xor`, `and` and `or` at `i64` act bit by bit on the operands:
/// the result is the machine exclusive-or, and, or of the two words, and a
/// word `xor` itself is zero.
pub proof fn lemma_bitwise_logic_i64(a: u64, b: u64)
    ensures
        bitop_spec(BitOp::Xor, IrType::I64, RuntimeValue::I64(a), RuntimeValue::I64(b)) == Ok::<RuntimeValue, Fault>(
            RuntimeValue::I64(a ^ b),
        ),
        bitop_spec(BitOp::And, IrType::I64, RuntimeValue::I64(a), RuntimeValue::I64(b)) == Ok::<RuntimeValue, Fault>(
            RuntimeValue::I64(a & b),
        ),
        bitop_spec(BitOp::Or, IrType::I64, RuntimeValue::I64(a), RuntimeValue::I64(b)) == Ok::<RuntimeValue, Fault>(
            RuntimeValue::I64(a | b),
        ),
        bitop_spec(BitOp::Xor, IrType::I64, RuntimeValue::I64(a), RuntimeValue::I64(a)) == Ok::<RuntimeValue, Fault>(
            RuntimeValue::I64(0),
        ),
{
    assert(a ^ a == 0) by (bit_vector);
}

/// Bitwise `xor`, `and` and `or` at `i8` and `i16` act bit by bit on the
/// operands; the result is carried zero-extended in an `i32`.
pub proof fn lemma_bitwise_logic_narrow(a: u8, b: u8, c: u16, d: u16)
    ensures
        bitop_spec(BitOp::Xor, IrType::I8, RuntimeValue::I8(a), RuntimeValue::I8(b)) == Ok::<RuntimeValue, Fault>(
            RuntimeValue::I32((a ^ b) as u32),
        ),
        bitop_spec(BitOp::And, IrType::I8, RuntimeValue::I8(a), RuntimeValue::I8(b)) == Ok::<RuntimeValue, Fault>(
            RuntimeValue::I32((a & b) as u32),
        ),
        bitop_spec(BitOp::Or, IrType::I8, RuntimeValue::I8(a), RuntimeValue::I8(b)) == Ok::<RuntimeValue, Fault>(
            RuntimeValue::I32((a | b) as u32),
        ),
        bitop_spec(BitOp::Xor, IrType::I16, RuntimeValue::I16(c), RuntimeValue::I16(d)) == Ok::<RuntimeValue, Fault>(
            RuntimeValue::I32((c ^ d) as u32),
        ),
        bitop_spec(BitOp::And, IrType::I16, RuntimeValue::I16(c), RuntimeValue::I16(d)) == Ok::<RuntimeValue, Fault>(
            RuntimeValue::I32((c & d) as u32),
        ),
        bitop_spec(BitOp::Or, IrType::I16, RuntimeValue::I16(c), RuntimeValue::I16(d)) == Ok::<RuntimeValue, Fault>(
            RuntimeValue::I32((c | d) as u32),
        ),
{
    let x = a as u64;
    let y = b as u64;
    assert(x % 0x100 == x && y % 0x100 == y && (((x ^ y) % 0x1_0000_0000) as u32) == (a ^ b) as u32 && (((x & y)
        % 0x1_0000_0000) as u32) == (a & b) as u32 && (((x | y) % 0x1_0000_0000) as u32) == (a | b) as u32)
        by (bit_vector)
        requires
            x == a as u64,
            y == b as u64,
    ;
    let u = c as u64;
    let v = d as u64;
    assert(u % 0x1_0000 == u && v % 0x1_0000 == v && (((u ^ v) % 0x1_0000_0000) as u32) == (c ^ d) as u32 && (((u
        & v) % 0x1_0000_0000) as u32) == (c & d) as u32 && (((u | v) % 0x1_0000_0000) as u32) == (c | d) as u32)
        by (bit_vector)
        requires
            u == c as u64,
            v == d as u64,
    ;
}

/// Bitwise `xor`, `and` and `or` at `i1` are the boolean operations:
/// exclusive-or is "differ", and is "both", or is "either", carried as
/// `0` or `1` in an `i32`.
pub proof fn lemma_bitwise_logic_i1(p: bool, q: bool)
    ensures
        bitop_spec(BitOp::Xor, IrType::I1, RuntimeValue::I1(p), RuntimeValue::I1(q)) == Ok::<RuntimeValue, Fault>(
            RuntimeValue::I32(if p != q { 1 } else { 0 }),
        ),
        bitop_spec(BitOp::And, IrType::I1, RuntimeValue::I1(p), RuntimeValue::I1(q)) == Ok::<RuntimeValue, Fault>(
            RuntimeValue::I32(if p && q { 1 } else { 0 }),
        ),
        bitop_spec(BitOp::Or, IrType::I1, RuntimeValue::I1(p), RuntimeValue::I1(q)) == Ok::<RuntimeValue, Fault>(
            RuntimeValue::I32(if p || q { 1 } else { 0 }),
        ),
{
    assert(0u64 ^ 0u64 == 0 && 0u64 ^ 1u64 == 1 && 1u64 ^ 0u64 == 1 && 1u64 ^ 1u64 == 0) by (bit_vector);
    assert(0u64 & 0u64 == 0 && 0u64 & 1u64 == 0 && 1u64 & 0u64 == 0 && 1u64 & 1u64 == 1) by (bit_vector);
    assert(0u64 | 0u64 == 0 && 0u64 | 1u64 == 1 && 1u64 | 0u64 == 1 && 1u64 | 1u64 == 1) by (bit_vector);
}

/// Shifts at `i32` move the word by the amount modulo 32: `shl` and `lshr`
/// are the machine shifts, `ashr` shifts the word read as signed, filling
/// with its sign bit.
pub proof fn lemma_shifts_i32(a: u32, b: u32)
    ensures
        bitop_spec(BitOp::Shl, IrType::I32, RuntimeValue::I32(a), RuntimeValue::I32(b)) == Ok::<RuntimeValue, Fault>(
            RuntimeValue::I32(a << (b & 31)),
        ),
        bitop_spec(BitOp::Lshr, IrType::I32, RuntimeValue::I32(a), RuntimeValue::I32(b)) == Ok::<RuntimeValue, Fault>(
            RuntimeValue::I32(a >> (b & 31)),
        ),
        bitop_spec(BitOp::Ashr, IrType::I32, RuntimeValue::I32(a), RuntimeValue::I32(b)) == Ok::<RuntimeValue, Fault>(
            RuntimeValue::I32(((a as i32) >> (b & 31)) as u32),
        ),
{
    let x = a as u64;
    let y = b as u64;
    assert(x % 0x1_0000_0000 == x && y % 0x1_0000_0000 == y) by (bit_vector)
        requires
            x == a as u64,
            y == b as u64,
    ;
    let eff = y & 31;
    assert(eff == (b & 31) as u64 && eff < 32) by (bit_vector)
        requires
            y == b as u64,
            eff == y & 31,
    ;
    assert(((if eff == 0 { x & 0xffff_ffff } else { (x << eff) & 0xffff_ffff }) % 0x1_0000_0000) as u32 == a << (b
        & 31)) by (bit_vector)
        requires
            x == a as u64,
            eff == (b & 31) as u64,
    ;
    assert(((if eff == 0 { x & 0xffff_ffff } else { (x >> eff) & 0xffff_ffff }) % 0x1_0000_0000) as u32 == a >> (b
        & 31)) by (bit_vector)
        requires
            x == a as u64,
            eff == (b & 31) as u64,
    ;
    assert(((if eff == 0 { x & 0xffff_ffff } else {
        (if (x & (1u64 << 31u64)) != 0 {
            (x >> eff) | (0xffff_ffffu64 ^ (((1u64 << ((32 - eff) as u64)) - 1) as u64))
        } else {
            x >> eff
        }) & 0xffff_ffff
    }) % 0x1_0000_0000) as u32 == ((a as i32) >> (b & 31)) as u32) by (bit_vector)
        requires
            x == a as u64,
            eff == (b & 31) as u64,
    ;
}

/// Shifts at `i64` move the word by the amount modulo 64: `shl` and `lshr`
/// are the machine shifts, `ashr` shifts the word read as signed, filling
/// with its sign bit.
pub proof fn lemma_shifts_i64(a: u64, b: u64)
    ensures
        bitop_spec(BitOp::Shl, IrType::I64, RuntimeValue::I64(a), RuntimeValue::I64(b)) == Ok::<RuntimeValue, Fault>(
            RuntimeValue::I64(a << (b & 63)),
        ),
        bitop_spec(BitOp::Lshr, IrType::I64, RuntimeValue::I64(a), RuntimeValue::I64(b)) == Ok::<RuntimeValue, Fault>(
            RuntimeValue::I64(a >> (b & 63)),
        ),
        bitop_spec(BitOp::Ashr, IrType::I64, RuntimeValue::I64(a), RuntimeValue::I64(b)) == Ok::<RuntimeValue, Fault>(
            RuntimeValue::I64(((a as i64) >> (b & 63)) as u64),
        ),
{
    let eff = b & 63;
    assert(eff < 64) by (bit_vector)
        requires
            eff == b & 63,
    ;
    assert((if eff == 0 { a & 0xffff_ffff_ffff_ffff } else { (a << eff) & 0xffff_ffff_ffff_ffff }) == a << (b & 63))
        by (bit_vector)
        requires
            eff == b & 63,
    ;
    assert((if eff == 0 { a & 0xffff_ffff_ffff_ffff } else { (a >> eff) & 0xffff_ffff_ffff_ffff }) == a >> (b & 63))
        by (bit_vector)
        requires
            eff == b & 63,
    ;
    assert((if eff == 0 { a & 0xffff_ffff_ffff_ffff } else {
        (if (a & (1u64 << 63u64)) != 0 {
            (a >> eff) | (0xffff_ffff_ffff_ffffu64 ^ (((1u64 << ((64 - eff) as u64)) - 1) as u64))
        } else {
            a >> eff
        }) & 0xffff_ffff_ffff_ffff
    }) == ((a as i64) >> (b & 63)) as u64) by (bit_vector)
        requires
            eff == b & 63,
    ;
}

/// Arithmetic at `i32` wraps modulo 2^32; division and remainder are
/// unsigned, and a zero divisor faults.
pub proof fn lemma_arithmetic_i32(a: u32, b: u32)
    ensures
        binop_spec(BinOp::Add, IrType::I32, RuntimeValue::I32(a), RuntimeValue::I32(b)) == Ok::<RuntimeValue, Fault>(
            RuntimeValue::I32(((a + b) % 0x1_0000_0000) as u32),
        ),
        binop_spec(BinOp::Sub, IrType::I32, RuntimeValue::I32(a), RuntimeValue::I32(b)) == Ok::<RuntimeValue, Fault>(
            RuntimeValue::I32(((a - b) % 0x1_0000_0000) as u32),
        ),
        binop_spec(BinOp::Mul, IrType::I32, RuntimeValue::I32(a), RuntimeValue::I32(b)) == Ok::<RuntimeValue, Fault>(
            RuntimeValue::I32(((a * b) % 0x1_0000_0000) as u32),
        ),
        b != 0 ==> binop_spec(BinOp::Div, IrType::I32, RuntimeValue::I32(a), RuntimeValue::I32(b)) == Ok::<
            RuntimeValue,
            Fault,
        >(RuntimeValue::I32(a / b)),
        b != 0 ==> binop_spec(BinOp::Rem, IrType::I32, RuntimeValue::I32(a), RuntimeValue::I32(b)) == Ok::<
            RuntimeValue,
            Fault,
        >(RuntimeValue::I32(a % b)),
        b == 0 ==> binop_spec(BinOp::Div, IrType::I32, RuntimeValue::I32(a), RuntimeValue::I32(b)) == Err::<
            RuntimeValue,
            Fault,
        >(Fault::DivisionByZero),
        b == 0 ==> binop_spec(BinOp::Rem, IrType::I32, RuntimeValue::I32(a), RuntimeValue::I32(b)) == Err::<
            RuntimeValue,
            Fault,
        >(Fault::DivisionByZero),
{
    lemma_small_mod(a as nat, 0x1_0000_0000);
    lemma_small_mod(b as nat, 0x1_0000_0000);
    assert(int_bits_of(RuntimeValue::I32(a), IrType::I32) == a);
    assert(int_bits_of(RuntimeValue::I32(b), IrType::I32) == b);
    let n: int = 0x1_0000_0000;
    assert(n * n == 0x1_0000_0000_0000_0000int);
    lemma_mod_mod(a + b, n, n);
    lemma_mod_mod(a - b, n, n);
    lemma_mod_mod(a * b, n, n);
    lemma_mod_bound(a + b, n * n);
    lemma_mod_bound(a - b, n * n);
    lemma_mod_bound(a * b, n * n);
    if b != 0 {
        lemma_div_is_ordered_by_denominator(a as int, 1, b as int);
        lemma_small_mod((a / b) as nat, 0x1_0000_0000);
        lemma_mod_bound(a as int, b as int);
        lemma_small_mod((a % b) as nat, 0x1_0000_0000);
    }
}

/// Arithmetic at `i64` wraps modulo 2^64; division and remainder are
/// unsigned, and a zero divisor faults.
pub proof fn lemma_arithmetic_i64(a: u64, b: u64)
    ensures
        binop_spec(BinOp::Add, IrType::I64, RuntimeValue::I64(a), RuntimeValue::I64(b)) == Ok::<RuntimeValue, Fault>(
            RuntimeValue::I64(((a + b) % 0x1_0000_0000_0000_0000) as u64),
        ),
        binop_spec(BinOp::Sub, IrType::I64, RuntimeValue::I64(a), RuntimeValue::I64(b)) == Ok::<RuntimeValue, Fault>(
            RuntimeValue::I64(((a - b) % 0x1_0000_0000_0000_0000) as u64),
        ),
        binop_spec(BinOp::Mul, IrType::I64, RuntimeValue::I64(a), RuntimeValue::I64(b)) == Ok::<RuntimeValue, Fault>(
            RuntimeValue::I64(((a * b) % 0x1_0000_0000_0000_0000) as u64),
        ),
        b != 0 ==> binop_spec(BinOp::Div, IrType::I64, RuntimeValue::I64(a), RuntimeValue::I64(b)) == Ok::<
            RuntimeValue,
            Fault,
        >(RuntimeValue::I64(a / b)),
        b != 0 ==> binop_spec(BinOp::Rem, IrType::I64, RuntimeValue::I64(a), RuntimeValue::I64(b)) == Ok::<
            RuntimeValue,
            Fault,
        >(RuntimeValue::I64(a % b)),
        b == 0 ==> binop_spec(BinOp::Div, IrType::I64, RuntimeValue::I64(a), RuntimeValue::I64(b)) == Err::<
            RuntimeValue,
            Fault,
        >(Fault::DivisionByZero),
{
}

/// Bitwise logic and shifts at an integer type.
pub fn int_bitop(op: BitOp, ty: IrType, a: &RuntimeValue, b: &RuntimeValue) -> (r: Result<RuntimeValue, InterpError>)
    ensures
        bitop_outcome(op, ty, *a, *b, r),
{
    let w32 = match ty.integer_width() {
        Some(w) => w,
        None => return non_integer_error(bit_op_name(op), ty),
    };
    let w = w32 as u64;
    let x = int_bits(a, ty);
    let y = int_bits(b, ty);
    proof {
        lemma_shift_bounds(y, (w - 1) as u64);
    }
    let mask: u64 = if w >= 64 {
        0xffff_ffff_ffff_ffff
    } else {
        (1u64 << w) - 1
    };
    let res: u64 = match op {
        BitOp::And => x & y,
        BitOp::Or => x | y,
        BitOp::Xor => x ^ y,
        _ => {
            let eff: u64 = if w >= 64 {
                y & 63
            } else {
                y & (w - 1)
            };
            if eff == 0 {
                x & mask
            } else {
                let shifted: u64 = match op {
                    BitOp::Shl => x << eff,
                    BitOp::Lshr => x >> eff,
                    _ => {
                        proof {
                            lemma_shift_bounds(y, (w - eff) as u64);
                        }
                        if (x & (1u64 << (w - 1))) != 0 {
                            (x >> eff) | (mask ^ ((1u64 << (w - eff)) - 1))
                        } else {
                            x >> eff
                        }
                    },
                };
                shifted & mask
            }
        },
    };
    assert(res == bit_value_of(op, w, x, y));
    if w >= 64 {
        Ok(RuntimeValue::I64(res))
    } else {
        Ok(RuntimeValue::I32((res % 0x1_0000_0000) as u32))
    }
}

/// IEEE-754 equality of two binary64 bit patterns: a NaN equals nothing,
/// and the two zeros are equal.
pub open spec fn f64_bits_equal(a: u64, b: u64) -> bool {
    let nan_a = a & 0x7ff0_0000_0000_0000 == 0x7ff0_0000_0000_0000 && a & 0x000f_ffff_ffff_ffff != 0;
    let nan_b = b & 0x7ff0_0000_0000_0000 == 0x7ff0_0000_0000_0000 && b & 0x000f_ffff_ffff_ffff != 0;
    !nan_a && !nan_b && (a == b || (a & 0x7fff_ffff_ffff_ffff == 0 && b & 0x7fff_ffff_ffff_ffff == 0))
}

/// Floating-point equality on bit patterns.
pub fn f64_equal(a: u64, b: u64) -> (r: bool)
    ensures
        r == f64_bits_equal(a, b),
{
    let nan_a = a & 0x7ff0_0000_0000_0000 == 0x7ff0_0000_0000_0000 && a & 0x000f_ffff_ffff_ffff != 0;
    let nan_b = b & 0x7ff0_0000_0000_0000 == 0x7ff0_0000_0000_0000 && b & 0x000f_ffff_ffff_ffff != 0;
    !nan_a && !nan_b && (a == b || (a & 0x7fff_ffff_ffff_ffff == 0 && b & 0x7fff_ffff_ffff_ffff == 0))
}


/// `from -> to` between a prefix and a suffix, as in cast messages.
pub open spec fn types_text(prefix: Seq<char>, from: IrType, to: IrType, suffix: Seq<char>) -> Seq<char> {
    prefix + type_text(from) + " -> "@ + type_text(to) + suffix
}

fn types_error<T>(prefix: &str, from: IrType, to: IrType, suffix: &str) -> (r: Result<T, InterpError>)
    ensures
        mismatch(r, types_text(prefix@, from, to, suffix@)),
{
    let mut s = owned(prefix);
    push_str(&mut s, from.as_str());
    push_str(&mut s, " -> ");
    push_str(&mut s, to.as_str());
    push_str(&mut s, suffix);
    Err(InterpError::TypeMismatch(s))
}

fn type_error<T>(prefix: &str, ty: IrType, suffix: &str) -> (r: Result<T, InterpError>)
    ensures
        mismatch(r, prefix@ + type_text(ty) + suffix@),
{
    let mut s = owned(prefix);
    push_str(&mut s, ty.as_str());
    push_str(&mut s, suffix);
    Err(InterpError::TypeMismatch(s))
}

fn typed_error<T>(prefix: &str, ty: IrType) -> (r: Result<T, InterpError>)
    ensures
        mismatch(r, prefix@ + type_text(ty)),
{
    let mut s = owned(prefix);
    push_str(&mut s, ty.as_str());
    Err(InterpError::TypeMismatch(s))
}

/// Sign-extend a `fw`-bit pattern to 64 bits.
pub open spec fn sext_bits(fw: u32, bits: u64) -> u64 {
    if fw < 64 && bits & (1u64 << ((fw - 1) as u64)) != 0 {
        bits | (0xffff_ffff_ffff_ffffu64 << (fw as u64))
    } else {
        bits
    }
}

/// The bits a bitcast reads from `value` of static type `from`, if it can
/// read that type.
pub open spec fn bitcast_source(from: IrType, value: RuntimeValue) -> Option<u64> {
    if from == IrType::F64 && value is F64 {
        Some(value->F64_0)
    } else if int_width(from).is_some() {
        Some(int_bits_of(value, from))
    } else {
        None
    }
}

/// The conversion `op` of `value` from `from` to `to`.
pub open spec fn cast_spec(op: CastOp, from: IrType, to: IrType, value: RuntimeValue) -> Result<RuntimeValue, Fault> {
    match op {
        CastOp::Zext | CastOp::Sext | CastOp::Trunc => match (int_width(from), int_width(to)) {
            (Some(fw), Some(tw)) => {
                let bits = int_bits_of(value, from);
                match op {
                    CastOp::Zext => if tw <= fw {
                        type_fault(types_text("zext requires widening ("@, from, to, ")"@))
                    } else {
                        Ok(width_value(to, bits))
                    },
                    CastOp::Sext => if tw <= fw {
                        type_fault(types_text("sext requires widening ("@, from, to, ")"@))
                    } else {
                        Ok(width_value(to, sext_bits(fw, bits)))
                    },
                    _ => if tw >= fw {
                        type_fault(types_text("trunc requires narrowing ("@, from, to, ")"@))
                    } else {
                        Ok(width_value(to, mask_bits(bits, to)))
                    },
                }
            },
            _ => type_fault(types_text(cast_op_text(op) + " requires integer types, got "@, from, to, ""@)),
        },
        CastOp::Bitcast => if type_size(from) != type_size(to) {
            type_fault(types_text("bitcast requires equal byte sizes ("@, from, to, ")"@))
        } else if from == IrType::Pointer && to == IrType::Pointer {
            match value {
                RuntimeValue::Pointer(a) => Ok(RuntimeValue::Pointer(a)),
                _ => type_fault("bitcast ptr source not a pointer"@),
            }
        } else {
            match bitcast_source(from, value) {
                None => type_fault("bitcast from "@ + type_text(from) + " unsupported"@),
                Some(bits) => if to == IrType::F64 {
                    Ok(RuntimeValue::F64(bits))
                } else if int_width(to).is_some() {
                    Ok(width_value(to, bits))
                } else if to == IrType::Pointer {
                    Ok(RuntimeValue::Pointer((bits % 0x1_0000_0000) as u32))
                } else {
                    type_fault("bitcast to "@ + type_text(to) + " unsupported"@)
                },
            }
        },
        CastOp::PtrToInt => match value {
            RuntimeValue::Pointer(a) => if to == IrType::I32 {
                Ok(RuntimeValue::I32(a))
            } else if to == IrType::I64 {
                Ok(RuntimeValue::I64(a as u64))
            } else {
                type_fault("ptrtoint target must be a pointer-sized integer, got "@ + type_text(to))
            },
            _ => type_fault("ptrtoint source must be a pointer"@),
        },
        CastOp::IntToPtr => match value {
            RuntimeValue::Pointer(a) => Ok(RuntimeValue::Pointer(a)),
            _ => {
                let addr = int_bits_of(value, from);
                if (int_width(from) matches Some(w) && w > 32) && addr > 0xffff_ffff {
                    type_fault(
                        "inttoptr value 0x"@ + crate::strings::hex(addr as nat) + " does not fit a 32-bit SA48 pointer"@,
                    )
                } else {
                    Ok(RuntimeValue::Pointer(addr as u32))
                }
            },
        },
    }
}

proof fn lemma_sign_words(x: u64, y: u64)
    by (bit_vector)
    requires
        x < 0x1_0000_0000,
        y < 0x100,
    ensures
        (x & (1u64 << 31u64) != 0) == (x >= 0x8000_0000),
        x >= 0x8000_0000 ==> x | (0xffff_ffff_ffff_ffffu64 << 32u64) == x + 0xffff_ffff_0000_0000u64,
        (y & (1u64 << 7u64) != 0) == (y >= 0x80),
        y >= 0x80 ==> y | (0xffff_ffff_ffff_ffffu64 << 8u64) == y + 0xffff_ffff_ffff_ff00u64,
{
}

/// Integer conversions keep the value they convert: `zext` keeps an
/// unsigned word, `sext` keeps a signed one (a word with its top bit set is
/// extended with ones, any other unchanged), and `trunc` keeps the low
/// bits; truncating either extension gives back the word extended.
pub proof fn lemma_casts_keep_value(a: u32, c: u8, b: u64)
    ensures
        cast_spec(CastOp::Zext, IrType::I32, IrType::I64, RuntimeValue::I32(a)) == Ok::<RuntimeValue, Fault>(
            RuntimeValue::I64(a as u64),
        ),
        cast_spec(CastOp::Sext, IrType::I32, IrType::I64, RuntimeValue::I32(a)) == Ok::<RuntimeValue, Fault>(
            RuntimeValue::I64(if a < 0x8000_0000 { a as u64 } else { (a + 0xffff_ffff_0000_0000u64) as u64 }),
        ),
        cast_spec(CastOp::Zext, IrType::I8, IrType::I32, RuntimeValue::I8(c)) == Ok::<RuntimeValue, Fault>(
            RuntimeValue::I32(c as u32),
        ),
        cast_spec(CastOp::Sext, IrType::I8, IrType::I32, RuntimeValue::I8(c)) == Ok::<RuntimeValue, Fault>(
            RuntimeValue::I32(if c < 0x80 { c as u32 } else { (c + 0xffff_ff00u32) as u32 }),
        ),
        cast_spec(CastOp::Trunc, IrType::I64, IrType::I32, RuntimeValue::I64(b)) == Ok::<RuntimeValue, Fault>(
            RuntimeValue::I32((b % 0x1_0000_0000) as u32),
        ),
        cast_spec(CastOp::Trunc, IrType::I64, IrType::I32, RuntimeValue::I64((a + 0xffff_ffff_0000_0000u64) as u64))
            == Ok::<RuntimeValue, Fault>(RuntimeValue::I32(a)),
        cast_spec(CastOp::Trunc, IrType::I64, IrType::I32, RuntimeValue::I64(a as u64)) == Ok::<RuntimeValue, Fault>(
            RuntimeValue::I32(a),
        ),
{
    lemma_sign_words(a as u64, c as u64);
    lemma_small_mod(a as nat, 0x1_0000_0000);
    lemma_small_mod(c as nat, 0x100);
    lemma_small_mod(c as nat, 0x1_0000_0000);
    assert(int_bits_of(RuntimeValue::I32(a), IrType::I32) == a);
    assert(int_bits_of(RuntimeValue::I8(c), IrType::I8) == c);
    lemma_small_mod((b % 0x1_0000_0000) as nat, 0x1_0000_0000);
    assert(((a + 0xffff_ffff_0000_0000u64) as u64) % 0x1_0000_0000 == a);
    if c >= 0x80 {
        let e: u64 = (c + 0xffff_ffff_ffff_ff00u64) as u64;
        assert(e % 0x1_0000_0000 == c + 0xffff_ff00u32);
    }
}

/// `r` is the conversion `op` of `value` from `from` to `to`.
pub open spec fn cast_outcome(op: CastOp, from: IrType, to: IrType, value: RuntimeValue, r: Result<RuntimeValue, InterpError>) -> bool {
    lift(r) == cast_spec(op, from, to, value)
}

/// One integer or pointer conversion with LLVM semantics.
pub fn cast_value(op: CastOp, from_ty: IrType, to_ty: IrType, value: &RuntimeValue) -> (r: Result<RuntimeValue, InterpError>)
    ensures
        cast_outcome(op, from_ty, to_ty, *value, r),
{
    let from_w = from_ty.integer_width();
    let to_w = to_ty.integer_width();
    match op {
        CastOp::Zext | CastOp::Sext | CastOp::Trunc => {
            let (fw, tw) = match (from_w, to_w) {
                (Some(f), Some(t)) => (f, t),
                _ => {
                    let mut s = owned(op.name());
                    push_str(&mut s, " requires integer types, got ");
                    let r: Result<RuntimeValue, InterpError> = types_error(s.as_str(), from_ty, to_ty, "");
                    return r;
                },
            };
            let bits = int_bits(value, from_ty);
            let out: u64 = match op {
                CastOp::Zext => {
                    if tw <= fw {
                        return types_error("zext requires widening (", from_ty, to_ty, ")");
                    }
                    bits
                },
                CastOp::Sext => {
                    if tw <= fw {
                        return types_error("sext requires widening (", from_ty, to_ty, ")");
                    }
                    let fw64 = fw as u64;
                    let sign = fw64 < 64 && (bits & (1u64 << (fw64 - 1))) != 0;
                    if sign {
                        bits | (0xffff_ffff_ffff_ffffu64 << fw64)
                    } else {
                        bits
                    }
                },
                _ => {
                    if tw >= fw {
                        return types_error("trunc requires narrowing (", from_ty, to_ty, ")");
                    }
                    mask_to_width(bits, to_ty)
                },
            };
            Ok(to_width_value(to_ty, out))
        },
        CastOp::Bitcast => {
            if from_ty.size_in_bytes() != to_ty.size_in_bytes() {
                return types_error("bitcast requires equal byte sizes (", from_ty, to_ty, ")");
            }
            if from_ty == IrType::Pointer && to_ty == IrType::Pointer {
                return match value {
                    RuntimeValue::Pointer(a) => Ok(RuntimeValue::Pointer(*a)),
                    _ => mismatch_error("bitcast ptr source not a pointer"),
                };
            }
            let bits: u64 = match (from_ty, value) {
                (IrType::F64, RuntimeValue::F64(v)) => *v,
                _ => {
                    if from_ty.is_integer() || from_ty.is_pointer_sized_integer() {
                        int_bits(value, from_ty)
                    } else {
                        return type_error("bitcast from ", from_ty, " unsupported");
                    }
                },
            };
            if to_ty == IrType::F64 {
                Ok(RuntimeValue::F64(bits))
            } else if to_ty.is_integer() || to_ty.is_pointer_sized_integer() {
                Ok(to_width_value(to_ty, bits))
            } else if to_ty == IrType::Pointer {
                Ok(RuntimeValue::Pointer((bits % 0x1_0000_0000) as u32))
            } else {
                type_error("bitcast to ", to_ty, " unsupported")
            }
        },
        CastOp::PtrToInt => {
            let addr: u32 = match value {
                RuntimeValue::Pointer(a) => *a,
                _ => return mismatch_error("ptrtoint source must be a pointer"),
            };
            match to_ty {
                IrType::I32 => Ok(RuntimeValue::I32(addr)),
                IrType::I64 => Ok(RuntimeValue::I64(addr as u64)),
                _ => typed_error("ptrtoint target must be a pointer-sized integer, got ", to_ty),
            }
        },
        CastOp::IntToPtr => {
            let addr: u64 = match value {
                RuntimeValue::Pointer(a) => return Ok(RuntimeValue::Pointer(*a)),
                v => int_bits(v, from_ty),
            };
            let wide = match from_w {
                Some(w) => w > 32,
                None => false,
            };
            if wide && addr > 0xffff_ffff {
                let mut s = owned("inttoptr value 0x");
                crate::strings::push_hex(&mut s, addr);
                push_str(&mut s, " does not fit a 32-bit SA48 pointer");
                return Err(InterpError::TypeMismatch(s));
            }
            Ok(RuntimeValue::Pointer(addr as u32))
        },
    }
}

/// The unsigned integer whose little-endian bytes are `b`.
pub open spec fn le_value(b: Seq<u8>) -> nat
    decreases b.len(),
{
    if b.len() == 0 {
        0
    } else {
        b[0] as nat + 256 * le_value(b.drop_first())
    }
}

/// The low `n` bytes of `v`, least significant first.
pub open spec fn le_bytes(v: nat, n: nat) -> Seq<u8>
    decreases n,
{
    if n == 0 {
        seq![]
    } else {
        seq![(v % 256) as u8] + le_bytes(v / 256, (n - 1) as nat)
    }
}

/// 256 to the power `n`.
pub open spec fn byte_range(n: nat) -> nat
    decreases n,
{
    if n == 0 {
        1
    } else {
        256 * byte_range((n - 1) as nat)
    }
}

proof fn lemma_le_value_range(b: Seq<u8>)
    ensures
        le_value(b) < byte_range(b.len()),
    decreases b.len(),
{
    if b.len() > 0 {
        lemma_le_value_range(b.drop_first());
    }
}

/// `le_bytes(v, n)` has `n` bytes.
pub proof fn lemma_le_bytes_len(v: nat, n: nat)
    ensures
        le_bytes(v, n).len() == n,
    decreases n,
{
    if n > 0 {
        lemma_le_bytes_len(v / 256, (n - 1) as nat);
    }
}

proof fn lemma_le_value_bound(b: Seq<u8>)
    ensures
        b.len() <= 8 ==> le_value(b) < 0x1_0000_0000_0000_0000,
        b.len() <= 4 ==> le_value(b) < 0x1_0000_0000,
        b.len() <= 2 ==> le_value(b) < 0x1_0000,
        b.len() <= 1 ==> le_value(b) < 0x100,
{
    lemma_le_value_range(b);
    reveal_with_fuel(byte_range, 9);
    assert(byte_range(1) == 0x100);
    assert(byte_range(2) == 0x1_0000);
    assert(byte_range(3) == 0x100_0000);
    assert(byte_range(4) == 0x1_0000_0000);
    assert(byte_range(5) == 0x100_0000_0000);
    assert(byte_range(6) == 0x1_0000_0000_0000);
    assert(byte_range(7) == 0x100_0000_0000_0000);
    assert(byte_range(8) == 0x1_0000_0000_0000_0000);
}

/// The little-endian integer held in `bytes` (at most eight of them).
fn read_le(bytes: &[u8]) -> (r: u64)
    requires
        bytes@.len() <= 8,
    ensures
        r == le_value(bytes@),
{
    let n = bytes.len();
    let mut v: u64 = 0;
    let mut i: usize = n;
    while i > 0
        invariant
            n == bytes@.len(),
            n <= 8,
            i <= n,
            v == le_value(bytes@.subrange(i as int, n as int)),
        decreases i,
    {
        let ghost tail = bytes@.subrange(i as int, n as int);
        i = i - 1;
        proof {
            let s = bytes@.subrange(i as int, n as int);
            assert(s.drop_first() =~= tail);
            lemma_le_value_bound(tail);
            lemma_le_value_bound(s);
        }
        v = v * 256 + bytes[i] as u64;
    }
    proof {
        assert(bytes@.subrange(0, n as int) =~= bytes@);
    }
    v
}

/// The low `n` bytes of `v` in little-endian order.
fn write_le(v: u64, n: usize) -> (r: Vec<u8>)
    ensures
        r@ == le_bytes(v as nat, n as nat),
        r@.len() == n,
{
    proof {
        lemma_le_bytes_len(v as nat, n as nat);
    }
    let mut out: Vec<u8> = Vec::new();
    let mut x = v;
    let mut k: usize = 0;
    while k < n
        invariant
            k <= n,
            out@ + le_bytes(x as nat, (n - k) as nat) == le_bytes(v as nat, n as nat),
        decreases n - k,
    {
        let ghost before = out@;
        out.push((x % 256) as u8);
        proof {
            assert(le_bytes(x as nat, (n - k) as nat) == seq![(x % 256) as u8] + le_bytes((x / 256) as nat, (n - k - 1) as nat));
            assert(out@ + le_bytes((x / 256) as nat, (n - k - 1) as nat) =~= before + le_bytes(x as nat, (n - k) as nat));
        }
        x = x / 256;
        k = k + 1;
    }
    proof {
        assert(out@ + le_bytes(x as nat, 0) =~= out@);
    }
    out
}

/// The value a load of type `ty` reads from its bytes.
pub open spec fn loaded_value(ty: IrType, b: Seq<u8>) -> RuntimeValue {
    match ty {
        IrType::I1 => RuntimeValue::I1(b[0] != 0),
        IrType::I8 => RuntimeValue::I8(b[0]),
        IrType::I16 => RuntimeValue::I16(le_value(b) as u16),
        IrType::I32 => RuntimeValue::I32(le_value(b) as u32),
        IrType::I64 => RuntimeValue::I64(le_value(b) as u64),
        IrType::F64 => RuntimeValue::F64(le_value(b) as u64),
        IrType::Pointer => RuntimeValue::Pointer(le_value(b) as u32),
        IrType::Void => RuntimeValue::I32(0),
    }
}

/// Decode the `type_size(ty)` little-endian bytes of a load.
pub fn bytes_to_runtime(ty: &IrType, bytes: &[u8]) -> (r: RuntimeValue)
    requires
        bytes@.len() == type_size(*ty),
    ensures
        r == loaded_value(*ty, bytes@),
{
    proof {
        lemma_le_value_bound(bytes@);
    }
    match ty {
        IrType::I1 => RuntimeValue::I1(bytes[0] != 0),
        IrType::I8 => RuntimeValue::I8(bytes[0]),
        IrType::I16 => RuntimeValue::I16(read_le(bytes) as u16),
        IrType::I32 => RuntimeValue::I32(read_le(bytes) as u32),
        IrType::I64 => RuntimeValue::I64(read_le(bytes)),
        IrType::F64 => RuntimeValue::F64(read_le(bytes)),
        IrType::Pointer => RuntimeValue::Pointer(read_le(bytes) as u32),
        IrType::Void => RuntimeValue::I32(0),
    }
}

/// The bytes a store of type `ty` writes for `val`: exactly
/// `type_size(ty)` little-endian bytes of the value at that type.
pub open spec fn store_spec(val: RuntimeValue, ty: IrType) -> Result<Seq<u8>, Fault> {
    match ty {
        IrType::F64 => match val {
            RuntimeValue::F64(v) => Ok(le_bytes(v as nat, 8)),
            _ => type_fault("store f64 of a non-f64 value"@),
        },
        IrType::Pointer => match address_of(val) {
            Some(a) => Ok(le_bytes(a as nat, 4)),
            None => type_fault("store pointer of a non-pointer value"@),
        },
        IrType::Void => type_fault("store of unsupported type void"@),
        _ => Ok(le_bytes(int_bits_of(val, ty) as nat, type_size(ty) as nat)),
    }
}

/// `r` holds the bytes of a store of `val` at type `ty`.
pub open spec fn store_outcome(val: RuntimeValue, ty: IrType, r: Result<Vec<u8>, InterpError>) -> bool {
    match r {
        Ok(b) => store_spec(val, ty) == Ok::<Seq<u8>, Fault>(b@),
        Err(e) => store_spec(val, ty) == Err::<Seq<u8>, Fault>(e@),
    }
}

/// Serialise `val` for a store of static type `ty`.
pub fn store_bytes(val: &RuntimeValue, ty: IrType) -> (r: Result<Vec<u8>, InterpError>)
    ensures
        store_outcome(*val, ty, r),
        r matches Ok(b) ==> b@.len() == type_size(ty),
{
    match ty {
        IrType::F64 => match val {
            RuntimeValue::F64(v) => Ok(write_le(*v, 8)),
            _ => mismatch_error("store f64 of a non-f64 value"),
        },
        IrType::Pointer => {
            let addr: u32 = match val {
                RuntimeValue::Pointer(a) => *a,
                RuntimeValue::I32(a) => *a,
                _ => return mismatch_error("store pointer of a non-pointer value"),
            };
            Ok(write_le(addr as u64, 4))
        },
        IrType::Void => mismatch_error("store of unsupported type void"),
        _ => {
            let bits = int_bits(val, ty);
            let nbytes = ty.size_in_bytes() as usize;
            Ok(write_le(bits, nbytes))
        },
    }
}

/// The text of a non-`f64` value: its type and its number (pointers in
/// hexadecimal).
pub open spec fn value_text(v: RuntimeValue) -> Seq<char> {
    match v {
        RuntimeValue::I1(b) => if b {
            "i1 1"@
        } else {
            "i1 0"@
        },
        RuntimeValue::I8(x) => "i8 "@ + crate::strings::decimal(x as nat),
        RuntimeValue::I16(x) => "i16 "@ + crate::strings::decimal(x as nat),
        RuntimeValue::I32(x) => "i32 "@ + crate::strings::decimal(x as nat),
        RuntimeValue::I64(x) => "i64 "@ + crate::strings::decimal(x as nat),
        RuntimeValue::Pointer(x) => "ptr 0x"@ + crate::strings::hex(x as nat),
        RuntimeValue::F64(_) => Seq::empty(),
    }
}

impl RuntimeValue {
    /// The value as text, such as `i32 42` or `ptr 0xff00`.
    pub fn to_string(&self) -> (r: String)
        requires
            !(self is F64),
        ensures
            r@ == value_text(*self),
    {
        match self {
            RuntimeValue::I1(b) => owned(
                if *b {
                    "i1 1"
                } else {
                    "i1 0"
                },
            ),
            RuntimeValue::I8(x) => {
                let mut s = owned("i8 ");
                crate::strings::push_decimal(&mut s, *x as u64);
                s
            },
            RuntimeValue::I16(x) => {
                let mut s = owned("i16 ");
                crate::strings::push_decimal(&mut s, *x as u64);
                s
            },
            RuntimeValue::I32(x) => {
                let mut s = owned("i32 ");
                crate::strings::push_decimal(&mut s, *x as u64);
                s
            },
            RuntimeValue::I64(x) => {
                let mut s = owned("i64 ");
                crate::strings::push_decimal(&mut s, *x);
                s
            },
            RuntimeValue::Pointer(x) => {
                let mut s = owned("ptr 0x");
                crate::strings::push_hex(&mut s, *x as u64);
                s
            },
            RuntimeValue::F64(_) => String::new(),
        }
    }
}


proof fn lemma_le_roundtrip(v: nat, n: nat)
    ensures
        le_value(le_bytes(v, n)) == v % byte_range(n),
    decreases n,
{
    if n > 0 {
        lemma_le_roundtrip(v / 256, (n - 1) as nat);
        let b = le_bytes(v, n);
        assert(b.drop_first() =~= le_bytes(v / 256, (n - 1) as nat));
        let r = byte_range((n - 1) as nat);
        assert(r > 0) by {
            lemma_byte_range_pos((n - 1) as nat);
        }
        assert(v % 256 + 256 * ((v / 256) % r) == v % (256 * r)) by (nonlinear_arith)
            requires
                r > 0,
        {
            vstd::arithmetic::div_mod::lemma_breakdown(v as int, 256, r as int);
        }
    }
}

proof fn lemma_byte_range_pos(n: nat)
    ensures
        byte_range(n) > 0,
    decreases n,
{
    if n > 0 {
        lemma_byte_range_pos((n - 1) as nat);
    }
}

/// The value a load of type `ty` reads back after a store of `val` at
/// that type.
pub open spec fn reloaded(val: RuntimeValue, ty: IrType) -> RuntimeValue {
    match ty {
        IrType::I1 => RuntimeValue::I1(int_bits_of(val, ty) != 0),
        IrType::I8 => RuntimeValue::I8(int_bits_of(val, ty) as u8),
        IrType::I16 => RuntimeValue::I16(int_bits_of(val, ty) as u16),
        IrType::I32 => RuntimeValue::I32(int_bits_of(val, ty) as u32),
        IrType::I64 => RuntimeValue::I64(int_bits_of(val, ty)),
        IrType::F64 => val,
        IrType::Pointer => RuntimeValue::Pointer(address_of(val)->0),
        IrType::Void => RuntimeValue::I32(0),
    }
}

/// Reading back what a store wrote: the bytes a store of `val` at type
/// `ty` writes load, at the same type, as `val` reduced to that type (an
/// integer masked to its width, an `i1` as whether it is non-zero, an
/// `f64` or a pointer unchanged).
pub proof fn lemma_store_load_roundtrip(val: RuntimeValue, ty: IrType)
    requires
        store_spec(val, ty) is Ok,
    ensures
        loaded_value(ty, store_spec(val, ty)->Ok_0) == reloaded(val, ty),
{
    reveal_with_fuel(byte_range, 9);
    assert(byte_range(2) == 0x1_0000);
    assert(byte_range(4) == 0x1_0000_0000);
    assert(byte_range(8) == 0x1_0000_0000_0000_0000);
    match ty {
        IrType::F64 => {
            let v = val->F64_0;
            lemma_le_roundtrip(v as nat, 8);
            assert(le_value(le_bytes(v as nat, 8)) == v);
        },
        IrType::Pointer => {
            let a = address_of(val)->0;
            lemma_le_roundtrip(a as nat, 4);
            assert(le_value(le_bytes(a as nat, 4)) == a);
        },
        IrType::I1 => {
            let x = int_bits_of(val, ty);
            assert(le_bytes((x as nat) / 256, 0) =~= Seq::<u8>::empty());
            assert(le_bytes(x as nat, 1) =~= seq![(x % 256) as u8]);
        },
        IrType::I8 => {
            let x = int_bits_of(val, ty);
            assert(le_bytes((x as nat) / 256, 0) =~= Seq::<u8>::empty());
            assert(le_bytes(x as nat, 1) =~= seq![(x % 256) as u8]);
        },
        IrType::I16 => {
            let x = int_bits_of(val, ty);
            lemma_le_roundtrip(x as nat, 2);
            assert(le_value(le_bytes(x as nat, 2)) == x);
        },
        IrType::I32 => {
            let x = int_bits_of(val, ty);
            lemma_le_roundtrip(x as nat, 4);
            assert(le_value(le_bytes(x as nat, 4)) == x);
        },
        IrType::I64 => {
            let x = int_bits_of(val, ty);
            lemma_le_roundtrip(x as nat, 8);
            assert(le_value(le_bytes(x as nat, 8)) == x);
        },
        IrType::Void => {},
    }
}

} // verus!
