//! The canonical SAIR text form of a module.
//!
//! Values are written `%n`: parameters take `0..p` and each value-producing
//! instruction the next number in program order, which is how the builder
//! numbers them too.

use vstd::prelude::*;

use crate::ir::block::BasicBlock;
use crate::ir::debug::DebugLoc;
use crate::ir::function::IrFunction;
use crate::ir::instruction::{cast_op_text, result_type_of, GepIndex, Instruction, Terminator};
use crate::ir::module::IrModule;
use crate::ir::types::{type_text, IrType};
use crate::ir::value::{Constant, ValueId};
use crate::strings::{decimal, push_char, push_decimal, push_str};

verus! {

/// `s` with each backslash and double quote preceded by a backslash.
pub open spec fn escaped(s: Seq<char>) -> Seq<char>
    decreases s.len(),
{
    if s.len() == 0 {
        seq![]
    } else {
        escaped(s.drop_last()) + escaped_char(s.last())
    }
}

/// The escaped spelling of one character.
pub open spec fn escaped_char(c: char) -> Seq<char> {
    if c == '\\' {
        seq!['\\', '\\']
    } else if c == '"' {
        seq!['\\', '"']
    } else {
        seq![c]
    }
}

/// `s` escaped and between double quotes.
pub open spec fn quoted(s: Seq<char>) -> Seq<char> {
    seq!['"'] + escaped(s) + seq!['"']
}

/// A value reference, `%id`.
pub open spec fn value_ref(id: nat) -> Seq<char> {
    seq!['%'] + decimal(id)
}

/// The lowercase hexadecimal digit of `d < 16`.
pub open spec fn hex_char(d: nat) -> char {
    if d < 10 {
        (48 + d) as char
    } else {
        (87 + d) as char
    }
}

/// The `k` low hexadecimal digits of `n`, most significant first.
pub open spec fn hex_digits(n: nat, k: nat) -> Seq<char>
    decreases k,
{
    if k == 0 {
        seq![]
    } else {
        hex_digits(n / 16, (k - 1) as nat).push(hex_char(n % 16))
    }
}

/// A constant with its type, as in `i32 42` or `f64 0x4045000000000000`.
pub open spec fn constant_text(c: Constant) -> Seq<char> {
    match c {
        Constant::I1(v) => if v {
            "i1 true"@
        } else {
            "i1 false"@
        },
        Constant::I8(v) => "i8 "@ + decimal(v as nat),
        Constant::I16(v) => "i16 "@ + decimal(v as nat),
        Constant::I32(v) => "i32 "@ + decimal(v as nat),
        Constant::I64(v) => "i64 "@ + decimal(v as nat),
        Constant::F64(bits) => "f64 0x"@ + hex_digits(bits as nat, 16),
    }
}

/// Value references separated by `, `.
pub open spec fn ids_text(ids: Seq<ValueId>) -> Seq<char>
    decreases ids.len(),
{
    if ids.len() == 0 {
        seq![]
    } else if ids.len() == 1 {
        value_ref(ids[0] as nat)
    } else {
        ids_text(ids.drop_last()) + ", "@ + value_ref(ids.last() as nat)
    }
}

/// One GEP index: a value reference or `field n`.
pub open spec fn gep_index_text(i: GepIndex) -> Seq<char> {
    match i {
        GepIndex::Dynamic(id) => value_ref(id as nat),
        GepIndex::StructField(n) => "field "@ + decimal(n as nat),
    }
}

/// GEP indices separated by `, `.
pub open spec fn gep_indices_text(ix: Seq<GepIndex>) -> Seq<char>
    decreases ix.len(),
{
    if ix.len() == 0 {
        seq![]
    } else if ix.len() == 1 {
        gep_index_text(ix[0])
    } else {
        gep_indices_text(ix.drop_last()) + ", "@ + gep_index_text(ix.last())
    }
}

/// One phi operand, `["label", %v]`.
pub open spec fn phi_pair_text(p: (ValueId, String)) -> Seq<char> {
    "["@ + quoted(p.1@) + ", "@ + value_ref(p.0 as nat) + "]"@
}

/// Phi operands separated by `, `.
pub open spec fn phi_pairs_text(ps: Seq<(ValueId, String)>) -> Seq<char>
    decreases ps.len(),
{
    if ps.len() == 0 {
        seq![]
    } else if ps.len() == 1 {
        phi_pair_text(ps[0])
    } else {
        phi_pairs_text(ps.drop_last()) + ", "@ + phi_pair_text(ps.last())
    }
}

/// A two-operand instruction, `op ty %a, %b`.
pub open spec fn binary_text(op: Seq<char>, ty: IrType, lhs: ValueId, rhs: ValueId) -> Seq<char> {
    op + " "@ + type_text(ty) + " "@ + value_ref(lhs as nat) + ", "@ + value_ref(rhs as nat)
}

/// An instruction without its result and debug location.
pub open spec fn instruction_body(instr: Instruction) -> Seq<char> {
    match instr {
        Instruction::Add { ty, lhs, rhs } => binary_text("add"@, ty, lhs, rhs),
        Instruction::Sub { ty, lhs, rhs } => binary_text("sub"@, ty, lhs, rhs),
        Instruction::Mul { ty, lhs, rhs } => binary_text("mul"@, ty, lhs, rhs),
        Instruction::Div { ty, lhs, rhs } => binary_text("div"@, ty, lhs, rhs),
        Instruction::Rem { ty, lhs, rhs } => binary_text("rem"@, ty, lhs, rhs),
        Instruction::And { ty, lhs, rhs } => binary_text("and"@, ty, lhs, rhs),
        Instruction::Or { ty, lhs, rhs } => binary_text("or"@, ty, lhs, rhs),
        Instruction::Xor { ty, lhs, rhs } => binary_text("xor"@, ty, lhs, rhs),
        Instruction::Shl { ty, lhs, rhs } => binary_text("shl"@, ty, lhs, rhs),
        Instruction::Lshr { ty, lhs, rhs } => binary_text("lshr"@, ty, lhs, rhs),
        Instruction::Ashr { ty, lhs, rhs } => binary_text("ashr"@, ty, lhs, rhs),
        Instruction::Eq { ty, lhs, rhs } => binary_text("eq"@, ty, lhs, rhs),
        Instruction::Lt { ty, lhs, rhs } => binary_text("lt"@, ty, lhs, rhs),
        Instruction::Gt { ty, lhs, rhs } => binary_text("gt"@, ty, lhs, rhs),
        Instruction::Cast { op, from_ty, to_ty, value } => "cast "@ + cast_op_text(op) + " "@ + type_text(
            from_ty,
        ) + " "@ + type_text(to_ty) + " "@ + value_ref(value as nat),
        Instruction::Select { ty, condition, then_value, else_value } => "select "@ + type_text(ty) + " "@
            + value_ref(condition as nat) + ", "@ + value_ref(then_value as nat) + ", "@ + value_ref(
            else_value as nat,
        ),
        Instruction::Const(c) => "const "@ + constant_text(c),
        Instruction::Alloca { ty, count } => if count == 1 {
            "alloca "@ + type_text(ty)
        } else {
            "alloca "@ + type_text(ty) + ", "@ + decimal(count as nat)
        },
        Instruction::Load { ty, addr } => "load "@ + type_text(ty) + " "@ + value_ref(addr as nat),
        Instruction::Store { ty, value, addr } => "store "@ + type_text(ty) + " "@ + value_ref(value as nat)
            + ", "@ + value_ref(addr as nat),
        Instruction::Call { return_ty, callee, args } => "call "@ + type_text(return_ty) + " @"@ + escaped(
            callee@,
        ) + "("@ + ids_text(args@) + ")"@,
        Instruction::Phi { ty, incoming } => "phi "@ + type_text(ty) + " "@ + phi_pairs_text(incoming@),
        Instruction::Gep { elem_ty, base, indices, .. } => "gep "@ + type_text(elem_ty) + " "@ + value_ref(
            base as nat,
        ) + ", "@ + gep_indices_text(indices@),
    }
}

/// A debug location suffix, ` !loc "file" line [column]`, or nothing.
pub open spec fn debug_text(d: Option<DebugLoc>) -> Seq<char> {
    match d {
        None => seq![],
        Some(loc) => " !loc "@ + quoted(loc.file@) + " "@ + decimal(loc.line as nat) + match loc.column {
            Some(c) => " "@ + decimal(c as nat),
            None => seq![],
        },
    }
}

/// One instruction line; `result` is the number of the value it defines.
pub open spec fn instruction_line(instr: Instruction, result: Option<nat>, debug: Option<DebugLoc>) -> Seq<char> {
    "    "@ + match result {
        Some(id) => value_ref(id) + " = "@,
        None => seq![],
    } + instruction_body(instr) + debug_text(debug) + "\n"@
}

/// A terminator line; a returned value is written with `return_ty`.
pub open spec fn terminator_line(return_ty: IrType, term: Terminator) -> Seq<char> {
    match term {
        Terminator::Branch { target } => "    br "@ + quoted(target@) + "\n"@,
        Terminator::CondBranch { condition, true_target, false_target } => "    cond_br "@ + value_ref(
            condition as nat,
        ) + ", "@ + quoted(true_target@) + ", "@ + quoted(false_target@) + "\n"@,
        Terminator::Return { value: Some(v) } => "    ret "@ + type_text(return_ty) + " "@ + value_ref(v as nat)
            + "\n"@,
        Terminator::Return { value: None } => "    ret void\n"@,
        Terminator::Unreachable => "    unreachable\n"@,
    }
}

/// The number of instructions of `instrs` that define a value.
pub open spec fn result_count(instrs: Seq<Instruction>) -> nat
    decreases instrs.len(),
{
    if instrs.len() == 0 {
        0
    } else {
        result_count(instrs.drop_last()) + if result_type_of(instrs.last()) is Some {
            1nat
        } else {
            0nat
        }
    }
}

/// The debug location of instruction `i`, if recorded.
pub open spec fn debug_at(debug_locs: Seq<Option<DebugLoc>>, i: int) -> Option<DebugLoc> {
    if 0 <= i < debug_locs.len() {
        debug_locs[i]
    } else {
        None
    }
}

/// The instruction lines of a block whose first defined value is
/// `first_id`.
pub open spec fn instructions_text(instrs: Seq<Instruction>, debug_locs: Seq<Option<DebugLoc>>, first_id: nat) -> Seq<
    char,
>
    decreases instrs.len(),
{
    if instrs.len() == 0 {
        seq![]
    } else {
        let before = instrs.drop_last();
        let last = instrs.last();
        let result = if result_type_of(last) is Some {
            Some(first_id + result_count(before))
        } else {
            None
        };
        instructions_text(before, debug_locs, first_id) + instruction_line(
            last,
            result,
            debug_at(debug_locs, before.len() as int),
        )
    }
}

/// A block whose first defined value is `first_id`.
pub open spec fn block_text(b: BasicBlock, return_ty: IrType, first_id: nat) -> Seq<char> {
    "  block "@ + quoted(b.label@) + ":\n"@ + instructions_text(b.instructions@, b.debug_locs@, first_id)
        + terminator_line(return_ty, b.terminator)
}

/// The number of values the instructions of `bs` define.
pub open spec fn blocks_result_count(bs: Seq<BasicBlock>) -> nat
    decreases bs.len(),
{
    if bs.len() == 0 {
        0
    } else {
        blocks_result_count(bs.drop_last()) + result_count(bs.last().instructions@)
    }
}

/// Blocks in order, numbering values from `first_id`.
pub open spec fn blocks_text(bs: Seq<BasicBlock>, return_ty: IrType, first_id: nat) -> Seq<char>
    decreases bs.len(),
{
    if bs.len() == 0 {
        seq![]
    } else {
        blocks_text(bs.drop_last(), return_ty, first_id) + block_text(
            bs.last(),
            return_ty,
            first_id + blocks_result_count(bs.drop_last()),
        )
    }
}

/// Parameter lines; parameter `i` is `%i`.
pub open spec fn params_text(params: Seq<(IrType, String)>) -> Seq<char>
    decreases params.len(),
{
    if params.len() == 0 {
        seq![]
    } else {
        params_text(params.drop_last()) + "  param "@ + type_text(params.last().0) + " "@ + value_ref(
            (params.len() - 1) as nat,
        ) + "\n"@
    }
}

/// A function.
pub open spec fn function_text(f: IrFunction) -> Seq<char> {
    "func @"@ + escaped(f.name@) + " -> "@ + type_text(f.return_ty) + " entry "@ + quoted(f.entry_block@)
        + " {\n"@ + params_text(f.params@) + blocks_text(f.blocks@, f.return_ty, f.params@.len()) + "}\n"@
}

/// Functions in order, each followed by an empty line.
pub open spec fn functions_text(fs: Seq<IrFunction>) -> Seq<char>
    decreases fs.len(),
{
    if fs.len() == 0 {
        seq![]
    } else {
        functions_text(fs.drop_last()) + function_text(fs.last()) + "\n"@
    }
}

/// The text of a module.
pub open spec fn module_text(m: IrModule) -> Seq<char> {
    "sair 0.1\n"@ + "entry "@ + quoted(m.entry@) + "\n"@ + "\n"@ + functions_text(m.functions@)
}

/// Serialize a module to its canonical SAIR text.
pub fn serialize(module: &IrModule) -> (text: String)
    requires
        module_ids_fit(*module),
    ensures
        text@ == module_text(*module),
{
    let mut out = String::new();
    push_str(&mut out, "sair 0.1\n");
    push_str(&mut out, "entry ");
    push_quoted(&mut out, &module.entry);
    push_str(&mut out, "\n");
    push_str(&mut out, "\n");
    let ghost head = out@;
    let mut i: usize = 0;
    while i < module.functions.len()
        invariant
            module_ids_fit(*module),
            i <= module.functions@.len(),
            out@ == head + functions_text(module.functions@.subrange(0, i as int)),
        decreases module.functions.len() - i,
    {
        proof {
            assert(ids_fit(module.functions@[i as int]));
        }
        write_function(&mut out, &module.functions[i]);
        push_str(&mut out, "\n");
        proof {
            let fs = module.functions@.subrange(0, i + 1);
            assert(fs.drop_last() =~= module.functions@.subrange(0, i as int));
        }
        i = i + 1;
    }
    proof {
        assert(module.functions@.subrange(0, i as int) =~= module.functions@);
        assert(out@ =~= module_text(*module));
    }
    out
}

/// Append `s` escaped.
fn push_escaped(out: &mut String, s: &String)
    ensures
        final(out)@ == old(out)@ + escaped(s@),
{
    let ghost start = out@;
    let chars = s.as_str();
    let n = chars.unicode_len();
    let mut i: usize = 0;
    while i < n
        invariant
            n == s@.len(),
            chars@ == s@,
            i <= n,
            out@ == start + escaped(s@.subrange(0, i as int)),
        decreases n - i,
    {
        let c = chars.get_char(i);
        if c == '\\' {
            push_char(out, '\\');
            push_char(out, '\\');
        } else if c == '"' {
            push_char(out, '\\');
            push_char(out, '"');
        } else {
            push_char(out, c);
        }
        proof {
            let t = s@.subrange(0, i + 1);
            assert(t.drop_last() =~= s@.subrange(0, i as int));
            assert(t.last() == c);
            assert(out@ =~= start + escaped(t));
        }
        i = i + 1;
    }
    proof {
        assert(s@.subrange(0, n as int) =~= s@);
    }
}

/// Append `s` escaped and quoted.
fn push_quoted(out: &mut String, s: &String)
    ensures
        final(out)@ == old(out)@ + quoted(s@),
{
    push_char(out, '"');
    push_escaped(out, s);
    push_char(out, '"');
    proof {
        assert(out@ =~= old(out)@ + quoted(s@));
    }
}

/// Append a value reference `%id`.
fn push_value_ref(out: &mut String, id: ValueId)
    ensures
        final(out)@ == old(out)@ + value_ref(id as nat),
{
    push_char(out, '%');
    push_decimal(out, id as u64);
    proof {
        assert(out@ =~= old(out)@ + value_ref(id as nat));
    }
}

fn hex_digit(d: u64) -> (c: char)
    requires
        d < 16,
    ensures
        c == hex_char(d as nat),
{
    if d < 10 {
        let b: u8 = 48u8 + (d as u8);
        b as char
    } else {
        let b: u8 = 87u8 + (d as u8);
        b as char
    }
}

/// Append the `k` low hexadecimal digits of `n`.
fn push_hex_digits(out: &mut String, n: u64, k: u32)
    ensures
        final(out)@ == old(out)@ + hex_digits(n as nat, k as nat),
    decreases k,
{
    if k > 0 {
        push_hex_digits(out, n / 16, k - 1);
        push_char(out, hex_digit(n % 16));
        proof {
            assert(hex_digits(n as nat, k as nat) == hex_digits((n / 16) as nat, (k - 1) as nat).push(
                hex_char((n % 16) as nat),
            ));
            assert(out@ =~= old(out)@ + hex_digits(n as nat, k as nat));
        }
    } else {
        proof {
            assert(out@ =~= old(out)@ + hex_digits(n as nat, k as nat));
        }
    }
}

/// Append a constant with its type.
fn push_constant(out: &mut String, c: &Constant)
    ensures
        final(out)@ == old(out)@ + constant_text(*c),
{
    match c {
        Constant::I1(v) => {
            if *v {
                push_str(out, "i1 true");
            } else {
                push_str(out, "i1 false");
            }
        },
        Constant::I8(v) => {
            push_str(out, "i8 ");
            push_decimal(out, *v as u64);
        },
        Constant::I16(v) => {
            push_str(out, "i16 ");
            push_decimal(out, *v as u64);
        },
        Constant::I32(v) => {
            push_str(out, "i32 ");
            push_decimal(out, *v as u64);
        },
        Constant::I64(v) => {
            push_str(out, "i64 ");
            push_decimal(out, *v);
        },
        Constant::F64(bits) => {
            push_str(out, "f64 0x");
            push_hex_digits(out, *bits, 16);
        },
    }
    proof {
        assert(out@ =~= old(out)@ + constant_text(*c));
    }
}

/// Append value references separated by `, `.
fn push_ids(out: &mut String, ids: &Vec<ValueId>)
    ensures
        final(out)@ == old(out)@ + ids_text(ids@),
{
    let ghost start = out@;
    let mut i: usize = 0;
    while i < ids.len()
        invariant
            i <= ids@.len(),
            out@ == start + ids_text(ids@.subrange(0, i as int)),
        decreases ids.len() - i,
    {
        if i > 0 {
            push_str(out, ", ");
        }
        push_value_ref(out, ids[i]);
        proof {
            let t = ids@.subrange(0, i + 1);
            assert(t.drop_last() =~= ids@.subrange(0, i as int));
            if i == 0 {
                assert(t.len() == 1);
            }
            assert(out@ =~= start + ids_text(t));
        }
        i = i + 1;
    }
    proof {
        assert(ids@.subrange(0, i as int) =~= ids@);
    }
}

/// Append GEP indices separated by `, `.
fn push_gep_indices(out: &mut String, ix: &Vec<GepIndex>)
    ensures
        final(out)@ == old(out)@ + gep_indices_text(ix@),
{
    let ghost start = out@;
    let mut i: usize = 0;
    while i < ix.len()
        invariant
            i <= ix@.len(),
            out@ == start + gep_indices_text(ix@.subrange(0, i as int)),
        decreases ix.len() - i,
    {
        if i > 0 {
            push_str(out, ", ");
        }
        let ghost before = out@;
        match ix[i] {
            GepIndex::Dynamic(id) => push_value_ref(out, id),
            GepIndex::StructField(n) => {
                push_str(out, "field ");
                push_decimal(out, n as u64);
            },
        }
        proof {
            assert(out@ =~= before + gep_index_text(ix@[i as int]));
            let t = ix@.subrange(0, i + 1);
            assert(t.drop_last() =~= ix@.subrange(0, i as int));
            if i == 0 {
                assert(t.len() == 1);
            }
            assert(out@ =~= start + gep_indices_text(t));
        }
        i = i + 1;
    }
    proof {
        assert(ix@.subrange(0, i as int) =~= ix@);
    }
}

/// Append phi operands separated by `, `.
fn push_phi_pairs(out: &mut String, ps: &Vec<(ValueId, String)>)
    ensures
        final(out)@ == old(out)@ + phi_pairs_text(ps@),
{
    let ghost start = out@;
    let mut i: usize = 0;
    while i < ps.len()
        invariant
            i <= ps@.len(),
            out@ == start + phi_pairs_text(ps@.subrange(0, i as int)),
        decreases ps.len() - i,
    {
        if i > 0 {
            push_str(out, ", ");
        }
        let ghost before = out@;
        push_str(out, "[");
        push_quoted(out, &ps[i].1);
        push_str(out, ", ");
        push_value_ref(out, ps[i].0);
        push_str(out, "]");
        proof {
            assert(out@ =~= before + phi_pair_text(ps@[i as int]));
            let t = ps@.subrange(0, i + 1);
            assert(t.drop_last() =~= ps@.subrange(0, i as int));
            if i == 0 {
                assert(t.len() == 1);
            }
            assert(out@ =~= start + phi_pairs_text(t));
        }
        i = i + 1;
    }
    proof {
        assert(ps@.subrange(0, i as int) =~= ps@);
    }
}

/// Append a two-operand instruction.
fn push_binary(out: &mut String, op: &str, ty: IrType, lhs: ValueId, rhs: ValueId)
    ensures
        final(out)@ == old(out)@ + binary_text(op@, ty, lhs, rhs),
{
    push_str(out, op);
    push_str(out, " ");
    push_str(out, ty.as_str());
    push_str(out, " ");
    push_value_ref(out, lhs);
    push_str(out, ", ");
    push_value_ref(out, rhs);
    proof {
        assert(out@ =~= old(out)@ + binary_text(op@, ty, lhs, rhs));
    }
}

/// Append an instruction without result and debug location.
#[verifier::spinoff_prover]
#[verifier::rlimit(50)]
fn push_instruction_body(out: &mut String, instr: &Instruction)
    ensures
        final(out)@ == old(out)@ + instruction_body(*instr),
{
    match instr {
        Instruction::Add { ty, lhs, rhs } => push_binary(out, "add", *ty, *lhs, *rhs),
        Instruction::Sub { ty, lhs, rhs } => push_binary(out, "sub", *ty, *lhs, *rhs),
        Instruction::Mul { ty, lhs, rhs } => push_binary(out, "mul", *ty, *lhs, *rhs),
        Instruction::Div { ty, lhs, rhs } => push_binary(out, "div", *ty, *lhs, *rhs),
        Instruction::Rem { ty, lhs, rhs } => push_binary(out, "rem", *ty, *lhs, *rhs),
        Instruction::And { ty, lhs, rhs } => push_binary(out, "and", *ty, *lhs, *rhs),
        Instruction::Or { ty, lhs, rhs } => push_binary(out, "or", *ty, *lhs, *rhs),
        Instruction::Xor { ty, lhs, rhs } => push_binary(out, "xor", *ty, *lhs, *rhs),
        Instruction::Shl { ty, lhs, rhs } => push_binary(out, "shl", *ty, *lhs, *rhs),
        Instruction::Lshr { ty, lhs, rhs } => push_binary(out, "lshr", *ty, *lhs, *rhs),
        Instruction::Ashr { ty, lhs, rhs } => push_binary(out, "ashr", *ty, *lhs, *rhs),
        Instruction::Eq { ty, lhs, rhs } => push_binary(out, "eq", *ty, *lhs, *rhs),
        Instruction::Lt { ty, lhs, rhs } => push_binary(out, "lt", *ty, *lhs, *rhs),
        Instruction::Gt { ty, lhs, rhs } => push_binary(out, "gt", *ty, *lhs, *rhs),
        Instruction::Cast { op, from_ty, to_ty, value } => {
            push_str(out, "cast ");
            push_str(out, op.name());
            push_str(out, " ");
            push_str(out, from_ty.as_str());
            push_str(out, " ");
            push_str(out, to_ty.as_str());
            push_str(out, " ");
            push_value_ref(out, *value);
        },
        Instruction::Select { ty, condition, then_value, else_value } => {
            push_str(out, "select ");
            push_str(out, ty.as_str());
            push_str(out, " ");
            push_value_ref(out, *condition);
            push_str(out, ", ");
            push_value_ref(out, *then_value);
            push_str(out, ", ");
            push_value_ref(out, *else_value);
        },
        Instruction::Const(c) => {
            push_str(out, "const ");
            push_constant(out, c);
        },
        Instruction::Alloca { ty, count } => {
            push_str(out, "alloca ");
            push_str(out, ty.as_str());
            if *count != 1 {
                push_str(out, ", ");
                push_decimal(out, *count as u64);
            }
        },
        Instruction::Load { ty, addr } => {
            push_str(out, "load ");
            push_str(out, ty.as_str());
            push_str(out, " ");
            push_value_ref(out, *addr);
        },
        Instruction::Store { ty, value, addr } => {
            push_str(out, "store ");
            push_str(out, ty.as_str());
            push_str(out, " ");
            push_value_ref(out, *value);
            push_str(out, ", ");
            push_value_ref(out, *addr);
        },
        Instruction::Call { return_ty, callee, args } => {
            push_str(out, "call ");
            push_str(out, return_ty.as_str());
            push_str(out, " @");
            push_escaped(out, callee);
            push_str(out, "(");
            push_ids(out, args);
            push_str(out, ")");
        },
        Instruction::Phi { ty, incoming } => {
            push_str(out, "phi ");
            push_str(out, ty.as_str());
            push_str(out, " ");
            push_phi_pairs(out, incoming);
        },
        Instruction::Gep { elem_ty, base, indices, .. } => {
            push_str(out, "gep ");
            push_str(out, elem_ty.as_str());
            push_str(out, " ");
            push_value_ref(out, *base);
            push_str(out, ", ");
            push_gep_indices(out, indices);
        },
    }
    proof {
        assert(out@ =~= old(out)@ + instruction_body(*instr));
    }
}

/// Append a debug location suffix.
fn write_debug_loc(out: &mut String, debug: Option<&DebugLoc>)
    ensures
        final(out)@ == old(out)@ + debug_text(
            match debug {
                Some(d) => Some(*d),
                None => None,
            },
        ),
{
    match debug {
        Some(loc) => {
            push_str(out, " !loc ");
            push_quoted(out, &loc.file);
            push_str(out, " ");
            push_decimal(out, loc.line as u64);
            match loc.column {
                Some(col) => {
                    push_str(out, " ");
                    push_decimal(out, col as u64);
                },
                None => {},
            }
            proof {
                assert(out@ =~= old(out)@ + debug_text(Some(*loc)));
            }
        },
        None => {
            proof {
                assert(out@ =~= old(out)@ + debug_text(None));
            }
        },
    }
}

/// Append one instruction line.
fn write_instruction(out: &mut String, instr: &Instruction, result_id: Option<ValueId>, debug: Option<&DebugLoc>)
    ensures
        final(out)@ == old(out)@ + instruction_line(
            *instr,
            match result_id {
                Some(id) => Some(id as nat),
                None => None,
            },
            match debug {
                Some(d) => Some(*d),
                None => None,
            },
        ),
{
    push_str(out, "    ");
    match result_id {
        Some(id) => {
            push_value_ref(out, id);
            push_str(out, " = ");
        },
        None => {},
    }
    push_instruction_body(out, instr);
    write_debug_loc(out, debug);
    push_str(out, "\n");
    proof {
        assert(out@ =~= old(out)@ + instruction_line(
            *instr,
            match result_id {
                Some(id) => Some(id as nat),
                None => None,
            },
            match debug {
                Some(d) => Some(*d),
                None => None,
            },
        ));
    }
}

/// Append a terminator line.
fn write_terminator(out: &mut String, return_ty: IrType, term: &Terminator)
    ensures
        final(out)@ == old(out)@ + terminator_line(return_ty, *term),
{
    match term {
        Terminator::Branch { target } => {
            push_str(out, "    br ");
            push_quoted(out, target);
            push_str(out, "\n");
        },
        Terminator::CondBranch { condition, true_target, false_target } => {
            push_str(out, "    cond_br ");
            push_value_ref(out, *condition);
            push_str(out, ", ");
            push_quoted(out, true_target);
            push_str(out, ", ");
            push_quoted(out, false_target);
            push_str(out, "\n");
        },
        Terminator::Return { value: Some(v) } => {
            push_str(out, "    ret ");
            push_str(out, return_ty.as_str());
            push_str(out, " ");
            push_value_ref(out, *v);
            push_str(out, "\n");
        },
        Terminator::Return { value: None } => {
            push_str(out, "    ret void\n");
        },
        Terminator::Unreachable => {
            push_str(out, "    unreachable\n");
        },
    }
    proof {
        assert(out@ =~= old(out)@ + terminator_line(return_ty, *term));
    }
}

/// Append a block whose first defined value is `first_id`; returns the
/// number after the last value it defines.
fn write_block(out: &mut String, block: &BasicBlock, return_ty: IrType, first_id: ValueId) -> (next: ValueId)
    requires
        first_id + result_count(block.instructions@) <= usize::MAX,
    ensures
        next == first_id + result_count(block.instructions@),
        final(out)@ == old(out)@ + block_text(*block, return_ty, first_id as nat),
{
    push_str(out, "  block ");
    push_quoted(out, &block.label);
    push_str(out, ":\n");
    let ghost head = out@;
    let mut textual_result_id = first_id;
    let mut i: usize = 0;
    while i < block.instructions.len()
        invariant
            i <= block.instructions@.len(),
            first_id + result_count(block.instructions@) <= usize::MAX,
            textual_result_id == first_id + result_count(block.instructions@.subrange(0, i as int)),
            out@ == head + instructions_text(block.instructions@.subrange(0, i as int), block.debug_locs@, first_id as nat),
        decreases block.instructions.len() - i,
    {
        proof {
            lemma_result_count_prefix(block.instructions@, i as int + 1);
            let t = block.instructions@.subrange(0, i + 1);
            assert(t.drop_last() =~= block.instructions@.subrange(0, i as int));
        }
        let instr = &block.instructions[i];
        let result_id = if instr.result_type().is_some() {
            let id = textual_result_id;
            textual_result_id = textual_result_id + 1;
            Some(id)
        } else {
            None
        };
        write_instruction(out, instr, result_id, block.debug_loc(i));
        proof {
            let t = block.instructions@.subrange(0, i + 1);
            assert(t.last() == block.instructions@[i as int]);
            assert(out@ =~= head + instructions_text(t, block.debug_locs@, first_id as nat));
        }
        i = i + 1;
    }
    proof {
        assert(block.instructions@.subrange(0, i as int) =~= block.instructions@);
    }
    write_terminator(out, return_ty, &block.terminator);
    proof {
        assert(out@ =~= old(out)@ + block_text(*block, return_ty, first_id as nat));
    }
    textual_result_id
}

pub proof fn lemma_result_count_prefix(instrs: Seq<Instruction>, k: int)
    requires
        0 <= k <= instrs.len(),
    ensures
        result_count(instrs.subrange(0, k)) <= result_count(instrs),
    decreases instrs.len() - k,
{
    if k < instrs.len() {
        lemma_result_count_prefix(instrs, k + 1);
        let t = instrs.subrange(0, k + 1);
        assert(t.drop_last() =~= instrs.subrange(0, k));
    } else {
        assert(instrs.subrange(0, k) =~= instrs);
    }
}

pub proof fn lemma_blocks_result_count_prefix(bs: Seq<BasicBlock>, k: int)
    requires
        0 <= k <= bs.len(),
    ensures
        blocks_result_count(bs.subrange(0, k)) <= blocks_result_count(bs),
    decreases bs.len() - k,
{
    if k < bs.len() {
        lemma_blocks_result_count_prefix(bs, k + 1);
        let t = bs.subrange(0, k + 1);
        assert(t.drop_last() =~= bs.subrange(0, k));
    } else {
        assert(bs.subrange(0, k) =~= bs);
    }
}

/// The values a function defines fit the id range: parameters and
/// instruction results together number at most `usize::MAX`.
pub open spec fn ids_fit(f: IrFunction) -> bool {
    f.params@.len() + blocks_result_count(f.blocks@) <= usize::MAX
}

/// Append a function.
fn write_function(out: &mut String, func: &IrFunction)
    requires
        ids_fit(*func),
    ensures
        final(out)@ == old(out)@ + function_text(*func),
{
    push_str(out, "func @");
    push_escaped(out, &func.name);
    push_str(out, " -> ");
    push_str(out, func.return_ty.as_str());
    push_str(out, " entry ");
    push_quoted(out, &func.entry_block);
    push_str(out, " {\n");
    let ghost head = out@;
    let mut i: usize = 0;
    while i < func.params.len()
        invariant
            i <= func.params@.len(),
            out@ == head + params_text(func.params@.subrange(0, i as int)),
        decreases func.params.len() - i,
    {
        push_str(out, "  param ");
        push_str(out, func.params[i].0.as_str());
        push_str(out, " ");
        push_value_ref(out, i);
        push_str(out, "\n");
        proof {
            let t = func.params@.subrange(0, i + 1);
            assert(t.drop_last() =~= func.params@.subrange(0, i as int));
            assert(out@ =~= head + params_text(t));
        }
        i = i + 1;
    }
    proof {
        assert(func.params@.subrange(0, i as int) =~= func.params@);
    }
    let ghost mid = out@;
    let mut next_id: usize = func.params.len();
    let mut b: usize = 0;
    while b < func.blocks.len()
        invariant
            ids_fit(*func),
            b <= func.blocks@.len(),
            next_id == func.params@.len() + blocks_result_count(func.blocks@.subrange(0, b as int)),
            out@ == mid + blocks_text(func.blocks@.subrange(0, b as int), func.return_ty, func.params@.len()),
        decreases func.blocks.len() - b,
    {
        let ghost t = func.blocks@.subrange(0, b + 1);
        proof {
            assert(t.drop_last() =~= func.blocks@.subrange(0, b as int));
            lemma_blocks_result_count_prefix(func.blocks@, b + 1);
        }
        next_id = write_block(out, &func.blocks[b], func.return_ty, next_id);
        proof {
            assert(out@ =~= mid + blocks_text(t, func.return_ty, func.params@.len()));
        }
        b = b + 1;
    }
    proof {
        assert(func.blocks@.subrange(0, b as int) =~= func.blocks@);
    }
    push_str(out, "}\n");
    proof {
        assert(out@ =~= old(out)@ + function_text(*func));
    }
}

/// The value numbers of every function fit the id range.
pub open spec fn module_ids_fit(m: IrModule) -> bool {
    forall|i: int| 0 <= i < m.functions@.len() ==> ids_fit(#[trigger] m.functions@[i])
}

} // verus!
