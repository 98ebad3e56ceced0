//! The syntax tree of an LLVM module, as the parser produces it.

use vstd::prelude::*;

verus! {

/// An LLVM type.
#[derive(Debug, PartialEq)]
pub enum LlvmType {
    I1,
    I8,
    I16,
    I32,
    I64,
    Ptr,
    Void,
    Array { inner: Box<LlvmType>, count: u32 },
    /// A named struct type (`%struct.Pair`).
    Struct(String),
    UnnamedStruct { fields: Vec<LlvmType> },
}

/// A typed integer constant.
#[derive(Debug, PartialEq)]
pub struct LlvmConst {
    pub value: i64,
    pub ty: LlvmType,
}

/// An operand.
#[derive(Debug, PartialEq)]
pub enum LlvmValue {
    Const(LlvmConst),
    Local(String),
    Global(String),
    /// An inline `getelementptr` constant expression used as an operand.
    GepConstExpr { elem_ty: LlvmType, base: Box<LlvmValue>, indices: Vec<LlvmValue> },
}

/// Integer comparison predicates.
#[derive(Debug, Clone, Copy, PartialEq, Eq, Structural)]
pub enum IcmpPred {
    Eq,
    Ne,
    Slt,
    Sgt,
    Sle,
    Sge,
    Ult,
    Ugt,
    Ule,
    Uge,
}

/// LLVM integer-conversion operators.
#[derive(Debug, Clone, Copy, PartialEq, Eq, Structural)]
pub enum CastOp {
    Zext,
    Sext,
    Trunc,
    Bitcast,
    PtrToInt,
    IntToPtr,
}

/// An LLVM instruction (terminators included).
#[derive(Debug, Clone, PartialEq)]
pub enum LlvmInstr {
    /// A binary integer operation; `op` is the raw opcode (`add`, `sdiv`, …).
    BinOp { dest: Option<String>, op: String, ty: LlvmType, lhs: LlvmValue, rhs: LlvmValue },
    Icmp { dest: String, pred: IcmpPred, ty: LlvmType, lhs: LlvmValue, rhs: LlvmValue },
    Ret { value: Option<LlvmValue> },
    Br { target: String },
    CondBr { cond: LlvmValue, true_target: String, false_target: String },
    Alloca { dest: String, ty: LlvmType, count: u32 },
    Load { dest: String, ty: LlvmType, addr: LlvmValue },
    Store { ty: LlvmType, value: LlvmValue, addr: LlvmValue },
    Call { dest: Option<String>, return_ty: LlvmType, callee: String, args: Vec<LlvmValue> },
    Gep { dest: String, elem_ty: LlvmType, base: LlvmValue, indices: Vec<LlvmValue> },
    /// Integer conversion: `%d = zext i8 %v to i32` etc.
    Cast { dest: String, op: CastOp, from_ty: LlvmType, to_ty: LlvmType, value: LlvmValue },
    /// `%d = select i1 %c, <ty> %a, <ty> %b`
    Select { dest: String, ty: LlvmType, cond: LlvmValue, then_value: LlvmValue, else_value: LlvmValue },
    /// `switch <ty> %v, label %def [ <ty> c, label %t ... ]`
    Switch { cond_ty: LlvmType, cond: LlvmValue, default_target: String, cases: Vec<(LlvmConst, String)> },
    Unreachable,
    /// `%r = phi <ty> [ <value>, %<pred> ] ...`: one incoming value per
    /// predecessor block.
    Phi { dest: String, ty: LlvmType, incoming: Vec<(LlvmValue, String)> },
}

/// A labelled basic block.
#[derive(Debug, Clone, PartialEq)]
pub struct LlvmBlock {
    pub label: String,
    pub instructions: Vec<LlvmInstr>,
}

/// A function definition or declaration.
#[derive(Debug, Clone, PartialEq)]
pub struct LlvmFunction {
    pub name: String,
    pub return_ty: LlvmType,
    pub params: Vec<(LlvmType, String)>,
    pub blocks: Vec<LlvmBlock>,
    pub is_declaration: bool,
}

/// A parsed module.
#[derive(Debug, Clone, PartialEq)]
pub struct LlvmProgram {
    pub functions: Vec<LlvmFunction>,
    /// Named struct type definitions (`%struct.Pair = type { i32, i32 }`) in
    /// source order; a later definition of a name overrides an earlier one.
    pub struct_types: Vec<(String, Vec<LlvmType>)>,
    /// Module-level global variable/constant definitions.
    pub globals: Vec<LlvmGlobal>,
}

/// A module-level global: `@name = global <ty> <init>`.
#[derive(Debug, Clone, PartialEq)]
pub struct LlvmGlobal {
    pub name: String,
    pub ty: LlvmType,
    /// `true` for `constant` (immutable); `false` for writable `global`.
    pub is_constant: bool,
    pub init: LlvmGlobalInit,
}

/// The static initializer of a global.
#[derive(Debug, PartialEq)]
pub enum LlvmGlobalInit {
    /// `zeroinitializer` (or an `external`/`common` global without one).
    Zero,
    /// A typed scalar integer.
    Scalar(LlvmConst),
    /// `null`.
    Null,
    /// `@other`: the address of another global.
    GlobalRef(String),
    /// `c"…"`: a decoded byte string.
    Bytes(Vec<u8>),
    /// `[<ty> <val>, …]`: a typed constant-array element list.
    Array(Vec<LlvmGlobalInit>),
}

/// `b` is a copy of type `a`: the same shape, with equal texts and counts.
pub open spec fn same_type(a: LlvmType, b: LlvmType) -> bool
    decreases a,
{
    match a {
        LlvmType::Array { inner, count } => b matches LlvmType::Array { inner: i2, count: c2 } && c2 == count
            && same_type(*inner, *i2),
        LlvmType::UnnamedStruct { fields } => b matches LlvmType::UnnamedStruct { fields: g } && same_types(
            fields@,
            g@,
        ),
        _ => b == a,
    }
}

/// `t` is a copy of types `s`, one by one.
pub open spec fn same_types(s: Seq<LlvmType>, t: Seq<LlvmType>) -> bool
    decreases s,
{
    if s.len() == 0 {
        t.len() == 0
    } else {
        &&& t.len() == s.len()
        &&& same_types(s.subrange(0, s.len() - 1), t.subrange(0, t.len() - 1))
        &&& same_type(s[s.len() - 1], t[t.len() - 1])
    }
}

/// `b` is a copy of operand `a`.
pub open spec fn same_value(a: LlvmValue, b: LlvmValue) -> bool
    decreases a,
{
    match a {
        LlvmValue::Const(c) => b matches LlvmValue::Const(d) && d.value == c.value && same_type(c.ty, d.ty),
        LlvmValue::GepConstExpr { elem_ty, base, indices } => b matches LlvmValue::GepConstExpr {
            elem_ty: e2,
            base: b2,
            indices: i2,
        } && same_type(elem_ty, e2) && same_value(*base, *b2) && same_values(indices@, i2@),
        _ => b == a,
    }
}

/// `t` is a copy of operands `s`, one by one.
pub open spec fn same_values(s: Seq<LlvmValue>, t: Seq<LlvmValue>) -> bool
    decreases s,
{
    if s.len() == 0 {
        t.len() == 0
    } else {
        &&& t.len() == s.len()
        &&& same_values(s.subrange(0, s.len() - 1), t.subrange(0, t.len() - 1))
        &&& same_value(s[s.len() - 1], t[t.len() - 1])
    }
}

/// `b` is a copy of global initializer `a`.
pub open spec fn same_init(a: LlvmGlobalInit, b: LlvmGlobalInit) -> bool
    decreases a,
{
    match a {
        LlvmGlobalInit::Scalar(c) => b matches LlvmGlobalInit::Scalar(d) && d.value == c.value && same_type(c.ty, d.ty),
        LlvmGlobalInit::Bytes(v) => b matches LlvmGlobalInit::Bytes(w) && w@ == v@,
        LlvmGlobalInit::Array(elems) => b matches LlvmGlobalInit::Array(e2) && same_inits(elems@, e2@),
        _ => b == a,
    }
}

/// `t` is a copy of initializers `s`, one by one.
pub open spec fn same_inits(s: Seq<LlvmGlobalInit>, t: Seq<LlvmGlobalInit>) -> bool
    decreases s,
{
    if s.len() == 0 {
        t.len() == 0
    } else {
        &&& t.len() == s.len()
        &&& same_inits(s.subrange(0, s.len() - 1), t.subrange(0, t.len() - 1))
        &&& same_init(s[s.len() - 1], t[t.len() - 1])
    }
}

/// Every type is a copy of itself.
pub proof fn lemma_same_type_refl(t: LlvmType)
    ensures
        same_type(t, t),
    decreases t,
{
    match t {
        LlvmType::Array { inner, .. } => lemma_same_type_refl(*inner),
        LlvmType::UnnamedStruct { fields } => {
            assert(decreases_to!(t => fields));
            assert(decreases_to!(fields => fields@));
            lemma_same_types_refl(fields@);
        },
        _ => {},
    }
}

/// Every list of types is a copy of itself.
pub proof fn lemma_same_types_refl(s: Seq<LlvmType>)
    ensures
        same_types(s, s),
    decreases s,
{
    if s.len() > 0 {
        lemma_same_types_refl(s.subrange(0, s.len() - 1));
        lemma_same_type_refl(s[s.len() - 1]);
    }
}

/// A copy of a type.
pub fn copy_type(t: &LlvmType) -> (r: LlvmType)
    ensures
        same_type(*t, r),
    decreases t,
{
    match t {
        LlvmType::I1 => LlvmType::I1,
        LlvmType::I8 => LlvmType::I8,
        LlvmType::I16 => LlvmType::I16,
        LlvmType::I32 => LlvmType::I32,
        LlvmType::I64 => LlvmType::I64,
        LlvmType::Ptr => LlvmType::Ptr,
        LlvmType::Void => LlvmType::Void,
        LlvmType::Array { inner, count } => LlvmType::Array {
            inner: Box::new(copy_type(inner)),
            count: *count,
        },
        LlvmType::Struct(n) => LlvmType::Struct(n.clone()),
        LlvmType::UnnamedStruct { fields } => {
            let mut out: Vec<LlvmType> = Vec::new();
            let mut i: usize = 0;
            #[verifier::loop_isolation(false)]
            while i < fields.len()
                invariant
                    i <= fields@.len(),
                    same_types(fields@.subrange(0, i as int), out@),
                decreases fields.len() - i,
            {
                proof {
                    assert(decreases_to!(*t => *fields));
                    assert(decreases_to!(*fields => fields@));
                    assert(decreases_to!(fields@ => fields@[i as int]));
                }
                let ghost before = out@;
                out.push(copy_type(&fields[i]));
                proof {
                    let t2 = fields@.subrange(0, i + 1);
                    assert(t2.subrange(0, t2.len() - 1) =~= fields@.subrange(0, i as int));
                    assert(out@.subrange(0, out@.len() - 1) =~= before);
                }
                i = i + 1;
            }
            proof {
                assert(fields@.subrange(0, i as int) =~= fields@);
            }
            LlvmType::UnnamedStruct { fields: out }
        },
    }
}

impl Clone for LlvmType {
    fn clone(&self) -> Self {
        copy_type(self)
    }
}

impl Clone for LlvmConst {
    fn clone(&self) -> Self {
        LlvmConst { value: self.value, ty: copy_type(&self.ty) }
    }
}

/// A copy of an operand.
pub fn copy_value(v: &LlvmValue) -> (r: LlvmValue)
    ensures
        same_value(*v, r),
    decreases v,
{
    match v {
        LlvmValue::Const(c) => LlvmValue::Const(LlvmConst { value: c.value, ty: copy_type(&c.ty) }),
        LlvmValue::Local(n) => LlvmValue::Local(n.clone()),
        LlvmValue::Global(n) => LlvmValue::Global(n.clone()),
        LlvmValue::GepConstExpr { elem_ty, base, indices } => {
            let mut out: Vec<LlvmValue> = Vec::new();
            let mut i: usize = 0;
            #[verifier::loop_isolation(false)]
            while i < indices.len()
                invariant
                    i <= indices@.len(),
                    same_values(indices@.subrange(0, i as int), out@),
                decreases indices.len() - i,
            {
                proof {
                    assert(decreases_to!(*v => *indices));
                    assert(decreases_to!(*indices => indices@));
                    assert(decreases_to!(indices@ => indices@[i as int]));
                }
                let ghost before = out@;
                out.push(copy_value(&indices[i]));
                proof {
                    let t2 = indices@.subrange(0, i + 1);
                    assert(t2.subrange(0, t2.len() - 1) =~= indices@.subrange(0, i as int));
                    assert(out@.subrange(0, out@.len() - 1) =~= before);
                }
                i = i + 1;
            }
            proof {
                assert(indices@.subrange(0, i as int) =~= indices@);
            }
            LlvmValue::GepConstExpr {
                elem_ty: copy_type(elem_ty),
                base: Box::new(copy_value(base)),
                indices: out,
            }
        },
    }
}

impl Clone for LlvmValue {
    fn clone(&self) -> Self {
        copy_value(self)
    }
}

/// A copy of a global initializer.
pub fn copy_init(g: &LlvmGlobalInit) -> (r: LlvmGlobalInit)
    ensures
        same_init(*g, r),
    decreases g,
{
    match g {
        LlvmGlobalInit::Zero => LlvmGlobalInit::Zero,
        LlvmGlobalInit::Scalar(c) => LlvmGlobalInit::Scalar(LlvmConst { value: c.value, ty: copy_type(&c.ty) }),
        LlvmGlobalInit::Null => LlvmGlobalInit::Null,
        LlvmGlobalInit::GlobalRef(n) => LlvmGlobalInit::GlobalRef(n.clone()),
        LlvmGlobalInit::Bytes(b) => LlvmGlobalInit::Bytes(b.clone()),
        LlvmGlobalInit::Array(elems) => {
            let mut out: Vec<LlvmGlobalInit> = Vec::new();
            let mut i: usize = 0;
            #[verifier::loop_isolation(false)]
            while i < elems.len()
                invariant
                    i <= elems@.len(),
                    same_inits(elems@.subrange(0, i as int), out@),
                decreases elems.len() - i,
            {
                proof {
                    assert(decreases_to!(*g => *elems));
                    assert(decreases_to!(*elems => elems@));
                    assert(decreases_to!(elems@ => elems@[i as int]));
                }
                let ghost before = out@;
                out.push(copy_init(&elems[i]));
                proof {
                    let t2 = elems@.subrange(0, i + 1);
                    assert(t2.subrange(0, t2.len() - 1) =~= elems@.subrange(0, i as int));
                    assert(out@.subrange(0, out@.len() - 1) =~= before);
                }
                i = i + 1;
            }
            proof {
                assert(elems@.subrange(0, i as int) =~= elems@);
            }
            LlvmGlobalInit::Array(out)
        },
    }
}

impl Clone for LlvmGlobalInit {
    fn clone(&self) -> Self {
        copy_init(self)
    }
}

} // verus!
