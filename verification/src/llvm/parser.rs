//! Recursive-descent parser for the LLVM textual IR subset ScratchArch reads.
//!
//! Every parsing step either fails or consumes tokens: `progress` (twice the
//! characters left, plus one while the current token is not end-of-input)
//! never grows, and shrinks whenever a parsing function succeeds.

use vstd::prelude::*;

use crate::llvm::chars::str_equal;
use crate::llvm::errors::LlvmError;
use crate::llvm::lexer::{is_ident, lemma_token_at_unique, lexes, same_token, token_at, token_eq, word_token_matches, Lexer, Token};
use crate::llvm::syntax::{
    copy_type, lemma_same_type_refl, same_type, CastOp, IcmpPred, LlvmBlock, LlvmConst, LlvmFunction, LlvmGlobal, LlvmGlobalInit,
    LlvmInstr, LlvmProgram, LlvmType, LlvmValue,
};
use crate::strings::{push_signed_decimal, push_str, signed_decimal};

verus! {

/// The keyword a primitive type token stands for.
pub open spec fn keyword_type(t: Token) -> Option<LlvmType> {
    match t {
        Token::I1 => Some(LlvmType::I1),
        Token::I8 => Some(LlvmType::I8),
        Token::I16 => Some(LlvmType::I16),
        Token::I32 => Some(LlvmType::I32),
        Token::Ptr => Some(LlvmType::Ptr),
        Token::Void => Some(LlvmType::Void),
        Token::Ident(s) => if s@ == "i64"@ {
            Some(LlvmType::I64)
        } else {
            None
        },
        _ => None,
    }
}

/// LLVM's spelling of a primitive type; the other types have no keyword.
pub open spec fn type_keyword(t: LlvmType) -> Option<Seq<char>> {
    match t {
        LlvmType::I1 => Some("i1"@),
        LlvmType::I8 => Some("i8"@),
        LlvmType::I16 => Some("i16"@),
        LlvmType::I32 => Some("i32"@),
        LlvmType::I64 => Some("i64"@),
        LlvmType::Ptr => Some("ptr"@),
        LlvmType::Void => Some("void"@),
        _ => None,
    }
}

/// A type word is read as the type of that name: when the lexer reads word
/// `w` as token `t` and `t` stands for a primitive type, `w` is that type's
/// keyword; and the keyword of every primitive type reads as that type.
pub proof fn lemma_type_words(w: Seq<char>, t: Token)
    requires
        word_token_matches(w, t),
    ensures
        keyword_type(t) matches Some(ty) ==> type_keyword(ty) == Some(w),
        forall|ty: LlvmType| #[trigger] type_keyword(ty) == Some(w) ==> keyword_type(t) == Some(ty),
{
    reveal_strlit("declare");
    reveal_strlit("define");
    reveal_strlit("eq");
    reveal_strlit("false");
    reveal_strlit("i1");
    reveal_strlit("i16");
    reveal_strlit("i32");
    reveal_strlit("i64");
    reveal_strlit("i8");
    reveal_strlit("ne");
    reveal_strlit("ptr");
    reveal_strlit("sge");
    reveal_strlit("sgt");
    reveal_strlit("sle");
    reveal_strlit("slt");
    reveal_strlit("true");
    reveal_strlit("void");
    assert("i1"@.len() != "define"@.len());
    assert("i1"@.len() != "declare"@.len());
    assert("i1"@[1] != "i8"@[1]);
    assert("i1"@.len() != "i16"@.len());
    assert("i1"@.len() != "i32"@.len());
    assert("i1"@.len() != "ptr"@.len());
    assert("i1"@.len() != "void"@.len());
    assert("i1"@.len() != "true"@.len());
    assert("i1"@.len() != "false"@.len());
    assert("i1"@[0] != "eq"@[0]);
    assert("i1"@[0] != "ne"@[0]);
    assert("i1"@.len() != "slt"@.len());
    assert("i1"@.len() != "sgt"@.len());
    assert("i1"@.len() != "sle"@.len());
    assert("i1"@.len() != "sge"@.len());
    assert("i1"@.len() != "i64"@.len());
    assert("i8"@.len() != "define"@.len());
    assert("i8"@.len() != "declare"@.len());
    assert("i8"@.len() != "i16"@.len());
    assert("i8"@.len() != "i32"@.len());
    assert("i8"@.len() != "ptr"@.len());
    assert("i8"@.len() != "void"@.len());
    assert("i8"@.len() != "true"@.len());
    assert("i8"@.len() != "false"@.len());
    assert("i8"@[0] != "eq"@[0]);
    assert("i8"@[0] != "ne"@[0]);
    assert("i8"@.len() != "slt"@.len());
    assert("i8"@.len() != "sgt"@.len());
    assert("i8"@.len() != "sle"@.len());
    assert("i8"@.len() != "sge"@.len());
    assert("i8"@.len() != "i64"@.len());
    assert("i16"@.len() != "define"@.len());
    assert("i16"@.len() != "declare"@.len());
    assert("i16"@[1] != "i32"@[1]);
    assert("i16"@[0] != "ptr"@[0]);
    assert("i16"@.len() != "void"@.len());
    assert("i16"@.len() != "true"@.len());
    assert("i16"@.len() != "false"@.len());
    assert("i16"@.len() != "eq"@.len());
    assert("i16"@.len() != "ne"@.len());
    assert("i16"@[0] != "slt"@[0]);
    assert("i16"@[0] != "sgt"@[0]);
    assert("i16"@[0] != "sle"@[0]);
    assert("i16"@[0] != "sge"@[0]);
    assert("i16"@[1] != "i64"@[1]);
    assert("i32"@.len() != "define"@.len());
    assert("i32"@.len() != "declare"@.len());
    assert("i32"@[0] != "ptr"@[0]);
    assert("i32"@.len() != "void"@.len());
    assert("i32"@.len() != "true"@.len());
    assert("i32"@.len() != "false"@.len());
    assert("i32"@.len() != "eq"@.len());
    assert("i32"@.len() != "ne"@.len());
    assert("i32"@[0] != "slt"@[0]);
    assert("i32"@[0] != "sgt"@[0]);
    assert("i32"@[0] != "sle"@[0]);
    assert("i32"@[0] != "sge"@[0]);
    assert("i32"@[1] != "i64"@[1]);
    assert("i64"@.len() != "define"@.len());
    assert("i64"@.len() != "declare"@.len());
    assert("i64"@[0] != "ptr"@[0]);
    assert("i64"@.len() != "void"@.len());
    assert("i64"@.len() != "true"@.len());
    assert("i64"@.len() != "false"@.len());
    assert("i64"@.len() != "eq"@.len());
    assert("i64"@.len() != "ne"@.len());
    assert("i64"@[0] != "slt"@[0]);
    assert("i64"@[0] != "sgt"@[0]);
    assert("i64"@[0] != "sle"@[0]);
    assert("i64"@[0] != "sge"@[0]);
    assert("ptr"@.len() != "define"@.len());
    assert("ptr"@.len() != "declare"@.len());
    assert("ptr"@.len() != "void"@.len());
    assert("ptr"@.len() != "true"@.len());
    assert("ptr"@.len() != "false"@.len());
    assert("ptr"@.len() != "eq"@.len());
    assert("ptr"@.len() != "ne"@.len());
    assert("ptr"@[0] != "slt"@[0]);
    assert("ptr"@[0] != "sgt"@[0]);
    assert("ptr"@[0] != "sle"@[0]);
    assert("ptr"@[0] != "sge"@[0]);
    assert("void"@.len() != "define"@.len());
    assert("void"@.len() != "declare"@.len());
    assert("void"@[0] != "true"@[0]);
    assert("void"@.len() != "false"@.len());
    assert("void"@.len() != "eq"@.len());
    assert("void"@.len() != "ne"@.len());
    assert("void"@.len() != "slt"@.len());
    assert("void"@.len() != "sgt"@.len());
    assert("void"@.len() != "sle"@.len());
    assert("void"@.len() != "sge"@.len());
    assert forall|ty: LlvmType| #[trigger] type_keyword(ty) == Some(w) implies keyword_type(t) == Some(ty) by {
        match ty {
            LlvmType::I1 => {},
            LlvmType::I8 => {},
            LlvmType::I16 => {},
            LlvmType::I32 => {},
            LlvmType::I64 => {},
            LlvmType::Ptr => {},
            LlvmType::Void => {},
            _ => {},
        }
    }
}

/// The predicate a predicate token stands for.
pub open spec fn predicate_of(t: Token) -> Option<IcmpPred> {
    match t {
        Token::EqPred => Some(IcmpPred::Eq),
        Token::NePred => Some(IcmpPred::Ne),
        Token::SltPred => Some(IcmpPred::Slt),
        Token::SgtPred => Some(IcmpPred::Sgt),
        Token::SlePred => Some(IcmpPred::Sle),
        Token::SgePred => Some(IcmpPred::Sge),
        Token::Ident(s) => if s@ == "ult"@ {
            Some(IcmpPred::Ult)
        } else if s@ == "ugt"@ {
            Some(IcmpPred::Ugt)
        } else if s@ == "ule"@ {
            Some(IcmpPred::Ule)
        } else if s@ == "uge"@ {
            Some(IcmpPred::Uge)
        } else {
            None
        },
        _ => None,
    }
}

/// LLVM's spelling of an integer comparison predicate.
pub open spec fn predicate_name(p: IcmpPred) -> Seq<char> {
    match p {
        IcmpPred::Eq => "eq"@,
        IcmpPred::Ne => "ne"@,
        IcmpPred::Slt => "slt"@,
        IcmpPred::Sgt => "sgt"@,
        IcmpPred::Sle => "sle"@,
        IcmpPred::Sge => "sge"@,
        IcmpPred::Ult => "ult"@,
        IcmpPred::Ugt => "ugt"@,
        IcmpPred::Ule => "ule"@,
        IcmpPred::Uge => "uge"@,
    }
}

/// The predicates' names read as their own predicates.
proof fn lemma_predicate_names_read_back(p: IcmpPred, t: Token)
    requires
        word_token_matches(predicate_name(p), t),
    ensures
        predicate_of(t) == Some(p),
{
    reveal_strlit("declare");
    reveal_strlit("define");
    reveal_strlit("eq");
    reveal_strlit("false");
    reveal_strlit("i1");
    reveal_strlit("i16");
    reveal_strlit("i32");
    reveal_strlit("i8");
    reveal_strlit("ne");
    reveal_strlit("ptr");
    reveal_strlit("sge");
    reveal_strlit("sgt");
    reveal_strlit("sle");
    reveal_strlit("slt");
    reveal_strlit("true");
    reveal_strlit("uge");
    reveal_strlit("ugt");
    reveal_strlit("ule");
    reveal_strlit("ult");
    reveal_strlit("void");
    assert("eq"@.len() != "define"@.len());
    assert("eq"@.len() != "declare"@.len());
    assert("eq"@[0] != "i1"@[0]);
    assert("eq"@[0] != "i8"@[0]);
    assert("eq"@.len() != "i16"@.len());
    assert("eq"@.len() != "i32"@.len());
    assert("eq"@.len() != "ptr"@.len());
    assert("eq"@.len() != "void"@.len());
    assert("eq"@.len() != "true"@.len());
    assert("eq"@.len() != "false"@.len());
    assert("ne"@.len() != "define"@.len());
    assert("ne"@.len() != "declare"@.len());
    assert("ne"@[0] != "i1"@[0]);
    assert("ne"@[0] != "i8"@[0]);
    assert("ne"@.len() != "i16"@.len());
    assert("ne"@.len() != "i32"@.len());
    assert("ne"@.len() != "ptr"@.len());
    assert("ne"@.len() != "void"@.len());
    assert("ne"@.len() != "true"@.len());
    assert("ne"@.len() != "false"@.len());
    assert("ne"@[0] != "eq"@[0]);
    assert("slt"@.len() != "define"@.len());
    assert("slt"@.len() != "declare"@.len());
    assert("slt"@.len() != "i1"@.len());
    assert("slt"@.len() != "i8"@.len());
    assert("slt"@[0] != "i16"@[0]);
    assert("slt"@[0] != "i32"@[0]);
    assert("slt"@[0] != "ptr"@[0]);
    assert("slt"@.len() != "void"@.len());
    assert("slt"@.len() != "true"@.len());
    assert("slt"@.len() != "false"@.len());
    assert("slt"@.len() != "eq"@.len());
    assert("slt"@.len() != "ne"@.len());
    assert("sgt"@.len() != "define"@.len());
    assert("sgt"@.len() != "declare"@.len());
    assert("sgt"@.len() != "i1"@.len());
    assert("sgt"@.len() != "i8"@.len());
    assert("sgt"@[0] != "i16"@[0]);
    assert("sgt"@[0] != "i32"@[0]);
    assert("sgt"@[0] != "ptr"@[0]);
    assert("sgt"@.len() != "void"@.len());
    assert("sgt"@.len() != "true"@.len());
    assert("sgt"@.len() != "false"@.len());
    assert("sgt"@.len() != "eq"@.len());
    assert("sgt"@.len() != "ne"@.len());
    assert("sgt"@[1] != "slt"@[1]);
    assert("sle"@.len() != "define"@.len());
    assert("sle"@.len() != "declare"@.len());
    assert("sle"@.len() != "i1"@.len());
    assert("sle"@.len() != "i8"@.len());
    assert("sle"@[0] != "i16"@[0]);
    assert("sle"@[0] != "i32"@[0]);
    assert("sle"@[0] != "ptr"@[0]);
    assert("sle"@.len() != "void"@.len());
    assert("sle"@.len() != "true"@.len());
    assert("sle"@.len() != "false"@.len());
    assert("sle"@.len() != "eq"@.len());
    assert("sle"@.len() != "ne"@.len());
    assert("sle"@[2] != "slt"@[2]);
    assert("sle"@[1] != "sgt"@[1]);
    assert("sge"@.len() != "define"@.len());
    assert("sge"@.len() != "declare"@.len());
    assert("sge"@.len() != "i1"@.len());
    assert("sge"@.len() != "i8"@.len());
    assert("sge"@[0] != "i16"@[0]);
    assert("sge"@[0] != "i32"@[0]);
    assert("sge"@[0] != "ptr"@[0]);
    assert("sge"@.len() != "void"@.len());
    assert("sge"@.len() != "true"@.len());
    assert("sge"@.len() != "false"@.len());
    assert("sge"@.len() != "eq"@.len());
    assert("sge"@.len() != "ne"@.len());
    assert("sge"@[1] != "slt"@[1]);
    assert("sge"@[2] != "sgt"@[2]);
    assert("sge"@[1] != "sle"@[1]);
    assert("ult"@.len() != "define"@.len());
    assert("ult"@.len() != "declare"@.len());
    assert("ult"@.len() != "i1"@.len());
    assert("ult"@.len() != "i8"@.len());
    assert("ult"@[0] != "i16"@[0]);
    assert("ult"@[0] != "i32"@[0]);
    assert("ult"@[0] != "ptr"@[0]);
    assert("ult"@.len() != "void"@.len());
    assert("ult"@.len() != "true"@.len());
    assert("ult"@.len() != "false"@.len());
    assert("ult"@.len() != "eq"@.len());
    assert("ult"@.len() != "ne"@.len());
    assert("ult"@[0] != "slt"@[0]);
    assert("ult"@[0] != "sgt"@[0]);
    assert("ult"@[0] != "sle"@[0]);
    assert("ult"@[0] != "sge"@[0]);
    assert("ugt"@.len() != "define"@.len());
    assert("ugt"@.len() != "declare"@.len());
    assert("ugt"@.len() != "i1"@.len());
    assert("ugt"@.len() != "i8"@.len());
    assert("ugt"@[0] != "i16"@[0]);
    assert("ugt"@[0] != "i32"@[0]);
    assert("ugt"@[0] != "ptr"@[0]);
    assert("ugt"@.len() != "void"@.len());
    assert("ugt"@.len() != "true"@.len());
    assert("ugt"@.len() != "false"@.len());
    assert("ugt"@.len() != "eq"@.len());
    assert("ugt"@.len() != "ne"@.len());
    assert("ugt"@[0] != "slt"@[0]);
    assert("ugt"@[0] != "sgt"@[0]);
    assert("ugt"@[0] != "sle"@[0]);
    assert("ugt"@[0] != "sge"@[0]);
    assert("ugt"@[1] != "ult"@[1]);
    assert("ule"@.len() != "define"@.len());
    assert("ule"@.len() != "declare"@.len());
    assert("ule"@.len() != "i1"@.len());
    assert("ule"@.len() != "i8"@.len());
    assert("ule"@[0] != "i16"@[0]);
    assert("ule"@[0] != "i32"@[0]);
    assert("ule"@[0] != "ptr"@[0]);
    assert("ule"@.len() != "void"@.len());
    assert("ule"@.len() != "true"@.len());
    assert("ule"@.len() != "false"@.len());
    assert("ule"@.len() != "eq"@.len());
    assert("ule"@.len() != "ne"@.len());
    assert("ule"@[0] != "slt"@[0]);
    assert("ule"@[0] != "sgt"@[0]);
    assert("ule"@[0] != "sle"@[0]);
    assert("ule"@[0] != "sge"@[0]);
    assert("ule"@[2] != "ult"@[2]);
    assert("ule"@[1] != "ugt"@[1]);
    assert("uge"@.len() != "define"@.len());
    assert("uge"@.len() != "declare"@.len());
    assert("uge"@.len() != "i1"@.len());
    assert("uge"@.len() != "i8"@.len());
    assert("uge"@[0] != "i16"@[0]);
    assert("uge"@[0] != "i32"@[0]);
    assert("uge"@[0] != "ptr"@[0]);
    assert("uge"@.len() != "void"@.len());
    assert("uge"@.len() != "true"@.len());
    assert("uge"@.len() != "false"@.len());
    assert("uge"@.len() != "eq"@.len());
    assert("uge"@.len() != "ne"@.len());
    assert("uge"@[0] != "slt"@[0]);
    assert("uge"@[0] != "sgt"@[0]);
    assert("uge"@[0] != "sle"@[0]);
    assert("uge"@[0] != "sge"@[0]);
    assert("uge"@[1] != "ult"@[1]);
    assert("uge"@[2] != "ugt"@[2]);
    assert("uge"@[1] != "ule"@[1]);
}

/// An `icmp` predicate word is read as the predicate of that name: when the
/// lexer reads word `w` as token `t` and `t` reads as predicate `p`, then `w`
/// is `p`'s name; and the name of every predicate reads as that predicate.
/// So the words and the predicates correspond one to one: two words that
/// read as the same predicate are the same word.
pub proof fn lemma_predicate_words(w: Seq<char>, t: Token)
    requires
        word_token_matches(w, t),
    ensures
        predicate_of(t) matches Some(p) ==> predicate_name(p) == w,
        forall|p: IcmpPred| #[trigger] predicate_name(p) == w ==> predicate_of(t) == Some(p),
{
    reveal_strlit("eq");
    reveal_strlit("ne");
    reveal_strlit("slt");
    reveal_strlit("sgt");
    reveal_strlit("sle");
    reveal_strlit("sge");
    reveal_strlit("ult");
    reveal_strlit("ugt");
    reveal_strlit("ule");
    reveal_strlit("uge");
    assert forall|p: IcmpPred| #[trigger] predicate_name(p) == w implies predicate_of(t) == Some(p) by {
        lemma_predicate_names_read_back(p, t);
    }
}

/// Whether token `t` starts a type.
pub open spec fn type_start(t: Token) -> bool {
    t is I1 || t is I8 || t is I16 || t is I32 || t is Ptr || t is OpenBracket || t is OpenBrace || t is LocalId
        || is_ident(t, "i64"@)
}

/// A type an array element may have: not an aggregate or `void`.
pub open spec fn scalar_type(t: LlvmType) -> bool {
    !(t is Array || t is Struct || t is UnnamedStruct || t is Void)
}

/// A token that is an operand on its own: a number, `true`, `false` or a
/// local or global name.
pub open spec fn value_token(t: Token) -> bool {
    t is Number || t is True || t is False || t is LocalId || t is GlobalId
}

/// `v` is the operand that value token `t` gives at type `ty`.
pub open spec fn operand_of(t: Token, ty: LlvmType, v: LlvmValue) -> bool {
    match t {
        Token::Number(n) => v matches LlvmValue::Const(c) && c.value == n && same_type(ty, c.ty),
        Token::True => v matches LlvmValue::Const(c) && c.value == 1 && same_type(ty, c.ty),
        Token::False => v matches LlvmValue::Const(c) && c.value == 0 && same_type(ty, c.ty),
        Token::LocalId(n) => v matches LlvmValue::Local(m) && m@ == n@,
        Token::GlobalId(n) => v matches LlvmValue::Global(m) && m@ == n@,
        _ => false,
    }
}

/// A number or a local or global name: what may follow a type as its
/// operand.
pub open spec fn typed_value_token(t: Token) -> bool {
    t is Number || t is LocalId || t is GlobalId
}

/// `ts` begin with `<type> <value>` (a keyword type other than `void`, then
/// a number or a name), and a token follows.
pub open spec fn typed_operand_tokens(ts: Seq<Token>) -> bool {
    &&& ts.len() >= 3
    &&& keyword_type(ts[0]) is Some
    &&& !(ts[0] is Void)
    &&& typed_value_token(ts[1])
}

/// The text of a local or global name token.
pub open spec fn name_text(t: Token) -> Seq<char> {
    match t {
        Token::LocalId(n) => n@,
        Token::GlobalId(n) => n@,
        _ => seq![],
    }
}

/// `ts` begin with `label %<target>`, and a token follows.
pub open spec fn jump_tokens(ts: Seq<Token>) -> bool {
    &&& ts.len() >= 3
    &&& is_ident(ts[0], "label"@)
    &&& (ts[1] is LocalId || ts[1] is GlobalId)
}

/// What the operands `ts` of a `ret` or `br` (see [`typed_operand_tokens`]
/// and [`jump_tokens`]) give.
pub open spec fn plain_result(op: Seq<char>, ts: Seq<Token>, r: Result<LlvmInstr, LlvmError>) -> bool {
    &&& (op == "ret"@ && ts.len() >= 2 && ts[0] is Void) ==> (r matches Ok(LlvmInstr::Ret { value: None }))
    &&& (op == "ret"@ && typed_operand_tokens(ts)) ==> (r matches Ok(LlvmInstr::Ret { value: Some(v) }) && operand_of(
        ts[1],
        keyword_type(ts[0])->0,
        v,
    ))
    &&& (op == "br"@ && jump_tokens(ts)) ==> (r matches Ok(LlvmInstr::Br { target }) && target@ == name_text(ts[1]))
}

/// `ts` begin with `<type> <value>, <value>` (a keyword type and two
/// operand tokens), and a token follows.
pub open spec fn operands_tokens(ts: Seq<Token>) -> bool {
    &&& ts.len() >= 5
    &&& keyword_type(ts[0]) is Some
    &&& value_token(ts[1])
    &&& ts[2] is Comma
    &&& value_token(ts[3])
}

/// The text of an optional name.
pub open spec fn name_view(d: Option<String>) -> Option<Seq<char>> {
    match d {
        Some(s) => Some(s@),
        None => None,
    }
}

/// `i` is the binary operation `op` with result name `dest` on the type and
/// operands that `ts` spell (see [`operands_tokens`]).
pub open spec fn binop_from(ts: Seq<Token>, op: Seq<char>, dest: Option<Seq<char>>, i: LlvmInstr) -> bool {
    let ty = keyword_type(ts[0])->0;
    i matches LlvmInstr::BinOp { dest: d, op: o, ty: t, lhs, rhs } && o@ == op && t == ty && name_view(d) == dest
        && operand_of(ts[1], ty, lhs) && operand_of(ts[3], ty, rhs)
}

/// `i` is the comparison named `dest` with the predicate, type and operands
/// that `ts` spell: a predicate token, then [`operands_tokens`].
pub open spec fn comparison_from(ts: Seq<Token>, dest: Seq<char>, i: LlvmInstr) -> bool {
    let ty = keyword_type(ts[1])->0;
    i matches LlvmInstr::Icmp { dest: d, pred, ty: t, lhs, rhs } && d@ == dest && predicate_of(ts[0]) == Some(pred)
        && t == ty && operand_of(ts[2], ty, lhs) && operand_of(ts[4], ty, rhs)
}

/// An `nsw` or `nuw` flag.
pub open spec fn flag_token(t: Token) -> bool {
    is_ident(t, "nsw"@) || is_ident(t, "nuw"@)
}

/// The text of a local name or an identifier token.
pub open spec fn tok_text(t: Token) -> Seq<char> {
    match t {
        Token::LocalId(n) => n@,
        Token::Ident(n) => n@,
        _ => seq![],
    }
}

/// `ts` begin `%<name> = <opcode>` followed by `k` `nsw`/`nuw` flags and a
/// token that is no flag.
pub open spec fn named_op_tokens(ts: Seq<Token>, k: int) -> bool {
    &&& 0 <= k
    &&& ts.len() > 3 + k
    &&& ts[0] is LocalId
    &&& ts[1] is Equals
    &&& ts[2] is Ident
    &&& forall|j: int| 3 <= j < 3 + k ==> flag_token(#[trigger] ts[j])
    &&& !flag_token(ts[3 + k])
}

/// What parsing an instruction whose tokens ahead are `ts` (see
/// [`named_op_tokens`]) gives: a binary operation on a keyword type and two
/// operand tokens, an `icmp` with a predicate, such a type and operands, or
/// one of the instructions of [`other_op_result`].
pub open spec fn named_op_result(ts: Seq<Token>, k: int, r: Result<LlvmInstr, LlvmError>) -> bool {
    let rest = ts.subrange(3 + k, ts.len() as int);
    let d = tok_text(ts[0]);
    let op = tok_text(ts[2]);
    &&& binop_word(op) && operands_tokens(rest) ==> (r matches Ok(i) && binop_from(rest, op, Some(d), i))
    &&& (op == "icmp"@ && rest.len() >= 1 && predicate_of(rest[0]) is Some && operands_tokens(rest.drop_first()))
        ==> (r matches Ok(i) && comparison_from(rest, d, i))
    &&& other_op_result(op, Some(d), rest, r)
}

/// `icmp` is no binary-operation word.
proof fn lemma_compare_word_not_binop()
    ensures
        !binop_word("icmp"@),
{
    reveal_strlit("icmp");
    reveal_strlit("add");
    assert("icmp"@.len() != "add"@.len());
    reveal_strlit("sub");
    assert("icmp"@.len() != "sub"@.len());
    reveal_strlit("mul");
    assert("icmp"@.len() != "mul"@.len());
    reveal_strlit("sdiv");
    assert("icmp"@[0] != "sdiv"@[0]);
    reveal_strlit("udiv");
    assert("icmp"@[0] != "udiv"@[0]);
    reveal_strlit("rem");
    assert("icmp"@.len() != "rem"@.len());
    reveal_strlit("srem");
    assert("icmp"@[0] != "srem"@[0]);
    reveal_strlit("urem");
    assert("icmp"@[0] != "urem"@[0]);
    reveal_strlit("and");
    assert("icmp"@.len() != "and"@.len());
    reveal_strlit("or");
    assert("icmp"@.len() != "or"@.len());
    reveal_strlit("xor");
    assert("icmp"@.len() != "xor"@.len());
    reveal_strlit("shl");
    assert("icmp"@.len() != "shl"@.len());
    reveal_strlit("lshr");
    assert("icmp"@[0] != "lshr"@[0]);
    reveal_strlit("ashr");
    assert("icmp"@[0] != "ashr"@[0]);
}

/// `ret` and `br` are neither binary-operation words nor `icmp`, nor each other.
proof fn lemma_plain_words()
    ensures
        !binop_word("ret"@),
        !binop_word("br"@),
        "ret"@ != "icmp"@,
        "br"@ != "icmp"@,
        "br"@ != "ret"@,
{
    reveal_strlit("ret");
    reveal_strlit("br");
    reveal_strlit("icmp");
    reveal_strlit("add");
    reveal_strlit("sub");
    reveal_strlit("mul");
    reveal_strlit("sdiv");
    reveal_strlit("udiv");
    reveal_strlit("rem");
    reveal_strlit("srem");
    reveal_strlit("urem");
    reveal_strlit("and");
    reveal_strlit("or");
    reveal_strlit("xor");
    reveal_strlit("shl");
    reveal_strlit("lshr");
    reveal_strlit("ashr");
    assert("ret"@[0] != "add"@[0]);
    assert("ret"@[0] != "sub"@[0]);
    assert("ret"@[0] != "mul"@[0]);
    assert("ret"@.len() != "sdiv"@.len());
    assert("ret"@.len() != "udiv"@.len());
    assert("ret"@[2] != "rem"@[2]);
    assert("ret"@.len() != "srem"@.len());
    assert("ret"@.len() != "urem"@.len());
    assert("ret"@[0] != "and"@[0]);
    assert("ret"@.len() != "or"@.len());
    assert("ret"@[0] != "xor"@[0]);
    assert("ret"@[0] != "shl"@[0]);
    assert("ret"@.len() != "lshr"@.len());
    assert("ret"@.len() != "ashr"@.len());
    assert("ret"@.len() != "icmp"@.len());
    assert("br"@.len() != "add"@.len());
    assert("br"@.len() != "sub"@.len());
    assert("br"@.len() != "mul"@.len());
    assert("br"@.len() != "sdiv"@.len());
    assert("br"@.len() != "udiv"@.len());
    assert("br"@.len() != "rem"@.len());
    assert("br"@.len() != "srem"@.len());
    assert("br"@.len() != "urem"@.len());
    assert("br"@.len() != "and"@.len());
    assert("br"@[0] != "or"@[0]);
    assert("br"@.len() != "xor"@.len());
    assert("br"@.len() != "shl"@.len());
    assert("br"@.len() != "lshr"@.len());
    assert("br"@.len() != "ashr"@.len());
    assert("br"@.len() != "icmp"@.len());
    assert("br"@.len() != "ret"@.len());
}

/// `ts` begin with an opcode word (no result name) followed by `k`
/// `nsw`/`nuw` flags and a token that is no flag.
pub open spec fn plain_op_tokens(ts: Seq<Token>, k: int) -> bool {
    &&& 0 <= k
    &&& ts.len() > 1 + k
    &&& ts[0] is Ident
    &&& forall|j: int| 1 <= j < 1 + k ==> flag_token(#[trigger] ts[j])
    &&& !flag_token(ts[1 + k])
}

/// What parsing an instruction whose tokens ahead are `ts` (see
/// [`plain_op_tokens`]) gives: a binary operation with no result name, a
/// `ret`, a `br`, or one of the instructions of [`other_op_result`].
pub open spec fn plain_op_result(ts: Seq<Token>, k: int, r: Result<LlvmInstr, LlvmError>) -> bool {
    let rest = ts.subrange(1 + k, ts.len() as int);
    let op = tok_text(ts[0]);
    &&& binop_word(op) && operands_tokens(rest) ==> (r matches Ok(i) && binop_from(rest, op, None, i))
    &&& (op == "ret"@ || op == "br"@) ==> plain_result(op, rest, r)
    &&& other_op_result(op, None, rest, r)
}

/// A local or global name: what may follow `ptr` as an address.
pub open spec fn name_token(t: Token) -> bool {
    t is LocalId || t is GlobalId
}

/// `v` is the operand that value token `t` gives with no type before it: a
/// number is an `i32` constant, `true` and `false` are `i1` constants.
pub open spec fn bare_operand_of(t: Token, v: LlvmValue) -> bool {
    match t {
        Token::Number(n) => v matches LlvmValue::Const(c) && c.value == n && c.ty is I32,
        Token::True => v matches LlvmValue::Const(c) && c.value == 1 && c.ty is I1,
        Token::False => v matches LlvmValue::Const(c) && c.value == 0 && c.ty is I1,
        Token::LocalId(n) => v matches LlvmValue::Local(m) && m@ == n@,
        Token::GlobalId(n) => v matches LlvmValue::Global(m) && m@ == n@,
        _ => false,
    }
}

/// `ts` begin `<type> <value>, ptr <name>` (a keyword type), and a token
/// follows.
pub open spec fn store_tokens(ts: Seq<Token>) -> bool {
    &&& ts.len() >= 6
    &&& keyword_type(ts[0]) is Some
    &&& value_token(ts[1])
    &&& ts[2] is Comma
    &&& ts[3] is Ptr
    &&& name_token(ts[4])
}

/// `ts` begin `<type>, ptr <name>` (a keyword type), and a token follows.
pub open spec fn load_tokens(ts: Seq<Token>) -> bool {
    &&& ts.len() >= 5
    &&& keyword_type(ts[0]) is Some
    &&& ts[1] is Comma
    &&& ts[2] is Ptr
    &&& name_token(ts[3])
}

/// `ts` begin with a keyword type followed by a token that is no comma.
pub open spec fn alloca_tokens(ts: Seq<Token>) -> bool {
    &&& ts.len() >= 2
    &&& keyword_type(ts[0]) is Some
    &&& !(ts[1] is Comma)
}

/// `ts` begin `<type> <value> to <type>` (keyword types), and a token
/// follows.
pub open spec fn cast_tokens(ts: Seq<Token>) -> bool {
    &&& ts.len() >= 5
    &&& keyword_type(ts[0]) is Some
    &&& value_token(ts[1])
    &&& is_ident(ts[2], "to"@)
    &&& keyword_type(ts[3]) is Some
}

/// `ts` begin `<type> <value>, <type> <value>, <value>` (keyword types),
/// and a token follows.
pub open spec fn select_tokens(ts: Seq<Token>) -> bool {
    &&& ts.len() >= 8
    &&& keyword_type(ts[0]) is Some
    &&& value_token(ts[1])
    &&& ts[2] is Comma
    &&& keyword_type(ts[3]) is Some
    &&& value_token(ts[4])
    &&& ts[5] is Comma
    &&& value_token(ts[6])
}

/// `ts` begin `i1 <value>, label %<t>, label %<f>`, and a token follows.
pub open spec fn cond_jump_tokens(ts: Seq<Token>) -> bool {
    &&& ts.len() >= 9
    &&& ts[0] is I1
    &&& value_token(ts[1])
    &&& ts[2] is Comma
    &&& jump_tokens(ts.subrange(3, ts.len() as int))
    &&& ts[5] is Comma
    &&& jump_tokens(ts.subrange(6, ts.len() as int))
}

/// `ts` begin `<type> @<name>()` (a keyword type and no arguments), and a
/// token follows.
pub open spec fn call_tokens(ts: Seq<Token>) -> bool {
    &&& ts.len() >= 5
    &&& keyword_type(ts[0]) is Some
    &&& ts[1] is GlobalId
    &&& ts[2] is OpenParen
    &&& ts[3] is CloseParen
}

/// `ts` begin `<type> [ <value>, %<pred> ]` (a keyword type), and a token
/// follows that is neither a comma nor `[`.
pub open spec fn phi_tokens(ts: Seq<Token>) -> bool {
    &&& ts.len() >= 7
    &&& keyword_type(ts[0]) is Some
    &&& ts[1] is OpenBracket
    &&& value_token(ts[2])
    &&& ts[3] is Comma
    &&& name_token(ts[4])
    &&& ts[5] is CloseBracket
    &&& !(ts[6] is Comma)
    &&& !(ts[6] is OpenBracket)
}

/// `ts` begin `<type>, ptr <name>, <type> <index>` (keyword types, see
/// [`typed_operand_tokens`] for the index), and a token follows that is no
/// comma.
pub open spec fn gep_tokens(ts: Seq<Token>) -> bool {
    &&& ts.len() >= 8
    &&& keyword_type(ts[0]) is Some
    &&& ts[1] is Comma
    &&& ts[2] is Ptr
    &&& name_token(ts[3])
    &&& ts[4] is Comma
    &&& typed_operand_tokens(ts.subrange(5, ts.len() as int))
    &&& !(ts[7] is Comma)
}

/// `ts` begin `<type> <value>, label %<default> [ ]` (a keyword type and no
/// cases), and a token follows.
pub open spec fn switch_tokens(ts: Seq<Token>) -> bool {
    &&& ts.len() >= 8
    &&& keyword_type(ts[0]) is Some
    &&& value_token(ts[1])
    &&& ts[2] is Comma
    &&& jump_tokens(ts.subrange(3, ts.len() as int))
    &&& ts[5] is OpenBracket
    &&& ts[6] is CloseBracket
}

/// What the operands `ts` of a memory, cast, select, conditional-branch,
/// call, `getelementptr`, `phi`, `switch` or `unreachable` instruction `op`
/// with result name `dest` give.
pub open spec fn other_op_result(op: Seq<char>, dest: Option<Seq<char>>, ts: Seq<Token>, r: Result<LlvmInstr, LlvmError>) -> bool {
    &&& (op == "store"@ && store_tokens(ts)) ==> (r matches Ok(LlvmInstr::Store { ty, value, addr }) && ty
        == keyword_type(ts[0])->0 && operand_of(ts[1], ty, value) && bare_operand_of(ts[4], addr))
    &&& (op == "load"@ && dest is Some && load_tokens(ts)) ==> (r matches Ok(LlvmInstr::Load { dest: d, ty, addr })
        && d@ == dest->0 && ty == keyword_type(ts[0])->0 && bare_operand_of(ts[3], addr))
    &&& (op == "alloca"@ && dest is Some && alloca_tokens(ts)) ==> (r matches Ok(
        LlvmInstr::Alloca { dest: d, ty, count },
    ) && d@ == dest->0 && ty == keyword_type(ts[0])->0 && count == 1)
    &&& (cast_word(op) is Some && dest is Some && cast_tokens(ts)) ==> (r matches Ok(
        LlvmInstr::Cast { dest: d, op: c, from_ty, to_ty, value },
    ) && d@ == dest->0 && c == cast_word(op)->0 && from_ty == keyword_type(ts[0])->0 && to_ty == keyword_type(
        ts[3],
    )->0 && operand_of(ts[1], from_ty, value))
    &&& (op == "select"@ && dest is Some && select_tokens(ts)) ==> (r matches Ok(
        LlvmInstr::Select { dest: d, ty, cond, then_value, else_value },
    ) && d@ == dest->0 && ty == keyword_type(ts[3])->0 && operand_of(ts[1], keyword_type(ts[0])->0, cond)
        && operand_of(ts[4], ty, then_value) && operand_of(ts[6], ty, else_value))
    &&& (op == "br"@ && cond_jump_tokens(ts)) ==> (r matches Ok(
        LlvmInstr::CondBr { cond, true_target, false_target },
    ) && bare_operand_of(ts[1], cond) && true_target@ == name_text(ts[4]) && false_target@ == name_text(ts[7]))
    &&& (op == "call"@ && call_tokens(ts)) ==> (r matches Ok(LlvmInstr::Call { dest: d, return_ty, callee, args })
        && name_view(d) == dest && return_ty == keyword_type(ts[0])->0 && callee@ == name_text(ts[1])
        && args@.len() == 0)
    &&& op == "unreachable"@ ==> (r matches Ok(LlvmInstr::Unreachable))
    &&& (op == "phi"@ && dest is Some && phi_tokens(ts)) ==> (r matches Ok(LlvmInstr::Phi { dest: d, ty, incoming })
        && d@ == dest->0 && ty == keyword_type(ts[0])->0 && incoming@.len() == 1 && operand_of(ts[2], ty, incoming@[0].0)
        && incoming@[0].1@ == name_text(ts[4]))
    &&& (op == "getelementptr"@ && dest is Some && gep_tokens(ts)) ==> (r matches Ok(
        LlvmInstr::Gep { dest: d, elem_ty, base, indices },
    ) && d@ == dest->0 && elem_ty == keyword_type(ts[0])->0 && bare_operand_of(ts[3], base) && indices@.len() == 1
        && operand_of(ts[6], keyword_type(ts[5])->0, indices@[0]))
    &&& (op == "switch"@ && switch_tokens(ts)) ==> (r matches Ok(
        LlvmInstr::Switch { cond_ty, cond, default_target, cases },
    ) && cond_ty == keyword_type(ts[0])->0 && operand_of(ts[1], cond_ty, cond) && default_target@ == name_text(ts[4])
        && cases@.len() == 0)
}

/// The opcode words past `br` differ from every word the parser tests
/// before them.
proof fn lemma_later_words()
    ensures
        !binop_word("alloca"@),
        "alloca"@ != "icmp"@,
        "alloca"@ != "ret"@,
        "alloca"@ != "br"@,
        !binop_word("load"@),
        "load"@ != "icmp"@,
        "load"@ != "ret"@,
        "load"@ != "br"@,
        "load"@ != "alloca"@,
        !binop_word("store"@),
        "store"@ != "icmp"@,
        "store"@ != "ret"@,
        "store"@ != "br"@,
        "store"@ != "alloca"@,
        "store"@ != "load"@,
        !binop_word("call"@),
        "call"@ != "icmp"@,
        "call"@ != "ret"@,
        "call"@ != "br"@,
        "call"@ != "alloca"@,
        "call"@ != "load"@,
        "call"@ != "store"@,
        !binop_word("getelementptr"@),
        "getelementptr"@ != "icmp"@,
        "getelementptr"@ != "ret"@,
        "getelementptr"@ != "br"@,
        "getelementptr"@ != "alloca"@,
        "getelementptr"@ != "load"@,
        "getelementptr"@ != "store"@,
        "getelementptr"@ != "call"@,
        !binop_word("zext"@),
        "zext"@ != "icmp"@,
        "zext"@ != "ret"@,
        "zext"@ != "br"@,
        "zext"@ != "alloca"@,
        "zext"@ != "load"@,
        "zext"@ != "store"@,
        "zext"@ != "call"@,
        "zext"@ != "getelementptr"@,
        !binop_word("sext"@),
        "sext"@ != "icmp"@,
        "sext"@ != "ret"@,
        "sext"@ != "br"@,
        "sext"@ != "alloca"@,
        "sext"@ != "load"@,
        "sext"@ != "store"@,
        "sext"@ != "call"@,
        "sext"@ != "getelementptr"@,
        !binop_word("trunc"@),
        "trunc"@ != "icmp"@,
        "trunc"@ != "ret"@,
        "trunc"@ != "br"@,
        "trunc"@ != "alloca"@,
        "trunc"@ != "load"@,
        "trunc"@ != "store"@,
        "trunc"@ != "call"@,
        "trunc"@ != "getelementptr"@,
        !binop_word("bitcast"@),
        "bitcast"@ != "icmp"@,
        "bitcast"@ != "ret"@,
        "bitcast"@ != "br"@,
        "bitcast"@ != "alloca"@,
        "bitcast"@ != "load"@,
        "bitcast"@ != "store"@,
        "bitcast"@ != "call"@,
        "bitcast"@ != "getelementptr"@,
        !binop_word("ptrtoint"@),
        "ptrtoint"@ != "icmp"@,
        "ptrtoint"@ != "ret"@,
        "ptrtoint"@ != "br"@,
        "ptrtoint"@ != "alloca"@,
        "ptrtoint"@ != "load"@,
        "ptrtoint"@ != "store"@,
        "ptrtoint"@ != "call"@,
        "ptrtoint"@ != "getelementptr"@,
        !binop_word("inttoptr"@),
        "inttoptr"@ != "icmp"@,
        "inttoptr"@ != "ret"@,
        "inttoptr"@ != "br"@,
        "inttoptr"@ != "alloca"@,
        "inttoptr"@ != "load"@,
        "inttoptr"@ != "store"@,
        "inttoptr"@ != "call"@,
        "inttoptr"@ != "getelementptr"@,
        !binop_word("select"@),
        "select"@ != "icmp"@,
        "select"@ != "ret"@,
        "select"@ != "br"@,
        "select"@ != "alloca"@,
        "select"@ != "load"@,
        "select"@ != "store"@,
        "select"@ != "call"@,
        "select"@ != "getelementptr"@,
        "select"@ != "zext"@,
        "select"@ != "sext"@,
        "select"@ != "trunc"@,
        "select"@ != "bitcast"@,
        "select"@ != "ptrtoint"@,
        "select"@ != "inttoptr"@,
        !binop_word("switch"@),
        "switch"@ != "icmp"@,
        "switch"@ != "ret"@,
        "switch"@ != "br"@,
        "switch"@ != "alloca"@,
        "switch"@ != "load"@,
        "switch"@ != "store"@,
        "switch"@ != "call"@,
        "switch"@ != "getelementptr"@,
        "switch"@ != "zext"@,
        "switch"@ != "sext"@,
        "switch"@ != "trunc"@,
        "switch"@ != "bitcast"@,
        "switch"@ != "ptrtoint"@,
        "switch"@ != "inttoptr"@,
        "switch"@ != "select"@,
        !binop_word("unreachable"@),
        "unreachable"@ != "icmp"@,
        "unreachable"@ != "ret"@,
        "unreachable"@ != "br"@,
        "unreachable"@ != "alloca"@,
        "unreachable"@ != "load"@,
        "unreachable"@ != "store"@,
        "unreachable"@ != "call"@,
        "unreachable"@ != "getelementptr"@,
        "unreachable"@ != "zext"@,
        "unreachable"@ != "sext"@,
        "unreachable"@ != "trunc"@,
        "unreachable"@ != "bitcast"@,
        "unreachable"@ != "ptrtoint"@,
        "unreachable"@ != "inttoptr"@,
        "unreachable"@ != "select"@,
        "unreachable"@ != "switch"@,
        !binop_word("phi"@),
        "phi"@ != "icmp"@,
        "phi"@ != "ret"@,
        "phi"@ != "br"@,
        "phi"@ != "alloca"@,
        "phi"@ != "load"@,
        "phi"@ != "store"@,
        "phi"@ != "call"@,
        "phi"@ != "getelementptr"@,
        "phi"@ != "zext"@,
        "phi"@ != "sext"@,
        "phi"@ != "trunc"@,
        "phi"@ != "bitcast"@,
        "phi"@ != "ptrtoint"@,
        "phi"@ != "inttoptr"@,
        "phi"@ != "select"@,
        "phi"@ != "switch"@,
        "phi"@ != "unreachable"@,
{
    reveal_strlit("add");
    reveal_strlit("alloca");
    reveal_strlit("and");
    reveal_strlit("ashr");
    reveal_strlit("bitcast");
    reveal_strlit("br");
    reveal_strlit("call");
    reveal_strlit("getelementptr");
    reveal_strlit("icmp");
    reveal_strlit("inttoptr");
    reveal_strlit("load");
    reveal_strlit("lshr");
    reveal_strlit("mul");
    reveal_strlit("or");
    reveal_strlit("phi");
    reveal_strlit("ptrtoint");
    reveal_strlit("rem");
    reveal_strlit("ret");
    reveal_strlit("sdiv");
    reveal_strlit("select");
    reveal_strlit("sext");
    reveal_strlit("shl");
    reveal_strlit("srem");
    reveal_strlit("store");
    reveal_strlit("sub");
    reveal_strlit("switch");
    reveal_strlit("trunc");
    reveal_strlit("udiv");
    reveal_strlit("unreachable");
    reveal_strlit("urem");
    reveal_strlit("xor");
    reveal_strlit("zext");
    assert("alloca"@.len() != "add"@.len());
    assert("alloca"@.len() != "sub"@.len());
    assert("alloca"@.len() != "mul"@.len());
    assert("alloca"@.len() != "sdiv"@.len());
    assert("alloca"@.len() != "udiv"@.len());
    assert("alloca"@.len() != "rem"@.len());
    assert("alloca"@.len() != "srem"@.len());
    assert("alloca"@.len() != "urem"@.len());
    assert("alloca"@.len() != "and"@.len());
    assert("alloca"@.len() != "or"@.len());
    assert("alloca"@.len() != "xor"@.len());
    assert("alloca"@.len() != "shl"@.len());
    assert("alloca"@.len() != "lshr"@.len());
    assert("alloca"@.len() != "ashr"@.len());
    assert("alloca"@.len() != "icmp"@.len());
    assert("alloca"@.len() != "ret"@.len());
    assert("alloca"@.len() != "br"@.len());
    assert("load"@.len() != "add"@.len());
    assert("load"@.len() != "sub"@.len());
    assert("load"@.len() != "mul"@.len());
    assert("load"@[0] != "sdiv"@[0]);
    assert("load"@[0] != "udiv"@[0]);
    assert("load"@.len() != "rem"@.len());
    assert("load"@[0] != "srem"@[0]);
    assert("load"@[0] != "urem"@[0]);
    assert("load"@.len() != "and"@.len());
    assert("load"@.len() != "or"@.len());
    assert("load"@.len() != "xor"@.len());
    assert("load"@.len() != "shl"@.len());
    assert("load"@[1] != "lshr"@[1]);
    assert("load"@[0] != "ashr"@[0]);
    assert("load"@[0] != "icmp"@[0]);
    assert("load"@.len() != "ret"@.len());
    assert("load"@.len() != "br"@.len());
    assert("load"@.len() != "alloca"@.len());
    assert("store"@.len() != "add"@.len());
    assert("store"@.len() != "sub"@.len());
    assert("store"@.len() != "mul"@.len());
    assert("store"@.len() != "sdiv"@.len());
    assert("store"@.len() != "udiv"@.len());
    assert("store"@.len() != "rem"@.len());
    assert("store"@.len() != "srem"@.len());
    assert("store"@.len() != "urem"@.len());
    assert("store"@.len() != "and"@.len());
    assert("store"@.len() != "or"@.len());
    assert("store"@.len() != "xor"@.len());
    assert("store"@.len() != "shl"@.len());
    assert("store"@.len() != "lshr"@.len());
    assert("store"@.len() != "ashr"@.len());
    assert("store"@.len() != "icmp"@.len());
    assert("store"@.len() != "ret"@.len());
    assert("store"@.len() != "br"@.len());
    assert("store"@.len() != "alloca"@.len());
    assert("store"@.len() != "load"@.len());
    assert("call"@.len() != "add"@.len());
    assert("call"@.len() != "sub"@.len());
    assert("call"@.len() != "mul"@.len());
    assert("call"@[0] != "sdiv"@[0]);
    assert("call"@[0] != "udiv"@[0]);
    assert("call"@.len() != "rem"@.len());
    assert("call"@[0] != "srem"@[0]);
    assert("call"@[0] != "urem"@[0]);
    assert("call"@.len() != "and"@.len());
    assert("call"@.len() != "or"@.len());
    assert("call"@.len() != "xor"@.len());
    assert("call"@.len() != "shl"@.len());
    assert("call"@[0] != "lshr"@[0]);
    assert("call"@[0] != "ashr"@[0]);
    assert("call"@[0] != "icmp"@[0]);
    assert("call"@.len() != "ret"@.len());
    assert("call"@.len() != "br"@.len());
    assert("call"@.len() != "alloca"@.len());
    assert("call"@[0] != "load"@[0]);
    assert("call"@.len() != "store"@.len());
    assert("getelementptr"@.len() != "add"@.len());
    assert("getelementptr"@.len() != "sub"@.len());
    assert("getelementptr"@.len() != "mul"@.len());
    assert("getelementptr"@.len() != "sdiv"@.len());
    assert("getelementptr"@.len() != "udiv"@.len());
    assert("getelementptr"@.len() != "rem"@.len());
    assert("getelementptr"@.len() != "srem"@.len());
    assert("getelementptr"@.len() != "urem"@.len());
    assert("getelementptr"@.len() != "and"@.len());
    assert("getelementptr"@.len() != "or"@.len());
    assert("getelementptr"@.len() != "xor"@.len());
    assert("getelementptr"@.len() != "shl"@.len());
    assert("getelementptr"@.len() != "lshr"@.len());
    assert("getelementptr"@.len() != "ashr"@.len());
    assert("getelementptr"@.len() != "icmp"@.len());
    assert("getelementptr"@.len() != "ret"@.len());
    assert("getelementptr"@.len() != "br"@.len());
    assert("getelementptr"@.len() != "alloca"@.len());
    assert("getelementptr"@.len() != "load"@.len());
    assert("getelementptr"@.len() != "store"@.len());
    assert("getelementptr"@.len() != "call"@.len());
    assert("zext"@.len() != "add"@.len());
    assert("zext"@.len() != "sub"@.len());
    assert("zext"@.len() != "mul"@.len());
    assert("zext"@[0] != "sdiv"@[0]);
    assert("zext"@[0] != "udiv"@[0]);
    assert("zext"@.len() != "rem"@.len());
    assert("zext"@[0] != "srem"@[0]);
    assert("zext"@[0] != "urem"@[0]);
    assert("zext"@.len() != "and"@.len());
    assert("zext"@.len() != "or"@.len());
    assert("zext"@.len() != "xor"@.len());
    assert("zext"@.len() != "shl"@.len());
    assert("zext"@[0] != "lshr"@[0]);
    assert("zext"@[0] != "ashr"@[0]);
    assert("zext"@[0] != "icmp"@[0]);
    assert("zext"@.len() != "ret"@.len());
    assert("zext"@.len() != "br"@.len());
    assert("zext"@.len() != "alloca"@.len());
    assert("zext"@[0] != "load"@[0]);
    assert("zext"@.len() != "store"@.len());
    assert("zext"@[0] != "call"@[0]);
    assert("zext"@.len() != "getelementptr"@.len());
    assert("sext"@.len() != "add"@.len());
    assert("sext"@.len() != "sub"@.len());
    assert("sext"@.len() != "mul"@.len());
    assert("sext"@[1] != "sdiv"@[1]);
    assert("sext"@[0] != "udiv"@[0]);
    assert("sext"@.len() != "rem"@.len());
    assert("sext"@[1] != "srem"@[1]);
    assert("sext"@[0] != "urem"@[0]);
    assert("sext"@.len() != "and"@.len());
    assert("sext"@.len() != "or"@.len());
    assert("sext"@.len() != "xor"@.len());
    assert("sext"@.len() != "shl"@.len());
    assert("sext"@[0] != "lshr"@[0]);
    assert("sext"@[0] != "ashr"@[0]);
    assert("sext"@[0] != "icmp"@[0]);
    assert("sext"@.len() != "ret"@.len());
    assert("sext"@.len() != "br"@.len());
    assert("sext"@.len() != "alloca"@.len());
    assert("sext"@[0] != "load"@[0]);
    assert("sext"@.len() != "store"@.len());
    assert("sext"@[0] != "call"@[0]);
    assert("sext"@.len() != "getelementptr"@.len());
    assert("trunc"@.len() != "add"@.len());
    assert("trunc"@.len() != "sub"@.len());
    assert("trunc"@.len() != "mul"@.len());
    assert("trunc"@.len() != "sdiv"@.len());
    assert("trunc"@.len() != "udiv"@.len());
    assert("trunc"@.len() != "rem"@.len());
    assert("trunc"@.len() != "srem"@.len());
    assert("trunc"@.len() != "urem"@.len());
    assert("trunc"@.len() != "and"@.len());
    assert("trunc"@.len() != "or"@.len());
    assert("trunc"@.len() != "xor"@.len());
    assert("trunc"@.len() != "shl"@.len());
    assert("trunc"@.len() != "lshr"@.len());
    assert("trunc"@.len() != "ashr"@.len());
    assert("trunc"@.len() != "icmp"@.len());
    assert("trunc"@.len() != "ret"@.len());
    assert("trunc"@.len() != "br"@.len());
    assert("trunc"@.len() != "alloca"@.len());
    assert("trunc"@.len() != "load"@.len());
    assert("trunc"@[0] != "store"@[0]);
    assert("trunc"@.len() != "call"@.len());
    assert("trunc"@.len() != "getelementptr"@.len());
    assert("bitcast"@.len() != "add"@.len());
    assert("bitcast"@.len() != "sub"@.len());
    assert("bitcast"@.len() != "mul"@.len());
    assert("bitcast"@.len() != "sdiv"@.len());
    assert("bitcast"@.len() != "udiv"@.len());
    assert("bitcast"@.len() != "rem"@.len());
    assert("bitcast"@.len() != "srem"@.len());
    assert("bitcast"@.len() != "urem"@.len());
    assert("bitcast"@.len() != "and"@.len());
    assert("bitcast"@.len() != "or"@.len());
    assert("bitcast"@.len() != "xor"@.len());
    assert("bitcast"@.len() != "shl"@.len());
    assert("bitcast"@.len() != "lshr"@.len());
    assert("bitcast"@.len() != "ashr"@.len());
    assert("bitcast"@.len() != "icmp"@.len());
    assert("bitcast"@.len() != "ret"@.len());
    assert("bitcast"@.len() != "br"@.len());
    assert("bitcast"@.len() != "alloca"@.len());
    assert("bitcast"@.len() != "load"@.len());
    assert("bitcast"@.len() != "store"@.len());
    assert("bitcast"@.len() != "call"@.len());
    assert("bitcast"@.len() != "getelementptr"@.len());
    assert("ptrtoint"@.len() != "add"@.len());
    assert("ptrtoint"@.len() != "sub"@.len());
    assert("ptrtoint"@.len() != "mul"@.len());
    assert("ptrtoint"@.len() != "sdiv"@.len());
    assert("ptrtoint"@.len() != "udiv"@.len());
    assert("ptrtoint"@.len() != "rem"@.len());
    assert("ptrtoint"@.len() != "srem"@.len());
    assert("ptrtoint"@.len() != "urem"@.len());
    assert("ptrtoint"@.len() != "and"@.len());
    assert("ptrtoint"@.len() != "or"@.len());
    assert("ptrtoint"@.len() != "xor"@.len());
    assert("ptrtoint"@.len() != "shl"@.len());
    assert("ptrtoint"@.len() != "lshr"@.len());
    assert("ptrtoint"@.len() != "ashr"@.len());
    assert("ptrtoint"@.len() != "icmp"@.len());
    assert("ptrtoint"@.len() != "ret"@.len());
    assert("ptrtoint"@.len() != "br"@.len());
    assert("ptrtoint"@.len() != "alloca"@.len());
    assert("ptrtoint"@.len() != "load"@.len());
    assert("ptrtoint"@.len() != "store"@.len());
    assert("ptrtoint"@.len() != "call"@.len());
    assert("ptrtoint"@.len() != "getelementptr"@.len());
    assert("inttoptr"@.len() != "add"@.len());
    assert("inttoptr"@.len() != "sub"@.len());
    assert("inttoptr"@.len() != "mul"@.len());
    assert("inttoptr"@.len() != "sdiv"@.len());
    assert("inttoptr"@.len() != "udiv"@.len());
    assert("inttoptr"@.len() != "rem"@.len());
    assert("inttoptr"@.len() != "srem"@.len());
    assert("inttoptr"@.len() != "urem"@.len());
    assert("inttoptr"@.len() != "and"@.len());
    assert("inttoptr"@.len() != "or"@.len());
    assert("inttoptr"@.len() != "xor"@.len());
    assert("inttoptr"@.len() != "shl"@.len());
    assert("inttoptr"@.len() != "lshr"@.len());
    assert("inttoptr"@.len() != "ashr"@.len());
    assert("inttoptr"@.len() != "icmp"@.len());
    assert("inttoptr"@.len() != "ret"@.len());
    assert("inttoptr"@.len() != "br"@.len());
    assert("inttoptr"@.len() != "alloca"@.len());
    assert("inttoptr"@.len() != "load"@.len());
    assert("inttoptr"@.len() != "store"@.len());
    assert("inttoptr"@.len() != "call"@.len());
    assert("inttoptr"@.len() != "getelementptr"@.len());
    assert("select"@.len() != "add"@.len());
    assert("select"@.len() != "sub"@.len());
    assert("select"@.len() != "mul"@.len());
    assert("select"@.len() != "sdiv"@.len());
    assert("select"@.len() != "udiv"@.len());
    assert("select"@.len() != "rem"@.len());
    assert("select"@.len() != "srem"@.len());
    assert("select"@.len() != "urem"@.len());
    assert("select"@.len() != "and"@.len());
    assert("select"@.len() != "or"@.len());
    assert("select"@.len() != "xor"@.len());
    assert("select"@.len() != "shl"@.len());
    assert("select"@.len() != "lshr"@.len());
    assert("select"@.len() != "ashr"@.len());
    assert("select"@.len() != "icmp"@.len());
    assert("select"@.len() != "ret"@.len());
    assert("select"@.len() != "br"@.len());
    assert("select"@[0] != "alloca"@[0]);
    assert("select"@.len() != "load"@.len());
    assert("select"@.len() != "store"@.len());
    assert("select"@.len() != "call"@.len());
    assert("select"@.len() != "getelementptr"@.len());
    assert("select"@.len() != "zext"@.len());
    assert("select"@.len() != "sext"@.len());
    assert("select"@.len() != "trunc"@.len());
    assert("select"@.len() != "bitcast"@.len());
    assert("select"@.len() != "ptrtoint"@.len());
    assert("select"@.len() != "inttoptr"@.len());
    assert("switch"@.len() != "add"@.len());
    assert("switch"@.len() != "sub"@.len());
    assert("switch"@.len() != "mul"@.len());
    assert("switch"@.len() != "sdiv"@.len());
    assert("switch"@.len() != "udiv"@.len());
    assert("switch"@.len() != "rem"@.len());
    assert("switch"@.len() != "srem"@.len());
    assert("switch"@.len() != "urem"@.len());
    assert("switch"@.len() != "and"@.len());
    assert("switch"@.len() != "or"@.len());
    assert("switch"@.len() != "xor"@.len());
    assert("switch"@.len() != "shl"@.len());
    assert("switch"@.len() != "lshr"@.len());
    assert("switch"@.len() != "ashr"@.len());
    assert("switch"@.len() != "icmp"@.len());
    assert("switch"@.len() != "ret"@.len());
    assert("switch"@.len() != "br"@.len());
    assert("switch"@[0] != "alloca"@[0]);
    assert("switch"@.len() != "load"@.len());
    assert("switch"@.len() != "store"@.len());
    assert("switch"@.len() != "call"@.len());
    assert("switch"@.len() != "getelementptr"@.len());
    assert("switch"@.len() != "zext"@.len());
    assert("switch"@.len() != "sext"@.len());
    assert("switch"@.len() != "trunc"@.len());
    assert("switch"@.len() != "bitcast"@.len());
    assert("switch"@.len() != "ptrtoint"@.len());
    assert("switch"@.len() != "inttoptr"@.len());
    assert("switch"@[1] != "select"@[1]);
    assert("unreachable"@.len() != "add"@.len());
    assert("unreachable"@.len() != "sub"@.len());
    assert("unreachable"@.len() != "mul"@.len());
    assert("unreachable"@.len() != "sdiv"@.len());
    assert("unreachable"@.len() != "udiv"@.len());
    assert("unreachable"@.len() != "rem"@.len());
    assert("unreachable"@.len() != "srem"@.len());
    assert("unreachable"@.len() != "urem"@.len());
    assert("unreachable"@.len() != "and"@.len());
    assert("unreachable"@.len() != "or"@.len());
    assert("unreachable"@.len() != "xor"@.len());
    assert("unreachable"@.len() != "shl"@.len());
    assert("unreachable"@.len() != "lshr"@.len());
    assert("unreachable"@.len() != "ashr"@.len());
    assert("unreachable"@.len() != "icmp"@.len());
    assert("unreachable"@.len() != "ret"@.len());
    assert("unreachable"@.len() != "br"@.len());
    assert("unreachable"@.len() != "alloca"@.len());
    assert("unreachable"@.len() != "load"@.len());
    assert("unreachable"@.len() != "store"@.len());
    assert("unreachable"@.len() != "call"@.len());
    assert("unreachable"@.len() != "getelementptr"@.len());
    assert("unreachable"@.len() != "zext"@.len());
    assert("unreachable"@.len() != "sext"@.len());
    assert("unreachable"@.len() != "trunc"@.len());
    assert("unreachable"@.len() != "bitcast"@.len());
    assert("unreachable"@.len() != "ptrtoint"@.len());
    assert("unreachable"@.len() != "inttoptr"@.len());
    assert("unreachable"@.len() != "select"@.len());
    assert("unreachable"@.len() != "switch"@.len());
    assert("phi"@[0] != "add"@[0]);
    assert("phi"@[0] != "sub"@[0]);
    assert("phi"@[0] != "mul"@[0]);
    assert("phi"@.len() != "sdiv"@.len());
    assert("phi"@.len() != "udiv"@.len());
    assert("phi"@[0] != "rem"@[0]);
    assert("phi"@.len() != "srem"@.len());
    assert("phi"@.len() != "urem"@.len());
    assert("phi"@[0] != "and"@[0]);
    assert("phi"@.len() != "or"@.len());
    assert("phi"@[0] != "xor"@[0]);
    assert("phi"@[0] != "shl"@[0]);
    assert("phi"@.len() != "lshr"@.len());
    assert("phi"@.len() != "ashr"@.len());
    assert("phi"@.len() != "icmp"@.len());
    assert("phi"@[0] != "ret"@[0]);
    assert("phi"@.len() != "br"@.len());
    assert("phi"@.len() != "alloca"@.len());
    assert("phi"@.len() != "load"@.len());
    assert("phi"@.len() != "store"@.len());
    assert("phi"@.len() != "call"@.len());
    assert("phi"@.len() != "getelementptr"@.len());
    assert("phi"@.len() != "zext"@.len());
    assert("phi"@.len() != "sext"@.len());
    assert("phi"@.len() != "trunc"@.len());
    assert("phi"@.len() != "bitcast"@.len());
    assert("phi"@.len() != "ptrtoint"@.len());
    assert("phi"@.len() != "inttoptr"@.len());
    assert("phi"@.len() != "select"@.len());
    assert("phi"@.len() != "switch"@.len());
    assert("phi"@.len() != "unreachable"@.len());
}

/// `ts` begin `{ <type> }` with one keyword type, and a token follows.
pub open spec fn struct_body_tokens(ts: Seq<Token>) -> bool {
    &&& ts.len() >= 4
    &&& ts[0] is OpenBrace
    &&& keyword_type(ts[1]) is Some
    &&& ts[2] is CloseBrace
}

/// `ts` are exactly `%<name> = type { <type> }` with one keyword type,
/// then the end of the input.
pub open spec fn struct_program_tokens(ts: Seq<Token>) -> bool {
    &&& ts.len() == 7
    &&& ts[0] is LocalId
    &&& ts[1] is Equals
    &&& is_ident(ts[2], "type"@)
    &&& struct_body_tokens(ts.subrange(3, 7))
    &&& ts[6] is Eof
}

/// `p` is the program the tokens `ts` (see [`struct_program_tokens`])
/// define: that one struct type and nothing else.
pub open spec fn struct_program(ts: Seq<Token>, p: LlvmProgram) -> bool {
    &&& p.functions@.len() == 0
    &&& p.globals@.len() == 0
    &&& p.struct_types@.len() == 1
    &&& p.struct_types@[0].0@ == name_text(ts[0])
    &&& p.struct_types@[0].1@ == seq![keyword_type(ts[4])->0]
}

/// A type token that is no identifier: `void`, `i1`, `i8`, `i16`, `i32` or
/// `ptr`.
pub open spec fn plain_type_token(t: Token) -> bool {
    t is Void || t is I1 || t is I8 || t is I16 || t is I32 || t is Ptr
}

/// `ts` begin `ret void }`, and a token follows.
pub open spec fn ret_void_body_tokens(ts: Seq<Token>) -> bool {
    &&& ts.len() >= 3
    &&& is_ident(ts[0], "ret"@)
    &&& ts[1] is Void
    &&& ts[2] is CloseBrace
}

/// `ts` begin `define <type> @<name>() { ret void }` (a plain type token),
/// and a token that is no number follows.
pub open spec fn function_tokens(ts: Seq<Token>) -> bool {
    &&& ts.len() >= 10
    &&& ts[0] is Define
    &&& plain_type_token(ts[1])
    &&& ts[2] is GlobalId
    &&& ts[3] is OpenParen
    &&& ts[4] is CloseParen
    &&& ts[5] is OpenBrace
    &&& ret_void_body_tokens(ts.subrange(6, ts.len() as int))
    &&& !(ts[9] is Number)
}

/// `f` is the function that the tokens `ts` (see [`function_tokens`])
/// define: that name and return type, no parameters, and one block
/// `entry` holding `ret void`.
pub open spec fn function_from(ts: Seq<Token>, f: LlvmFunction) -> bool {
    &&& f.name@ == name_text(ts[2])
    &&& f.return_ty == keyword_type(ts[1])->0
    &&& f.params@.len() == 0
    &&& f.blocks@.len() == 1
    &&& f.blocks@[0].label@ == "entry"@
    &&& f.blocks@[0].instructions@.len() == 1
    &&& f.blocks@[0].instructions@[0] matches LlvmInstr::Ret { value: None }
    &&& !f.is_declaration
}

/// `ts` are exactly one function definition of [`function_tokens`], then
/// the end of the input.
pub open spec fn function_program_tokens(ts: Seq<Token>) -> bool {
    &&& ts.len() == 10
    &&& function_tokens(ts)
    &&& ts[9] is Eof
}

/// `p` is the program the tokens `ts` (see [`function_program_tokens`])
/// define: that one function and nothing else.
pub open spec fn function_program(ts: Seq<Token>, p: LlvmProgram) -> bool {
    &&& p.functions@.len() == 1
    &&& function_from(ts, p.functions@[0])
    &&& p.globals@.len() == 0
    &&& p.struct_types@.len() == 0
}

/// A token that ends a module-level item.
pub open spec fn module_item_start(t: Token) -> bool {
    t is Eof || t is Define || t is Declare || t is GlobalId || t is LocalId
}

/// The rendering of token `t` in error messages.
pub open spec fn describe_text(t: Token) -> Seq<char> {
    match t {
        Token::Define => "Define"@,
        Token::Declare => "Declare"@,
        Token::I1 => "I1"@,
        Token::I8 => "I8"@,
        Token::I16 => "I16"@,
        Token::I32 => "I32"@,
        Token::Ptr => "Ptr"@,
        Token::Void => "Void"@,
        Token::True => "True"@,
        Token::False => "False"@,
        Token::OpenBrace => "OpenBrace"@,
        Token::CloseBrace => "CloseBrace"@,
        Token::OpenParen => "OpenParen"@,
        Token::CloseParen => "CloseParen"@,
        Token::OpenBracket => "OpenBracket"@,
        Token::CloseBracket => "CloseBracket"@,
        Token::Comma => "Comma"@,
        Token::Equals => "Equals"@,
        Token::StringLiteral(_) => "StringLiteral"@,
        Token::EqPred => "EqPred"@,
        Token::NePred => "NePred"@,
        Token::SltPred => "SltPred"@,
        Token::SgtPred => "SgtPred"@,
        Token::SlePred => "SlePred"@,
        Token::SgePred => "SgePred"@,
        Token::Eof => "Eof"@,
        Token::Label(n) => "Label(\""@ + n@ + "\")"@,
        Token::NumLabel(n) => "NumLabel(\""@ + n@ + "\")"@,
        Token::GlobalId(n) => "GlobalId(\""@ + n@ + "\")"@,
        Token::LocalId(n) => "LocalId(\""@ + n@ + "\")"@,
        Token::Ident(n) => "Ident(\""@ + n@ + "\")"@,
        Token::Number(v) => "Number("@ + signed_decimal(v as int) + ")"@,
    }
}

/// A readable rendering of a token for error messages.
fn describe(t: &Token) -> (s: String)
    ensures
        s@ == describe_text(*t),
{
    let mut s = String::new();
    match t {
        Token::Define => push_str(&mut s, "Define"),
        Token::Declare => push_str(&mut s, "Declare"),
        Token::I1 => push_str(&mut s, "I1"),
        Token::I8 => push_str(&mut s, "I8"),
        Token::I16 => push_str(&mut s, "I16"),
        Token::I32 => push_str(&mut s, "I32"),
        Token::Ptr => push_str(&mut s, "Ptr"),
        Token::Void => push_str(&mut s, "Void"),
        Token::True => push_str(&mut s, "True"),
        Token::False => push_str(&mut s, "False"),
        Token::Label(n) => {
            push_str(&mut s, "Label(\"");
            push_str(&mut s, n.as_str());
            push_str(&mut s, "\")");
        },
        Token::NumLabel(n) => {
            push_str(&mut s, "NumLabel(\"");
            push_str(&mut s, n.as_str());
            push_str(&mut s, "\")");
        },
        Token::GlobalId(n) => {
            push_str(&mut s, "GlobalId(\"");
            push_str(&mut s, n.as_str());
            push_str(&mut s, "\")");
        },
        Token::LocalId(n) => {
            push_str(&mut s, "LocalId(\"");
            push_str(&mut s, n.as_str());
            push_str(&mut s, "\")");
        },
        Token::Number(v) => {
            push_str(&mut s, "Number(");
            push_signed_decimal(&mut s, *v);
            push_str(&mut s, ")");
        },
        Token::OpenBrace => push_str(&mut s, "OpenBrace"),
        Token::CloseBrace => push_str(&mut s, "CloseBrace"),
        Token::OpenParen => push_str(&mut s, "OpenParen"),
        Token::CloseParen => push_str(&mut s, "CloseParen"),
        Token::OpenBracket => push_str(&mut s, "OpenBracket"),
        Token::CloseBracket => push_str(&mut s, "CloseBracket"),
        Token::Comma => push_str(&mut s, "Comma"),
        Token::Equals => push_str(&mut s, "Equals"),
        Token::Ident(n) => {
            push_str(&mut s, "Ident(\"");
            push_str(&mut s, n.as_str());
            push_str(&mut s, "\")");
        },
        Token::StringLiteral(_) => push_str(&mut s, "StringLiteral"),
        Token::EqPred => push_str(&mut s, "EqPred"),
        Token::NePred => push_str(&mut s, "NePred"),
        Token::SltPred => push_str(&mut s, "SltPred"),
        Token::SgtPred => push_str(&mut s, "SgtPred"),
        Token::SlePred => push_str(&mut s, "SlePred"),
        Token::SgePred => push_str(&mut s, "SgePred"),
        Token::Eof => push_str(&mut s, "Eof"),
    }
    s
}

/// A parse error whose message is `prefix` followed by the token.
fn parse_error(prefix: &str, t: &Token) -> (e: LlvmError)
    ensures
        e matches LlvmError::Parse(m) && m@ == prefix@ + describe_text(*t),
{
    let mut s = String::from_str(prefix);
    let d = describe(t);
    push_str(&mut s, d.as_str());
    LlvmError::Parse(s)
}

/// A parse error with a fixed message.
fn parse_error_msg(msg: &str) -> (e: LlvmError)
    ensures
        e is Parse,
{
    LlvmError::Parse(String::from_str(msg))
}

/// Whether a string has the text `w`.
fn text_is(s: &String, w: &str) -> (r: bool)
    ensures
        r == (s@ == w@),
{
    str_equal(s.as_str(), w)
}

/// Whether a token is the identifier `w`.
fn ident_is(t: &Token, w: &str) -> (r: bool)
    ensures
        r == is_ident(*t, w@),
{
    match t {
        Token::Ident(s) => text_is(s, w),
        _ => false,
    }
}

/// The low 32 bits of a signed value (`n as u32`).
fn low_word(n: i64) -> (r: u32)
    ensures
        r == (n as int) % 0x1_0000_0000,
{
    let u = n as u64;
    assert((u & 0xffff_ffff) as int == (n as int) % 0x1_0000_0000) by (bit_vector)
        requires
            u == n as u64,
    ;
    (u & 0xffff_ffff) as u32
}

/// Parameter attributes skipped between a type and a value.
pub open spec fn param_attr_word(w: Seq<char>) -> bool {
    w == "noundef"@ || w == "signext"@ || w == "zeroext"@ || w == "noalias"@ || w == "nocapture"@ || w == "nonnull"@ || w == "returned"@ || w == "inreg"@ || w == "sret"@ || w == "swiftself"@ || w == "nest"@ || w == "readonly"@ || w == "writeonly"@ || w == "readnone"@ || w == "immarg"@ || w == "captures"@ || w == "align"@
}

fn is_param_attr(s: &String) -> (r: bool)
    ensures
        r == param_attr_word(s@),
{
    text_is(s, "noundef") || text_is(s, "signext") || text_is(s, "zeroext") || text_is(s, "noalias") || text_is(s, "nocapture") || text_is(s, "nonnull") || text_is(s, "returned") || text_is(s, "inreg") || text_is(s, "sret") || text_is(s, "swiftself") || text_is(s, "nest") || text_is(s, "readonly") || text_is(s, "writeonly") || text_is(s, "readnone") || text_is(s, "immarg") || text_is(s, "captures") || text_is(s, "align")
}

/// Linkage, preemption and calling-convention words skipped before a
/// function's return type.
pub open spec fn linkage_word(w: Seq<char>) -> bool {
    w == "dso_local"@ || w == "dso_preemptable"@ || w == "internal"@ || w == "private"@ || w == "external"@ || w == "available_externally"@ || w == "linkonce"@ || w == "linkonce_odr"@ || w == "weak"@ || w == "weak_odr"@ || w == "common"@ || w == "appending"@ || w == "extern_weak"@ || w == "thread_local"@ || w == "unnamed_addr"@ || w == "local_unnamed_addr"@ || w == "ccc"@ || w == "fastcc"@ || w == "coldcc"@ || w == "tailcc"@ || w == "nounwind"@ || w == "willreturn"@
}

fn is_linkage_word(s: &String) -> (r: bool)
    ensures
        r == linkage_word(s@),
{
    text_is(s, "dso_local") || text_is(s, "dso_preemptable") || text_is(s, "internal") || text_is(s, "private") || text_is(s, "external") || text_is(s, "available_externally") || text_is(s, "linkonce") || text_is(s, "linkonce_odr") || text_is(s, "weak") || text_is(s, "weak_odr") || text_is(s, "common") || text_is(s, "appending") || text_is(s, "extern_weak") || text_is(s, "thread_local") || text_is(s, "unnamed_addr") || text_is(s, "local_unnamed_addr") || text_is(s, "ccc") || text_is(s, "fastcc") || text_is(s, "coldcc") || text_is(s, "tailcc") || text_is(s, "nounwind") || text_is(s, "willreturn")
}

/// The current token is an identifier whose text satisfies `p`.
pub open spec fn ident_in(t: Token, p: spec_fn(Seq<char>) -> bool) -> bool {
    t matches Token::Ident(s) && p(s@)
}

/// The binary integer opcodes.
pub open spec fn binop_word(w: Seq<char>) -> bool {
    w == "add"@ || w == "sub"@ || w == "mul"@ || w == "sdiv"@ || w == "udiv"@ || w == "rem"@ || w == "srem"@ || w == "urem"@ || w == "and"@ || w == "or"@ || w == "xor"@ || w == "shl"@ || w == "lshr"@ || w == "ashr"@
}

fn is_binop_word(s: &String) -> (r: bool)
    ensures
        r == binop_word(s@),
{
    text_is(s, "add") || text_is(s, "sub") || text_is(s, "mul") || text_is(s, "sdiv") || text_is(s, "udiv") || text_is(s, "rem") || text_is(s, "srem") || text_is(s, "urem") || text_is(s, "and") || text_is(s, "or") || text_is(s, "xor") || text_is(s, "shl") || text_is(s, "lshr") || text_is(s, "ashr")
}

/// The cast operator an opcode word names.
pub open spec fn cast_word(w: Seq<char>) -> Option<CastOp> {
    if w == "zext"@ {
        Some(CastOp::Zext)
    } else if w == "sext"@ {
        Some(CastOp::Sext)
    } else if w == "trunc"@ {
        Some(CastOp::Trunc)
    } else if w == "bitcast"@ {
        Some(CastOp::Bitcast)
    } else if w == "ptrtoint"@ {
        Some(CastOp::PtrToInt)
    } else if w == "inttoptr"@ {
        Some(CastOp::IntToPtr)
    } else {
        None
    }
}

fn cast_op_of(s: &String) -> (r: Option<CastOp>)
    ensures
        r == cast_word(s@),
{
    if text_is(s, "zext") {
        Some(CastOp::Zext)
    } else if text_is(s, "sext") {
        Some(CastOp::Sext)
    } else if text_is(s, "trunc") {
        Some(CastOp::Trunc)
    } else if text_is(s, "bitcast") {
        Some(CastOp::Bitcast)
    } else if text_is(s, "ptrtoint") {
        Some(CastOp::PtrToInt)
    } else if text_is(s, "inttoptr") {
        Some(CastOp::IntToPtr)
    } else {
        None
    }
}

/// LLVM's spelling of a conversion operator.
pub open spec fn cast_name(c: CastOp) -> Seq<char> {
    match c {
        CastOp::Zext => "zext"@,
        CastOp::Sext => "sext"@,
        CastOp::Trunc => "trunc"@,
        CastOp::Bitcast => "bitcast"@,
        CastOp::PtrToInt => "ptrtoint"@,
        CastOp::IntToPtr => "inttoptr"@,
    }
}

/// A conversion word is read as the operator of that name, and only as it:
/// word `w` names operator `c` exactly when `c` is spelled `w`. So two
/// distinct operators are never read from one word, nor one operator from
/// two words.
pub proof fn lemma_cast_words(w: Seq<char>)
    ensures
        forall|c: CastOp| #[trigger] cast_name(c) == w <==> cast_word(w) == Some(c),
{
    reveal_strlit("zext");
    reveal_strlit("sext");
    reveal_strlit("trunc");
    reveal_strlit("bitcast");
    reveal_strlit("ptrtoint");
    reveal_strlit("inttoptr");
    assert("zext"@[0] != "sext"@[0]);
    assert("zext"@.len() != "trunc"@.len());
    assert("zext"@.len() != "bitcast"@.len());
    assert("zext"@.len() != "ptrtoint"@.len());
    assert("zext"@.len() != "inttoptr"@.len());
    assert("sext"@.len() != "trunc"@.len());
    assert("sext"@.len() != "bitcast"@.len());
    assert("sext"@.len() != "ptrtoint"@.len());
    assert("sext"@.len() != "inttoptr"@.len());
    assert("trunc"@.len() != "bitcast"@.len());
    assert("trunc"@.len() != "ptrtoint"@.len());
    assert("trunc"@.len() != "inttoptr"@.len());
    assert("bitcast"@.len() != "ptrtoint"@.len());
    assert("bitcast"@.len() != "inttoptr"@.len());
    assert("ptrtoint"@[0] != "inttoptr"@[0]);
    assert forall|c: CastOp| #[trigger] cast_name(c) == w <==> cast_word(w) == Some(c) by {
        match c {
            CastOp::Zext => {},
            CastOp::Sext => {},
            CastOp::Trunc => {},
            CastOp::Bitcast => {},
            CastOp::PtrToInt => {},
            CastOp::IntToPtr => {},
        }
    }
}

/// The opcode words the parser understands.
pub open spec fn known_opcode(w: Seq<char>) -> bool {
    binop_word(w) || cast_word(w).is_some() || w == "icmp"@ || w == "ret"@ || w == "br"@ || w
        == "alloca"@ || w == "load"@ || w == "store"@ || w == "call"@ || w == "getelementptr"@ || w
        == "select"@ || w == "switch"@ || w == "unreachable"@ || w == "phi"@
}

/// An instruction was read from opcode word `op`: its kind matches the
/// opcode, a binary operation keeps its raw opcode, a cast its operator, and
/// a phi has at least one incoming value.
pub open spec fn opcode_matches(op: Seq<char>, i: LlvmInstr) -> bool {
    match i {
        LlvmInstr::BinOp { op: o, .. } => binop_word(op) && o@ == op,
        LlvmInstr::Icmp { .. } => op == "icmp"@,
        LlvmInstr::Ret { .. } => op == "ret"@,
        LlvmInstr::Br { .. } | LlvmInstr::CondBr { .. } => op == "br"@,
        LlvmInstr::Alloca { .. } => op == "alloca"@,
        LlvmInstr::Load { .. } => op == "load"@,
        LlvmInstr::Store { .. } => op == "store"@,
        LlvmInstr::Call { .. } => op == "call"@,
        LlvmInstr::Gep { .. } => op == "getelementptr"@,
        LlvmInstr::Cast { op: c, .. } => cast_word(op) == Some(c),
        LlvmInstr::Select { .. } => op == "select"@,
        LlvmInstr::Switch { .. } => op == "switch"@,
        LlvmInstr::Unreachable => op == "unreachable"@,
        LlvmInstr::Phi { incoming, .. } => op == "phi"@ && incoming@.len() > 0,
    }
}

/// The result name an instruction carries, if any.
pub open spec fn instr_dest(i: LlvmInstr) -> Option<Seq<char>> {
    match i {
        LlvmInstr::BinOp { dest, .. } | LlvmInstr::Call { dest, .. } => match dest {
            Some(d) => Some(d@),
            None => None,
        },
        LlvmInstr::Icmp { dest, .. } | LlvmInstr::Alloca { dest, .. } | LlvmInstr::Load { dest, .. }
        | LlvmInstr::Gep { dest, .. } | LlvmInstr::Cast { dest, .. } | LlvmInstr::Select {
            dest,
            ..
        } | LlvmInstr::Phi { dest, .. } => Some(dest@),
        _ => None,
    }
}

/// The instruction kinds that drop a `%name =` prefix.
pub open spec fn drops_dest(i: LlvmInstr) -> bool {
    i is Ret || i is Br || i is CondBr || i is Store || i is Switch || i is Unreachable
}

/// The parser: a lexer and the current token.
pub struct Parser {
    lexer: Lexer,
    current: Token,
}

impl Parser {
    /// The parser's state is consistent: the current token is end-of-input
    /// only once the input is used up.
    pub closed spec fn wf(&self) -> bool {
        &&& self.lexer.wf()
        &&& self.current is Eof ==> self.lexer.pos == self.lexer.chars@.len()
    }

    /// How much input is left to consume.
    pub closed spec fn progress(&self) -> nat {
        (2 * (self.lexer.chars@.len() - self.lexer.pos) + if self.current is Eof {
            0int
        } else {
            1int
        }) as nat
    }

    /// The input being parsed.
    pub closed spec fn input(&self) -> Seq<char> {
        self.lexer.chars@
    }

    /// Whether an integer literal too large for `i64` has been read.
    pub closed spec fn saw_bad_number(&self) -> bool {
        self.lexer.bad_number.is_some()
    }

    /// The current token.
    pub closed spec fn token(&self) -> Token {
        self.current
    }

    /// `ts` are the tokens ahead: the current token, then those the input
    /// holds after it.
    pub closed spec fn ahead(&self, ts: Seq<Token>) -> bool {
        &&& ts.len() > 0
        &&& token_eq(ts[0], self.current)
        &&& lexes(self.lexer.chars@, self.lexer.pos as int, ts.drop_first())
    }

    /// A parsing step from `self` to `next`: same input, no lost progress, a
    /// bad literal stays recorded.
    pub open spec fn moves_to(&self, next: &Parser) -> bool {
        &&& next.wf()
        &&& next.input() == self.input()
        &&& next.progress() <= self.progress()
        &&& self.saw_bad_number() ==> next.saw_bad_number()
    }

    /// A parser positioned on the first token of `input`.
    pub fn new(input: &str) -> (r: Self)
        ensures
            r.wf(),
            r.input() == input@,
            input@.len() == 0 ==> r.token() is Eof && !r.saw_bad_number(),
            forall|ts: Seq<Token>|
                #[trigger] lexes(input@, 0, ts) && ts.len() >= 1 ==> r.ahead(ts) && (!(ts[0] is Number)
                    ==> !r.saw_bad_number()),
    {
        let mut lexer = Lexer::new(input);
        let current = lexer.next_token();
        let r = Parser { lexer, current };
        proof {
            assert forall|ts: Seq<Token>| #[trigger] lexes(input@, 0, ts) && ts.len() >= 1 implies r.ahead(ts) && (!(
            ts[0] is Number) ==> !r.saw_bad_number()) by {
                let mid = choose|mid: int| #[trigger] token_at(input@, 0, ts[0], mid) && lexes(input@, mid, ts.drop_first());
                lemma_token_at_unique(input@, 0, ts[0], mid, r.current, r.lexer.pos as int);
            }
        }
        r
    }

    fn advance(&mut self)
        requires
            old(self).wf(),
        ensures
            old(self).moves_to(&*final(self)),
            !(old(self).token() is Eof) ==> final(self).progress() < old(self).progress(),
            forall|ts: Seq<Token>|
                #[trigger] old(self).ahead(ts) && ts.len() >= 2 ==> final(self).ahead(ts.drop_first()) && (!(ts[1] is Number)
                    ==> final(self).saw_bad_number() == old(self).saw_bad_number()),
    {
        let ghost p0 = self.lexer.pos as int;
        self.current = self.lexer.next_token();
        proof {
            assert forall|ts: Seq<Token>| #[trigger] old(self).ahead(ts) && ts.len() >= 2 implies self.ahead(
                ts.drop_first(),
            ) && (!(ts[1] is Number) ==> self.saw_bad_number() == old(self).saw_bad_number()) by {
                let rest = ts.drop_first();
                let mid = choose|mid: int| #[trigger] token_at(self.lexer.chars@, p0, rest[0], mid) && lexes(
                    self.lexer.chars@,
                    mid,
                    rest.drop_first(),
                );
                lemma_token_at_unique(self.lexer.chars@, p0, rest[0], mid, self.current, self.lexer.pos as int);
            }
        }
    }

    /// Consume the current token if it is `expected`, else fail.
    fn expect(&mut self, expected: &Token) -> (r: Result<(), LlvmError>)
        requires
            old(self).wf(),
        ensures
            old(self).moves_to(&*final(self)),
            r is Ok <==> token_eq(old(self).token(), *expected),
            r matches Err(e) ==> e is Parse,
            r is Ok ==> forall|ts: Seq<Token>|
                #[trigger] old(self).ahead(ts) && ts.len() >= 2 ==> final(self).ahead(ts.drop_first()) && (!(ts[1] is Number)
                    ==> final(self).saw_bad_number() == old(self).saw_bad_number()),
            r is Ok && !(expected is Eof) ==> final(self).progress() < old(self).progress(),
    {
        if same_token(&self.current, expected) {
            self.advance();
            Ok(())
        } else {
            let mut s = String::from_str("expected ");
            let d = describe(expected);
            push_str(&mut s, d.as_str());
            push_str(&mut s, ", got ");
            let g = describe(&self.current);
            push_str(&mut s, g.as_str());
            Err(LlvmError::Parse(s))
        }
    }

    /// Consume the identifier `w`, else fail.
    fn expect_ident(&mut self, w: &str) -> (r: Result<(), LlvmError>)
        requires
            old(self).wf(),
        ensures
            old(self).moves_to(&*final(self)),
            r is Ok <==> is_ident(old(self).token(), w@),
            r matches Err(e) ==> e is Parse,
            r is Ok ==> final(self).progress() < old(self).progress(),
            r is Ok ==> forall|ts: Seq<Token>|
                #[trigger] old(self).ahead(ts) && ts.len() >= 2 ==> final(self).ahead(ts.drop_first()),
    {
        let t = Token::Ident(String::from_str(w));
        self.expect(&t)
    }

    /// Parse a type: a primitive keyword (`i64` is read from an identifier),
    /// `[<count> x <type>]`, `{ <type>, … }` or a named struct `%name`.
    fn parse_type(&mut self) -> (r: Result<LlvmType, LlvmError>)
        requires
            old(self).wf(),
        ensures
            old(self).moves_to(&*final(self)),
            r is Ok ==> final(self).progress() < old(self).progress(),
            keyword_type(old(self).token()) matches Some(t) ==> r == Ok::<LlvmType, LlvmError>(t),
            old(self).token() matches Token::LocalId(n) ==> (r matches Ok(LlvmType::Struct(m)) && m@ == n@),
            (keyword_type(old(self).token()).is_none() && !(old(self).token() is LocalId) && !(
            old(self).token() is OpenBracket) && !(old(self).token() is OpenBrace)) ==> r matches Err(
                LlvmError::UnsupportedType(_),
            ),
            keyword_type(old(self).token()) is Some ==> forall|ts: Seq<Token>|
                #[trigger] old(self).ahead(ts) && ts.len() >= 2 ==> final(self).ahead(ts.drop_first()) && (!(ts[1] is Number)
                    ==> final(self).saw_bad_number() == old(self).saw_bad_number()),
        decreases old(self).progress(),
    {
        match &self.current {
            Token::OpenBracket => {
                self.advance();
                let count = match &self.current {
                    Token::Number(n) => {
                        let val = low_word(*n);
                        self.advance();
                        val
                    },
                    _ => {
                        return Err(parse_error("expected array count, got ", &self.current));
                    },
                };
                self.expect_ident("x")?;
                let inner = self.parse_type()?;
                self.expect(&Token::CloseBracket)?;
                Ok(LlvmType::Array { inner: Box::new(inner), count })
            },
            Token::OpenBrace => {
                self.advance();
                let mut fields: Vec<LlvmType> = Vec::new();
                while !same_token(&self.current, &Token::CloseBrace)
                    invariant
                        old(self).moves_to(&*self),
                        self.progress() < old(self).progress(),
                        old(self).token() is OpenBrace,
                    decreases self.progress(),
                {
                    let field_ty = self.parse_type()?;
                    fields.push(field_ty);
                    if same_token(&self.current, &Token::Comma) {
                        self.advance();
                    }
                }
                self.expect(&Token::CloseBrace)?;
                Ok(LlvmType::UnnamedStruct { fields })
            },
            Token::LocalId(name) => {
                let n = name.clone();
                self.advance();
                Ok(LlvmType::Struct(n))
            },
            _ => {
                let r = match &self.current {
                    Token::I1 => Ok(LlvmType::I1),
                    Token::I8 => Ok(LlvmType::I8),
                    Token::I16 => Ok(LlvmType::I16),
                    Token::I32 => Ok(LlvmType::I32),
                    Token::Ptr => Ok(LlvmType::Ptr),
                    Token::Void => Ok(LlvmType::Void),
                    Token::Ident(s) => {
                        if text_is(s, "i64") {
                            Ok(LlvmType::I64)
                        } else {
                            Err(LlvmError::UnsupportedType(describe(&self.current)))
                        }
                    },
                    _ => Err(LlvmError::UnsupportedType(describe(&self.current))),
                };
                self.advance();
                r
            },
        }
    }

    /// Parse the value's token after its type has been read.
    fn parse_typed_operand(&mut self, ty: LlvmType) -> (r: Result<LlvmValue, LlvmError>)
        requires
            old(self).wf(),
        ensures
            old(self).moves_to(&*final(self)),
            r is Ok ==> final(self).progress() < old(self).progress(),
            old(self).token() matches Token::Number(n) ==> (r matches Ok(LlvmValue::Const(c)) && c.value == n),
            old(self).token() matches Token::LocalId(n) ==> (r matches Ok(LlvmValue::Local(m)) && m@ == n@),
            old(self).token() matches Token::GlobalId(n) ==> (r matches Ok(LlvmValue::Global(m)) && m@ == n@),
            !(old(self).token() is Number || old(self).token() is LocalId || old(self).token() is GlobalId)
                ==> r matches Err(LlvmError::Parse(_)),
            typed_value_token(old(self).token()) ==> (r matches Ok(v) && operand_of(old(self).token(), ty, v)),
            old(self).token() is Number ==> (r matches Ok(LlvmValue::Const(c)) && c.ty == ty),
            typed_value_token(old(self).token()) ==> forall|ts: Seq<Token>|
                #[trigger] old(self).ahead(ts) && ts.len() >= 2 ==> final(self).ahead(ts.drop_first()) && (!(ts[1] is Number)
                    ==> final(self).saw_bad_number() == old(self).saw_bad_number()),
    {
        proof {
            lemma_same_type_refl(ty);
        }
        match &self.current {
            Token::Number(n) => {
                let val = *n;
                self.advance();
                Ok(LlvmValue::Const(LlvmConst { value: val, ty }))
            },
            Token::LocalId(name) => {
                let n = name.clone();
                self.advance();
                Ok(LlvmValue::Local(n))
            },
            Token::GlobalId(name) => {
                let n = name.clone();
                self.advance();
                Ok(LlvmValue::Global(n))
            },
            _ => Err(parse_error("expected value, got ", &self.current)),
        }
    }

    /// Parse a value, optionally with a known expected type: an integer
    /// literal (typed by the expectation, else `i32`), `true`/`false`
    /// (typed by the expectation, else `i1`), a local or global name, an
    /// inline `getelementptr` expression, or a type followed by one of these.
    fn parse_value_of_type_opt(&mut self, expected_ty: Option<&LlvmType>) -> (r: Result<
        LlvmValue,
        LlvmError,
    >)
        requires
            old(self).wf(),
        ensures
            old(self).moves_to(&*final(self)),
            r is Ok ==> final(self).progress() < old(self).progress(),
            old(self).token() matches Token::Number(n) ==> (r matches Ok(LlvmValue::Const(c)) && c.value == n),
            old(self).token() is True ==> (r matches Ok(LlvmValue::Const(c)) && c.value == 1),
            old(self).token() is False ==> (r matches Ok(LlvmValue::Const(c)) && c.value == 0),
            old(self).token() matches Token::LocalId(n) ==> (r matches Ok(LlvmValue::Local(m)) && m@ == n@),
            old(self).token() matches Token::GlobalId(n) ==> (r matches Ok(LlvmValue::Global(m)) && m@ == n@),
            is_ident(old(self).token(), "getelementptr"@) ==> (r is Ok ==> r->Ok_0 is GepConstExpr),
            value_token(old(self).token()) ==> forall|ts: Seq<Token>|
                #[trigger] old(self).ahead(ts) && ts.len() >= 2 ==> final(self).ahead(ts.drop_first()) && (!(ts[1] is Number)
                    ==> final(self).saw_bad_number() == old(self).saw_bad_number()),
            value_token(old(self).token()) ==> (expected_ty matches Some(t) ==> (r matches Ok(v) && operand_of(
                old(self).token(),
                *t,
                v,
            ))),
            value_token(old(self).token()) && expected_ty is None ==> (r matches Ok(v) && bare_operand_of(
                old(self).token(),
                v,
            )),
            forall|ts: Seq<Token>|
                #[trigger] old(self).ahead(ts) && typed_operand_tokens(ts) ==> (r matches Ok(v) && operand_of(
                    ts[1],
                    keyword_type(ts[0])->0,
                    v,
                ) && final(self).ahead(ts.subrange(2, ts.len() as int))),
        decreases old(self).progress(), 1nat,
    {
        proof {
            reveal_strlit("getelementptr");
            reveal_strlit("i64");
            assert("getelementptr"@ != "i64"@) by {
                assert("getelementptr"@.len() != "i64"@.len());
            }
        }
        if ident_is(&self.current, "getelementptr") {
            return self.parse_gep_const_expr();
        }
        match &self.current {
            Token::Number(n) => {
                let val = *n;
                self.advance();
                let ty = match expected_ty {
                    Some(t) => copy_type(t),
                    None => LlvmType::I32,
                };
                Ok(LlvmValue::Const(LlvmConst { value: val, ty }))
            },
            Token::True => {
                self.advance();
                let ty = match expected_ty {
                    Some(t) => copy_type(t),
                    None => LlvmType::I1,
                };
                Ok(LlvmValue::Const(LlvmConst { value: 1, ty }))
            },
            Token::False => {
                self.advance();
                let ty = match expected_ty {
                    Some(t) => copy_type(t),
                    None => LlvmType::I1,
                };
                Ok(LlvmValue::Const(LlvmConst { value: 0, ty }))
            },
            Token::LocalId(name) => {
                let n = name.clone();
                self.advance();
                Ok(LlvmValue::Local(n))
            },
            Token::GlobalId(name) => {
                let n = name.clone();
                self.advance();
                Ok(LlvmValue::Global(n))
            },
            _ => {
                let ghost s0 = *self;
                let ty = self.parse_type()?;
                let ghost s1 = *self;
                let ghost ty0 = ty;
                let r = self.parse_typed_operand(ty);
                proof {
                    assert forall|ts: Seq<Token>|
                        #[trigger] s0.ahead(ts) && typed_operand_tokens(ts) implies (r matches Ok(v) && operand_of(
                            ts[1],
                            keyword_type(ts[0])->0,
                            v,
                        ) && self.ahead(ts.subrange(2, ts.len() as int))) by {
                        assert(s1.ahead(ts.drop_first()));
                        assert(ts.drop_first()[0] == ts[1]);
                        assert(ty0 == keyword_type(ts[0])->0);
                        assert(ts.drop_first().drop_first() =~= ts.subrange(2, ts.len() as int));
                    }
                }
                r
            },
        }
    }

    fn parse_value(&mut self) -> (r: Result<LlvmValue, LlvmError>)
        requires
            old(self).wf(),
        ensures
            old(self).moves_to(&*final(self)),
            r is Ok ==> final(self).progress() < old(self).progress(),
            old(self).token() matches Token::Number(n) ==> (r matches Ok(LlvmValue::Const(c)) && c.value == n),
            old(self).token() matches Token::LocalId(n) ==> (r matches Ok(LlvmValue::Local(m)) && m@ == n@),
            old(self).token() matches Token::GlobalId(n) ==> (r matches Ok(LlvmValue::Global(m)) && m@ == n@),
            forall|ts: Seq<Token>|
                #[trigger] old(self).ahead(ts) && typed_operand_tokens(ts) ==> (r matches Ok(v) && operand_of(
                    ts[1],
                    keyword_type(ts[0])->0,
                    v,
                ) && final(self).ahead(ts.subrange(2, ts.len() as int))),
            value_token(old(self).token()) ==> (r matches Ok(v) && bare_operand_of(old(self).token(), v)),
            value_token(old(self).token()) ==> forall|ts: Seq<Token>|
                #[trigger] old(self).ahead(ts) && ts.len() >= 2 ==> final(self).ahead(ts.drop_first()),
        decreases old(self).progress(), 2nat,
    {
        self.parse_value_of_type_opt(None)
    }

    fn parse_value_of_type(&mut self, ty: &LlvmType) -> (r: Result<LlvmValue, LlvmError>)
        requires
            old(self).wf(),
        ensures
            old(self).moves_to(&*final(self)),
            r is Ok ==> final(self).progress() < old(self).progress(),
            old(self).token() matches Token::Number(n) ==> (r matches Ok(LlvmValue::Const(c)) && c.value == n),
            old(self).token() matches Token::LocalId(n) ==> (r matches Ok(LlvmValue::Local(m)) && m@ == n@),
            value_token(old(self).token()) ==> forall|ts: Seq<Token>|
                #[trigger] old(self).ahead(ts) && ts.len() >= 2 ==> final(self).ahead(ts.drop_first()) && (!(ts[1] is Number)
                    ==> final(self).saw_bad_number() == old(self).saw_bad_number()),
            value_token(old(self).token()) ==> (r matches Ok(v) && operand_of(old(self).token(), *ty, v)),
    {
        self.parse_value_of_type_opt(Some(ty))
    }

    /// Parse an inline `getelementptr [inbounds] (<elem_ty>, ptr <base>,
    /// <idx>…)` constant expression, positioned on `getelementptr`.
    fn parse_gep_const_expr(&mut self) -> (r: Result<LlvmValue, LlvmError>)
        requires
            old(self).wf(),
            is_ident(old(self).token(), "getelementptr"@),
        ensures
            old(self).moves_to(&*final(self)),
            r is Ok ==> final(self).progress() < old(self).progress(),
            r is Ok ==> r->Ok_0 is GepConstExpr,
        decreases old(self).progress(), 0nat,
    {
        self.advance();
        if ident_is(&self.current, "inbounds") {
            self.advance();
        }
        self.expect(&Token::OpenParen)?;
        let elem_ty = self.parse_type()?;
        self.expect(&Token::Comma)?;
        self.expect(&Token::Ptr)?;
        let base = self.parse_value()?;
        let mut indices: Vec<LlvmValue> = Vec::new();
        while !same_token(&self.current, &Token::CloseParen)
            invariant
                old(self).moves_to(&*self),
                self.progress() < old(self).progress(),
            decreases self.progress(),
        {
            self.expect(&Token::Comma)?;
            let idx = self.parse_value()?;
            indices.push(idx);
        }
        self.expect(&Token::CloseParen)?;
        Ok(LlvmValue::GepConstExpr { elem_ty, base: Box::new(base), indices })
    }

    /// Parse an integer comparison predicate (`eq`, `ne`, `slt`, `sgt`,
    /// `sle`, `sge` are keywords; `ult`, `ugt`, `ule`, `uge` identifiers).
    fn parse_icmp_predicate(&mut self) -> (r: Result<IcmpPred, LlvmError>)
        requires
            old(self).wf(),
        ensures
            old(self).moves_to(&*final(self)),
            predicate_of(old(self).token()) matches Some(p) ==> r == Ok::<IcmpPred, LlvmError>(p),
            predicate_of(old(self).token()).is_none() ==> r matches Err(LlvmError::UnsupportedIcmpPredicate(_)),
            r is Ok ==> final(self).progress() < old(self).progress(),
            forall|ts: Seq<Token>|
                #[trigger] old(self).ahead(ts) && ts.len() >= 2 ==> final(self).ahead(ts.drop_first()) && (!(ts[1] is Number)
                    ==> final(self).saw_bad_number() == old(self).saw_bad_number()),
    {
        let r = match &self.current {
            Token::EqPred => Ok(IcmpPred::Eq),
            Token::NePred => Ok(IcmpPred::Ne),
            Token::SltPred => Ok(IcmpPred::Slt),
            Token::SgtPred => Ok(IcmpPred::Sgt),
            Token::SlePred => Ok(IcmpPred::Sle),
            Token::SgePred => Ok(IcmpPred::Sge),
            Token::Ident(s) => {
                if text_is(s, "ult") {
                    Ok(IcmpPred::Ult)
                } else if text_is(s, "ugt") {
                    Ok(IcmpPred::Ugt)
                } else if text_is(s, "ule") {
                    Ok(IcmpPred::Ule)
                } else if text_is(s, "uge") {
                    Ok(IcmpPred::Uge)
                } else {
                    Err(LlvmError::UnsupportedIcmpPredicate(describe(&self.current)))
                }
            },
            _ => Err(LlvmError::UnsupportedIcmpPredicate(describe(&self.current))),
        };
        self.advance();
        r
    }

    /// Skip parameter attributes (`noundef`, `signext`, …; `align N` with its
    /// number).
    fn skip_param_attrs(&mut self)
        requires
            old(self).wf(),
        ensures
            old(self).moves_to(&*final(self)),
            !ident_in(final(self).token(), |w: Seq<char>| param_attr_word(w)),
    {
        loop
            invariant
                old(self).moves_to(&*self),
            ensures
                old(self).moves_to(&*self),
                !ident_in(self.token(), |w: Seq<char>| param_attr_word(w)),
            decreases self.progress(),
        {
            let is_align = match &self.current {
                Token::Ident(s) => {
                    if !is_param_attr(s) {
                        break;
                    }
                    text_is(s, "align")
                },
                _ => break,
            };
            self.advance();
            if is_align {
                if let Token::Number(_) = self.current {
                    self.advance();
                }
            }
        }
    }

    /// Skip attribute tokens up to the `{` opening a function body.
    fn skip_to_open_brace(&mut self) -> (r: Result<(), LlvmError>)
        requires
            old(self).wf(),
        ensures
            old(self).moves_to(&*final(self)),
            r is Ok ==> final(self).token() is OpenBrace,
            r matches Err(e) ==> e is Parse,
            old(self).token() is OpenBrace ==> r is Ok && *final(self) == *old(self),
    {
        while !same_token(&self.current, &Token::OpenBrace)
            invariant
                old(self).moves_to(&*self),
                old(self).token() is OpenBrace ==> *self == *old(self),
            decreases self.progress(),
        {
            if same_token(&self.current, &Token::Eof) {
                return Err(parse_error_msg("reached end of input before function body '{'"));
            }
            self.advance();
        }
        Ok(())
    }

    /// Skip linkage, preemption and calling-convention words.
    fn skip_linkage_attrs(&mut self)
        requires
            old(self).wf(),
        ensures
            old(self).moves_to(&*final(self)),
            !ident_in(final(self).token(), |w: Seq<char>| linkage_word(w)),
            !(old(self).token() is Ident) ==> *final(self) == *old(self),
    {
        loop
            invariant
                old(self).moves_to(&*self),
                !(old(self).token() is Ident) ==> *self == *old(self),
            ensures
                old(self).moves_to(&*self),
                !ident_in(self.token(), |w: Seq<char>| linkage_word(w)),
                !(old(self).token() is Ident) ==> *self == *old(self),
            decreases self.progress(),
        {
            match &self.current {
                Token::Ident(s) => {
                    if !is_linkage_word(s) {
                        break;
                    }
                },
                _ => break,
            }
            self.advance();
        }
    }

    /// Parse a parenthesised parameter list of `<type> <attrs>* [%name]`
    /// items, stopping at a variadic `...`. Names are required when
    /// `names_required` (definitions); a missing name is empty otherwise.
    fn parse_params(&mut self, names_required: bool) -> (r: Result<Vec<(LlvmType, String)>, LlvmError>)
        requires
            old(self).wf(),
        ensures
            old(self).moves_to(&*final(self)),
            r is Ok ==> final(self).progress() < old(self).progress(),
            !(old(self).token() is OpenParen) ==> r matches Err(LlvmError::Parse(_)),
            forall|ts: Seq<Token>|
                #[trigger] old(self).ahead(ts) && ts.len() >= 3 && ts[0] is OpenParen && ts[1] is CloseParen ==> (
                r matches Ok(v) && v@.len() == 0 && final(self).ahead(ts.subrange(2, ts.len() as int)) && (!(
                ts[2] is Number) ==> final(self).saw_bad_number() == old(self).saw_bad_number())),
    {
        let mut params: Vec<(LlvmType, String)> = Vec::new();
        let ghost s0 = *self;
        self.expect(&Token::OpenParen)?;
        if same_token(&self.current, &Token::CloseParen) {
            let ghost s1 = *self;
            self.advance();
            proof {
                assert forall|ts: Seq<Token>|
                    #[trigger] s0.ahead(ts) && ts.len() >= 3 && ts[0] is OpenParen && ts[1] is CloseParen implies self.ahead(
                        ts.subrange(2, ts.len() as int),
                    ) && (!(ts[2] is Number) ==> self.saw_bad_number() == s0.saw_bad_number()) by {
                    assert(s1.ahead(ts.drop_first()));
                    assert(ts.drop_first()[1] == ts[2]);
                    assert(ts.drop_first().drop_first() =~= ts.subrange(2, ts.len() as int));
                }
            }
            return Ok(params);
        }
        while !same_token(&self.current, &Token::CloseParen)
            invariant
                old(self).moves_to(&*self),
                self.progress() < old(self).progress(),
                old(self).token() is OpenParen,
                forall|ts: Seq<Token>|
                    #[trigger] old(self).ahead(ts) && ts.len() >= 3 && ts[0] is OpenParen ==> !(ts[1] is CloseParen),
            decreases self.progress(),
        {
            if ident_is(&self.current, "...") {
                self.advance();
                break;
            }
            let ty = self.parse_type()?;
            self.skip_param_attrs();
            let name = match &self.current {
                Token::LocalId(n) => {
                    let name = n.clone();
                    self.advance();
                    name
                },
                _ => {
                    if names_required {
                        return Err(parse_error("expected local id, got ", &self.current));
                    }
                    String::new()
                },
            };
            params.push((ty, name));
            if same_token(&self.current, &Token::Comma) {
                self.advance();
            }
        }
        self.expect(&Token::CloseParen)?;
        Ok(params)
    }

    /// Parse a parenthesised call argument list. Each argument is
    /// `<attrs>* <type> <attrs>* <value>`, or a bare value.
    fn parse_call_args(&mut self) -> (r: Result<Vec<LlvmValue>, LlvmError>)
        requires
            old(self).wf(),
        ensures
            old(self).moves_to(&*final(self)),
            r is Ok ==> final(self).progress() < old(self).progress(),
            !(old(self).token() is OpenParen) ==> r matches Err(LlvmError::Parse(_)),
            forall|ts: Seq<Token>|
                #[trigger] old(self).ahead(ts) && ts.len() >= 3 && ts[0] is OpenParen && ts[1] is CloseParen ==> (
                r matches Ok(a) && a@.len() == 0),
    {
        let mut args: Vec<LlvmValue> = Vec::new();
        self.expect(&Token::OpenParen)?;
        if same_token(&self.current, &Token::CloseParen) {
            self.advance();
            return Ok(args);
        }
        while !same_token(&self.current, &Token::CloseParen)
            invariant
                old(self).moves_to(&*self),
                self.progress() < old(self).progress(),
                old(self).token() is OpenParen,
                forall|ts: Seq<Token>|
                    #[trigger] old(self).ahead(ts) && ts.len() >= 3 && ts[0] is OpenParen ==> !(ts[1] is CloseParen),
            decreases self.progress(),
        {
            self.skip_param_attrs();
            let bare = match &self.current {
                Token::Number(_) | Token::LocalId(_) | Token::GlobalId(_) | Token::True | Token::False => true,
                _ => false,
            };
            if bare {
                let val = self.parse_value()?;
                args.push(val);
            } else {
                let ty = self.parse_type()?;
                self.skip_param_attrs();
                let arg = match &self.current {
                    Token::Number(n) => LlvmValue::Const(LlvmConst { value: *n, ty }),
                    Token::True => LlvmValue::Const(LlvmConst { value: 1, ty }),
                    Token::False => LlvmValue::Const(LlvmConst { value: 0, ty }),
                    Token::LocalId(name) => LlvmValue::Local(name.clone()),
                    Token::GlobalId(name) => LlvmValue::Global(name.clone()),
                    _ => {
                        return Err(parse_error("expected call argument value, got ", &self.current));
                    },
                };
                self.advance();
                args.push(arg);
            }
            if same_token(&self.current, &Token::Comma) {
                self.advance();
            } else {
                break;
            }
        }
        self.expect(&Token::CloseParen)?;
        Ok(args)
    }

    /// Parse the index operands of a `getelementptr` instruction: values
    /// separated by commas, up to the end of the block.
    fn parse_gep_indices(&mut self) -> (r: Result<Vec<LlvmValue>, LlvmError>)
        requires
            old(self).wf(),
        ensures
            old(self).moves_to(&*final(self)),
            (old(self).token() is CloseBrace || old(self).token() is Label || old(self).token() is Eof) ==> ((r matches Ok(
                v,
            ) && v@.len() == 0) && final(self).token() == old(self).token() && final(self).progress() == old(
                self,
            ).progress()),
            forall|ts: Seq<Token>|
                #[trigger] old(self).ahead(ts) && ts.len() >= 4 && ts[0] is Comma && typed_operand_tokens(ts.drop_first())
                    && !(ts[3] is Comma) ==> (r matches Ok(v) && v@.len() == 1 && operand_of(
                    ts[2],
                    keyword_type(ts[1])->0,
                    v@[0],
                )),
    {
        let mut indices: Vec<LlvmValue> = Vec::new();
        let ghost s0 = *self;
        if same_token(&self.current, &Token::Comma) {
            self.advance();
        }
        let ghost s1 = *self;
        loop
            invariant_except_break
                forall|ts: Seq<Token>|
                    #[trigger] s0.ahead(ts) && ts.len() >= 4 && ts[0] is Comma && typed_operand_tokens(ts.drop_first())
                        && !(ts[3] is Comma) ==> indices@.len() == 0 && *self == s1 && s1.ahead(ts.drop_first()),
            invariant
                s0 == *old(self),
                old(self).moves_to(&*self),
                (old(self).token() is CloseBrace || old(self).token() is Label || old(self).token() is Eof) ==> (
                indices@.len() == 0 && self.token() == old(self).token() && self.progress() == old(self).progress()),
            ensures
                old(self).moves_to(&*self),
                (old(self).token() is CloseBrace || old(self).token() is Label || old(self).token() is Eof) ==> (
                indices@.len() == 0 && self.token() == old(self).token() && self.progress() == old(self).progress()),
                forall|ts: Seq<Token>|
                    #[trigger] s0.ahead(ts) && ts.len() >= 4 && ts[0] is Comma && typed_operand_tokens(ts.drop_first())
                        && !(ts[3] is Comma) ==> indices@.len() == 1 && operand_of(ts[2], keyword_type(ts[1])->0, indices@[0]),
            decreases self.progress(),
        {
            match &self.current {
                Token::CloseBrace | Token::Label(_) | Token::Eof => break,
                _ => {},
            }
            let idx = self.parse_value()?;
            indices.push(idx);
            if same_token(&self.current, &Token::Comma) {
                self.advance();
            } else {
                break;
            }
        }
        Ok(indices)
    }

    /// Skip an optional `, align N` group.
    fn skip_opt_align(&mut self)
        requires
            old(self).wf(),
        ensures
            old(self).moves_to(&*final(self)),
            !(old(self).token() is Comma) ==> final(self).token() == old(self).token() && final(self).progress()
                == old(self).progress(),
            old(self).token() is Comma ==> final(self).progress() < old(self).progress(),
    {
        if same_token(&self.current, &Token::Comma) {
            self.advance();
            if ident_is(&self.current, "align") {
                self.advance();
                if let Token::Number(_) = self.current {
                    self.advance();
                }
            }
        }
    }

    /// Skip trailing metadata attachments (`, !dbg !19`): after each comma,
    /// the identifiers and numbers that follow.
    fn skip_trailing_metadata(&mut self)
        requires
            old(self).wf(),
        ensures
            old(self).moves_to(&*final(self)),
            !(final(self).token() is Comma),
            !(old(self).token() is Comma) ==> *final(self) == *old(self),
    {
        while same_token(&self.current, &Token::Comma)
            invariant
                old(self).moves_to(&*self),
                !(old(self).token() is Comma) ==> *self == *old(self),
            decreases self.progress(),
        {
            let ghost p0 = self.progress();
            self.advance();
            loop
                invariant
                    old(self).moves_to(&*self),
                    self.progress() < p0,
                decreases self.progress(),
            {
                match &self.current {
                    Token::Ident(_) | Token::Number(_) => {},
                    _ => break,
                }
                self.advance();
            }
        }
    }

    /// Read a block reference written as a bare id (`%6` → `"6"`).
    fn parse_bare_label(&mut self) -> (r: Result<String, LlvmError>)
        requires
            old(self).wf(),
        ensures
            old(self).moves_to(&*final(self)),
            r is Ok ==> final(self).progress() < old(self).progress(),
            old(self).token() matches Token::LocalId(n) ==> (r matches Ok(m) && m@ == n@),
            old(self).token() matches Token::GlobalId(n) ==> (r matches Ok(m) && m@ == n@),
            !(old(self).token() is LocalId || old(self).token() is GlobalId) ==> r matches Err(LlvmError::Parse(_)),
            name_token(old(self).token()) ==> forall|ts: Seq<Token>|
                #[trigger] old(self).ahead(ts) && ts.len() >= 2 ==> final(self).ahead(ts.drop_first()),
    {
        match &self.current {
            Token::LocalId(n) | Token::GlobalId(n) => {
                let target = n.clone();
                self.advance();
                Ok(target)
            },
            _ => Err(parse_error("expected label target, got ", &self.current)),
        }
    }

    /// Read `label %target`.
    fn parse_label_target(&mut self) -> (r: Result<String, LlvmError>)
        requires
            old(self).wf(),
        ensures
            old(self).moves_to(&*final(self)),
            r is Ok ==> final(self).progress() < old(self).progress(),
            !is_ident(old(self).token(), "label"@) ==> r matches Err(LlvmError::Parse(_)),
            forall|ts: Seq<Token>|
                #[trigger] old(self).ahead(ts) && jump_tokens(ts) ==> (r matches Ok(m) && m@ == name_text(ts[1])
                    && final(self).ahead(ts.subrange(2, ts.len() as int))),
    {
        proof {
            reveal_strlit("label");
        }
        let ghost s0 = *self;
        self.expect_ident("label")?;
        let ghost s1 = *self;
        let r = self.parse_bare_label();
        proof {
            assert forall|ts: Seq<Token>| #[trigger] s0.ahead(ts) && jump_tokens(ts) implies (r matches Ok(m) && m@
                == name_text(ts[1]) && self.ahead(ts.subrange(2, ts.len() as int))) by {
                assert(s1.ahead(ts.drop_first()));
                assert(ts.drop_first()[0] == ts[1]);
                assert(ts.drop_first().drop_first() =~= ts.subrange(2, ts.len() as int));
            }
        }
        r
    }

    /// Parse the rest of an instruction after its opcode word `op` (already
    /// consumed, as are `nsw`/`nuw` flags), with optional result name `dest`.
    fn parse_instruction_body(&mut self, op: &String, dest: Option<String>) -> (r: Result<LlvmInstr, LlvmError>)
        requires
            old(self).wf(),
        ensures
            old(self).moves_to(&*final(self)),
            r matches Ok(i) ==> opcode_matches(op@, i) && (drops_dest(i) || instr_dest(i) == match dest {
                Some(d) => Some(d@),
                None => None::<Seq<char>>,
            }),
            !known_opcode(op@) ==> r matches Err(LlvmError::UnsupportedInstruction(_)),
            op@ == "ret"@ ==> forall|ts: Seq<Token>|
                #[trigger] old(self).ahead(ts) && ts.len() >= 2 && ts[0] is Void ==> final(self).ahead(ts.drop_first())
                    && (!(ts[1] is Number) ==> final(self).saw_bad_number() == old(self).saw_bad_number()),
            forall|ts: Seq<Token>|
                #[trigger] old(self).ahead(ts) ==> {
                    &&& binop_word(op@) && operands_tokens(ts) ==> (r matches Ok(i) && binop_from(
                        ts,
                        op@,
                        name_view(dest),
                        i,
                    ))
                    &&& (op@ == "icmp"@ && !binop_word(op@) && dest is Some && ts.len() >= 1 && predicate_of(ts[0]) is Some
                        && operands_tokens(ts.drop_first())) ==> (r matches Ok(i) && comparison_from(ts, dest->0@, i))
                    &&& (op@ == "ret"@ || op@ == "br"@) ==> plain_result(op@, ts, r)
                    &&& other_op_result(op@, name_view(dest), ts, r)
                },
    {
        proof {
            lemma_plain_words();
            lemma_later_words();
            reveal_strlit("to");
            reveal_strlit("inbounds");
            reveal_strlit("i64");
            assert("i64"@.len() != "inbounds"@.len());
        }
        if is_binop_word(op) {
            let ty = self.parse_type()?;
            let lhs = self.parse_value_of_type(&ty)?;
            self.expect(&Token::Comma)?;
            let rhs = self.parse_value_of_type(&ty)?;
            return Ok(LlvmInstr::BinOp { dest, op: op.clone(), ty, lhs, rhs });
        }
        if text_is(op, "icmp") {
            let pred = self.parse_icmp_predicate()?;
            let ty = self.parse_type()?;
            let lhs = self.parse_value_of_type(&ty)?;
            self.expect(&Token::Comma)?;
            let rhs = self.parse_value_of_type(&ty)?;
            let dest = match dest {
                Some(d) => d,
                None => {
                    return Err(parse_error_msg("icmp requires dest"));
                },
            };
            return Ok(LlvmInstr::Icmp { dest, pred, ty, lhs, rhs });
        }
        if text_is(op, "ret") {
            if same_token(&self.current, &Token::Void) {
                self.advance();
                return Ok(LlvmInstr::Ret { value: None });
            } else {
                let value = self.parse_value()?;
                return Ok(LlvmInstr::Ret { value: Some(value) });
            }
        }
        if text_is(op, "br") {
            return self.parse_branch_body();
        }
        if text_is(op, "alloca") {
            let ty = self.parse_type()?;
            let mut count: u32 = 1;
            if same_token(&self.current, &Token::Comma) {
                self.advance();
                if ident_is(&self.current, "align") {
                    self.advance();
                    if let Token::Number(_) = &self.current {
                        self.advance();
                    }
                } else {
                    let _count_ty = self.parse_type()?;
                    if let Token::Number(n) = &self.current {
                        count = low_word(*n);
                        self.advance();
                    }
                    self.skip_opt_align();
                }
            }
            let dest = match dest {
                Some(d) => d,
                None => {
                    return Err(parse_error_msg("alloca requires dest"));
                },
            };
            return Ok(LlvmInstr::Alloca { dest, ty, count });
        }
        if text_is(op, "load") {
            let ty = self.parse_type()?;
            self.expect(&Token::Comma)?;
            self.expect(&Token::Ptr)?;
            let addr = self.parse_value()?;
            self.skip_opt_align();
            let dest = match dest {
                Some(d) => d,
                None => {
                    return Err(parse_error_msg("load requires dest"));
                },
            };
            return Ok(LlvmInstr::Load { dest, ty, addr });
        }
        if text_is(op, "store") {
            let ty = self.parse_type()?;
            let value = self.parse_value_of_type(&ty)?;
            self.expect(&Token::Comma)?;
            self.expect(&Token::Ptr)?;
            let addr = self.parse_value()?;
            self.skip_opt_align();
            return Ok(LlvmInstr::Store { ty, value, addr });
        }
        if text_is(op, "call") {
            let return_ty = self.parse_type()?;
            let callee = match &self.current {
                Token::GlobalId(n) => n.clone(),
                Token::LocalId(name) => {
                    let mut msg = String::from_str("indirect call through '");
                    push_str(&mut msg, name.as_str());
                    push_str(
                        &mut msg,
                        "' is unsupported: the SAIR/ISA call ABI requires a statically-named callee (no function-pointer ABI)",
                    );
                    return Err(LlvmError::Parse(msg));
                },
                _ => {
                    return Err(parse_error("expected callee, got ", &self.current));
                },
            };
            self.advance();
            let args = self.parse_call_args()?;
            return Ok(LlvmInstr::Call { dest, return_ty, callee, args });
        }
        if text_is(op, "getelementptr") {
            if ident_is(&self.current, "inbounds") {
                self.advance();
            }
            let elem_ty = self.parse_type()?;
            self.expect(&Token::Comma)?;
            self.expect(&Token::Ptr)?;
            let base = self.parse_value()?;
            let indices = self.parse_gep_indices()?;
            let dest = match dest {
                Some(d) => d,
                None => {
                    return Err(parse_error_msg("getelementptr requires dest"));
                },
            };
            return Ok(LlvmInstr::Gep { dest, elem_ty, base, indices });
        }
        if let Some(cast_op) = cast_op_of(op) {
            let from_ty = self.parse_type()?;
            let value = self.parse_value_of_type(&from_ty)?;
            self.expect_ident("to")?;
            let to_ty = self.parse_type()?;
            let dest = match dest {
                Some(d) => d,
                None => {
                    return Err(parse_error_msg("cast requires dest"));
                },
            };
            return Ok(LlvmInstr::Cast { dest, op: cast_op, from_ty, to_ty, value });
        }
        if text_is(op, "select") {
            let cond_ty = self.parse_type()?;
            let cond = self.parse_value_of_type(&cond_ty)?;
            self.expect(&Token::Comma)?;
            let ty = self.parse_type()?;
            let then_value = self.parse_value_of_type(&ty)?;
            self.expect(&Token::Comma)?;
            let else_value = self.parse_value_of_type(&ty)?;
            let dest = match dest {
                Some(d) => d,
                None => {
                    return Err(parse_error_msg("select requires dest"));
                },
            };
            return Ok(LlvmInstr::Select { dest, ty, cond, then_value, else_value });
        }
        if text_is(op, "switch") {
            return self.parse_switch_body();
        }
        if text_is(op, "unreachable") {
            return Ok(LlvmInstr::Unreachable);
        }
        if text_is(op, "phi") {
            return self.parse_phi_body(dest);
        }
        Err(LlvmError::UnsupportedInstruction(op.clone()))
    }

    /// The operands of `br`: `label %t` or `i1 <cond>, label %t, label %f`.
    fn parse_branch_body(&mut self) -> (r: Result<LlvmInstr, LlvmError>)
        requires
            old(self).wf(),
        ensures
            old(self).moves_to(&*final(self)),
            r matches Ok(i) ==> i is Br || i is CondBr,
            !(old(self).token() is I1) && !is_ident(old(self).token(), "label"@) ==> r matches Err(LlvmError::Parse(_)),
            forall|ts: Seq<Token>|
                #[trigger] old(self).ahead(ts) && jump_tokens(ts) ==> (r matches Ok(LlvmInstr::Br { target })
                    && target@ == name_text(ts[1])),
            forall|ts: Seq<Token>|
                #[trigger] old(self).ahead(ts) && cond_jump_tokens(ts) ==> (r matches Ok(
                    LlvmInstr::CondBr { cond, true_target, false_target },
                ) && bare_operand_of(ts[1], cond) && true_target@ == name_text(ts[4]) && false_target@ == name_text(
                    ts[7],
                )),
    {
        if same_token(&self.current, &Token::I1) {
            let ghost s0 = *self;
            self.advance();
            let ghost s1 = *self;
            let cond = self.parse_value()?;
            let ghost s2 = *self;
            self.expect(&Token::Comma)?;
            let ghost s3 = *self;
            proof {
                assert forall|ts: Seq<Token>| #[trigger] s0.ahead(ts) && cond_jump_tokens(ts) implies s3.ahead(
                    ts.subrange(3, ts.len() as int),
                ) && bare_operand_of(ts[1], cond) by {
                    assert(s1.ahead(ts.drop_first()));
                    assert(ts.drop_first()[0] == ts[1]);
                    assert(s2.ahead(ts.drop_first().drop_first()));
                    assert(ts.drop_first().drop_first()[0] == ts[2]);
                    assert(ts.drop_first().drop_first().drop_first() =~= ts.subrange(3, ts.len() as int));
                }
            }
            let true_target = self.parse_label_target()?;
            let ghost s4 = *self;
            self.expect(&Token::Comma)?;
            let ghost s5 = *self;
            proof {
                assert forall|ts: Seq<Token>| #[trigger] s0.ahead(ts) && cond_jump_tokens(ts) implies s5.ahead(
                    ts.subrange(6, ts.len() as int),
                ) && true_target@ == name_text(ts[4]) by {
                    let x = ts.subrange(3, ts.len() as int);
                    assert(s3.ahead(x));
                    assert(x[1] == ts[4]);
                    assert(x.subrange(2, x.len() as int) =~= ts.subrange(5, ts.len() as int));
                    assert(s4.ahead(ts.subrange(5, ts.len() as int)));
                    assert(ts.subrange(5, ts.len() as int)[0] == ts[5]);
                    assert(ts.subrange(5, ts.len() as int).drop_first() =~= ts.subrange(6, ts.len() as int));
                }
            }
            let false_target = self.parse_label_target()?;
            proof {
                assert forall|ts: Seq<Token>| #[trigger] s0.ahead(ts) && cond_jump_tokens(ts) implies false_target@
                    == name_text(ts[7]) by {
                    let x = ts.subrange(6, ts.len() as int);
                    assert(s5.ahead(x));
                    assert(x[1] == ts[7]);
                }
            }
            Ok(LlvmInstr::CondBr { cond, true_target, false_target })
        } else if ident_is(&self.current, "label") {
            self.advance();
            let target = match &self.current {
                Token::LocalId(n) | Token::GlobalId(n) => n.clone(),
                _ => {
                    return Err(parse_error("expected label target, got ", &self.current));
                },
            };
            self.advance();
            Ok(LlvmInstr::Br { target })
        } else {
            Err(parse_error("expected 'label' or 'i1' after br, got ", &self.current))
        }
    }

    /// The operands of `switch <ty> <v>, label %def [ <ty> c, label %t … ]`.
    fn parse_switch_body(&mut self) -> (r: Result<LlvmInstr, LlvmError>)
        requires
            old(self).wf(),
        ensures
            old(self).moves_to(&*final(self)),
            r matches Ok(i) ==> i is Switch,
            forall|ts: Seq<Token>|
                #[trigger] old(self).ahead(ts) && switch_tokens(ts) ==> (r matches Ok(
                    LlvmInstr::Switch { cond_ty, cond, default_target, cases },
                ) && cond_ty == keyword_type(ts[0])->0 && operand_of(ts[1], cond_ty, cond) && default_target@
                    == name_text(ts[4]) && cases@.len() == 0),
    {
        proof {
            reveal_strlit("label");
        }
        let ghost s0 = *self;
        let cond_ty = self.parse_type()?;
        let cond = self.parse_value_of_type(&cond_ty)?;
        self.expect(&Token::Comma)?;
        let ghost s3 = *self;
        self.expect_ident("label")?;
        let ghost s4 = *self;
        let default_target = self.parse_bare_label()?;
        let ghost s5 = *self;
        self.expect(&Token::OpenBracket)?;
        let ghost s6 = *self;
        proof {
            assert forall|ts: Seq<Token>| #[trigger] s0.ahead(ts) && switch_tokens(ts) implies s6.ahead(
                ts.subrange(6, ts.len() as int),
            ) && default_target@ == name_text(ts[4]) by {
                let x = ts.drop_first().drop_first().drop_first();
                assert(s3.ahead(x));
                assert(x =~= ts.subrange(3, ts.len() as int));
                assert(x[0] == ts[3] && x[1] == ts[4]);
                assert(s4.ahead(x.drop_first()));
                assert(x.drop_first()[0] == ts[4]);
                assert(s5.ahead(x.drop_first().drop_first()));
                assert(x.drop_first().drop_first()[0] == ts[5]);
                assert(x.drop_first().drop_first().drop_first() =~= ts.subrange(6, ts.len() as int));
            }
        }
        let mut cases: Vec<(LlvmConst, String)> = Vec::new();
        while !same_token(&self.current, &Token::CloseBracket)
            invariant
                forall|ts: Seq<Token>|
                    #[trigger] s0.ahead(ts) && switch_tokens(ts) ==> *self == s6 && cases@.len() == 0 && s6.ahead(
                        ts.subrange(6, ts.len() as int),
                    ) && cond_ty == keyword_type(ts[0])->0 && operand_of(ts[1], cond_ty, cond) && default_target@
                        == name_text(ts[4]),
                s0 == *old(self),
                old(self).moves_to(&*self),
            decreases self.progress(),
        {
            proof {
                assert forall|ts: Seq<Token>| #[trigger] s0.ahead(ts) && switch_tokens(ts) implies false by {
                    assert(ts.subrange(6, ts.len() as int)[0] == ts[6]);
                }
            }
            let case_ty = self.parse_type()?;
            let case_val = self.parse_value_of_type(&case_ty)?;
            let cv = match case_val {
                LlvmValue::Const(c) => c,
                _ => {
                    return Err(parse_error_msg("switch case value must be a constant"));
                },
            };
            self.expect(&Token::Comma)?;
            self.expect_ident("label")?;
            let target = self.parse_bare_label()?;
            cases.push((cv, target));
            if same_token(&self.current, &Token::Comma) {
                self.advance();
            }
        }
        self.expect(&Token::CloseBracket)?;
        Ok(LlvmInstr::Switch { cond_ty, cond, default_target, cases })
    }

    /// The operands of `phi <ty> [ <value>, %<pred> ], …`.
    fn parse_phi_body(&mut self, dest: Option<String>) -> (r: Result<LlvmInstr, LlvmError>)
        requires
            old(self).wf(),
        ensures
            old(self).moves_to(&*final(self)),
            r matches Ok(i) ==> (i matches LlvmInstr::Phi { dest: d, incoming, .. } && incoming@.len() > 0
                && (dest matches Some(e) && d@ == e@)),
            forall|ts: Seq<Token>|
                #[trigger] old(self).ahead(ts) && dest is Some && phi_tokens(ts) ==> (r matches Ok(
                    LlvmInstr::Phi { dest: d, ty, incoming },
                ) && ty == keyword_type(ts[0])->0 && incoming@.len() == 1 && operand_of(ts[2], ty, incoming@[0].0)
                    && incoming@[0].1@ == name_text(ts[4])),
    {
        let ghost s0 = *self;
        let ty = self.parse_type()?;
        let ghost s1 = *self;
        let mut incoming: Vec<(LlvmValue, String)> = Vec::new();
        loop
            invariant
                old(self).moves_to(&*self),
                s0 == *old(self),
                forall|ts: Seq<Token>| #[trigger] s0.ahead(ts) && phi_tokens(ts) ==> {
                    &&& ty == keyword_type(ts[0])->0
                    &&& incoming@.len() <= 1
                    &&& incoming@.len() == 0 ==> *self == s1 && s1.ahead(ts.drop_first())
                    &&& incoming@.len() == 1 ==> self.ahead(ts.subrange(6, ts.len() as int)) && operand_of(
                        ts[2],
                        ty,
                        incoming@[0].0,
                    ) && incoming@[0].1@ == name_text(ts[4])
                },
            ensures
                old(self).moves_to(&*self),
                forall|ts: Seq<Token>|
                    #[trigger] s0.ahead(ts) && phi_tokens(ts) ==> incoming@.len() == 1 && operand_of(
                        ts[2],
                        ty,
                        incoming@[0].0,
                    ) && incoming@[0].1@ == name_text(ts[4]),
            decreases self.progress(),
        {
            if same_token(&self.current, &Token::Comma) {
                self.advance();
            }
            if !same_token(&self.current, &Token::OpenBracket) {
                break;
            }
            let ghost sa = *self;
            self.advance();
            let ghost sb = *self;
            let value = self.parse_value_of_type(&ty)?;
            let ghost sc = *self;
            self.expect(&Token::Comma)?;
            let ghost sd = *self;
            let pred = self.parse_bare_label()?;
            let ghost se = *self;
            self.expect(&Token::CloseBracket)?;
            proof {
                assert forall|ts: Seq<Token>| #[trigger] s0.ahead(ts) && phi_tokens(ts) implies operand_of(ts[2], ty, value)
                    && pred@ == name_text(ts[4]) && self.ahead(ts.subrange(6, ts.len() as int)) && incoming@.len() == 0 by {
                    let x = ts.drop_first();
                    assert(sa.ahead(x));
                    assert(x[0] == ts[1] && x[1] == ts[2]);
                    assert(sb.ahead(x.drop_first()));
                    assert(x.drop_first()[0] == ts[2] && x.drop_first()[1] == ts[3]);
                    assert(sc.ahead(x.drop_first().drop_first()));
                    assert(x.drop_first().drop_first()[1] == ts[4]);
                    assert(sd.ahead(x.drop_first().drop_first().drop_first()));
                    assert(x.drop_first().drop_first().drop_first()[0] == ts[4]);
                    assert(x.drop_first().drop_first().drop_first()[1] == ts[5]);
                    assert(se.ahead(x.drop_first().drop_first().drop_first().drop_first()));
                    assert(x.drop_first().drop_first().drop_first().drop_first()[0] == ts[5]);
                    assert(x.drop_first().drop_first().drop_first().drop_first()[1] == ts[6]);
                    assert(x.drop_first().drop_first().drop_first().drop_first().drop_first() =~= ts.subrange(
                        6,
                        ts.len() as int,
                    ));
                }
            }
            incoming.push((value, pred));
        }
        if incoming.len() == 0 {
            return Err(parse_error_msg("phi requires at least one incoming value"));
        }
        match dest {
            Some(d) => Ok(LlvmInstr::Phi { dest: d, ty, incoming }),
            None => Err(parse_error_msg("phi requires dest")),
        }
    }

    /// Parse one instruction: an optional `%name =`, an opcode word with
    /// `nsw`/`nuw` flags, and the opcode's operands.
    fn parse_instruction(&mut self) -> (r: Result<LlvmInstr, LlvmError>)
        requires
            old(self).wf(),
        ensures
            old(self).moves_to(&*final(self)),
            r is Ok ==> final(self).progress() < old(self).progress(),
            r matches Ok(i) ==> exists|op: Seq<char>| known_opcode(op) && #[trigger] opcode_matches(op, i),
            r matches Ok(i) ==> (old(self).token() matches Token::LocalId(d) ==> (drops_dest(i)
                || instr_dest(i) == Some(d@))),
            r matches Ok(i) ==> (!(old(self).token() is LocalId) ==> (drops_dest(i) || instr_dest(i) is None)),
            !(old(self).token() is LocalId || old(self).token() is Ident) ==> r matches Err(LlvmError::Parse(_)),
            old(self).token() matches Token::Ident(op) ==> (!known_opcode(op@) && !(op@ == "nsw"@
                || op@ == "nuw"@) ==> r matches Err(LlvmError::UnsupportedInstruction(_))),
            forall|ts: Seq<Token>, k: int|
                #![trigger old(self).ahead(ts), named_op_tokens(ts, k)]
                old(self).ahead(ts) && named_op_tokens(ts, k) ==> named_op_result(ts, k, r),
            forall|ts: Seq<Token>, k: int|
                #![trigger old(self).ahead(ts), plain_op_tokens(ts, k)]
                old(self).ahead(ts) && plain_op_tokens(ts, k) ==> plain_op_result(ts, k, r),
            forall|ts: Seq<Token>|
                #[trigger] old(self).ahead(ts) && ts.len() >= 3 && is_ident(ts[0], "ret"@) && ts[1] is Void && !(
                ts[2] is Number) ==> (r matches Ok(LlvmInstr::Ret { value: None }) && final(self).ahead(
                    ts.subrange(2, ts.len() as int),
                ) && final(self).saw_bad_number() == old(self).saw_bad_number()),
    {
        proof {
            reveal_strlit("icmp");
            reveal_strlit("add");
            reveal_strlit("sub");
            reveal_strlit("mul");
            reveal_strlit("sdiv");
            reveal_strlit("udiv");
            reveal_strlit("rem");
            reveal_strlit("srem");
            reveal_strlit("urem");
            reveal_strlit("and");
            reveal_strlit("or");
            reveal_strlit("xor");
            reveal_strlit("shl");
            reveal_strlit("lshr");
            reveal_strlit("ashr");
        }
        let ghost s0 = *self;
        let dest = match &self.current {
            Token::LocalId(n) => {
                let name = n.clone();
                self.advance();
                let ghost s1 = *self;
                let e = self.expect(&Token::Equals);
                match e {
                    Ok(()) => {},
                    Err(err) => {
                        proof {
                            assert forall|ts: Seq<Token>, k: int|
                                #![trigger s0.ahead(ts), named_op_tokens(ts, k)]
                                s0.ahead(ts) && named_op_tokens(ts, k) implies false by {
                                assert(s1.ahead(ts.drop_first()));
                                assert(ts.drop_first()[0] == ts[1]);
                            }
                        }
                        return Err(err);
                    },
                }
                Some(name)
            },
            _ => None,
        };
        let ghost s2 = *self;
        proof {
            assert forall|ts: Seq<Token>, k: int|
                #![trigger s0.ahead(ts), plain_op_tokens(ts, k)]
                s0.ahead(ts) && plain_op_tokens(ts, k) implies s2 == s0 && dest is None by {
            }
            assert forall|ts: Seq<Token>, k: int|
                #![trigger s0.ahead(ts), named_op_tokens(ts, k)]
                s0.ahead(ts) && named_op_tokens(ts, k) implies s2.ahead(ts.subrange(2, ts.len() as int)) && (
                dest matches Some(dn) && dn@ == tok_text(ts[0])) by {
                assert(ts.drop_first().drop_first() =~= ts.subrange(2, ts.len() as int));
            }
        }
        let op_name = match &self.current {
            Token::Ident(op) => op.clone(),
            _ => {
                proof {
                    assert forall|ts: Seq<Token>, k: int|
                        #![trigger s0.ahead(ts), named_op_tokens(ts, k)]
                        s0.ahead(ts) && named_op_tokens(ts, k) implies false by {
                        assert(ts.subrange(2, ts.len() as int)[0] == ts[2]);
                    }
                    assert forall|ts: Seq<Token>, k: int|
                        #![trigger s0.ahead(ts), plain_op_tokens(ts, k)]
                        s0.ahead(ts) && plain_op_tokens(ts, k) implies false by {
                    }
                }
                return Err(parse_error("expected instruction, got ", &self.current));
            },
        };
        proof {
            assert forall|ts: Seq<Token>, k: int|
                #![trigger s0.ahead(ts), named_op_tokens(ts, k)]
                s0.ahead(ts) && named_op_tokens(ts, k) implies op_name@ == tok_text(ts[2]) by {
                assert(ts.subrange(2, ts.len() as int)[0] == ts[2]);
            }
            assert forall|ts: Seq<Token>, k: int|
                #![trigger s0.ahead(ts), plain_op_tokens(ts, k)]
                s0.ahead(ts) && plain_op_tokens(ts, k) implies op_name@ == tok_text(ts[0]) by {
            }
        }
        let ghost s3 = *self;
        self.advance();
        let ghost s3b = *self;
        let ghost mut j: int = 0;
        proof {
            assert forall|ts: Seq<Token>, k: int|
                #![trigger s0.ahead(ts), named_op_tokens(ts, k)]
                s0.ahead(ts) && named_op_tokens(ts, k) implies self.ahead(ts.subrange(3, ts.len() as int)) by {
                assert(s3.ahead(ts.subrange(2, ts.len() as int)));
                assert(ts.subrange(2, ts.len() as int).drop_first() =~= ts.subrange(3, ts.len() as int));
            }
            assert forall|ts: Seq<Token>, k: int|
                #![trigger s0.ahead(ts), plain_op_tokens(ts, k)]
                s0.ahead(ts) && plain_op_tokens(ts, k) implies self.ahead(ts.subrange(1, ts.len() as int)) by {
                assert(s3.ahead(ts));
                assert(ts.drop_first() =~= ts.subrange(1, ts.len() as int));
            }
        }
        loop
            invariant
                old(self).moves_to(&*self),
                self.progress() < old(self).progress(),
                s0 == *old(self),
                j >= 0,
                j == 0 ==> *self == s3b,
                forall|ts: Seq<Token>, k: int|
                    #![trigger s0.ahead(ts), named_op_tokens(ts, k)]
                    s0.ahead(ts) && named_op_tokens(ts, k) ==> j <= k && self.ahead(ts.subrange(3 + j, ts.len() as int)),
                forall|ts: Seq<Token>, k: int|
                    #![trigger s0.ahead(ts), plain_op_tokens(ts, k)]
                    s0.ahead(ts) && plain_op_tokens(ts, k) ==> j <= k && self.ahead(ts.subrange(1 + j, ts.len() as int)),
            ensures
                old(self).moves_to(&*self),
                self.progress() < old(self).progress(),
                j >= 0,
                j == 0 ==> *self == s3b,
                !flag_token(self.token()),
                forall|ts: Seq<Token>, k: int|
                    #![trigger s0.ahead(ts), named_op_tokens(ts, k)]
                    s0.ahead(ts) && named_op_tokens(ts, k) ==> j <= k && self.ahead(ts.subrange(3 + j, ts.len() as int)),
                forall|ts: Seq<Token>, k: int|
                    #![trigger s0.ahead(ts), plain_op_tokens(ts, k)]
                    s0.ahead(ts) && plain_op_tokens(ts, k) ==> j <= k && self.ahead(ts.subrange(1 + j, ts.len() as int)),
            decreases self.progress(),
        {
            if ident_is(&self.current, "nsw") || ident_is(&self.current, "nuw") {
                let ghost sb = *self;
                self.advance();
                proof {
                    assert forall|ts: Seq<Token>, k: int|
                        #![trigger s0.ahead(ts), named_op_tokens(ts, k)]
                        s0.ahead(ts) && named_op_tokens(ts, k) implies j + 1 <= k && self.ahead(
                            ts.subrange(3 + j + 1, ts.len() as int),
                        ) by {
                        let x = ts.subrange(3 + j, ts.len() as int);
                        assert(sb.ahead(x));
                        assert(x[0] == ts[3 + j]);
                        assert(x.drop_first() =~= ts.subrange(3 + j + 1, ts.len() as int));
                    }
                    assert forall|ts: Seq<Token>, k: int|
                        #![trigger s0.ahead(ts), plain_op_tokens(ts, k)]
                        s0.ahead(ts) && plain_op_tokens(ts, k) implies j + 1 <= k && self.ahead(
                            ts.subrange(1 + j + 1, ts.len() as int),
                        ) by {
                        let x = ts.subrange(1 + j, ts.len() as int);
                        assert(sb.ahead(x));
                        assert(x[0] == ts[1 + j]);
                        assert(x.drop_first() =~= ts.subrange(1 + j + 1, ts.len() as int));
                    }
                    j = j + 1;
                }
            } else {
                break;
            }
        }
        proof {
            assert forall|ts: Seq<Token>, k: int|
                #![trigger s0.ahead(ts), named_op_tokens(ts, k)]
                s0.ahead(ts) && named_op_tokens(ts, k) implies j == k by {
                let x = ts.subrange(3 + j, ts.len() as int);
                assert(x[0] == ts[3 + j]);
                if j < k {
                    assert(flag_token(ts[3 + j]));
                }
            }
            assert forall|ts: Seq<Token>, k: int|
                #![trigger s0.ahead(ts), plain_op_tokens(ts, k)]
                s0.ahead(ts) && plain_op_tokens(ts, k) implies j == k by {
                let x = ts.subrange(1 + j, ts.len() as int);
                assert(x[0] == ts[1 + j]);
                if j < k {
                    assert(flag_token(ts[1 + j]));
                }
            }
        }
        let ghost s4 = *self;
        let ghost dest_view = name_view(dest);
        let r = self.parse_instruction_body(&op_name, dest);
        proof {
            assert forall|ts: Seq<Token>, k: int|
                #![trigger s0.ahead(ts), named_op_tokens(ts, k)]
                s0.ahead(ts) && named_op_tokens(ts, k) implies named_op_result(ts, k, r) by {
                let rest = ts.subrange(3 + k, ts.len() as int);
                assert(j == k);
                assert(s4.ahead(rest));
                assert(dest_view == Some(tok_text(ts[0])));
                assert(op_name@ == tok_text(ts[2]));
                lemma_compare_word_not_binop();
                if rest.len() >= 1 {
                    assert(rest.drop_first() =~= ts.subrange(4 + k, ts.len() as int));
                }
            }
            assert forall|ts: Seq<Token>, k: int|
                #![trigger s0.ahead(ts), plain_op_tokens(ts, k)]
                s0.ahead(ts) && plain_op_tokens(ts, k) implies plain_op_result(ts, k, r) by {
                let rest = ts.subrange(1 + k, ts.len() as int);
                assert(j == k);
                assert(s4.ahead(rest));
                assert(dest_view is None);
                assert(op_name@ == tok_text(ts[0]));
            }
        }
        proof {
            if r is Ok {
                assert(opcode_matches(op_name@, r->Ok_0));
            }
            assert forall|ts: Seq<Token>|
                #[trigger] s0.ahead(ts) && ts.len() >= 3 && is_ident(ts[0], "ret"@) && ts[1] is Void && !(
                ts[2] is Number) implies (r matches Ok(LlvmInstr::Ret { value: None }) && self.ahead(
                ts.subrange(2, ts.len() as int),
            ) && self.saw_bad_number() == s0.saw_bad_number()) by {
                assert(plain_op_tokens(ts, 0));
                let rest = ts.subrange(1, ts.len() as int);
                assert(j == 0);
                assert(s4.ahead(rest));
                assert(s3.ahead(ts));
                assert(rest[0] == ts[1]);
                assert(rest[1] == ts[2]);
                assert(rest.drop_first() =~= ts.subrange(2, ts.len() as int));
                assert(plain_op_result(ts, 0, r));
            }
        }
        r
    }

    /// Whether the current token starts a module-level item (`define`,
    /// `declare`, a global or struct definition) or ends the input.
    fn at_module_item_end(&self) -> (r: bool)
        ensures
            r == module_item_start(self.token()),
    {
        match &self.current {
            Token::Eof | Token::Define | Token::Declare | Token::GlobalId(_) | Token::LocalId(_) => true,
            _ => false,
        }
    }

    /// Skip tokens up to the next module-level item.
    fn skip_to_module_item(&mut self)
        requires
            old(self).wf(),
        ensures
            old(self).moves_to(&*final(self)),
            module_item_start(final(self).token()),
    {
        while !self.at_module_item_end()
            invariant
                old(self).moves_to(&*self),
            decreases self.progress(),
        {
            self.advance();
        }
    }

    /// A parsed block: a label header followed by instructions up to the
    /// next label, `}` or end of input.
    fn parse_block(&mut self) -> (r: Result<LlvmBlock, LlvmError>)
        requires
            old(self).wf(),
        ensures
            old(self).moves_to(&*final(self)),
            r is Ok ==> final(self).progress() < old(self).progress(),
            old(self).token() matches Token::Label(l) ==> (r matches Ok(b) ==> b.label@ == l@),
            old(self).token() matches Token::NumLabel(l) ==> (r matches Ok(b) ==> b.label@ == l@),
            !(old(self).token() is Label || old(self).token() is NumLabel) ==> r matches Err(LlvmError::Parse(_)),
    {
        let label = match &self.current {
            Token::Label(l) | Token::NumLabel(l) => l.clone(),
            _ => {
                return Err(parse_error("expected block label, got ", &self.current));
            },
        };
        self.advance();
        let instructions = self.parse_instructions()?;
        Ok(LlvmBlock { label, instructions })
    }

    /// Instructions up to the next block label, `}` or end of input.
    fn parse_instructions(&mut self) -> (r: Result<Vec<LlvmInstr>, LlvmError>)
        requires
            old(self).wf(),
        ensures
            old(self).moves_to(&*final(self)),
            r is Ok ==> final(self).token() is CloseBrace || final(self).token() is Label
                || final(self).token() is NumLabel || final(self).token() is Eof,
            r is Ok && !(old(self).token() is CloseBrace || old(self).token() is Label
                || old(self).token() is NumLabel || old(self).token() is Eof) ==> final(self).progress()
                < old(self).progress(),
            (old(self).token() is CloseBrace || old(self).token() is Label || old(self).token() is NumLabel
                || old(self).token() is Eof) ==> ((r matches Ok(v) && v@.len() == 0) && final(self).token() == old(
                self,
            ).token() && final(self).progress() == old(self).progress()),
            forall|ts: Seq<Token>|
                #[trigger] old(self).ahead(ts) && ret_void_body_tokens(ts) ==> (r matches Ok(v) && v@.len() == 1
                    && (v@[0] matches LlvmInstr::Ret { value: None }) && final(self).ahead(ts.subrange(2, ts.len() as int))
                    && final(self).saw_bad_number() == old(self).saw_bad_number()),
    {
        let mut instructions: Vec<LlvmInstr> = Vec::new();
        loop
            invariant
                old(self).moves_to(&*self),
                instructions@.len() == 0 ==> *self == *old(self),
                forall|ts: Seq<Token>|
                    #[trigger] old(self).ahead(ts) && ret_void_body_tokens(ts) ==> instructions@.len() <= 1 && (
                    instructions@.len() == 1 ==> (instructions@[0] matches LlvmInstr::Ret { value: None }) && self.ahead(
                        ts.subrange(2, ts.len() as int),
                    ) && self.saw_bad_number() == old(self).saw_bad_number()),
                instructions@.len() > 0 ==> self.progress() < old(self).progress(),
                instructions@.len() == 0 ==> self.token() == old(self).token() && self.progress() == old(
                    self,
                ).progress(),
                (old(self).token() is CloseBrace || old(self).token() is Label || old(self).token() is NumLabel
                    || old(self).token() is Eof) ==> instructions@.len() == 0,
            ensures
                old(self).moves_to(&*self),
                self.token() is CloseBrace || self.token() is Label || self.token() is NumLabel
                    || self.token() is Eof,
                !(old(self).token() is CloseBrace || old(self).token() is Label
                    || old(self).token() is NumLabel || old(self).token() is Eof) ==> self.progress()
                    < old(self).progress(),
                (old(self).token() is CloseBrace || old(self).token() is Label || old(self).token() is NumLabel
                    || old(self).token() is Eof) ==> (instructions@.len() == 0 && self.token() == old(self).token()
                    && self.progress() == old(self).progress()),
                forall|ts: Seq<Token>|
                    #[trigger] old(self).ahead(ts) && ret_void_body_tokens(ts) ==> instructions@.len() == 1
                        && (instructions@[0] matches LlvmInstr::Ret { value: None }) && self.ahead(
                        ts.subrange(2, ts.len() as int),
                    ) && self.saw_bad_number() == old(self).saw_bad_number(),
            decreases self.progress(),
        {
            match &self.current {
                Token::CloseBrace | Token::Label(_) | Token::NumLabel(_) | Token::Eof => {
                    proof {
                        assert forall|ts: Seq<Token>|
                            #[trigger] old(self).ahead(ts) && ret_void_body_tokens(ts) implies instructions@.len() == 1 by {
                            if instructions@.len() == 1 {
                            } else {
                                assert(self.ahead(ts));
                            }
                        }
                    }
                    break;
                },
                _ => {},
            }
            let ghost sa = *self;
            let instr = self.parse_instruction()?;
            let ghost sb = *self;
            self.skip_trailing_metadata();
            proof {
                assert forall|ts: Seq<Token>|
                    #[trigger] old(self).ahead(ts) && ret_void_body_tokens(ts) implies instructions@.len() == 0 && (instr
                        matches LlvmInstr::Ret { value: None }) && self.ahead(ts.subrange(2, ts.len() as int))
                        && self.saw_bad_number() == old(self).saw_bad_number() by {
                    if instructions@.len() == 1 {
                        let x = ts.subrange(2, ts.len() as int);
                        assert(sa.ahead(x));
                        assert(x[0] == ts[2]);
                    }
                    assert(sa.ahead(ts));
                    let x = ts.subrange(2, ts.len() as int);
                    assert(sb.ahead(x));
                    assert(x[0] == ts[2]);
                }
            }
            instructions.push(instr);
        }
        Ok(instructions)
    }

    /// A function definition: `define [linkage] <ret> @name(<params>) [attrs]
    /// { <blocks> }`. An unlabelled first block is named `entry`.
    fn parse_function(&mut self) -> (r: Result<LlvmFunction, LlvmError>)
        requires
            old(self).wf(),
        ensures
            old(self).moves_to(&*final(self)),
            r is Ok ==> final(self).progress() < old(self).progress(),
            r matches Ok(f) ==> !f.is_declaration,
            !(old(self).token() is Define) ==> r matches Err(LlvmError::Parse(_)),
            forall|ts: Seq<Token>|
                #[trigger] old(self).ahead(ts) && function_tokens(ts) ==> (r matches Ok(f) && function_from(ts, f)
                    && final(self).ahead(ts.subrange(9, ts.len() as int)) && final(self).saw_bad_number() == old(
                    self,
                ).saw_bad_number()),
    {
        proof {
            reveal_strlit("entry");
            reveal_strlit("ret");
        }
        let ghost s0 = *self;
        self.expect(&Token::Define)?;
        let ghost s1 = *self;
        self.skip_linkage_attrs();
        let ghost s2 = *self;
        let return_ty = self.parse_type()?;
        let ghost s3 = *self;
        let name = match &self.current {
            Token::GlobalId(n) => n.clone(),
            _ => {
                proof {
                    assert forall|ts: Seq<Token>| #[trigger] s0.ahead(ts) && function_tokens(ts) implies false by {
                        assert(s1.ahead(ts.drop_first()));
                        assert(s3.ahead(ts.drop_first().drop_first()));
                    }
                }
                return Err(parse_error("expected function name, got ", &self.current));
            },
        };
        self.advance();
        let ghost s4 = *self;
        let params = self.parse_params(true)?;
        let ghost s5 = *self;
        self.skip_to_open_brace()?;
        let ghost s6 = *self;
        self.expect(&Token::OpenBrace)?;
        let ghost s7 = *self;
        proof {
            assert forall|ts: Seq<Token>| #[trigger] s0.ahead(ts) && function_tokens(ts) implies s7.ahead(
                ts.subrange(6, ts.len() as int),
            ) && s7.saw_bad_number() == s0.saw_bad_number() && return_ty == keyword_type(ts[1])->0 && name@
                == name_text(ts[2]) && params@.len() == 0 by {
                let x1 = ts.drop_first();
                assert(s1.ahead(x1));
                assert(x1[0] == ts[1] && x1[1] == ts[2]);
                assert(s2 == s1);
                let x2 = x1.drop_first();
                assert(s3.ahead(x2));
                assert(x2[0] == ts[2] && x2[1] == ts[3]);
                let x3 = x2.drop_first();
                assert(s4.ahead(x3));
                assert(x3[0] == ts[3] && x3[1] == ts[4] && x3[2] == ts[5]);
                assert(x3.subrange(2, x3.len() as int) =~= ts.subrange(5, ts.len() as int));
                assert(s5.ahead(ts.subrange(5, ts.len() as int)));
                assert(ts.subrange(5, ts.len() as int)[0] == ts[5]);
                assert(ts.subrange(5, ts.len() as int)[1] == ts[6]);
                assert(s6 == s5);
                assert(ts.subrange(5, ts.len() as int).drop_first() =~= ts.subrange(6, ts.len() as int));
            }
        }
        let mut blocks: Vec<LlvmBlock> = Vec::new();
        loop
            invariant
                old(self).moves_to(&*self),
                self.progress() < old(self).progress(),
                old(self).token() is Define,
                s0 == *old(self),
                forall|ts: Seq<Token>| #[trigger] s0.ahead(ts) && function_tokens(ts) ==> {
                    &&& return_ty == keyword_type(ts[1])->0
                    &&& name@ == name_text(ts[2])
                    &&& params@.len() == 0
                    &&& blocks@.len() <= 1
                    &&& self.token() is CloseBrace ==> blocks@.len() == 1
                    &&& self.saw_bad_number() == s0.saw_bad_number()
                    &&& blocks@.len() == 0 ==> self.ahead(ts.subrange(6, ts.len() as int))
                    &&& blocks@.len() == 1 ==> self.ahead(ts.subrange(8, ts.len() as int)) && blocks@[0].label@ == "entry"@
                        && blocks@[0].instructions@.len() == 1 && (blocks@[0].instructions@[0] matches LlvmInstr::Ret {
                        value: None,
                    })
                },
            ensures
                old(self).moves_to(&*self),
                self.progress() < old(self).progress(),
                self.token() is CloseBrace,
                forall|ts: Seq<Token>| #[trigger] s0.ahead(ts) && function_tokens(ts) ==> {
                    &&& return_ty == keyword_type(ts[1])->0
                    &&& name@ == name_text(ts[2])
                    &&& params@.len() == 0
                    &&& blocks@.len() == 1
                    &&& self.saw_bad_number() == s0.saw_bad_number()
                    &&& self.ahead(ts.subrange(8, ts.len() as int)) && blocks@[0].label@ == "entry"@
                        && blocks@[0].instructions@.len() == 1 && (blocks@[0].instructions@[0] matches LlvmInstr::Ret {
                        value: None,
                    })
                },
            decreases self.progress(),
        {
            proof {
                assert forall|ts: Seq<Token>| #[trigger] s0.ahead(ts) && function_tokens(ts) implies (blocks@.len() == 0
                    ==> is_ident(self.token(), "ret"@)) && (blocks@.len() == 1 ==> self.token() is CloseBrace) by {
                    if blocks@.len() == 0 {
                        let x = ts.subrange(6, ts.len() as int);
                        assert(x[0] == ts[6]);
                    } else {
                        let x = ts.subrange(8, ts.len() as int);
                        assert(x[0] == ts.subrange(6, ts.len() as int)[2]);
                    }
                }
            }
            match &self.current {
                Token::CloseBrace => break,
                Token::Label(_) | Token::NumLabel(_) => {
                    let block = self.parse_block()?;
                    blocks.push(block);
                },
                _ => {
                    if blocks.len() == 0 {
                        if same_token(&self.current, &Token::Eof) {
                            return Err(parse_error(
                                "expected block label or } after instructions, got ",
                                &self.current,
                            ));
                        }
                        let ghost sa = *self;
                        let instructions = self.parse_instructions()?;
                        proof {
                            assert forall|ts: Seq<Token>| #[trigger] s0.ahead(ts) && function_tokens(ts) implies self.ahead(
                                ts.subrange(8, ts.len() as int),
                            ) && instructions@.len() == 1 && (instructions@[0] matches LlvmInstr::Ret { value: None })
                                && self.saw_bad_number() == s0.saw_bad_number() by {
                                let x = ts.subrange(6, ts.len() as int);
                                assert(sa.ahead(x));
                                assert(ret_void_body_tokens(x));
                                assert(x.subrange(2, x.len() as int) =~= ts.subrange(8, ts.len() as int));
                            }
                        }
                        blocks.push(LlvmBlock { label: String::from_str("entry"), instructions });
                    } else {
                        return Err(parse_error(
                            "expected block label or } after instructions, got ",
                            &self.current,
                        ));
                    }
                },
            }
        }
        let ghost s8 = *self;
        self.expect(&Token::CloseBrace)?;
        proof {
            assert forall|ts: Seq<Token>| #[trigger] s0.ahead(ts) && function_tokens(ts) implies self.ahead(
                ts.subrange(9, ts.len() as int),
            ) && self.saw_bad_number() == s0.saw_bad_number() by {
                let x = ts.subrange(8, ts.len() as int);
                assert(s8.ahead(x));
                assert(x[1] == ts[9]);
                assert(x.drop_first() =~= ts.subrange(9, ts.len() as int));
            }
        }
        Ok(LlvmFunction { name, return_ty, params, blocks, is_declaration: false })
    }

    /// A function declaration: `declare [linkage] <ret> @name(<params>)`.
    fn parse_declaration(&mut self) -> (r: Result<LlvmFunction, LlvmError>)
        requires
            old(self).wf(),
        ensures
            old(self).moves_to(&*final(self)),
            r is Ok ==> final(self).progress() < old(self).progress(),
            r matches Ok(f) ==> f.is_declaration && f.blocks@.len() == 0,
            !(old(self).token() is Declare) ==> r matches Err(LlvmError::Parse(_)),
    {
        self.expect(&Token::Declare)?;
        self.skip_linkage_attrs();
        let return_ty = self.parse_type()?;
        let name = match &self.current {
            Token::GlobalId(n) => n.clone(),
            _ => {
                return Err(parse_error("expected function name, got ", &self.current));
            },
        };
        self.advance();
        let params = self.parse_params(false)?;
        Ok(LlvmFunction { name, return_ty, params, blocks: Vec::new(), is_declaration: true })
    }

    /// The `{ <type> [, <type>]* }` body of a struct type definition.
    fn parse_struct_def_body(&mut self) -> (r: Result<Vec<LlvmType>, LlvmError>)
        requires
            old(self).wf(),
        ensures
            old(self).moves_to(&*final(self)),
            r is Ok ==> final(self).progress() < old(self).progress(),
            forall|ts: Seq<Token>|
                #[trigger] old(self).ahead(ts) && struct_body_tokens(ts) ==> (r matches Ok(fields) && fields@ == seq![
                    keyword_type(ts[1])->0,
                ] && final(self).ahead(ts.subrange(3, ts.len() as int)) && (!(ts[3] is Number)
                    ==> final(self).saw_bad_number() == old(self).saw_bad_number())),
    {
        let ghost s0 = *self;
        self.expect(&Token::OpenBrace)?;
        let mut fields: Vec<LlvmType> = Vec::new();
        let ghost mut c: int = 0;
        proof {
            assert forall|ts: Seq<Token>| #[trigger] s0.ahead(ts) && struct_body_tokens(ts) implies self.ahead(
                ts.subrange(1, ts.len() as int),
            ) && self.saw_bad_number() == s0.saw_bad_number() by {
                assert(ts.drop_first() =~= ts.subrange(1, ts.len() as int));
            }
        }
        while !same_token(&self.current, &Token::CloseBrace)
            invariant
                old(self).moves_to(&*self),
                self.progress() < old(self).progress(),
                s0 == *old(self),
                0 <= c,
                forall|ts: Seq<Token>|
                    #[trigger] s0.ahead(ts) && struct_body_tokens(ts) ==> c <= 1 && fields@.len() == c && self.ahead(
                        ts.subrange(1 + c, ts.len() as int),
                    ) && (c == 1 ==> fields@[0] == keyword_type(ts[1])->0) && self.saw_bad_number()
                        == s0.saw_bad_number(),
            decreases self.progress(),
        {
            proof {
                assert forall|ts: Seq<Token>| #[trigger] s0.ahead(ts) && struct_body_tokens(ts) implies c == 0 by {
                    if c == 1 {
                        assert(ts.subrange(2, ts.len() as int)[0] == ts[2]);
                    }
                }
            }
            let ghost sb = *self;
            let ty = self.parse_type()?;
            let ghost sc = *self;
            fields.push(ty);
            proof {
                assert forall|ts: Seq<Token>| #[trigger] s0.ahead(ts) && struct_body_tokens(ts) implies self.ahead(
                    ts.subrange(2, ts.len() as int),
                ) && ty == keyword_type(ts[1])->0 && self.saw_bad_number() == s0.saw_bad_number() by {
                    let x = ts.subrange(1, ts.len() as int);
                    assert(sb.ahead(x));
                    assert(x[0] == ts[1]);
                    assert(x[1] == ts[2]);
                    assert(x.drop_first() =~= ts.subrange(2, ts.len() as int));
                }
            }
            if same_token(&self.current, &Token::Comma) {
                proof {
                    assert forall|ts: Seq<Token>| #[trigger] s0.ahead(ts) && struct_body_tokens(ts) implies false by {
                        assert(ts.subrange(2, ts.len() as int)[0] == ts[2]);
                    }
                }
                self.advance();
            }
            proof {
                c = c + 1;
            }
        }
        let ghost sd = *self;
        self.expect(&Token::CloseBrace)?;
        proof {
            assert forall|ts: Seq<Token>| #[trigger] s0.ahead(ts) && struct_body_tokens(ts) implies fields@ == seq![
                keyword_type(ts[1])->0,
            ] && self.ahead(ts.subrange(3, ts.len() as int)) && (!(ts[3] is Number) ==> self.saw_bad_number()
                == s0.saw_bad_number()) by {
                if c == 0 {
                    assert(ts.subrange(1, ts.len() as int)[0] == ts[1]);
                }
                let x = ts.subrange(2, ts.len() as int);
                assert(sd.ahead(x));
                assert(x[1] == ts[3]);
                assert(x.drop_first() =~= ts.subrange(3, ts.len() as int));
                assert(fields@ =~= seq![keyword_type(ts[1])->0]);
            }
        }
        Ok(fields)
    }

    /// If the current token starts a type, parse it (a malformed type gives
    /// `None`); otherwise `None` without consuming anything.
    fn try_parse_element_type(&mut self) -> (r: Option<LlvmType>)
        requires
            old(self).wf(),
        ensures
            old(self).moves_to(&*final(self)),
            !type_start(old(self).token()) ==> r.is_none() && final(self).token() == old(self).token()
                && final(self).progress() == old(self).progress(),
            type_start(old(self).token()) ==> (keyword_type(old(self).token()) matches Some(t) ==> r == Some(t)),
            old(self).token() matches Token::LocalId(n) ==> (r matches Some(LlvmType::Struct(m)) && m@ == n@),
            r is Some ==> final(self).progress() < old(self).progress(),
    {
        let is_type = match &self.current {
            Token::I1 | Token::I8 | Token::I16 | Token::I32 | Token::Ptr | Token::OpenBracket
            | Token::OpenBrace | Token::LocalId(_) => true,
            Token::Ident(s) => text_is(s, "i64"),
            _ => false,
        };
        if is_type {
            match self.parse_type() {
                Ok(t) => Some(t),
                Err(_) => None,
            }
        } else {
            None
        }
    }

    /// One element of a typed constant-array list: an optional element type
    /// (else the array's element type applies) and a scalar, `null` or
    /// `@global` value.
    fn parse_array_element(&mut self, expected: &LlvmType) -> (r: Result<LlvmGlobalInit, LlvmError>)
        requires
            old(self).wf(),
        ensures
            old(self).moves_to(&*final(self)),
            r is Ok ==> final(self).progress() < old(self).progress(),
            r matches Ok(g) ==> g is Scalar || g is GlobalRef || g is Null,
            scalar_type(*expected) ==> (old(self).token() matches Token::Number(n) ==> (r matches Ok(
                LlvmGlobalInit::Scalar(c),
            ) && c.value == n && same_type(*expected, c.ty))),
            scalar_type(*expected) && old(self).token() is True ==> (r matches Ok(LlvmGlobalInit::Scalar(c))
                && c.value == 1 && same_type(*expected, c.ty)),
            scalar_type(*expected) && old(self).token() is False ==> (r matches Ok(LlvmGlobalInit::Scalar(c))
                && c.value == 0 && same_type(*expected, c.ty)),
            scalar_type(*expected) ==> (old(self).token() matches Token::GlobalId(n) ==> (r matches Ok(
                LlvmGlobalInit::GlobalRef(m),
            ) && m@ == n@)),
            scalar_type(*expected) && is_ident(old(self).token(), "null"@) ==> (r matches Ok(LlvmGlobalInit::Null)),
    {
        proof {
            reveal_strlit("null");
            reveal_strlit("i64");
        }
        let declared = self.try_parse_element_type();
        proof {
            assert("null"@ != "i64"@) by {
                assert("null"@.len() == 4);
                assert("i64"@.len() == 3);
            }
        }
        let ty = match declared {
            Some(t) => t,
            None => copy_type(expected),
        };
        match &ty {
            LlvmType::Array { .. } | LlvmType::Struct(_) | LlvmType::UnnamedStruct { .. } | LlvmType::Void => {
                return Err(parse_error_msg(
                    "nested-aggregate global initializer element is not supported",
                ));
            },
            _ => {},
        }
        let r = match &self.current {
            Token::Number(n) => LlvmGlobalInit::Scalar(LlvmConst { value: *n, ty }),
            Token::True => LlvmGlobalInit::Scalar(LlvmConst { value: 1, ty }),
            Token::False => LlvmGlobalInit::Scalar(LlvmConst { value: 0, ty }),
            Token::GlobalId(g) => LlvmGlobalInit::GlobalRef(g.clone()),
            Token::Ident(s) => {
                if text_is(s, "null") {
                    LlvmGlobalInit::Null
                } else if text_is(s, "zeroinitializer") {
                    return Err(parse_error_msg(
                        "'zeroinitializer' is not valid inside an array constant list",
                    ));
                } else {
                    return Err(parse_error("unsupported global array element token ", &self.current));
                }
            },
            _ => {
                return Err(parse_error("unsupported global array element token ", &self.current));
            },
        };
        self.advance();
        Ok(r)
    }

    /// A global initializer of the given type: an integer, `true`/`false`,
    /// `@other`, `zeroinitializer`, `null`, a `c"…"` string or a typed array
    /// list. `undef`/`poison` and struct literals are refused.
    fn parse_global_init(&mut self, expected: &LlvmType) -> (r: Result<LlvmGlobalInit, LlvmError>)
        requires
            old(self).wf(),
        ensures
            old(self).moves_to(&*final(self)),
            r is Ok ==> final(self).progress() < old(self).progress(),
            old(self).token() matches Token::Number(n) ==> (r matches Ok(LlvmGlobalInit::Scalar(c)) && c.value == n),
            old(self).token() matches Token::GlobalId(n) ==> (r matches Ok(LlvmGlobalInit::GlobalRef(m)) && m@ == n@),
            is_ident(old(self).token(), "zeroinitializer"@) ==> r matches Ok(LlvmGlobalInit::Zero),
            is_ident(old(self).token(), "null"@) ==> r matches Ok(LlvmGlobalInit::Null),
            is_ident(old(self).token(), "undef"@) ==> r matches Err(LlvmError::Parse(_)),
            is_ident(old(self).token(), "poison"@) ==> r matches Err(LlvmError::Parse(_)),
            old(self).token() is StringLiteral ==> r matches Ok(LlvmGlobalInit::Bytes(_)),
    {
        proof {
            reveal_strlit("zeroinitializer");
            reveal_strlit("null");
            reveal_strlit("undef");
            reveal_strlit("poison");
        }
        match &self.current {
            Token::Number(n) => {
                let value = *n;
                self.advance();
                Ok(LlvmGlobalInit::Scalar(LlvmConst { value, ty: copy_type(expected) }))
            },
            Token::True => {
                self.advance();
                Ok(LlvmGlobalInit::Scalar(LlvmConst { value: 1, ty: copy_type(expected) }))
            },
            Token::False => {
                self.advance();
                Ok(LlvmGlobalInit::Scalar(LlvmConst { value: 0, ty: copy_type(expected) }))
            },
            Token::GlobalId(g) => {
                let g = g.clone();
                self.advance();
                Ok(LlvmGlobalInit::GlobalRef(g))
            },
            Token::StringLiteral(bytes) => {
                let b = bytes.clone();
                self.advance();
                Ok(LlvmGlobalInit::Bytes(b))
            },
            Token::Ident(s) => {
                proof {
                    reveal_strlit("zeroinitializer");
                    reveal_strlit("null");
                    reveal_strlit("undef");
                    reveal_strlit("poison");
                    assert("null"@.len() != "zeroinitializer"@.len());
                    assert("undef"@.len() != "zeroinitializer"@.len());
                    assert("undef"@.len() != "null"@.len());
                    assert("poison"@.len() != "zeroinitializer"@.len());
                    assert("poison"@.len() != "null"@.len());
                }
                if text_is(s, "zeroinitializer") {
                    self.advance();
                    Ok(LlvmGlobalInit::Zero)
                } else if text_is(s, "null") {
                    self.advance();
                    Ok(LlvmGlobalInit::Null)
                } else if text_is(s, "undef") || text_is(s, "poison") {
                    let mut msg = String::from_str("'");
                    push_str(&mut msg, s.as_str());
                    push_str(&mut msg, "' global initializer is not supported (SAIR has no undefined values)");
                    Err(LlvmError::Parse(msg))
                } else {
                    Err(parse_error("unsupported global initializer token ", &self.current))
                }
            },
            Token::OpenBracket => {
                let inner = match expected {
                    LlvmType::Array { inner, .. } => copy_type(inner),
                    _ => {
                        return Err(parse_error_msg("array constant initializer for non-array type"));
                    },
                };
                self.advance();
                let mut elems: Vec<LlvmGlobalInit> = Vec::new();
                while !same_token(&self.current, &Token::CloseBracket)
                    invariant
                        old(self).moves_to(&*self),
                        self.progress() < old(self).progress(),
                        old(self).token() is OpenBracket,
                    decreases self.progress(),
                {
                    if self.at_module_item_end() {
                        return Err(parse_error_msg("unterminated global array initializer"));
                    }
                    let e = self.parse_array_element(&inner)?;
                    elems.push(e);
                    if same_token(&self.current, &Token::Comma) {
                        self.advance();
                    }
                }
                self.expect(&Token::CloseBracket)?;
                Ok(LlvmGlobalInit::Array(elems))
            },
            Token::OpenBrace => Err(parse_error_msg(
                "struct-literal global initializers are not supported",
            )),
            _ => Err(parse_error("unsupported global initializer token ", &self.current)),
        }
    }

    /// A global definition `@name = [attrs] global|constant <ty> [init]
    /// [, attrs]`, positioned on `@name`. Only `external`/`common` globals
    /// may omit the initializer; struct and void globals are refused.
    fn parse_global(&mut self, name: &String) -> (r: Result<LlvmGlobal, LlvmError>)
        requires
            old(self).wf(),
            old(self).token() is GlobalId,
        ensures
            old(self).moves_to(&*final(self)),
            r is Ok ==> final(self).progress() < old(self).progress(),
            r matches Ok(g) ==> g.name@ == name@ && !(g.ty is Struct || g.ty is UnnamedStruct || g.ty is Void),
    {
        let name_owned = name.clone();
        self.advance();
        self.expect(&Token::Equals)?;
        let mut external = false;
        let is_constant;
        loop
            invariant
                old(self).moves_to(&*self),
                self.progress() < old(self).progress(),
            decreases self.progress(),
        {
            match &self.current {
                Token::Ident(s) => {
                    if text_is(s, "global") || text_is(s, "constant") {
                        is_constant = text_is(s, "constant");
                        self.advance();
                        break;
                    }
                    if text_is(s, "external") || text_is(s, "common") {
                        external = true;
                    }
                },
                Token::Define | Token::Declare | Token::Eof => {
                    let mut msg = String::from_str("malformed global definition for '@");
                    push_str(&mut msg, name_owned.as_str());
                    push_str(&mut msg, "'");
                    return Err(LlvmError::Parse(msg));
                },
                _ => {},
            }
            self.advance();
        }
        let ty = self.parse_type()?;
        match &ty {
            LlvmType::Struct(_) | LlvmType::UnnamedStruct { .. } | LlvmType::Void => {
                let mut msg = String::from_str("global '@");
                push_str(&mut msg, name_owned.as_str());
                push_str(&mut msg, "' is not supported (global struct/void data is not modeled)");
                return Err(LlvmError::Parse(msg));
            },
            _ => {},
        }
        let init = if external && (same_token(&self.current, &Token::Comma) || self.at_module_item_end()) {
            LlvmGlobalInit::Zero
        } else {
            self.parse_global_init(&ty)?
        };
        self.skip_to_module_item();
        Ok(LlvmGlobal { name: name_owned, ty, is_constant, init })
    }

    /// A module: function definitions and declarations, globals and named
    /// struct type definitions; other top-level tokens are skipped.
    fn parse_program(&mut self) -> (r: Result<LlvmProgram, LlvmError>)
        requires
            old(self).wf(),
        ensures
            old(self).moves_to(&*final(self)),
            r matches Ok(p) ==> forall|i: int| 0 <= i < p.functions@.len() && #[trigger] p.functions@[i].is_declaration
                ==> p.functions@[i].blocks@.len() == 0,
            r is Ok ==> final(self).token() is Eof,
            old(self).token() is Eof ==> (r matches Ok(p) && p.functions@.len() == 0 && p.struct_types@.len() == 0
                && p.globals@.len() == 0),
            old(self).token() is Eof ==> final(self).saw_bad_number() == old(self).saw_bad_number(),
            forall|ts: Seq<Token>|
                #![trigger old(self).ahead(ts), struct_program_tokens(ts)]
                old(self).ahead(ts) && struct_program_tokens(ts) ==> (r matches Ok(p) && struct_program(ts, p)
                    && final(self).saw_bad_number() == old(self).saw_bad_number()),
            forall|ts: Seq<Token>|
                #![trigger old(self).ahead(ts), function_program_tokens(ts)]
                old(self).ahead(ts) && function_program_tokens(ts) ==> (r matches Ok(p) && function_program(ts, p)
                    && final(self).saw_bad_number() == old(self).saw_bad_number()),
    {
        let mut functions: Vec<LlvmFunction> = Vec::new();
        let mut struct_types: Vec<(String, Vec<LlvmType>)> = Vec::new();
        let mut globals: Vec<LlvmGlobal> = Vec::new();
        let ghost s0 = *self;
        let ghost mut c: int = 0;
        let ghost mut d: int = 0;
        loop
            invariant
                s0 == *old(self),
                forall|ts: Seq<Token>|
                    #![trigger s0.ahead(ts), function_program_tokens(ts)]
                    s0.ahead(ts) && function_program_tokens(ts) ==> d <= 1 && struct_types@.len() == 0
                        && globals@.len() == 0 && functions@.len() == d && self.saw_bad_number() == s0.saw_bad_number()
                        && (d == 0 ==> self.ahead(ts)) && (d == 1 ==> self.ahead(ts.subrange(9, 10)) && function_from(
                        ts,
                        functions@[0],
                    )),
                forall|ts: Seq<Token>|
                    #![trigger s0.ahead(ts), struct_program_tokens(ts)]
                    s0.ahead(ts) && struct_program_tokens(ts) ==> c <= 1 && functions@.len() == 0 && globals@.len() == 0
                        && struct_types@.len() == c && self.saw_bad_number() == s0.saw_bad_number() && (c == 0
                        ==> self.ahead(ts)) && (c == 1 ==> self.ahead(ts.subrange(6, 7)) && struct_types@[0].0@
                        == name_text(ts[0]) && struct_types@[0].1@ == seq![keyword_type(ts[4])->0]),
                old(self).moves_to(&*self),
                forall|i: int| 0 <= i < functions@.len() && #[trigger] functions@[i].is_declaration
                    ==> functions@[i].blocks@.len() == 0,
                old(self).token() is Eof ==> (self.token() is Eof && functions@.len() == 0 && struct_types@.len() == 0
                    && globals@.len() == 0 && self.saw_bad_number() == old(self).saw_bad_number()),
            ensures
                old(self).moves_to(&*self),
                forall|i: int| 0 <= i < functions@.len() && #[trigger] functions@[i].is_declaration
                    ==> functions@[i].blocks@.len() == 0,
                self.token() is Eof,
                old(self).token() is Eof ==> (functions@.len() == 0 && struct_types@.len() == 0 && globals@.len() == 0
                    && self.saw_bad_number() == old(self).saw_bad_number()),
                forall|ts: Seq<Token>|
                    #![trigger s0.ahead(ts), function_program_tokens(ts)]
                    s0.ahead(ts) && function_program_tokens(ts) ==> d == 1 && struct_types@.len() == 0
                        && globals@.len() == 0 && functions@.len() == 1 && self.saw_bad_number() == s0.saw_bad_number()
                        && function_from(ts, functions@[0]),
                forall|ts: Seq<Token>|
                    #![trigger s0.ahead(ts), struct_program_tokens(ts)]
                    s0.ahead(ts) && struct_program_tokens(ts) ==> c <= 1 && functions@.len() == 0 && globals@.len() == 0
                        && struct_types@.len() == c && self.saw_bad_number() == s0.saw_bad_number() && (c == 0
                        ==> self.ahead(ts)) && (c == 1 ==> self.ahead(ts.subrange(6, 7)) && struct_types@[0].0@
                        == name_text(ts[0]) && struct_types@[0].1@ == seq![keyword_type(ts[4])->0]),
            decreases self.progress(),
        {
            proof {
                assert forall|ts: Seq<Token>|
                    #![trigger s0.ahead(ts), function_program_tokens(ts)]
                    s0.ahead(ts) && function_program_tokens(ts) implies (d == 0 ==> self.token() is Define) && (d == 1
                        ==> self.token() is Eof) by {
                    if d == 1 {
                        assert(ts.subrange(9, 10)[0] == ts[9]);
                    }
                }
            }
            match &self.current {
                Token::Eof => break,
                Token::Define => {
                    proof {
                        assert forall|ts: Seq<Token>|
                            #![trigger s0.ahead(ts), struct_program_tokens(ts)]
                            s0.ahead(ts) && struct_program_tokens(ts) implies false by {
                            if c == 1 {
                                assert(ts.subrange(6, 7)[0] == ts[6]);
                            }
                        }
                    }
                    let ghost sf = *self;
                    let func = self.parse_function()?;
                    proof {
                        assert forall|ts: Seq<Token>|
                            #![trigger s0.ahead(ts), function_program_tokens(ts)]
                            s0.ahead(ts) && function_program_tokens(ts) implies d == 0 && function_from(ts, func)
                                && self.ahead(ts.subrange(9, 10)) && self.saw_bad_number() == s0.saw_bad_number() by {
                            assert(sf.ahead(ts));
                            assert(ts.subrange(9, ts.len() as int) =~= ts.subrange(9, 10));
                        }
                    }
                    functions.push(func);
                    proof {
                        d = d + 1;
                    }
                },
                Token::Declare => {
                    proof {
                        assert forall|ts: Seq<Token>|
                            #![trigger s0.ahead(ts), struct_program_tokens(ts)]
                            s0.ahead(ts) && struct_program_tokens(ts) implies false by {
                            if c == 1 {
                                assert(ts.subrange(6, 7)[0] == ts[6]);
                            }
                        }
                    }
                    let func = self.parse_declaration()?;
                    functions.push(func);
                },
                Token::GlobalId(name) => {
                    proof {
                        assert forall|ts: Seq<Token>|
                            #![trigger s0.ahead(ts), struct_program_tokens(ts)]
                            s0.ahead(ts) && struct_program_tokens(ts) implies false by {
                            if c == 1 {
                                assert(ts.subrange(6, 7)[0] == ts[6]);
                            }
                        }
                    }
                    let n = name.clone();
                    let g = self.parse_global(&n)?;
                    globals.push(g);
                },
                Token::LocalId(name) => {
                    let n = name.clone();
                    proof {
                        assert forall|ts: Seq<Token>|
                            #![trigger s0.ahead(ts), struct_program_tokens(ts)]
                            s0.ahead(ts) && struct_program_tokens(ts) implies c == 0 && n@ == name_text(ts[0]) by {
                            if c == 1 {
                                assert(ts.subrange(6, 7)[0] == ts[6]);
                            }
                        }
                    }
                    let ghost sa = *self;
                    self.advance();
                    let ghost sb = *self;
                    if same_token(&self.current, &Token::Equals) {
                        self.advance();
                        let ghost sc = *self;
                        if ident_is(&self.current, "type") {
                            self.advance();
                            let ghost sd = *self;
                            if same_token(&self.current, &Token::OpenBrace) {
                                proof {
                                    assert forall|ts: Seq<Token>|
                                        #![trigger s0.ahead(ts), struct_program_tokens(ts)]
                                        s0.ahead(ts) && struct_program_tokens(ts) implies self.ahead(ts.subrange(3, 7))
                                            && self.saw_bad_number() == s0.saw_bad_number() by {
                                        assert(sb.ahead(ts.drop_first()));
                                        assert(sc.ahead(ts.drop_first().drop_first()));
                                        assert(ts.drop_first().drop_first().drop_first() =~= ts.subrange(3, 7));
                                    }
                                }
                                let ghost se = *self;
                                let fields = self.parse_struct_def_body()?;
                                proof {
                                    assert forall|ts: Seq<Token>|
                                        #![trigger s0.ahead(ts), struct_program_tokens(ts)]
                                        s0.ahead(ts) && struct_program_tokens(ts) implies self.ahead(ts.subrange(6, 7))
                                            && self.saw_bad_number() == s0.saw_bad_number() && fields@ == seq![
                                            keyword_type(ts[4])->0,
                                        ] by {
                                        let x = ts.subrange(3, 7);
                                        assert(se.ahead(x));
                                        assert(x[1] == ts[4]);
                                        assert(x[3] == ts[6]);
                                        assert(x.subrange(3, x.len() as int) =~= ts.subrange(6, 7));
                                    }
                                }
                                struct_types.push((n, fields));
                                proof {
                                    c = c + 1;
                                }
                            } else {
                                proof {
                                    assert forall|ts: Seq<Token>|
                                        #![trigger s0.ahead(ts), struct_program_tokens(ts)]
                                        s0.ahead(ts) && struct_program_tokens(ts) implies false by {
                                        assert(sb.ahead(ts.drop_first()));
                                        assert(sc.ahead(ts.drop_first().drop_first()));
                                        assert(ts.subrange(3, 7)[0] == ts[3]);
                                    }
                                }
                            }
                        } else {
                            proof {
                                assert forall|ts: Seq<Token>|
                                    #![trigger s0.ahead(ts), struct_program_tokens(ts)]
                                    s0.ahead(ts) && struct_program_tokens(ts) implies false by {
                                    assert(sb.ahead(ts.drop_first()));
                                }
                            }
                        }
                    } else {
                        proof {
                            assert forall|ts: Seq<Token>|
                                #![trigger s0.ahead(ts), struct_program_tokens(ts)]
                                s0.ahead(ts) && struct_program_tokens(ts) implies false by {
                            }
                        }
                    }
                },
                _ => {
                    proof {
                        assert forall|ts: Seq<Token>|
                            #![trigger s0.ahead(ts), struct_program_tokens(ts)]
                            s0.ahead(ts) && struct_program_tokens(ts) implies false by {
                            if c == 1 {
                                assert(ts.subrange(6, 7)[0] == ts[6]);
                            }
                        }
                    }
                    self.advance();
                },
            }
        }
        let p = LlvmProgram { functions, struct_types, globals };
        proof {
            assert forall|ts: Seq<Token>|
                #![trigger s0.ahead(ts), struct_program_tokens(ts)]
                s0.ahead(ts) && struct_program_tokens(ts) implies struct_program(ts, p) by {
                if c == 0 {
                    assert(ts[0] is LocalId);
                }
            }
        }
        Ok(p)
    }

    /// The text of an out-of-range integer literal, if one was read.
    fn bad_literal(&self) -> (r: Option<String>)
        ensures
            r.is_some() == self.saw_bad_number(),
    {
        match &self.lexer.bad_number {
            Some(d) => Some(d.clone()),
            None => None,
        }
    }
}

/// Parse an LLVM module. An integer literal too large for `i64` anywhere in
/// the part of the input that was read is reported as a parse error.
pub fn parse_llvm(input: &str) -> (r: Result<LlvmProgram, LlvmError>)
    ensures
        r matches Ok(p) ==> forall|i: int| 0 <= i < p.functions@.len() && #[trigger] p.functions@[i].is_declaration
            ==> p.functions@[i].blocks@.len() == 0,
        input@.len() == 0 ==> (r matches Ok(p) && p.functions@.len() == 0 && p.struct_types@.len() == 0
            && p.globals@.len() == 0),
        forall|ts: Seq<Token>|
            #[trigger] lexes(input@, 0, ts) && struct_program_tokens(ts) ==> (r matches Ok(p) && struct_program(ts, p)),
        forall|ts: Seq<Token>|
            #[trigger] lexes(input@, 0, ts) && function_program_tokens(ts) ==> (r matches Ok(p) && function_program(
                ts,
                p,
            )),
{
    let mut parser = Parser::new(input);
    let ghost p0 = parser;
    let r = parser.parse_program();
    proof {
        assert forall|ts: Seq<Token>| #[trigger] lexes(input@, 0, ts) && struct_program_tokens(ts) implies (r matches Ok(
            p,
        ) && struct_program(ts, p)) && !parser.saw_bad_number() by {
            assert(p0.ahead(ts));
        }
        assert forall|ts: Seq<Token>| #[trigger] lexes(input@, 0, ts) && function_program_tokens(ts) implies (r matches Ok(
            p,
        ) && function_program(ts, p)) && !parser.saw_bad_number() by {
            assert(p0.ahead(ts));
        }
    }
    match parser.bad_literal() {
        Some(d) => {
            let mut msg = String::from_str("integer literal out of range: ");
            push_str(&mut msg, d.as_str());
            Err(LlvmError::Parse(msg))
        },
        None => r,
    }
}

} // verus!
