//! Reading SAIR text back into a module.
//!
//! The text is split into tokens first; the parser then walks the tokens,
//! building the module with an [`IrBuilder`], and finally validates it.
//! Textual value numbers are mapped to the ids the builder hands out.

use vstd::prelude::*;

use crate::ir::builder::{appended, appended_value, last_instruction, IrBuilder};
use crate::ir::debug::DebugLoc;
use crate::ir::instruction::{cast_op_text, CastOp, GepIndex, Instruction, Terminator};
use crate::ir::function::IrFunction;
use crate::ir::module::IrModule;
use crate::ir::text::error::TextIrError;
use crate::ir::text::lexer::{sair_tokens_from, token_views, tokenize, word_kind, Token, TokenKind};
use crate::ir::text::writer::{binary_text, instruction_body, terminator_line, value_ref};
use crate::ir::types::{type_text, IrType};
use crate::ir::module::{last_function_index, lemma_last_function_index};
use crate::ir::validate::{
    all_blocks_reachable, function_is_valid, is_cfg_path, module_is_valid, reachable_from, targets_defined,
};
use crate::ir::value::{constant_type, Constant, SsaValue, ValueId};
use crate::llvm::chars::{is_digit_spec, parse_digits};
use crate::llvm::lexer::collect_chars;
use crate::strings::{owned, push_str};

verus! {

/// Read a module from SAIR text. The result is a valid module.
pub fn deserialize(input: &str) -> (r: Result<IrModule, TextIrError>)
    ensures
        r matches Ok(m) ==> module_is_valid(m),
        sair_tokens_from(input@, 0) is None ==> r is Err,
        sair_tokens_from(input@, 0) matches Some(vs) ==> (least_module_views(vs) ==> (r matches Ok(m)
            && least_module(vs, m))),
        sair_tokens_from(input@, 0) matches Some(vs) ==> (vs[0].0 != TokenKind::KwSair ==> r matches Err(
            TextIrError::Parse(_),
        )),
        sair_tokens_from(input@, 0) matches Some(vs) ==> (version_refused(vs, 0) ==> (r matches Err(
            TextIrError::UnsupportedVersion(msg),
        ) && msg@ == "expected 0.1, got "@ + vs[1].1)),
{
    let tokens = tokenize(input)?;
    let mut parser = Parser::new(tokens);
    parser.parse_module()
}

/// The parser state: the tokens, the position of the current one, and the
/// map from textual value numbers to builder ids (latest entry first).
struct Parser {
    tokens: Vec<Token>,
    pos: usize,
    value_map: Vec<(ValueId, ValueId)>,
}

fn parse_error(prefix: &str, detail: &str) -> (e: TextIrError)
    ensures
        e matches TextIrError::Parse(m) && m@ == prefix@ + detail@,
{
    let mut s = owned(prefix);
    push_str(&mut s, detail);
    TextIrError::Parse(s)
}

/// The spelling of token kind `k` in error messages.
pub open spec fn kind_text(k: TokenKind) -> Seq<char> {
    match k {
        TokenKind::Str => "string"@,
        TokenKind::Number => "number"@,
        TokenKind::Version => "version"@,
        TokenKind::Global => "global name"@,
        TokenKind::Local => "local value"@,
        TokenKind::Arrow => "'->'"@,
        TokenKind::Bang => "'!'"@,
        TokenKind::Colon => "':'"@,
        TokenKind::Comma => "','"@,
        TokenKind::Equals => "'='"@,
        TokenKind::LParen => "'('"@,
        TokenKind::RParen => "')'"@,
        TokenKind::LBrace => "'{'"@,
        TokenKind::RBrace => "'}'"@,
        TokenKind::LBracket => "'['"@,
        TokenKind::RBracket => "']'"@,
        TokenKind::Eof => "end of input"@,
        _ => "keyword"@,
    }
}

/// The spelling of a token kind in error messages.
fn kind_name(k: TokenKind) -> (r: &'static str)
    ensures
        r@ == kind_text(k),
{
    match k {
        TokenKind::Str => "string",
        TokenKind::Number => "number",
        TokenKind::Version => "version",
        TokenKind::Global => "global name",
        TokenKind::Local => "local value",
        TokenKind::Arrow => "'->'",
        TokenKind::Bang => "'!'",
        TokenKind::Colon => "':'",
        TokenKind::Comma => "','",
        TokenKind::Equals => "'='",
        TokenKind::LParen => "'('",
        TokenKind::RParen => "')'",
        TokenKind::LBrace => "'{'",
        TokenKind::RBrace => "'}'",
        TokenKind::LBracket => "'['",
        TokenKind::RBracket => "']'",
        TokenKind::Eof => "end of input",
        _ => "keyword",
    }
}

/// The value of a local's digits, when there are some and they fit an id.
fn local_number(text: &String) -> (r: Option<ValueId>)
    requires
        forall|i: int| 0 <= i < text@.len() ==> is_digit_spec(#[trigger] text@[i]),
    ensures
        r == local_value(text@),
{
    let chars = collect_chars(text.as_str());
    if chars.len() == 0 {
        return None;
    }
    proof {
        assert(chars@.subrange(0, chars@.len() as int) =~= text@);
    }
    match parse_digits(&chars, 0, chars.len()) {
        Some(v) => {
            if v <= usize::MAX as u64 {
                Some(v as usize)
            } else {
                None
            }
        },
        None => None,
    }
}

/// Whether the function being built can hand out another value id.
fn id_room(builder: &IrBuilder) -> (r: bool)
    requires
        builder.in_function(),
    ensures
        r == (builder.current_function().next_id() < usize::MAX),
{
    let name = match &builder.current_func {
        Some(n) => n,
        None => {
            return false;
        },
    };
    match builder.module.function_index(name.as_str()) {
        Some(f) => builder.module.functions[f].value_counter() < usize::MAX,
        None => false,
    }
}

/// Append constant `c` to the current block.
fn const_value(builder: &mut IrBuilder, c: Constant) -> (id: ValueId)
    requires
        old(builder).wf(),
        old(builder).can_emit(),
    ensures
        final(builder).wf(),
        final(builder).function_slot() == old(builder).function_slot(),
        final(builder).block_slot() == old(builder).block_slot(),
        appended_value(*old(builder), *final(builder), Instruction::Const(c), constant_type(c), id),
{
    match c {
        Constant::I1(v) => builder.const_i1(v),
        Constant::I8(v) => builder.const_i8(v),
        Constant::I16(v) => builder.const_i16(v),
        Constant::I32(v) => builder.const_i32(v),
        Constant::I64(v) => builder.const_i64(v),
        Constant::F64(v) => builder.const_f64(v),
    }
}

impl Parser {
    spec fn wf(&self) -> bool {
        &&& self.tokens@.len() > 0
        &&& self.tokens@.last().kind == TokenKind::Eof
        &&& forall|i: int| 0 <= i < self.tokens@.len() - 1 ==> #[trigger] self.tokens@[i].kind != TokenKind::Eof
        &&& self.pos < self.tokens@.len()
    }

    /// A parser step: same tokens, position not moving back.
    spec fn steps_to(&self, next: &Parser) -> bool {
        &&& next.wf()
        &&& next.tokens@ == self.tokens@
        &&& next.pos >= self.pos
    }

    fn new(tokens: Vec<Token>) -> (r: Self)
        requires
            tokens@.len() > 0,
            tokens@.last().kind == TokenKind::Eof,
            forall|i: int| 0 <= i < tokens@.len() - 1 ==> #[trigger] tokens@[i].kind != TokenKind::Eof,
        ensures
            r.wf(),
            r.tokens@ == tokens@,
            r.pos == 0,
    {
        Parser { tokens, pos: 0, value_map: Vec::new() }
    }

    fn current(&self) -> (k: TokenKind)
        requires
            self.wf(),
        ensures
            k == self.tokens@[self.pos as int].kind,
    {
        self.tokens[self.pos].kind
    }

    /// Move to the next token; the final `Eof` is never left.
    fn advance(&mut self)
        requires
            old(self).wf(),
        ensures
            old(self).steps_to(&*final(self)),
            old(self).pos + 1 < old(self).tokens@.len() ==> final(self).pos == old(self).pos + 1,
            final(self).value_map == old(self).value_map,
    {
        if self.pos < self.tokens.len() - 1 {
            self.pos = self.pos + 1;
        }
    }

    fn unexpected(&self, expected: &str) -> (e: TextIrError)
        requires
            self.wf(),
        ensures
            e matches TextIrError::Parse(m) && m@ == "expected "@ + expected@ + ", got "@ + kind_text(
                self.tokens@[self.pos as int].kind,
            ),
    {
        let mut s = owned("expected ");
        push_str(&mut s, expected);
        push_str(&mut s, ", got ");
        push_str(&mut s, kind_name(self.current()));
        TextIrError::Parse(s)
    }

    /// Consume a token of kind `kind`.
    fn expect(&mut self, kind: TokenKind) -> (r: Result<(), TextIrError>)
        requires
            old(self).wf(),
            kind != TokenKind::Eof,
        ensures
            old(self).steps_to(&*final(self)),
            final(self).value_map == old(self).value_map,
            r is Ok <==> old(self).tokens@[old(self).pos as int].kind == kind,
            r is Ok ==> final(self).pos == old(self).pos + 1,
            r matches Err(e) ==> e is Parse,
    {
        if self.current() == kind {
            self.advance();
            Ok(())
        } else {
            Err(self.unexpected(kind_name(kind)))
        }
    }

    fn parse_number(&mut self) -> (r: Result<u64, TextIrError>)
        requires
            old(self).wf(),
        ensures
            old(self).steps_to(&*final(self)),
            final(self).value_map == old(self).value_map,
            r is Ok <==> old(self).tokens@[old(self).pos as int].kind == TokenKind::Number,
            r matches Ok(n) ==> n == old(self).tokens@[old(self).pos as int].number && final(self).pos
                == old(self).pos + 1,
            r matches Err(e) ==> e is Parse,
    {
        if self.current() == TokenKind::Number {
            let v = self.tokens[self.pos].number;
            self.advance();
            Ok(v)
        } else {
            Err(self.unexpected("number"))
        }
    }

    fn parse_version(&mut self) -> (r: Result<String, TextIrError>)
        requires
            old(self).wf(),
        ensures
            old(self).steps_to(&*final(self)),
            final(self).value_map == old(self).value_map,
            r is Ok <==> old(self).tokens@[old(self).pos as int].kind == TokenKind::Version,
            r matches Ok(v) ==> v@ == old(self).tokens@[old(self).pos as int].text@ && final(self).pos
                == old(self).pos + 1,
            r matches Err(e) ==> e is Parse,
    {
        if self.current() == TokenKind::Version {
            let v = owned(self.tokens[self.pos].text.as_str());
            self.advance();
            Ok(v)
        } else {
            Err(self.unexpected("version"))
        }
    }

    fn parse_string(&mut self) -> (r: Result<String, TextIrError>)
        requires
            old(self).wf(),
        ensures
            old(self).steps_to(&*final(self)),
            final(self).value_map == old(self).value_map,
            r is Ok <==> old(self).tokens@[old(self).pos as int].kind == TokenKind::Str,
            r matches Ok(v) ==> v@ == old(self).tokens@[old(self).pos as int].text@ && final(self).pos
                == old(self).pos + 1,
            r matches Err(e) ==> e is Parse,
    {
        if self.current() == TokenKind::Str {
            let v = owned(self.tokens[self.pos].text.as_str());
            self.advance();
            Ok(v)
        } else {
            Err(self.unexpected("string"))
        }
    }

    fn parse_global_name(&mut self) -> (r: Result<String, TextIrError>)
        requires
            old(self).wf(),
        ensures
            old(self).steps_to(&*final(self)),
            final(self).value_map == old(self).value_map,
            r is Ok <==> old(self).tokens@[old(self).pos as int].kind == TokenKind::Global,
            r matches Ok(v) ==> v@ == old(self).tokens@[old(self).pos as int].text@ && final(self).pos
                == old(self).pos + 1,
            r matches Err(e) ==> e is Parse,
    {
        if self.current() == TokenKind::Global {
            let v = owned(self.tokens[self.pos].text.as_str());
            self.advance();
            Ok(v)
        } else {
            Err(self.unexpected("global name"))
        }
    }

    /// The type a type token names (`void` included).
    fn parse_type(&mut self) -> (r: Result<IrType, TextIrError>)
        requires
            old(self).wf(),
        ensures
            old(self).steps_to(&*final(self)),
            final(self).value_map == old(self).value_map,
            r matches Ok(t) ==> token_type(old(self).tokens@[old(self).pos as int].kind) == Some(t),
            r is Err ==> token_type(old(self).tokens@[old(self).pos as int].kind) is None,
            r matches Err(e) ==> e is Parse,
            r is Ok ==> final(self).pos == old(self).pos + 1,
    {
        let k = self.current();
        self.advance();
        match k {
            TokenKind::TyI1 => Ok(IrType::I1),
            TokenKind::TyI8 => Ok(IrType::I8),
            TokenKind::TyI16 => Ok(IrType::I16),
            TokenKind::TyI32 => Ok(IrType::I32),
            TokenKind::TyI64 => Ok(IrType::I64),
            TokenKind::TyF64 => Ok(IrType::F64),
            TokenKind::TyPtr => Ok(IrType::Pointer),
            TokenKind::KwVoid => Ok(IrType::Void),
            _ => Err(parse_error("expected type, got ", kind_name(k))),
        }
    }

    /// The cast operator a keyword names.
    fn parse_cast_op(&mut self) -> (r: Result<CastOp, TextIrError>)
        requires
            old(self).wf(),
        ensures
            old(self).steps_to(&*final(self)),
            final(self).value_map == old(self).value_map,
            r matches Ok(op) ==> token_cast_op(old(self).tokens@[old(self).pos as int].kind) == Some(op)
                && final(self).pos == old(self).pos + 1,
            r is Err ==> token_cast_op(old(self).tokens@[old(self).pos as int].kind) is None,
            r matches Err(e) ==> e is Parse,
    {
        let k = self.current();
        self.advance();
        match k {
            TokenKind::KwZext => Ok(CastOp::Zext),
            TokenKind::KwSext => Ok(CastOp::Sext),
            TokenKind::KwTrunc => Ok(CastOp::Trunc),
            TokenKind::KwBitcast => Ok(CastOp::Bitcast),
            TokenKind::KwPtrToInt => Ok(CastOp::PtrToInt),
            TokenKind::KwIntToPtr => Ok(CastOp::IntToPtr),
            _ => Err(parse_error("expected cast op, got ", kind_name(k))),
        }
    }

    /// The textual number of a local token.
    fn parse_local_id(&mut self) -> (r: Result<ValueId, TextIrError>)
        requires
            old(self).wf(),
            local_tokens_digits(old(self).tokens@),
        ensures
            old(self).steps_to(&*final(self)),
            final(self).value_map == old(self).value_map,
            r matches Ok(id) ==> old(self).tokens@[old(self).pos as int].kind == TokenKind::Local && local_value(
                old(self).tokens@[old(self).pos as int].text@,
            ) == Some(id) && final(self).pos == old(self).pos + 1,
            r matches Err(e) ==> e is Parse,
            r is Ok <==> old(self).tokens@[old(self).pos as int].kind == TokenKind::Local && local_value(
                old(self).tokens@[old(self).pos as int].text@,
            ) is Some,
    {
        if self.current() == TokenKind::Local {
            match local_number(&self.tokens[self.pos].text) {
                Some(id) => {
                    self.advance();
                    Ok(id)
                },
                None => Err(parse_error("invalid local id: ", self.tokens[self.pos].text.as_str())),
            }
        } else {
            Err(self.unexpected("local id"))
        }
    }

    /// The builder id that a local reference stands for.
    fn parse_value_ref(&mut self) -> (r: Result<ValueId, TextIrError>)
        requires
            old(self).wf(),
            local_tokens_digits(old(self).tokens@),
        ensures
            old(self).steps_to(&*final(self)),
            final(self).value_map == old(self).value_map,
            r matches Ok(id) ==> old(self).tokens@[old(self).pos as int].kind == TokenKind::Local
                && final(self).pos == old(self).pos + 1 && (local_value(
                old(self).tokens@[old(self).pos as int].text@,
            ) matches Some(t) && map_lookup(old(self).value_map@, t) == Some(id)),
            r matches Err(e) ==> e is Parse,
            r is Ok <==> ref_at(old(self).tokens@, old(self).pos as int, old(self).value_map@) is Some,
            r matches Ok(id) ==> ref_at(old(self).tokens@, old(self).pos as int, old(self).value_map@) == Some(id),
    {
        let textual = self.parse_local_id()?;
        match lookup(&self.value_map, textual) {
            Some(id) => Ok(id),
            None => Err(TextIrError::Parse(owned("undefined value"))),
        }
    }

    fn parse_gep_index(&mut self) -> (r: Result<GepIndex, TextIrError>)
        requires
            old(self).wf(),
            local_tokens_digits(old(self).tokens@),
        ensures
            old(self).steps_to(&*final(self)),
            final(self).value_map == old(self).value_map,
            r is Ok ==> final(self).pos > old(self).pos,
            r matches Err(e) ==> e is Parse,
            gep_index_at(old(self).tokens@, old(self).pos as int, old(self).value_map@) matches Some((idx, e)) ==> (r
                == Ok::<GepIndex, TextIrError>(idx) && final(self).pos == e),
    {
        if self.current() == TokenKind::KwField {
            self.advance();
            let n = self.parse_number()?;
            Ok(GepIndex::StructField(#[verifier::truncate] (n as u32)))
        } else {
            let id = self.parse_value_ref()?;
            Ok(GepIndex::Dynamic(id))
        }
    }

    /// `! loc "file" line [column]`.
    fn parse_debug_loc(&mut self) -> (r: Result<DebugLoc, TextIrError>)
        requires
            old(self).wf(),
        ensures
            old(self).steps_to(&*final(self)),
            final(self).value_map == old(self).value_map,
            r is Ok ==> final(self).pos > old(self).pos,
            r matches Err(e) ==> e is Parse,
    {
        self.expect(TokenKind::Bang)?;
        self.expect(TokenKind::KwLoc)?;
        let file = self.parse_string()?;
        let line = #[verifier::truncate] (self.parse_number()? as u32);
        let column = if self.current() == TokenKind::Number {
            Some(#[verifier::truncate] (self.parse_number()? as u32))
        } else {
            None
        };
        Ok(DebugLoc { file, line, column })
    }

    /// A constant of type `ty`: `true`, `false` or a number for `i1`, a
    /// number (truncated to the width) for the integer types, the bit
    /// pattern for `f64`.
    fn parse_constant(&mut self, ty: IrType) -> (r: Result<Constant, TextIrError>)
        requires
            old(self).wf(),
        ensures
            old(self).steps_to(&*final(self)),
            final(self).value_map == old(self).value_map,
            r matches Ok(c) ==> c == constant_of(ty, old(self).tokens@[old(self).pos as int])
                && final(self).pos == old(self).pos + 1,
            r matches Err(e) ==> e is Parse,
            constant_token(ty, old(self).tokens@[old(self).pos as int]) ==> r is Ok,
    {
        match ty {
            IrType::I1 => {
                if self.current() == TokenKind::KwTrue {
                    self.advance();
                    Ok(Constant::I1(true))
                } else if self.current() == TokenKind::KwFalse {
                    self.advance();
                    Ok(Constant::I1(false))
                } else {
                    let n = self.parse_number()?;
                    Ok(Constant::I1(n != 0))
                }
            },
            IrType::I8 => {
                let n = self.parse_number()?;
                Ok(Constant::I8(#[verifier::truncate] (n as u8)))
            },
            IrType::I16 => {
                let n = self.parse_number()?;
                Ok(Constant::I16(#[verifier::truncate] (n as u16)))
            },
            IrType::I32 => {
                let n = self.parse_number()?;
                Ok(Constant::I32(#[verifier::truncate] (n as u32)))
            },
            IrType::I64 => {
                let n = self.parse_number()?;
                Ok(Constant::I64(n))
            },
            IrType::F64 => {
                let n = self.parse_number()?;
                Ok(Constant::F64(n))
            },
            _ => Err(TextIrError::Parse(owned("cannot represent a constant of this type"))),
        }
    }

    fn is_terminator_start(&self) -> (r: bool)
        requires
            self.wf(),
        ensures
            r == is_terminator_kind(self.tokens@[self.pos as int].kind),
    {
        let k = self.current();
        k == TokenKind::KwBr || k == TokenKind::KwCondBr || k == TokenKind::KwRet || k == TokenKind::KwUnreachable
    }

    /// When the current tokens are `%n =`, consume them and give `n`.
    fn peek_local_def(&mut self) -> (r: Result<Option<ValueId>, TextIrError>)
        requires
            old(self).wf(),
            local_tokens_digits(old(self).tokens@),
        ensures
            old(self).steps_to(&*final(self)),
            final(self).value_map == old(self).value_map,
            r matches Ok(None) ==> final(self).pos == old(self).pos,
            r matches Err(e) ==> e is Parse,
            ({
                let ts = old(self).tokens@;
                let p = old(self).pos as int;
                if ts[p].kind != TokenKind::Local {
                    r == Ok::<Option<ValueId>, TextIrError>(None)
                } else if local_value(ts[p].text@) is None {
                    r is Err
                } else if p + 1 < ts.len() && ts[p + 1].kind == TokenKind::Equals {
                    r == Ok::<Option<ValueId>, TextIrError>(local_value(ts[p].text@)) && final(self).pos == p + 2
                } else {
                    r == Ok::<Option<ValueId>, TextIrError>(None)
                }
            }),
    {
        if self.current() != TokenKind::Local {
            return Ok(None);
        }
        let textual = match local_number(&self.tokens[self.pos].text) {
            Some(t) => t,
            None => {
                return Err(parse_error("invalid local id: ", self.tokens[self.pos].text.as_str()));
            },
        };
        if self.pos < self.tokens.len() - 1 && self.tokens[self.pos + 1].kind == TokenKind::Equals {
            self.advance();
            self.expect(TokenKind::Equals)?;
            Ok(Some(textual))
        } else {
            Ok(None)
        }
    }

    /// `op ty %a, %b` after the opcode.
    fn parse_binop(&mut self, builder: &mut IrBuilder, op: TokenKind) -> (r: Result<Option<ValueId>, TextIrError>)
        requires
            old(self).wf(),
            local_tokens_digits(old(self).tokens@),
            old(builder).wf(),
            old(builder).can_emit(),
        ensures
            old(self).steps_to(&*final(self)),
            final(self).value_map == old(self).value_map,
            final(builder).wf(),
            final(builder).function_slot() == old(builder).function_slot(),
            final(builder).block_slot() == old(builder).block_slot(),
            r matches Err(e) ==> e is Parse,
            ({
                let ts = old(self).tokens@;
                let p = old(self).pos as int;
                let vm = old(self).value_map@;
                &&& r is Ok <==> (token_type(ts[p].kind) is Some && p + 3 < ts.len() && ref_at(ts, p + 1, vm) is Some
                    && ts[p + 2].kind == TokenKind::Comma && ref_at(ts, p + 3, vm) is Some)
                &&& r matches Ok(v) ==> v matches Some(id) && final(self).pos == p + 4 && appended_value(
                    *old(builder),
                    *final(builder),
                    binop_instruction(op, token_type(ts[p].kind)->0, ref_at(ts, p + 1, vm)->0, ref_at(ts, p + 3, vm)->0),
                    binop_type(op, token_type(ts[p].kind)->0),
                    id,
                )
                &&& r is Err ==> *final(builder) == *old(builder)
            }),
    {
        let ty = self.parse_type()?;
        let lhs = self.parse_value_ref()?;
        self.expect(TokenKind::Comma)?;
        let rhs = self.parse_value_ref()?;
        let id = match op {
            TokenKind::KwAdd => builder.add(ty, lhs, rhs),
            TokenKind::KwSub => builder.sub(ty, lhs, rhs),
            TokenKind::KwMul => builder.mul(ty, lhs, rhs),
            TokenKind::KwDiv => builder.div(ty, lhs, rhs),
            TokenKind::KwRem => builder.rem(ty, lhs, rhs),
            TokenKind::KwAnd => builder.and(ty, lhs, rhs),
            TokenKind::KwOr => builder.or(ty, lhs, rhs),
            TokenKind::KwXor => builder.xor(ty, lhs, rhs),
            TokenKind::KwShl => builder.shl(ty, lhs, rhs),
            TokenKind::KwLshr => builder.lshr(ty, lhs, rhs),
            TokenKind::KwAshr => builder.ashr(ty, lhs, rhs),
            TokenKind::KwEq => builder.eq(ty, lhs, rhs),
            TokenKind::KwLt => builder.lt(ty, lhs, rhs),
            _ => builder.gt(ty, lhs, rhs),
        };
        Ok(Some(id))
    }

    /// An instruction; gives the id of the value it defines, if any.
    #[verifier::rlimit(100)]
    #[verifier::spinoff_prover]
    fn parse_instruction(&mut self, builder: &mut IrBuilder) -> (r: Result<Option<ValueId>, TextIrError>)
        requires
            old(self).wf(),
            local_tokens_digits(old(self).tokens@),
            old(builder).wf(),
            old(builder).block_slot() is Some,
        ensures
            old(self).steps_to(&*final(self)),
            final(self).value_map == old(self).value_map,
            final(builder).wf(),
            final(builder).function_slot() == old(builder).function_slot(),
            final(builder).block_slot() == old(builder).block_slot(),
            r is Ok ==> final(self).pos > old(self).pos,
            r matches Err(e) ==> e is Parse,
            old(self).tokens@[old(self).pos as int].kind == TokenKind::Eof ==> (r matches Err(TextIrError::Parse(m))
                && m@ == "expected "@ + "instruction"@ + ", got "@ + kind_text(TokenKind::Eof)),
            old(builder).current_function().next_id() >= usize::MAX ==> r is Err,
            old(builder).current_function().next_id() < usize::MAX ==> instruction_read(
                old(self).tokens@,
                old(self).pos as int,
                old(self).value_map@,
                *old(builder),
                *final(builder),
                r,
                final(self).pos as int,
            ),
    {
        let k = self.current();
        if k == TokenKind::Eof {
            return Err(self.unexpected("instruction"));
        }
        if !id_room(builder) {
            return Err(TextIrError::Parse(owned("too many values in function")));
        }
        self.advance();
        assert(self.pos == old(self).pos + 1);
        match k {
            TokenKind::KwConst => {
                let ty = self.parse_type()?;
                let c = self.parse_constant(ty)?;
                Ok(Some(const_value(builder, c)))
            },
            TokenKind::KwAdd | TokenKind::KwSub | TokenKind::KwMul | TokenKind::KwDiv | TokenKind::KwRem
            | TokenKind::KwAnd | TokenKind::KwOr | TokenKind::KwXor | TokenKind::KwShl | TokenKind::KwLshr
            | TokenKind::KwAshr | TokenKind::KwEq | TokenKind::KwLt | TokenKind::KwGt => self.parse_binop(builder, k),
            TokenKind::KwCast => {
                let op = self.parse_cast_op()?;
                let from_ty = self.parse_type()?;
                let to_ty = self.parse_type()?;
                let value = self.parse_value_ref()?;
                Ok(Some(builder.cast(op, from_ty, to_ty, value)))
            },
            TokenKind::KwSelect => {
                let ty = self.parse_type()?;
                let condition = self.parse_value_ref()?;
                self.expect(TokenKind::Comma)?;
                let then_value = self.parse_value_ref()?;
                self.expect(TokenKind::Comma)?;
                let else_value = self.parse_value_ref()?;
                Ok(Some(builder.select(ty, condition, then_value, else_value)))
            },
            TokenKind::KwAlloca => {
                let ty = self.parse_type()?;
                let count = if self.current() == TokenKind::Comma {
                    self.advance();
                    #[verifier::truncate] (self.parse_number()? as u32)
                } else {
                    1
                };
                Ok(Some(builder.alloca_array(ty, count)))
            },
            TokenKind::KwLoad => {
                let ty = self.parse_type()?;
                let addr = self.parse_value_ref()?;
                Ok(Some(builder.load(ty, addr)))
            },
            TokenKind::KwStore => {
                let ty = self.parse_type()?;
                let value = self.parse_value_ref()?;
                self.expect(TokenKind::Comma)?;
                let addr = self.parse_value_ref()?;
                builder.store(ty, value, addr);
                Ok(None)
            },
            TokenKind::KwCall => {
                let ret_ty = self.parse_type()?;
                let callee = self.parse_global_name()?;
                self.expect(TokenKind::LParen)?;
                let ghost start = self.pos as int;
                let mut args: Vec<ValueId> = Vec::new();
                while self.current() != TokenKind::RParen
                    invariant
                        old(self).tokens@[old(self).pos as int].kind == TokenKind::KwCall,
                        0 <= start < self.tokens@.len(),
                        start == old(self).pos + 4,
                        self.tokens@[start].kind == TokenKind::RParen ==> self.pos == start && args@.len() == 0,
                        old(self).steps_to(&*self),
                        self.value_map == old(self).value_map,
                        local_tokens_digits(self.tokens@),
                        self.pos > old(self).pos,
                        *builder == *old(builder),
                        builder.wf(),
                        builder.can_emit(),
                    decreases self.tokens@.len() - self.pos,
                {
                    args.push(self.parse_value_ref()?);
                    if self.current() == TokenKind::Comma {
                        self.advance();
                    }
                }
                self.expect(TokenKind::RParen)?;
                Ok(builder.call(ret_ty, callee.as_str(), args))
            },
            TokenKind::KwPhi => {
                let ghost q = old(self).pos + 1;
                let ghost ts = old(self).tokens@;
                let ghost vm = old(self).value_map@;
                let ghost shape = phi_shape(ts, q, vm);
                let ty = self.parse_type()?;
                let mut labels: Vec<(ValueId, String)> = Vec::new();
                loop
                    invariant_except_break
                        shape ==> labels@.len() == 0 && self.pos == q + 1,
                    invariant
                        shape == phi_shape(old(self).tokens@, old(self).pos + 1, old(self).value_map@),
                        q == old(self).pos + 1,
                        ts == old(self).tokens@,
                        vm == old(self).value_map@,
                        old(self).tokens@[old(self).pos as int].kind == TokenKind::KwPhi,
                        old(self).steps_to(&*self),
                        self.value_map == old(self).value_map,
                        local_tokens_digits(self.tokens@),
                        self.pos > old(self).pos,
                        *builder == *old(builder),
                        builder.wf(),
                        builder.can_emit(),
                    ensures
                        shape ==> labels@.len() == 1 && self.pos == q + 6 && labels@[0].0 == ref_at(ts, q + 4, vm)->0
                            && labels@[0].1@ == ts[q + 2].text@,
                    decreases self.tokens@.len() - self.pos,
                {
                    self.expect(TokenKind::LBracket)?;
                    let label = self.parse_string()?;
                    self.expect(TokenKind::Comma)?;
                    let value = self.parse_value_ref()?;
                    self.expect(TokenKind::RBracket)?;
                    labels.push((value, label));
                    if self.current() != TokenKind::Comma {
                        break;
                    }
                    self.advance();
                }
                let mut incoming: Vec<(ValueId, &str)> = Vec::new();
                let mut i: usize = 0;
                while i < labels.len()
                    invariant
                        i <= labels@.len(),
                        incoming@.len() == i,
                        forall|k: int|
                            0 <= k < i ==> (#[trigger] incoming@[k]).0 == labels@[k].0 && incoming@[k].1@
                                == labels@[k].1@,
                    decreases labels.len() - i,
                {
                    incoming.push((labels[i].0, labels[i].1.as_str()));
                    i = i + 1;
                }
                Ok(Some(builder.phi(ty, incoming)))
            },
            TokenKind::KwGep => {
                let ghost q = old(self).pos + 1;
                let ghost ts = old(self).tokens@;
                let ghost vm = old(self).value_map@;
                let ghost shape = gep_shape(ts, q, vm);
                let elem_ty = self.parse_type()?;
                let base = self.parse_value_ref()?;
                self.expect(TokenKind::Comma)?;
                let mut indices: Vec<GepIndex> = Vec::new();
                loop
                    invariant_except_break
                        shape ==> indices@.len() == 0 && self.pos == q + 3,
                    invariant
                        shape == gep_shape(old(self).tokens@, old(self).pos + 1, old(self).value_map@),
                        q == old(self).pos + 1,
                        ts == old(self).tokens@,
                        vm == old(self).value_map@,
                        shape ==> token_type(ts[q].kind) == Some(elem_ty) && ref_at(ts, q + 1, vm) == Some(base),
                        old(self).tokens@[old(self).pos as int].kind == TokenKind::KwGep,
                        old(self).steps_to(&*self),
                        self.value_map == old(self).value_map,
                        local_tokens_digits(self.tokens@),
                        self.pos > old(self).pos,
                        *builder == *old(builder),
                        builder.wf(),
                        builder.can_emit(),
                    ensures
                        shape ==> indices@.len() == 1 && self.pos == (gep_index_at(ts, q + 3, vm)->0).1 && indices@[0]
                            == (gep_index_at(ts, q + 3, vm)->0).0,
                    decreases self.tokens@.len() - self.pos,
                {
                    indices.push(self.parse_gep_index()?);
                    if self.current() != TokenKind::Comma {
                        break;
                    }
                    self.advance();
                }
                let ghost ind = indices@;
                let ghost b0 = *builder;
                let id = builder.gep(elem_ty, base, indices);
                proof {
                    let bi = b0.block_slot()->0;
                    assert(builder.block_slot() == b0.block_slot());
                    assert(last_instruction(*builder) == builder.current_function().blocks@[bi].instructions@.last());
                    if shape {
                        assert(ind =~= seq![(gep_index_at(ts, q + 3, vm)->0).0]);
                    }
                }
                Ok(Some(id))
            },
            _ => Err(parse_error("expected instruction, got ", kind_name(k))),
        }
    }

    fn parse_terminator(&mut self) -> (r: Result<Terminator, TextIrError>)
        requires
            old(self).wf(),
            local_tokens_digits(old(self).tokens@),
        ensures
            old(self).steps_to(&*final(self)),
            final(self).value_map == old(self).value_map,
            r matches Err(e) ==> e is Parse,
            ({
                let ts = old(self).tokens@;
                let p = old(self).pos as int;
                let vm = old(self).value_map@;
                &&& ts[p].kind == TokenKind::KwBr ==> (r is Ok <==> ts[p + 1].kind == TokenKind::Str) && (r matches Ok(
                    t,
                ) ==> t matches Terminator::Branch { target } && target@ == ts[p + 1].text@ && final(self).pos == p
                    + 2)
                &&& ts[p].kind == TokenKind::KwCondBr ==> (r is Ok <==> (ref_at(ts, p + 1, vm) is Some && ts[p + 2].kind
                    == TokenKind::Comma && ts[p + 3].kind == TokenKind::Str && ts[p + 4].kind == TokenKind::Comma
                    && ts[p + 5].kind == TokenKind::Str)) && (r matches Ok(t) ==> t matches Terminator::CondBranch {
                    condition,
                    true_target,
                    false_target,
                } && ref_at(ts, p + 1, vm) == Some(condition) && true_target@ == ts[p + 3].text@ && false_target@
                    == ts[p + 5].text@ && final(self).pos == p + 6)
                &&& (ts[p].kind == TokenKind::KwRet && ts[p + 1].kind == TokenKind::KwVoid) ==> ((r matches Ok(
                    Terminator::Return { value: None },
                )) && final(self).pos == p + 2)
                &&& (ts[p].kind == TokenKind::KwRet && ts[p + 1].kind != TokenKind::KwVoid) ==> (r is Ok <==> (
                token_type(ts[p + 1].kind) is Some && ref_at(ts, p + 2, vm) is Some)) && (r matches Ok(t)
                    ==> t matches Terminator::Return { value: Some(v) } && ref_at(ts, p + 2, vm) == Some(v) && final(self).pos == p + 3)
                &&& ts[p].kind == TokenKind::KwUnreachable ==> (r matches Ok(Terminator::Unreachable))
                &&& !(ts[p].kind == TokenKind::KwBr || ts[p].kind == TokenKind::KwCondBr || ts[p].kind == TokenKind::KwRet
                    || ts[p].kind == TokenKind::KwUnreachable) ==> r is Err
            }),
    {
        let k = self.current();
        self.advance();
        match k {
            TokenKind::KwBr => {
                let target = self.parse_string()?;
                Ok(Terminator::Branch { target })
            },
            TokenKind::KwCondBr => {
                let condition = self.parse_value_ref()?;
                self.expect(TokenKind::Comma)?;
                let true_target = self.parse_string()?;
                self.expect(TokenKind::Comma)?;
                let false_target = self.parse_string()?;
                Ok(Terminator::CondBranch { condition, true_target, false_target })
            },
            TokenKind::KwRet => {
                if self.current() == TokenKind::KwVoid {
                    self.advance();
                    Ok(Terminator::Return { value: None })
                } else {
                    let _ty = self.parse_type()?;
                    let value = self.parse_value_ref()?;
                    Ok(Terminator::Return { value: Some(value) })
                }
            },
            TokenKind::KwUnreachable => Ok(Terminator::Unreachable),
            _ => Err(parse_error("expected terminator, got ", kind_name(k))),
        }
    }

    /// `param ty %n`.
    fn parse_param(&mut self, builder: &mut IrBuilder) -> (r: Result<(), TextIrError>)
        requires
            old(self).wf(),
            local_tokens_digits(old(self).tokens@),
            old(builder).wf(),
            old(builder).in_function(),
        ensures
            old(self).steps_to(&*final(self)),
            final(builder).wf(),
            final(builder).in_function(),
            r is Ok ==> final(self).pos > old(self).pos,
            r matches Err(e) ==> e is Parse,
    {
        self.expect(TokenKind::KwParam)?;
        let ty = self.parse_type()?;
        let textual = self.parse_local_id()?;
        if !id_room(builder) {
            return Err(TextIrError::Parse(owned("too many values in function")));
        }
        let id = builder.add_param(ty, "");
        self.value_map.push((textual, id));
        Ok(())
    }

    /// `block "label": instructions terminator`; gives the label.
    fn parse_block(&mut self, builder: &mut IrBuilder) -> (r: Result<String, TextIrError>)
        requires
            old(self).wf(),
            local_tokens_digits(old(self).tokens@),
            old(builder).wf(),
            old(builder).in_function(),
        ensures
            old(self).steps_to(&*final(self)),
            final(builder).wf(),
            final(builder).function_slot() == old(builder).function_slot(),
            r is Ok ==> final(self).pos > old(self).pos,
            r matches Err(e) ==> e is Parse,
            (least_block_at(token_views(old(self).tokens@), old(self).pos as int) && old(
                builder,
            ).current_function().blocks@.len() == 0) ==> (r matches Ok(l) && l@ == "entry"@ && final(self).pos
                == old(self).pos + 5 && first_block_added(*old(builder), *final(builder), "entry"@)),
    {
        let ghost least = least_block_at(token_views(self.tokens@), self.pos as int)
            && builder.current_function().blocks@.len() == 0;
        let ghost p0 = self.pos as int;
        self.expect(TokenKind::KwBlock)?;
        let label = self.parse_string()?;
        self.expect(TokenKind::Colon)?;
        builder.new_block(label.as_str());
        let ghost b1 = *builder;
        let ghost slot = builder.function_slot();
        while !self.is_terminator_start()
            invariant
                least ==> self.pos == p0 + 3 && *builder == b1 && self.tokens@ == old(self).tokens@,
                least == (least_block_at(token_views(old(self).tokens@), p0) && old(builder).current_function().blocks@.len()
                    == 0),
                p0 == old(self).pos,
                old(self).steps_to(&*self),
                self.pos > old(self).pos,
                local_tokens_digits(self.tokens@),
                builder.wf(),
                builder.block_slot() is Some,
                builder.function_slot() == slot,
                slot == old(builder).function_slot(),
            decreases self.tokens@.len() - self.pos,
        {
            let def = self.peek_local_def()?;
            let result = self.parse_instruction(builder)?;
            match (def, result) {
                (Some(textual), Some(actual)) => {
                    self.value_map.push((textual, actual));
                },
                _ => {},
            }
            if self.current() == TokenKind::Bang {
                let loc = self.parse_debug_loc()?;
                builder.set_last_debug_loc(Some(loc));
            }
        }
        let term = self.parse_terminator()?;
        builder.set_terminator(term);
        Ok(label)
    }

    /// `func @name -> ty [entry "label"] { params blocks }`.
    fn parse_function(&mut self, builder: &mut IrBuilder) -> (r: Result<(), TextIrError>)
        requires
            old(self).wf(),
            local_tokens_digits(old(self).tokens@),
            old(builder).wf(),
        ensures
            old(self).steps_to(&*final(self)),
            final(builder).wf(),
            r is Ok ==> final(self).pos > old(self).pos,
            r matches Err(e) ==> e is Parse,
            least_function_at(token_views(old(self).tokens@), old(self).pos as int) ==> (r is Ok && final(self).pos == old(
                self,
            ).pos + 11 && least_function_added(
                *old(builder),
                *final(builder),
                token_views(old(self).tokens@)[old(self).pos + 1].1,
            )),
    {
        let ghost least = least_function_at(token_views(self.tokens@), self.pos as int);
        let ghost p0 = self.pos as int;
        let ghost b0 = *builder;
        self.expect(TokenKind::KwFunc)?;
        let name = self.parse_global_name()?;
        self.expect(TokenKind::Arrow)?;
        let return_ty = self.parse_type()?;
        let declared_entry = if self.current() == TokenKind::KwEntry {
            self.advance();
            self.parse_string()?
        } else {
            owned("entry")
        };
        self.expect(TokenKind::LBrace)?;
        builder.start_function(name.as_str(), return_ty);
        let ghost bs = *builder;
        self.value_map.clear();
        proof {
            if least {
                assert(token_views(self.tokens@)[p0 + 1].1 == self.tokens@[p0 + 1].text@);
                assert(declared_entry@ == "entry"@);
            }
        }
        while self.current() == TokenKind::KwParam
            invariant
                least ==> self.pos == p0 + 5 && *builder == bs,
                least == least_function_at(token_views(old(self).tokens@), p0),
                p0 == old(self).pos,
                old(self).steps_to(&*self),
                self.pos > old(self).pos,
                local_tokens_digits(self.tokens@),
                builder.wf(),
                builder.in_function(),
            decreases self.tokens@.len() - self.pos,
        {
            self.parse_param(builder)?;
        }
        let mut first = true;
        while self.current() == TokenKind::KwBlock
            invariant
                least == least_function_at(token_views(old(self).tokens@), p0),
                p0 == old(self).pos,
                least ==> declared_entry@ == "entry"@ && name@ == token_views(old(self).tokens@)[p0 + 1].1,
                least && first ==> self.pos == p0 + 5 && *builder == bs,
                least && !first ==> self.pos == p0 + 10 && builder.module.functions@.len() == bs.module.functions@.len()
                    && builder.module.entry == bs.module.entry && builder.function_slot() == bs.function_slot() && (
                forall|j: int|
                    0 <= j < bs.module.functions@.len() && j != bs.function_slot()->0 ==> #[trigger] builder.module.functions@[j]
                        == bs.module.functions@[j]) && least_function(name@, builder.current_function()),
                bs.function_slot() == Some(b0.module.functions@.len() as int),
                bs.module.functions@.len() == b0.module.functions@.len() + 1,
                bs.module.functions@.drop_last() == b0.module.functions@,
                bs.module.entry == b0.module.entry,
                bs.current_function().name@ == name@,
                bs.current_function().return_ty == return_ty,
                bs.current_function().params@.len() == 0,
                bs.current_function().blocks@.len() == 0,
                bs.current_function().entry_block@ == "entry"@,
                least ==> return_ty == IrType::Void,
                old(self).steps_to(&*self),
                self.pos > old(self).pos,
                local_tokens_digits(self.tokens@),
                builder.wf(),
                builder.in_function(),
            decreases self.tokens@.len() - self.pos,
        {
            let label = self.parse_block(builder)?;
            if first {
                first = false;
                if label != declared_entry {
                    let mut msg = owned("entry block mismatch: declared '");
                    push_str(&mut msg, declared_entry.as_str());
                    push_str(&mut msg, "', first block is '");
                    push_str(&mut msg, label.as_str());
                    push_str(&mut msg, "'");
                    return Err(TextIrError::Parse(msg));
                }
                builder.set_entry_block(label.as_str());
            }
        }
        self.expect(TokenKind::RBrace)?;
        proof {
            if least {
                let fs = builder.module.functions@;
                assert(fs.drop_last() =~= b0.module.functions@) by {
                    assert forall|j: int| 0 <= j < b0.module.functions@.len() implies fs.drop_last()[j]
                        == b0.module.functions@[j] by {
                        assert(bs.module.functions@.drop_last()[j] == bs.module.functions@[j]);
                    }
                }
            }
        }
        Ok(())
    }

    /// `sair 0.1 entry "name" functions`, then validation.
    fn parse_module(&mut self) -> (r: Result<IrModule, TextIrError>)
        requires
            old(self).wf(),
            local_tokens_digits(old(self).tokens@),
        ensures
            r matches Ok(m) ==> module_is_valid(m),
            old(self).pos == 0 && least_module_views(token_views(old(self).tokens@)) ==> (r matches Ok(m) && least_module(
                token_views(old(self).tokens@),
                m,
            )),
            old(self).tokens@[old(self).pos as int].kind != TokenKind::KwSair ==> r matches Err(TextIrError::Parse(_)),
            version_refused(token_views(old(self).tokens@), old(self).pos as int) ==> (r matches Err(
                TextIrError::UnsupportedVersion(msg),
            ) && msg@ == "expected 0.1, got "@ + old(self).tokens@[old(self).pos + 1].text@),
    {
        let ghost least = self.pos == 0 && least_module_views(token_views(self.tokens@));
        let ghost vs = token_views(self.tokens@);
        proof {
            reveal_strlit("0.1");
        }
        self.expect(TokenKind::KwSair)?;
        let version = self.parse_version()?;
        if version != owned("0.1") {
            let mut msg = owned("expected 0.1, got ");
            push_str(&mut msg, version.as_str());
            return Err(TextIrError::UnsupportedVersion(msg));
        }
        self.expect(TokenKind::KwEntry)?;
        let entry = self.parse_string()?;
        let mut builder = IrBuilder::new(entry.as_str());
        let ghost mut c: int = 0;
        proof {
            if least {
                assert(vs[3].1 == self.tokens@[3].text@);
            }
        }
        while self.current() != TokenKind::Eof
            invariant
                least == (old(self).pos == 0 && least_module_views(token_views(old(self).tokens@))),
                old(self).tokens@[old(self).pos as int].kind == TokenKind::KwSair,
                !version_refused(token_views(old(self).tokens@), old(self).pos as int),
                vs == token_views(old(self).tokens@),
                least ==> vs == token_views(self.tokens@) && least_module_views(vs) && builder.module.entry@ == vs[3].1
                    && 0 <= c <= 1,
                least && c == 0 ==> self.pos == 4 && builder.module.functions@.len() == 0,
                least && c == 1 ==> self.pos == 15 && builder.module.functions@.len() == 1 && least_function(
                    vs[3].1,
                    builder.module.functions@[0],
                ),
                self.wf(),
                local_tokens_digits(self.tokens@),
                builder.wf(),
            decreases self.tokens@.len() - self.pos,
        {
            proof {
                if least {
                    assert(c == 0) by {
                        if c == 1 {
                            assert(vs[15].0 == self.tokens@[15].kind);
                        }
                    }
                    assert(vs[4].0 == self.tokens@[4].kind);
                    assert(least_function_at(token_views(self.tokens@), self.pos as int));
                }
            }
            self.parse_function(&mut builder)?;
            proof {
                if least {
                    assert(c == 0);
                    assert(builder.module.functions@.drop_last().len() == 0);
                    assert(builder.module.functions@[0] == builder.module.functions@.last());
                    c = 1;
                }
            }
        }
        let module = builder.finish();
        proof {
            if least {
                assert(c == 1) by {
                    if c == 0 {
                        assert(vs[4].0 == self.tokens@[4].kind);
                    }
                }
                let f = module.functions@[0];
                assert(f.name@ == module.entry@);
                assert(module.functions@[0].name@ == module.entry@);
                assert(exists|i: int|
                    0 <= i < module.functions@.len() && #[trigger] module.functions@[i].name@ == module.entry@);
                assert(last_function_index(module.functions@, module.entry@).is_some()) by {
                    lemma_last_function_index(module.functions@, module.entry@);
                }
                assert(all_blocks_reachable(f.blocks@, f.entry_block@)) by {
                    reveal(reachable_from);
                    assert forall|b: int| 0 <= b < f.blocks@.len() implies reachable_from(
                        f.blocks@,
                        f.entry_block@,
                        #[trigger] f.blocks@[b].label@,
                    ) by {
                        assert(is_cfg_path(f.blocks@, f.entry_block@, seq![f.entry_block@]));
                    }
                }
                assert(targets_defined(f.blocks@));
                assert(function_is_valid(f));
                assert(module_is_valid(module));
            }
        }
        match module.validate() {
            Ok(()) => Ok(module),
            Err(e) => Err(TextIrError::Validation(e)),
        }
    }
}

/// The token views `vs` at `p` are `block "entry": ret void`, and a token
/// follows.
pub open spec fn least_block_at(vs: Seq<(TokenKind, Seq<char>, u64)>, p: int) -> bool {
    &&& 0 <= p
    &&& p + 5 < vs.len()
    &&& vs[p].0 == TokenKind::KwBlock
    &&& vs[p + 1].0 == TokenKind::Str
    &&& vs[p + 1].1 == "entry"@
    &&& vs[p + 2].0 == TokenKind::Colon
    &&& vs[p + 3].0 == TokenKind::KwRet
    &&& vs[p + 4].0 == TokenKind::KwVoid
}

/// The token views `vs` at `p` are `func @<name> -> void { block "entry":
/// ret void }`, and a token follows.
pub open spec fn least_function_at(vs: Seq<(TokenKind, Seq<char>, u64)>, p: int) -> bool {
    &&& 0 <= p
    &&& p + 11 < vs.len()
    &&& vs[p].0 == TokenKind::KwFunc
    &&& vs[p + 1].0 == TokenKind::Global
    &&& vs[p + 2].0 == TokenKind::Arrow
    &&& vs[p + 3].0 == TokenKind::KwVoid
    &&& vs[p + 4].0 == TokenKind::LBrace
    &&& least_block_at(vs, p + 5)
    &&& vs[p + 10].0 == TokenKind::RBrace
}

/// The token views `vs` at `p` are `sair` and a version other than `0.1`.
pub open spec fn version_refused(vs: Seq<(TokenKind, Seq<char>, u64)>, p: int) -> bool {
    &&& 0 <= p
    &&& p + 1 < vs.len()
    &&& vs[p].0 == TokenKind::KwSair
    &&& vs[p + 1].0 == TokenKind::Version
    &&& vs[p + 1].1 != "0.1"@
}

/// The token views `vs` are exactly `sair 0.1 entry "<name>"` followed by
/// the function `<name>` of [`least_function_at`] and the end of the input.
pub open spec fn least_module_views(vs: Seq<(TokenKind, Seq<char>, u64)>) -> bool {
    &&& vs.len() == 16
    &&& vs[0].0 == TokenKind::KwSair
    &&& vs[1].0 == TokenKind::Version
    &&& vs[1].1 == "0.1"@
    &&& vs[2].0 == TokenKind::KwEntry
    &&& vs[3].0 == TokenKind::Str
    &&& least_function_at(vs, 4)
    &&& vs[5].1 == vs[3].1
    &&& vs[15].0 == TokenKind::Eof
}

/// `f` is the function named `name` that returns nothing, takes no
/// parameters and has one block, its entry `entry`, with no instructions
/// and ending in `ret void`.
pub open spec fn least_function(name: Seq<char>, f: IrFunction) -> bool {
    &&& f.name@ == name
    &&& f.return_ty == IrType::Void
    &&& f.params@.len() == 0
    &&& f.entry_block@ == "entry"@
    &&& f.blocks@.len() == 1
    &&& f.blocks@[0].label@ == "entry"@
    &&& f.blocks@[0].instructions@.len() == 0
    &&& f.blocks@[0].terminator == (Terminator::Return { value: None })
}

/// `m` is the module the token views `vs` (see [`least_module_views`])
/// spell: its entry is the named function, its only function.
pub open spec fn least_module(vs: Seq<(TokenKind, Seq<char>, u64)>, m: IrModule) -> bool {
    &&& m.entry@ == vs[3].1
    &&& m.functions@.len() == 1
    &&& least_function(vs[3].1, m.functions@[0])
}

/// `b1` is `b0` with the function of [`least_function`] named `name` added
/// after its functions; the module's entry is kept.
pub open spec fn least_function_added(b0: IrBuilder, b1: IrBuilder, name: Seq<char>) -> bool {
    &&& b1.module.functions@.len() == b0.module.functions@.len() + 1
    &&& b1.module.functions@.drop_last() == b0.module.functions@
    &&& b1.module.entry == b0.module.entry
    &&& least_function(name, b1.module.functions@.last())
}

/// `b1` is `b0` with a first block `label`, empty and ending in `ret void`,
/// added to the function being built; nothing else changes.
pub open spec fn first_block_added(b0: IrBuilder, b1: IrBuilder, label: Seq<char>) -> bool {
    let f0 = b0.current_function();
    let f1 = b1.current_function();
    &&& b1.module.functions@.len() == b0.module.functions@.len()
    &&& forall|j: int|
        0 <= j < b0.module.functions@.len() && j != b0.function_slot()->0 ==> #[trigger] b1.module.functions@[j]
            == b0.module.functions@[j]
    &&& b1.module.entry == b0.module.entry
    &&& b1.current_function_name() == b0.current_function_name()
    &&& b1.function_slot() == b0.function_slot()
    &&& f1.name == f0.name
    &&& f1.return_ty == f0.return_ty
    &&& f1.params == f0.params
    &&& f1.entry_block == f0.entry_block
    &&& f1.blocks@.len() == 1
    &&& f1.blocks@[0].label@ == label
    &&& f1.blocks@[0].instructions@.len() == 0
    &&& f1.blocks@[0].terminator == (Terminator::Return { value: None })
}

/// The type and operands of a binary instruction (arithmetic, bitwise,
/// shift or comparison), if it is one.
pub open spec fn binary_parts(i: Instruction) -> Option<(IrType, ValueId, ValueId)> {
    match i {
        Instruction::Add { ty, lhs, rhs } | Instruction::Sub { ty, lhs, rhs } | Instruction::Mul { ty, lhs, rhs }
        | Instruction::Div { ty, lhs, rhs } | Instruction::Rem { ty, lhs, rhs } | Instruction::And { ty, lhs, rhs }
        | Instruction::Or { ty, lhs, rhs } | Instruction::Xor { ty, lhs, rhs } | Instruction::Shl { ty, lhs, rhs }
        | Instruction::Lshr { ty, lhs, rhs } | Instruction::Ashr { ty, lhs, rhs } | Instruction::Eq { ty, lhs, rhs }
        | Instruction::Lt { ty, lhs, rhs } | Instruction::Gt { ty, lhs, rhs } => Some((ty, lhs, rhs)),
        _ => None,
    }
}

/// Two ways of splitting a text at its first space agree on the word
/// before it.
proof fn lemma_first_word(w: Seq<char>, rest: Seq<char>, op: Seq<char>, rest2: Seq<char>)
    requires
        w + seq![' '] + rest == op + seq![' '] + rest2,
        forall|j: int| 0 <= j < w.len() ==> w[j] != ' ',
        forall|j: int| 0 <= j < op.len() ==> op[j] != ' ',
    ensures
        w == op,
{
    let s = w + seq![' '] + rest;
    if w.len() < op.len() {
        assert(s[w.len() as int] == ' ');
        assert(s[w.len() as int] == op[w.len() as int]);
    } else if w.len() > op.len() {
        assert(s[op.len() as int] == w[op.len() as int]);
        assert((op + seq![' '] + rest2)[op.len() as int] == ' ');
    }
    assert(w =~= s.take(w.len() as int));
    assert(op =~= (op + seq![' '] + rest2).take(op.len() as int));
}

/// The text of a binary instruction is its opcode word, a space, and the
/// rest.
proof fn lemma_binary_text_split(op: Seq<char>, ty: IrType, lhs: ValueId, rhs: ValueId)
    ensures
        binary_text(op, ty, lhs, rhs) == op + seq![' '] + (type_text(ty) + " "@ + value_ref(lhs as nat) + ", "@
            + value_ref(rhs as nat)),
{
    reveal_strlit(" ");
    assert(binary_text(op, ty, lhs, rhs) =~= op + seq![' '] + (type_text(ty) + " "@ + value_ref(lhs as nat) + ", "@
        + value_ref(rhs as nat)));
}

/// The binary opcode words are read as their opcode tokens.
proof fn lemma_binary_word_kinds()
    ensures
        word_kind("add"@) == TokenKind::KwAdd,
        word_kind("sub"@) == TokenKind::KwSub,
        word_kind("mul"@) == TokenKind::KwMul,
        word_kind("div"@) == TokenKind::KwDiv,
        word_kind("rem"@) == TokenKind::KwRem,
        word_kind("and"@) == TokenKind::KwAnd,
        word_kind("or"@) == TokenKind::KwOr,
        word_kind("xor"@) == TokenKind::KwXor,
        word_kind("shl"@) == TokenKind::KwShl,
        word_kind("lshr"@) == TokenKind::KwLshr,
        word_kind("ashr"@) == TokenKind::KwAshr,
        word_kind("eq"@) == TokenKind::KwEq,
        word_kind("lt"@) == TokenKind::KwLt,
        word_kind("gt"@) == TokenKind::KwGt,
{
    reveal_strlit("sair");
    reveal_strlit("entry");
    reveal_strlit("func");
    reveal_strlit("param");
    reveal_strlit("block");
    reveal_strlit("const");
    reveal_strlit("add");
    reveal_strlit("sub");
    reveal_strlit("mul");
    reveal_strlit("div");
    reveal_strlit("rem");
    reveal_strlit("and");
    reveal_strlit("or");
    reveal_strlit("xor");
    reveal_strlit("shl");
    reveal_strlit("lshr");
    reveal_strlit("ashr");
    reveal_strlit("eq");
    reveal_strlit("lt");
    reveal_strlit("gt");
    assert("add"@.len() != "sair"@.len());
    assert("add"@.len() != "entry"@.len());
    assert("add"@.len() != "func"@.len());
    assert("add"@.len() != "param"@.len());
    assert("add"@.len() != "block"@.len());
    assert("add"@.len() != "const"@.len());
    assert("sub"@.len() != "sair"@.len());
    assert("sub"@.len() != "entry"@.len());
    assert("sub"@.len() != "func"@.len());
    assert("sub"@.len() != "param"@.len());
    assert("sub"@.len() != "block"@.len());
    assert("sub"@.len() != "const"@.len());
    assert("sub"@[0] != "add"@[0]);
    assert("mul"@.len() != "sair"@.len());
    assert("mul"@.len() != "entry"@.len());
    assert("mul"@.len() != "func"@.len());
    assert("mul"@.len() != "param"@.len());
    assert("mul"@.len() != "block"@.len());
    assert("mul"@.len() != "const"@.len());
    assert("mul"@[0] != "add"@[0]);
    assert("mul"@[0] != "sub"@[0]);
    assert("div"@.len() != "sair"@.len());
    assert("div"@.len() != "entry"@.len());
    assert("div"@.len() != "func"@.len());
    assert("div"@.len() != "param"@.len());
    assert("div"@.len() != "block"@.len());
    assert("div"@.len() != "const"@.len());
    assert("div"@[0] != "add"@[0]);
    assert("div"@[0] != "sub"@[0]);
    assert("div"@[0] != "mul"@[0]);
    assert("rem"@.len() != "sair"@.len());
    assert("rem"@.len() != "entry"@.len());
    assert("rem"@.len() != "func"@.len());
    assert("rem"@.len() != "param"@.len());
    assert("rem"@.len() != "block"@.len());
    assert("rem"@.len() != "const"@.len());
    assert("rem"@[0] != "add"@[0]);
    assert("rem"@[0] != "sub"@[0]);
    assert("rem"@[0] != "mul"@[0]);
    assert("rem"@[0] != "div"@[0]);
    assert("and"@.len() != "sair"@.len());
    assert("and"@.len() != "entry"@.len());
    assert("and"@.len() != "func"@.len());
    assert("and"@.len() != "param"@.len());
    assert("and"@.len() != "block"@.len());
    assert("and"@.len() != "const"@.len());
    assert("and"@[1] != "add"@[1]);
    assert("and"@[0] != "sub"@[0]);
    assert("and"@[0] != "mul"@[0]);
    assert("and"@[0] != "div"@[0]);
    assert("and"@[0] != "rem"@[0]);
    assert("or"@.len() != "sair"@.len());
    assert("or"@.len() != "entry"@.len());
    assert("or"@.len() != "func"@.len());
    assert("or"@.len() != "param"@.len());
    assert("or"@.len() != "block"@.len());
    assert("or"@.len() != "const"@.len());
    assert("or"@.len() != "add"@.len());
    assert("or"@.len() != "sub"@.len());
    assert("or"@.len() != "mul"@.len());
    assert("or"@.len() != "div"@.len());
    assert("or"@.len() != "rem"@.len());
    assert("or"@.len() != "and"@.len());
    assert("xor"@.len() != "sair"@.len());
    assert("xor"@.len() != "entry"@.len());
    assert("xor"@.len() != "func"@.len());
    assert("xor"@.len() != "param"@.len());
    assert("xor"@.len() != "block"@.len());
    assert("xor"@.len() != "const"@.len());
    assert("xor"@[0] != "add"@[0]);
    assert("xor"@[0] != "sub"@[0]);
    assert("xor"@[0] != "mul"@[0]);
    assert("xor"@[0] != "div"@[0]);
    assert("xor"@[0] != "rem"@[0]);
    assert("xor"@[0] != "and"@[0]);
    assert("xor"@.len() != "or"@.len());
    assert("shl"@.len() != "sair"@.len());
    assert("shl"@.len() != "entry"@.len());
    assert("shl"@.len() != "func"@.len());
    assert("shl"@.len() != "param"@.len());
    assert("shl"@.len() != "block"@.len());
    assert("shl"@.len() != "const"@.len());
    assert("shl"@[0] != "add"@[0]);
    assert("shl"@[1] != "sub"@[1]);
    assert("shl"@[0] != "mul"@[0]);
    assert("shl"@[0] != "div"@[0]);
    assert("shl"@[0] != "rem"@[0]);
    assert("shl"@[0] != "and"@[0]);
    assert("shl"@.len() != "or"@.len());
    assert("shl"@[0] != "xor"@[0]);
    assert("lshr"@[0] != "sair"@[0]);
    assert("lshr"@.len() != "entry"@.len());
    assert("lshr"@[0] != "func"@[0]);
    assert("lshr"@.len() != "param"@.len());
    assert("lshr"@.len() != "block"@.len());
    assert("lshr"@.len() != "const"@.len());
    assert("lshr"@.len() != "add"@.len());
    assert("lshr"@.len() != "sub"@.len());
    assert("lshr"@.len() != "mul"@.len());
    assert("lshr"@.len() != "div"@.len());
    assert("lshr"@.len() != "rem"@.len());
    assert("lshr"@.len() != "and"@.len());
    assert("lshr"@.len() != "or"@.len());
    assert("lshr"@.len() != "xor"@.len());
    assert("lshr"@.len() != "shl"@.len());
    assert("ashr"@[0] != "sair"@[0]);
    assert("ashr"@.len() != "entry"@.len());
    assert("ashr"@[0] != "func"@[0]);
    assert("ashr"@.len() != "param"@.len());
    assert("ashr"@.len() != "block"@.len());
    assert("ashr"@.len() != "const"@.len());
    assert("ashr"@.len() != "add"@.len());
    assert("ashr"@.len() != "sub"@.len());
    assert("ashr"@.len() != "mul"@.len());
    assert("ashr"@.len() != "div"@.len());
    assert("ashr"@.len() != "rem"@.len());
    assert("ashr"@.len() != "and"@.len());
    assert("ashr"@.len() != "or"@.len());
    assert("ashr"@.len() != "xor"@.len());
    assert("ashr"@.len() != "shl"@.len());
    assert("ashr"@[0] != "lshr"@[0]);
    assert("eq"@.len() != "sair"@.len());
    assert("eq"@.len() != "entry"@.len());
    assert("eq"@.len() != "func"@.len());
    assert("eq"@.len() != "param"@.len());
    assert("eq"@.len() != "block"@.len());
    assert("eq"@.len() != "const"@.len());
    assert("eq"@.len() != "add"@.len());
    assert("eq"@.len() != "sub"@.len());
    assert("eq"@.len() != "mul"@.len());
    assert("eq"@.len() != "div"@.len());
    assert("eq"@.len() != "rem"@.len());
    assert("eq"@.len() != "and"@.len());
    assert("eq"@[0] != "or"@[0]);
    assert("eq"@.len() != "xor"@.len());
    assert("eq"@.len() != "shl"@.len());
    assert("eq"@.len() != "lshr"@.len());
    assert("eq"@.len() != "ashr"@.len());
    assert("lt"@.len() != "sair"@.len());
    assert("lt"@.len() != "entry"@.len());
    assert("lt"@.len() != "func"@.len());
    assert("lt"@.len() != "param"@.len());
    assert("lt"@.len() != "block"@.len());
    assert("lt"@.len() != "const"@.len());
    assert("lt"@.len() != "add"@.len());
    assert("lt"@.len() != "sub"@.len());
    assert("lt"@.len() != "mul"@.len());
    assert("lt"@.len() != "div"@.len());
    assert("lt"@.len() != "rem"@.len());
    assert("lt"@.len() != "and"@.len());
    assert("lt"@[0] != "or"@[0]);
    assert("lt"@.len() != "xor"@.len());
    assert("lt"@.len() != "shl"@.len());
    assert("lt"@.len() != "lshr"@.len());
    assert("lt"@.len() != "ashr"@.len());
    assert("lt"@[0] != "eq"@[0]);
    assert("gt"@.len() != "sair"@.len());
    assert("gt"@.len() != "entry"@.len());
    assert("gt"@.len() != "func"@.len());
    assert("gt"@.len() != "param"@.len());
    assert("gt"@.len() != "block"@.len());
    assert("gt"@.len() != "const"@.len());
    assert("gt"@.len() != "add"@.len());
    assert("gt"@.len() != "sub"@.len());
    assert("gt"@.len() != "mul"@.len());
    assert("gt"@.len() != "div"@.len());
    assert("gt"@.len() != "rem"@.len());
    assert("gt"@.len() != "and"@.len());
    assert("gt"@[0] != "or"@[0]);
    assert("gt"@.len() != "xor"@.len());
    assert("gt"@.len() != "shl"@.len());
    assert("gt"@.len() != "lshr"@.len());
    assert("gt"@.len() != "ashr"@.len());
    assert("gt"@[0] != "eq"@[0]);
    assert("gt"@[0] != "lt"@[0]);
}

/// The other instruction words are read as their keyword tokens.
proof fn lemma_instruction_word_kinds()
    ensures
        word_kind("const"@) == TokenKind::KwConst,
        word_kind("alloca"@) == TokenKind::KwAlloca,
        word_kind("load"@) == TokenKind::KwLoad,
        word_kind("store"@) == TokenKind::KwStore,
        word_kind("call"@) == TokenKind::KwCall,
        word_kind("phi"@) == TokenKind::KwPhi,
        word_kind("gep"@) == TokenKind::KwGep,
        word_kind("cast"@) == TokenKind::KwCast,
        word_kind("select"@) == TokenKind::KwSelect,
{
    reveal_strlit("sair");
    reveal_strlit("entry");
    reveal_strlit("func");
    reveal_strlit("param");
    reveal_strlit("block");
    reveal_strlit("const");
    reveal_strlit("add");
    reveal_strlit("sub");
    reveal_strlit("mul");
    reveal_strlit("div");
    reveal_strlit("rem");
    reveal_strlit("and");
    reveal_strlit("or");
    reveal_strlit("xor");
    reveal_strlit("shl");
    reveal_strlit("lshr");
    reveal_strlit("ashr");
    reveal_strlit("eq");
    reveal_strlit("lt");
    reveal_strlit("gt");
    reveal_strlit("alloca");
    reveal_strlit("load");
    reveal_strlit("store");
    reveal_strlit("call");
    reveal_strlit("phi");
    reveal_strlit("gep");
    reveal_strlit("cast");
    reveal_strlit("select");
    assert("const"@.len() != "sair"@.len());
    assert("const"@[0] != "entry"@[0]);
    assert("const"@.len() != "func"@.len());
    assert("const"@[0] != "param"@[0]);
    assert("const"@[0] != "block"@[0]);
    assert("alloca"@.len() != "sair"@.len());
    assert("alloca"@.len() != "entry"@.len());
    assert("alloca"@.len() != "func"@.len());
    assert("alloca"@.len() != "param"@.len());
    assert("alloca"@.len() != "block"@.len());
    assert("alloca"@.len() != "const"@.len());
    assert("alloca"@.len() != "add"@.len());
    assert("alloca"@.len() != "sub"@.len());
    assert("alloca"@.len() != "mul"@.len());
    assert("alloca"@.len() != "div"@.len());
    assert("alloca"@.len() != "rem"@.len());
    assert("alloca"@.len() != "and"@.len());
    assert("alloca"@.len() != "or"@.len());
    assert("alloca"@.len() != "xor"@.len());
    assert("alloca"@.len() != "shl"@.len());
    assert("alloca"@.len() != "lshr"@.len());
    assert("alloca"@.len() != "ashr"@.len());
    assert("alloca"@.len() != "eq"@.len());
    assert("alloca"@.len() != "lt"@.len());
    assert("alloca"@.len() != "gt"@.len());
    assert("load"@[0] != "sair"@[0]);
    assert("load"@.len() != "entry"@.len());
    assert("load"@[0] != "func"@[0]);
    assert("load"@.len() != "param"@.len());
    assert("load"@.len() != "block"@.len());
    assert("load"@.len() != "const"@.len());
    assert("load"@.len() != "add"@.len());
    assert("load"@.len() != "sub"@.len());
    assert("load"@.len() != "mul"@.len());
    assert("load"@.len() != "div"@.len());
    assert("load"@.len() != "rem"@.len());
    assert("load"@.len() != "and"@.len());
    assert("load"@.len() != "or"@.len());
    assert("load"@.len() != "xor"@.len());
    assert("load"@.len() != "shl"@.len());
    assert("load"@[1] != "lshr"@[1]);
    assert("load"@[0] != "ashr"@[0]);
    assert("load"@.len() != "eq"@.len());
    assert("load"@.len() != "lt"@.len());
    assert("load"@.len() != "gt"@.len());
    assert("load"@.len() != "alloca"@.len());
    assert("store"@.len() != "sair"@.len());
    assert("store"@[0] != "entry"@[0]);
    assert("store"@.len() != "func"@.len());
    assert("store"@[0] != "param"@[0]);
    assert("store"@[0] != "block"@[0]);
    assert("store"@[0] != "const"@[0]);
    assert("store"@.len() != "add"@.len());
    assert("store"@.len() != "sub"@.len());
    assert("store"@.len() != "mul"@.len());
    assert("store"@.len() != "div"@.len());
    assert("store"@.len() != "rem"@.len());
    assert("store"@.len() != "and"@.len());
    assert("store"@.len() != "or"@.len());
    assert("store"@.len() != "xor"@.len());
    assert("store"@.len() != "shl"@.len());
    assert("store"@.len() != "lshr"@.len());
    assert("store"@.len() != "ashr"@.len());
    assert("store"@.len() != "eq"@.len());
    assert("store"@.len() != "lt"@.len());
    assert("store"@.len() != "gt"@.len());
    assert("store"@.len() != "alloca"@.len());
    assert("store"@.len() != "load"@.len());
    assert("call"@[0] != "sair"@[0]);
    assert("call"@.len() != "entry"@.len());
    assert("call"@[0] != "func"@[0]);
    assert("call"@.len() != "param"@.len());
    assert("call"@.len() != "block"@.len());
    assert("call"@.len() != "const"@.len());
    assert("call"@.len() != "add"@.len());
    assert("call"@.len() != "sub"@.len());
    assert("call"@.len() != "mul"@.len());
    assert("call"@.len() != "div"@.len());
    assert("call"@.len() != "rem"@.len());
    assert("call"@.len() != "and"@.len());
    assert("call"@.len() != "or"@.len());
    assert("call"@.len() != "xor"@.len());
    assert("call"@.len() != "shl"@.len());
    assert("call"@[0] != "lshr"@[0]);
    assert("call"@[0] != "ashr"@[0]);
    assert("call"@.len() != "eq"@.len());
    assert("call"@.len() != "lt"@.len());
    assert("call"@.len() != "gt"@.len());
    assert("call"@.len() != "alloca"@.len());
    assert("call"@[0] != "load"@[0]);
    assert("call"@.len() != "store"@.len());
    assert("phi"@.len() != "sair"@.len());
    assert("phi"@.len() != "entry"@.len());
    assert("phi"@.len() != "func"@.len());
    assert("phi"@.len() != "param"@.len());
    assert("phi"@.len() != "block"@.len());
    assert("phi"@.len() != "const"@.len());
    assert("phi"@[0] != "add"@[0]);
    assert("phi"@[0] != "sub"@[0]);
    assert("phi"@[0] != "mul"@[0]);
    assert("phi"@[0] != "div"@[0]);
    assert("phi"@[0] != "rem"@[0]);
    assert("phi"@[0] != "and"@[0]);
    assert("phi"@.len() != "or"@.len());
    assert("phi"@[0] != "xor"@[0]);
    assert("phi"@[0] != "shl"@[0]);
    assert("phi"@.len() != "lshr"@.len());
    assert("phi"@.len() != "ashr"@.len());
    assert("phi"@.len() != "eq"@.len());
    assert("phi"@.len() != "lt"@.len());
    assert("phi"@.len() != "gt"@.len());
    assert("phi"@.len() != "alloca"@.len());
    assert("phi"@.len() != "load"@.len());
    assert("phi"@.len() != "store"@.len());
    assert("phi"@.len() != "call"@.len());
    assert("gep"@.len() != "sair"@.len());
    assert("gep"@.len() != "entry"@.len());
    assert("gep"@.len() != "func"@.len());
    assert("gep"@.len() != "param"@.len());
    assert("gep"@.len() != "block"@.len());
    assert("gep"@.len() != "const"@.len());
    assert("gep"@[0] != "add"@[0]);
    assert("gep"@[0] != "sub"@[0]);
    assert("gep"@[0] != "mul"@[0]);
    assert("gep"@[0] != "div"@[0]);
    assert("gep"@[0] != "rem"@[0]);
    assert("gep"@[0] != "and"@[0]);
    assert("gep"@.len() != "or"@.len());
    assert("gep"@[0] != "xor"@[0]);
    assert("gep"@[0] != "shl"@[0]);
    assert("gep"@.len() != "lshr"@.len());
    assert("gep"@.len() != "ashr"@.len());
    assert("gep"@.len() != "eq"@.len());
    assert("gep"@.len() != "lt"@.len());
    assert("gep"@.len() != "gt"@.len());
    assert("gep"@.len() != "alloca"@.len());
    assert("gep"@.len() != "load"@.len());
    assert("gep"@.len() != "store"@.len());
    assert("gep"@.len() != "call"@.len());
    assert("gep"@[0] != "phi"@[0]);
    assert("cast"@[0] != "sair"@[0]);
    assert("cast"@.len() != "entry"@.len());
    assert("cast"@[0] != "func"@[0]);
    assert("cast"@.len() != "param"@.len());
    assert("cast"@.len() != "block"@.len());
    assert("cast"@.len() != "const"@.len());
    assert("cast"@.len() != "add"@.len());
    assert("cast"@.len() != "sub"@.len());
    assert("cast"@.len() != "mul"@.len());
    assert("cast"@.len() != "div"@.len());
    assert("cast"@.len() != "rem"@.len());
    assert("cast"@.len() != "and"@.len());
    assert("cast"@.len() != "or"@.len());
    assert("cast"@.len() != "xor"@.len());
    assert("cast"@.len() != "shl"@.len());
    assert("cast"@[0] != "lshr"@[0]);
    assert("cast"@[0] != "ashr"@[0]);
    assert("cast"@.len() != "eq"@.len());
    assert("cast"@.len() != "lt"@.len());
    assert("cast"@.len() != "gt"@.len());
    assert("cast"@.len() != "alloca"@.len());
    assert("cast"@[0] != "load"@[0]);
    assert("cast"@.len() != "store"@.len());
    assert("cast"@[2] != "call"@[2]);
    assert("cast"@.len() != "phi"@.len());
    assert("cast"@.len() != "gep"@.len());
    assert("select"@.len() != "sair"@.len());
    assert("select"@.len() != "entry"@.len());
    assert("select"@.len() != "func"@.len());
    assert("select"@.len() != "param"@.len());
    assert("select"@.len() != "block"@.len());
    assert("select"@.len() != "const"@.len());
    assert("select"@.len() != "add"@.len());
    assert("select"@.len() != "sub"@.len());
    assert("select"@.len() != "mul"@.len());
    assert("select"@.len() != "div"@.len());
    assert("select"@.len() != "rem"@.len());
    assert("select"@.len() != "and"@.len());
    assert("select"@.len() != "or"@.len());
    assert("select"@.len() != "xor"@.len());
    assert("select"@.len() != "shl"@.len());
    assert("select"@.len() != "lshr"@.len());
    assert("select"@.len() != "ashr"@.len());
    assert("select"@.len() != "eq"@.len());
    assert("select"@.len() != "lt"@.len());
    assert("select"@.len() != "gt"@.len());
    assert("select"@[0] != "alloca"@[0]);
    assert("select"@.len() != "load"@.len());
    assert("select"@.len() != "store"@.len());
    assert("select"@.len() != "call"@.len());
    assert("select"@.len() != "phi"@.len());
    assert("select"@.len() != "gep"@.len());
    assert("select"@.len() != "cast"@.len());
}

/// The keyword token an instruction kind is introduced by in SAIR text.
pub open spec fn instruction_keyword(i: Instruction) -> TokenKind {
    match i {
        Instruction::Add { .. } => TokenKind::KwAdd,
        Instruction::Sub { .. } => TokenKind::KwSub,
        Instruction::Mul { .. } => TokenKind::KwMul,
        Instruction::Div { .. } => TokenKind::KwDiv,
        Instruction::Rem { .. } => TokenKind::KwRem,
        Instruction::And { .. } => TokenKind::KwAnd,
        Instruction::Or { .. } => TokenKind::KwOr,
        Instruction::Xor { .. } => TokenKind::KwXor,
        Instruction::Shl { .. } => TokenKind::KwShl,
        Instruction::Lshr { .. } => TokenKind::KwLshr,
        Instruction::Ashr { .. } => TokenKind::KwAshr,
        Instruction::Eq { .. } => TokenKind::KwEq,
        Instruction::Lt { .. } => TokenKind::KwLt,
        Instruction::Gt { .. } => TokenKind::KwGt,
        Instruction::Cast { .. } => TokenKind::KwCast,
        Instruction::Select { .. } => TokenKind::KwSelect,
        Instruction::Const(_) => TokenKind::KwConst,
        Instruction::Alloca { .. } => TokenKind::KwAlloca,
        Instruction::Load { .. } => TokenKind::KwLoad,
        Instruction::Store { .. } => TokenKind::KwStore,
        Instruction::Call { .. } => TokenKind::KwCall,
        Instruction::Phi { .. } => TokenKind::KwPhi,
        Instruction::Gep { .. } => TokenKind::KwGep,
    }
}

/// The writer's text of any instruction starts with a word and a space;
/// the word read as a token is the instruction's keyword. So distinct
/// instruction kinds are written with distinct keywords, each the one the
/// reader dispatches on.
pub proof fn lemma_written_keyword(i: Instruction, w: Seq<char>, rest: Seq<char>)
    requires
        instruction_body(i) == w + seq![' '] + rest,
        forall|j: int| 0 <= j < w.len() ==> w[j] != ' ',
    ensures
        word_kind(w) == instruction_keyword(i),
{
    lemma_binary_word_kinds();
    lemma_instruction_word_kinds();
    if binary_parts(i) is Some {
        lemma_binary_opcode_reads_back(i, w, rest);
    } else {
        reveal_strlit("cast ");
        reveal_strlit("select ");
        reveal_strlit("const ");
        reveal_strlit("alloca ");
        reveal_strlit("load ");
        reveal_strlit("store ");
        reveal_strlit("call ");
        reveal_strlit("phi ");
        reveal_strlit("gep ");
        reveal_strlit("cast");
        reveal_strlit("select");
        reveal_strlit("const");
        reveal_strlit("alloca");
        reveal_strlit("load");
        reveal_strlit("store");
        reveal_strlit("call");
        reveal_strlit("phi");
        reveal_strlit("gep");
        let op: Seq<char> = match i {
            Instruction::Cast { .. } => "cast"@,
            Instruction::Select { .. } => "select"@,
            Instruction::Const(_) => "const"@,
            Instruction::Alloca { .. } => "alloca"@,
            Instruction::Load { .. } => "load"@,
            Instruction::Store { .. } => "store"@,
            Instruction::Call { .. } => "call"@,
            Instruction::Phi { .. } => "phi"@,
            _ => "gep"@,
        };
        let kw: Seq<char> = match i {
            Instruction::Cast { .. } => "cast "@,
            Instruction::Select { .. } => "select "@,
            Instruction::Const(_) => "const "@,
            Instruction::Alloca { .. } => "alloca "@,
            Instruction::Load { .. } => "load "@,
            Instruction::Store { .. } => "store "@,
            Instruction::Call { .. } => "call "@,
            Instruction::Phi { .. } => "phi "@,
            _ => "gep "@,
        };
        assert(kw =~= op + seq![' ']);
        let body = instruction_body(i);
        let tail = body.subrange(kw.len() as int, body.len() as int);
        assert(body =~= kw + tail);
        assert(body =~= op + seq![' '] + tail);
        assert forall|j: int| 0 <= j < op.len() implies op[j] != ' ' by {}
        lemma_first_word(w, rest, op, tail);
    }
}


proof fn lemma_terminator_word_kinds()
    ensures
        word_kind("br"@) == TokenKind::KwBr,
        word_kind("cond_br"@) == TokenKind::KwCondBr,
        word_kind("ret"@) == TokenKind::KwRet,
        word_kind("unreachable"@) == TokenKind::KwUnreachable,
{
    reveal_strlit("add");
    reveal_strlit("alloca");
    reveal_strlit("and");
    reveal_strlit("ashr");
    reveal_strlit("bitcast");
    reveal_strlit("block");
    reveal_strlit("br");
    reveal_strlit("call");
    reveal_strlit("cast");
    reveal_strlit("cond_br");
    reveal_strlit("const");
    reveal_strlit("div");
    reveal_strlit("entry");
    reveal_strlit("eq");
    reveal_strlit("f64");
    reveal_strlit("false");
    reveal_strlit("field");
    reveal_strlit("func");
    reveal_strlit("gep");
    reveal_strlit("gt");
    reveal_strlit("i1");
    reveal_strlit("i16");
    reveal_strlit("i32");
    reveal_strlit("i64");
    reveal_strlit("i8");
    reveal_strlit("inttoptr");
    reveal_strlit("load");
    reveal_strlit("loc");
    reveal_strlit("lshr");
    reveal_strlit("lt");
    reveal_strlit("mul");
    reveal_strlit("or");
    reveal_strlit("param");
    reveal_strlit("phi");
    reveal_strlit("ptr");
    reveal_strlit("ptrtoint");
    reveal_strlit("rem");
    reveal_strlit("ret");
    reveal_strlit("sair");
    reveal_strlit("select");
    reveal_strlit("sext");
    reveal_strlit("shl");
    reveal_strlit("store");
    reveal_strlit("sub");
    reveal_strlit("true");
    reveal_strlit("trunc");
    reveal_strlit("unreachable");
    reveal_strlit("void");
    reveal_strlit("xor");
    reveal_strlit("zext");
    assert("br"@.len() != "sair"@.len());
    assert("br"@.len() != "entry"@.len());
    assert("br"@.len() != "func"@.len());
    assert("br"@.len() != "param"@.len());
    assert("br"@.len() != "block"@.len());
    assert("br"@.len() != "const"@.len());
    assert("br"@.len() != "add"@.len());
    assert("br"@.len() != "sub"@.len());
    assert("br"@.len() != "mul"@.len());
    assert("br"@.len() != "div"@.len());
    assert("br"@.len() != "rem"@.len());
    assert("br"@.len() != "and"@.len());
    assert("br"@[0] != "or"@[0]);
    assert("br"@.len() != "xor"@.len());
    assert("br"@.len() != "shl"@.len());
    assert("br"@.len() != "lshr"@.len());
    assert("br"@.len() != "ashr"@.len());
    assert("br"@[0] != "eq"@[0]);
    assert("br"@[0] != "lt"@[0]);
    assert("br"@[0] != "gt"@[0]);
    assert("br"@.len() != "alloca"@.len());
    assert("br"@.len() != "load"@.len());
    assert("br"@.len() != "store"@.len());
    assert("br"@.len() != "call"@.len());
    assert("br"@.len() != "phi"@.len());
    assert("br"@.len() != "gep"@.len());
    assert("br"@.len() != "cast"@.len());
    assert("br"@.len() != "select"@.len());
    assert("cond_br"@.len() != "sair"@.len());
    assert("cond_br"@.len() != "entry"@.len());
    assert("cond_br"@.len() != "func"@.len());
    assert("cond_br"@.len() != "param"@.len());
    assert("cond_br"@.len() != "block"@.len());
    assert("cond_br"@.len() != "const"@.len());
    assert("cond_br"@.len() != "add"@.len());
    assert("cond_br"@.len() != "sub"@.len());
    assert("cond_br"@.len() != "mul"@.len());
    assert("cond_br"@.len() != "div"@.len());
    assert("cond_br"@.len() != "rem"@.len());
    assert("cond_br"@.len() != "and"@.len());
    assert("cond_br"@.len() != "or"@.len());
    assert("cond_br"@.len() != "xor"@.len());
    assert("cond_br"@.len() != "shl"@.len());
    assert("cond_br"@.len() != "lshr"@.len());
    assert("cond_br"@.len() != "ashr"@.len());
    assert("cond_br"@.len() != "eq"@.len());
    assert("cond_br"@.len() != "lt"@.len());
    assert("cond_br"@.len() != "gt"@.len());
    assert("cond_br"@.len() != "alloca"@.len());
    assert("cond_br"@.len() != "load"@.len());
    assert("cond_br"@.len() != "store"@.len());
    assert("cond_br"@.len() != "call"@.len());
    assert("cond_br"@.len() != "phi"@.len());
    assert("cond_br"@.len() != "gep"@.len());
    assert("cond_br"@.len() != "cast"@.len());
    assert("cond_br"@.len() != "select"@.len());
    assert("cond_br"@.len() != "br"@.len());
    assert("ret"@.len() != "sair"@.len());
    assert("ret"@.len() != "entry"@.len());
    assert("ret"@.len() != "func"@.len());
    assert("ret"@.len() != "param"@.len());
    assert("ret"@.len() != "block"@.len());
    assert("ret"@.len() != "const"@.len());
    assert("ret"@[0] != "add"@[0]);
    assert("ret"@[0] != "sub"@[0]);
    assert("ret"@[0] != "mul"@[0]);
    assert("ret"@[0] != "div"@[0]);
    assert("ret"@[2] != "rem"@[2]);
    assert("ret"@[0] != "and"@[0]);
    assert("ret"@.len() != "or"@.len());
    assert("ret"@[0] != "xor"@[0]);
    assert("ret"@[0] != "shl"@[0]);
    assert("ret"@.len() != "lshr"@.len());
    assert("ret"@.len() != "ashr"@.len());
    assert("ret"@.len() != "eq"@.len());
    assert("ret"@.len() != "lt"@.len());
    assert("ret"@.len() != "gt"@.len());
    assert("ret"@.len() != "alloca"@.len());
    assert("ret"@.len() != "load"@.len());
    assert("ret"@.len() != "store"@.len());
    assert("ret"@.len() != "call"@.len());
    assert("ret"@[0] != "phi"@[0]);
    assert("ret"@[0] != "gep"@[0]);
    assert("ret"@.len() != "cast"@.len());
    assert("ret"@.len() != "select"@.len());
    assert("ret"@.len() != "br"@.len());
    assert("ret"@.len() != "cond_br"@.len());
    assert("unreachable"@.len() != "sair"@.len());
    assert("unreachable"@.len() != "entry"@.len());
    assert("unreachable"@.len() != "func"@.len());
    assert("unreachable"@.len() != "param"@.len());
    assert("unreachable"@.len() != "block"@.len());
    assert("unreachable"@.len() != "const"@.len());
    assert("unreachable"@.len() != "add"@.len());
    assert("unreachable"@.len() != "sub"@.len());
    assert("unreachable"@.len() != "mul"@.len());
    assert("unreachable"@.len() != "div"@.len());
    assert("unreachable"@.len() != "rem"@.len());
    assert("unreachable"@.len() != "and"@.len());
    assert("unreachable"@.len() != "or"@.len());
    assert("unreachable"@.len() != "xor"@.len());
    assert("unreachable"@.len() != "shl"@.len());
    assert("unreachable"@.len() != "lshr"@.len());
    assert("unreachable"@.len() != "ashr"@.len());
    assert("unreachable"@.len() != "eq"@.len());
    assert("unreachable"@.len() != "lt"@.len());
    assert("unreachable"@.len() != "gt"@.len());
    assert("unreachable"@.len() != "alloca"@.len());
    assert("unreachable"@.len() != "load"@.len());
    assert("unreachable"@.len() != "store"@.len());
    assert("unreachable"@.len() != "call"@.len());
    assert("unreachable"@.len() != "phi"@.len());
    assert("unreachable"@.len() != "gep"@.len());
    assert("unreachable"@.len() != "cast"@.len());
    assert("unreachable"@.len() != "select"@.len());
    assert("unreachable"@.len() != "br"@.len());
    assert("unreachable"@.len() != "cond_br"@.len());
    assert("unreachable"@.len() != "ret"@.len());
}

/// The keyword the reader dispatches on for terminator `t`.
pub open spec fn terminator_keyword(t: Terminator) -> TokenKind {
    match t {
        Terminator::Branch { .. } => TokenKind::KwBr,
        Terminator::CondBranch { .. } => TokenKind::KwCondBr,
        Terminator::Return { .. } => TokenKind::KwRet,
        Terminator::Unreachable => TokenKind::KwUnreachable,
    }
}

/// `c` ends a word.
pub open spec fn word_end(c: char) -> bool {
    c == ' ' || c == '\n'
}

proof fn lemma_word_before(w: Seq<char>, rest: Seq<char>, op: Seq<char>, rest2: Seq<char>)
    requires
        w + rest == op + rest2,
        rest.len() > 0 && word_end(rest[0]),
        rest2.len() > 0 && word_end(rest2[0]),
        forall|j: int| 0 <= j < w.len() ==> !word_end(#[trigger] w[j]),
        forall|j: int| 0 <= j < op.len() ==> !word_end(#[trigger] op[j]),
    ensures
        w == op,
{
    let s = w + rest;
    if w.len() < op.len() {
        assert(s[w.len() as int] == rest[0]);
        assert(s[w.len() as int] == op[w.len() as int]);
    } else if w.len() > op.len() {
        assert(s[op.len() as int] == w[op.len() as int]);
        assert((op + rest2)[op.len() as int] == rest2[0]);
    }
    assert(w =~= s.take(w.len() as int));
    assert(op =~= (op + rest2).take(op.len() as int));
}

/// The writer's line for any terminator is an indent, a word, and the rest
/// of the line after a space or the line's end; the word read as a token is
/// the keyword the reader turns back into a terminator of the same kind.
pub proof fn lemma_written_terminator_keyword(rt: IrType, t: Terminator, w: Seq<char>, rest: Seq<char>)
    requires
        terminator_line(rt, t) == "    "@ + w + rest,
        rest.len() > 0 && word_end(rest[0]),
        forall|j: int| 0 <= j < w.len() ==> !word_end(#[trigger] w[j]),
    ensures
        word_kind(w) == terminator_keyword(t),
{
    reveal_strlit("    ");
    reveal_strlit("    br ");
    reveal_strlit("    cond_br ");
    reveal_strlit("    ret ");
    reveal_strlit("    ret void\n");
    reveal_strlit("    unreachable\n");
    reveal_strlit("br");
    reveal_strlit("cond_br");
    reveal_strlit("ret");
    reveal_strlit("unreachable");
    lemma_terminator_word_kinds();
    let line = terminator_line(rt, t);
    let op: Seq<char> = match t {
        Terminator::Branch { .. } => "br"@,
        Terminator::CondBranch { .. } => "cond_br"@,
        Terminator::Return { .. } => "ret"@,
        Terminator::Unreachable => "unreachable"@,
    };
    let head: Seq<char> = match t {
        Terminator::Branch { .. } => "    br "@,
        Terminator::CondBranch { .. } => "    cond_br "@,
        Terminator::Return { value: Some(_) } => "    ret "@,
        Terminator::Return { value: None } => "    ret void\n"@,
        Terminator::Unreachable => "    unreachable\n"@,
    };
    assert(line.subrange(0, head.len() as int) =~= head);
    let tail = line.subrange(4 + op.len() as int, line.len() as int);
    assert(line =~= "    "@ + op + tail);
    assert(tail[0] == head[4 + op.len() as int]);
    assert(w + rest =~= line.subrange(4, line.len() as int));
    assert(op + tail =~= line.subrange(4, line.len() as int));
    assert forall|j: int| 0 <= j < op.len() implies !word_end(#[trigger] op[j]) by {}
    lemma_word_before(w, rest, op, tail);
}


/// The operands after keyword `k`, from `q` on, have a shape the reader
/// accepts (see [`instruction_read`]).
pub open spec fn read_shape(ts: Seq<Token>, q: int, vm: Seq<(ValueId, ValueId)>, k: TokenKind) -> bool {
    match k {
        TokenKind::KwConst => q + 1 < ts.len() && token_type(ts[q].kind) is Some && constant_token(
            token_type(ts[q].kind)->0,
            ts[q + 1],
        ),
        TokenKind::KwCast => q + 3 < ts.len() && token_cast_op(ts[q].kind) is Some && token_type(ts[q + 1].kind) is Some
            && token_type(ts[q + 2].kind) is Some && ref_at(ts, q + 3, vm) is Some,
        TokenKind::KwSelect => typed_pair_at(ts, q, vm) && q + 5 < ts.len() && ts[q + 4].kind == TokenKind::Comma
            && ref_at(ts, q + 5, vm) is Some,
        TokenKind::KwAlloca => q + 1 < ts.len() && token_type(ts[q].kind) is Some && ts[q + 1].kind != TokenKind::Comma,
        TokenKind::KwLoad => q + 1 < ts.len() && token_type(ts[q].kind) is Some && ref_at(ts, q + 1, vm) is Some,
        TokenKind::KwStore => typed_pair_at(ts, q, vm),
        TokenKind::KwCall => q + 3 < ts.len() && token_type(ts[q].kind) is Some && ts[q + 1].kind == TokenKind::Global
            && ts[q + 2].kind == TokenKind::LParen && ts[q + 3].kind == TokenKind::RParen,
        TokenKind::KwPhi => phi_shape(ts, q, vm),
        TokenKind::KwGep => gep_shape(ts, q, vm),
        k => binop_type_kind(k) && typed_pair_at(ts, q, vm),
    }
}

/// An instruction appended to the block being built is its last one.
proof fn lemma_appended_last(b0: IrBuilder, b1: IrBuilder, instr: Instruction, values: Seq<SsaValue>, next: nat)
    requires
        appended(b0, b1, instr, values, next),
        b0.block_slot() is Some,
    ensures
        last_instruction(b1) == instr,
{
}

/// Reading an instruction gives one that the writer introduces with the
/// same keyword: whenever the operands after keyword `ts[p]` have a shape
/// the reader accepts, reading succeeds and the instruction appended to
/// the block is of the kind that keyword names.
pub proof fn lemma_read_keeps_keyword(
    ts: Seq<Token>,
    p: int,
    vm: Seq<(ValueId, ValueId)>,
    b0: IrBuilder,
    b1: IrBuilder,
    r: Result<Option<ValueId>, TextIrError>,
    fp: int,
)
    requires
        instruction_read(ts, p, vm, b0, b1, r, fp),
        read_shape(ts, p + 1, vm, ts[p].kind),
        b0.block_slot() is Some,
    ensures
        r is Ok,
        instruction_keyword(last_instruction(b1)) == ts[p].kind,
{
    let k = ts[p].kind;
    let q = p + 1;
    match k {
        TokenKind::KwConst => {
            let c = constant_of(token_type(ts[q].kind)->0, ts[q + 1]);
            lemma_appended_last(b0, b1, Instruction::Const(c), b0.current_function().values@.push(
                SsaValue { id: r->Ok_0->0, ty: constant_type(c), name: None },
            ), b0.current_function().next_id() + 1);
        },
        TokenKind::KwCast => {
            let to_ty = token_type(ts[q + 2].kind)->0;
            let instr = Instruction::Cast {
                op: token_cast_op(ts[q].kind)->0,
                from_ty: token_type(ts[q + 1].kind)->0,
                to_ty,
                value: ref_at(ts, q + 3, vm)->0,
            };
            lemma_appended_last(b0, b1, instr, b0.current_function().values@.push(
                SsaValue { id: r->Ok_0->0, ty: to_ty, name: None },
            ), b0.current_function().next_id() + 1);
        },
        TokenKind::KwSelect => {
            let ty = token_type(ts[q].kind)->0;
            let instr = Instruction::Select {
                ty,
                condition: ref_at(ts, q + 1, vm)->0,
                then_value: ref_at(ts, q + 3, vm)->0,
                else_value: ref_at(ts, q + 5, vm)->0,
            };
            lemma_appended_last(b0, b1, instr, b0.current_function().values@.push(
                SsaValue { id: r->Ok_0->0, ty, name: None },
            ), b0.current_function().next_id() + 1);
        },
        TokenKind::KwAlloca => {
            let instr = Instruction::Alloca { ty: token_type(ts[q].kind)->0, count: 1 };
            lemma_appended_last(b0, b1, instr, b0.current_function().values@.push(
                SsaValue { id: r->Ok_0->0, ty: IrType::Pointer, name: None },
            ), b0.current_function().next_id() + 1);
        },
        TokenKind::KwLoad => {
            let ty = token_type(ts[q].kind)->0;
            let instr = Instruction::Load { ty, addr: ref_at(ts, q + 1, vm)->0 };
            lemma_appended_last(b0, b1, instr, b0.current_function().values@.push(
                SsaValue { id: r->Ok_0->0, ty, name: None },
            ), b0.current_function().next_id() + 1);
        },
        TokenKind::KwStore => {
            let instr = Instruction::Store {
                ty: token_type(ts[q].kind)->0,
                value: ref_at(ts, q + 1, vm)->0,
                addr: ref_at(ts, q + 3, vm)->0,
            };
            lemma_appended_last(b0, b1, instr, b0.current_function().values@, b0.current_function().next_id());
        },
        TokenKind::KwCall => {},
        TokenKind::KwPhi => {},
        TokenKind::KwGep => {},
        _ => {
            let ty = token_type(ts[q].kind)->0;
            let instr = binop_instruction(k, ty, ref_at(ts, q + 1, vm)->0, ref_at(ts, q + 3, vm)->0);
            lemma_appended_last(b0, b1, instr, b0.current_function().values@.push(
                SsaValue { id: r->Ok_0->0, ty: binop_type(k, ty), name: None },
            ), b0.current_function().next_id() + 1);
        },
    }
}

/// Writing a binary instruction and reading it back gives the same
/// instruction: the word the writer puts before the first space is, as a
/// token, a binary opcode, and the reader turns that opcode with the same
/// type and operands into the instruction that was written. So each binary
/// instruction kind is written with its own opcode word.
pub proof fn lemma_binary_opcode_reads_back(i: Instruction, w: Seq<char>, rest: Seq<char>)
    requires
        binary_parts(i) is Some,
        instruction_body(i) == w + seq![' '] + rest,
        forall|j: int| 0 <= j < w.len() ==> w[j] != ' ',
    ensures
        binop_type_kind(word_kind(w)),
        binop_instruction(word_kind(w), (binary_parts(i)->0).0, (binary_parts(i)->0).1, (binary_parts(i)->0).2) == i,
{
    lemma_binary_word_kinds();
    let (ty, l, r) = binary_parts(i)->0;
    let op: Seq<char> = match i {
        Instruction::Add { .. } => "add"@,
        Instruction::Sub { .. } => "sub"@,
        Instruction::Mul { .. } => "mul"@,
        Instruction::Div { .. } => "div"@,
        Instruction::Rem { .. } => "rem"@,
        Instruction::And { .. } => "and"@,
        Instruction::Or { .. } => "or"@,
        Instruction::Xor { .. } => "xor"@,
        Instruction::Shl { .. } => "shl"@,
        Instruction::Lshr { .. } => "lshr"@,
        Instruction::Ashr { .. } => "ashr"@,
        Instruction::Eq { .. } => "eq"@,
        Instruction::Lt { .. } => "lt"@,
        _ => "gt"@,
    };
    assert(instruction_body(i) == binary_text(op, ty, l, r));
    assert forall|j: int| 0 <= j < op.len() implies op[j] != ' ' by {
        reveal_strlit("add");
        reveal_strlit("sub");
        reveal_strlit("mul");
        reveal_strlit("div");
        reveal_strlit("rem");
        reveal_strlit("and");
        reveal_strlit("or");
        reveal_strlit("xor");
        reveal_strlit("shl");
        reveal_strlit("lshr");
        reveal_strlit("ashr");
        reveal_strlit("eq");
        reveal_strlit("lt");
        reveal_strlit("gt");
    }
    lemma_binary_text_split(op, ty, l, r);
    lemma_first_word(w, rest, op, type_text(ty) + " "@ + value_ref(l as nat) + ", "@ + value_ref(r as nat));
    assert(w == op);
}

/// The type a token names.
pub open spec fn token_type(k: TokenKind) -> Option<IrType> {
    match k {
        TokenKind::TyI1 => Some(IrType::I1),
        TokenKind::TyI8 => Some(IrType::I8),
        TokenKind::TyI16 => Some(IrType::I16),
        TokenKind::TyI32 => Some(IrType::I32),
        TokenKind::TyI64 => Some(IrType::I64),
        TokenKind::TyF64 => Some(IrType::F64),
        TokenKind::TyPtr => Some(IrType::Pointer),
        TokenKind::KwVoid => Some(IrType::Void),
        _ => None,
    }
}

/// The word that names a type reads back, in SAIR text, as that type; so
/// distinct types have distinct names.
pub proof fn lemma_type_name_reads_back(t: IrType)
    ensures
        token_type(word_kind(type_text(t))) == Some(t),
{
    reveal_strlit("add");
    reveal_strlit("alloca");
    reveal_strlit("and");
    reveal_strlit("ashr");
    reveal_strlit("bitcast");
    reveal_strlit("block");
    reveal_strlit("br");
    reveal_strlit("call");
    reveal_strlit("cast");
    reveal_strlit("cond_br");
    reveal_strlit("const");
    reveal_strlit("div");
    reveal_strlit("entry");
    reveal_strlit("eq");
    reveal_strlit("f64");
    reveal_strlit("false");
    reveal_strlit("field");
    reveal_strlit("func");
    reveal_strlit("gep");
    reveal_strlit("gt");
    reveal_strlit("i1");
    reveal_strlit("i16");
    reveal_strlit("i32");
    reveal_strlit("i64");
    reveal_strlit("i8");
    reveal_strlit("inttoptr");
    reveal_strlit("load");
    reveal_strlit("loc");
    reveal_strlit("lshr");
    reveal_strlit("lt");
    reveal_strlit("mul");
    reveal_strlit("or");
    reveal_strlit("param");
    reveal_strlit("phi");
    reveal_strlit("ptr");
    reveal_strlit("ptrtoint");
    reveal_strlit("rem");
    reveal_strlit("ret");
    reveal_strlit("sair");
    reveal_strlit("select");
    reveal_strlit("sext");
    reveal_strlit("shl");
    reveal_strlit("store");
    reveal_strlit("sub");
    reveal_strlit("true");
    reveal_strlit("trunc");
    reveal_strlit("unreachable");
    reveal_strlit("void");
    reveal_strlit("xor");
    reveal_strlit("zext");
    assert("i1"@.len() != "sair"@.len());
    assert("i1"@.len() != "entry"@.len());
    assert("i1"@.len() != "func"@.len());
    assert("i1"@.len() != "param"@.len());
    assert("i1"@.len() != "block"@.len());
    assert("i1"@.len() != "const"@.len());
    assert("i1"@.len() != "add"@.len());
    assert("i1"@.len() != "sub"@.len());
    assert("i1"@.len() != "mul"@.len());
    assert("i1"@.len() != "div"@.len());
    assert("i1"@.len() != "rem"@.len());
    assert("i1"@.len() != "and"@.len());
    assert("i1"@[0] != "or"@[0]);
    assert("i1"@.len() != "xor"@.len());
    assert("i1"@.len() != "shl"@.len());
    assert("i1"@.len() != "lshr"@.len());
    assert("i1"@.len() != "ashr"@.len());
    assert("i1"@[0] != "eq"@[0]);
    assert("i1"@[0] != "lt"@[0]);
    assert("i1"@[0] != "gt"@[0]);
    assert("i1"@.len() != "alloca"@.len());
    assert("i1"@.len() != "load"@.len());
    assert("i1"@.len() != "store"@.len());
    assert("i1"@.len() != "call"@.len());
    assert("i1"@.len() != "phi"@.len());
    assert("i1"@.len() != "gep"@.len());
    assert("i1"@.len() != "cast"@.len());
    assert("i1"@.len() != "select"@.len());
    assert("i1"@[0] != "br"@[0]);
    assert("i1"@.len() != "cond_br"@.len());
    assert("i1"@.len() != "ret"@.len());
    assert("i1"@.len() != "unreachable"@.len());
    assert("i1"@.len() != "zext"@.len());
    assert("i1"@.len() != "sext"@.len());
    assert("i1"@.len() != "trunc"@.len());
    assert("i1"@.len() != "bitcast"@.len());
    assert("i1"@.len() != "ptrtoint"@.len());
    assert("i1"@.len() != "inttoptr"@.len());
    assert("i1"@.len() != "void"@.len());
    assert("i1"@.len() != "true"@.len());
    assert("i1"@.len() != "false"@.len());
    assert("i1"@.len() != "field"@.len());
    assert("i1"@.len() != "loc"@.len());
    assert("i8"@.len() != "sair"@.len());
    assert("i8"@.len() != "entry"@.len());
    assert("i8"@.len() != "func"@.len());
    assert("i8"@.len() != "param"@.len());
    assert("i8"@.len() != "block"@.len());
    assert("i8"@.len() != "const"@.len());
    assert("i8"@.len() != "add"@.len());
    assert("i8"@.len() != "sub"@.len());
    assert("i8"@.len() != "mul"@.len());
    assert("i8"@.len() != "div"@.len());
    assert("i8"@.len() != "rem"@.len());
    assert("i8"@.len() != "and"@.len());
    assert("i8"@[0] != "or"@[0]);
    assert("i8"@.len() != "xor"@.len());
    assert("i8"@.len() != "shl"@.len());
    assert("i8"@.len() != "lshr"@.len());
    assert("i8"@.len() != "ashr"@.len());
    assert("i8"@[0] != "eq"@[0]);
    assert("i8"@[0] != "lt"@[0]);
    assert("i8"@[0] != "gt"@[0]);
    assert("i8"@.len() != "alloca"@.len());
    assert("i8"@.len() != "load"@.len());
    assert("i8"@.len() != "store"@.len());
    assert("i8"@.len() != "call"@.len());
    assert("i8"@.len() != "phi"@.len());
    assert("i8"@.len() != "gep"@.len());
    assert("i8"@.len() != "cast"@.len());
    assert("i8"@.len() != "select"@.len());
    assert("i8"@[0] != "br"@[0]);
    assert("i8"@.len() != "cond_br"@.len());
    assert("i8"@.len() != "ret"@.len());
    assert("i8"@.len() != "unreachable"@.len());
    assert("i8"@.len() != "zext"@.len());
    assert("i8"@.len() != "sext"@.len());
    assert("i8"@.len() != "trunc"@.len());
    assert("i8"@.len() != "bitcast"@.len());
    assert("i8"@.len() != "ptrtoint"@.len());
    assert("i8"@.len() != "inttoptr"@.len());
    assert("i8"@.len() != "void"@.len());
    assert("i8"@.len() != "true"@.len());
    assert("i8"@.len() != "false"@.len());
    assert("i8"@.len() != "field"@.len());
    assert("i8"@.len() != "loc"@.len());
    assert("i8"@[1] != "i1"@[1]);
    assert("i16"@.len() != "sair"@.len());
    assert("i16"@.len() != "entry"@.len());
    assert("i16"@.len() != "func"@.len());
    assert("i16"@.len() != "param"@.len());
    assert("i16"@.len() != "block"@.len());
    assert("i16"@.len() != "const"@.len());
    assert("i16"@[0] != "add"@[0]);
    assert("i16"@[0] != "sub"@[0]);
    assert("i16"@[0] != "mul"@[0]);
    assert("i16"@[0] != "div"@[0]);
    assert("i16"@[0] != "rem"@[0]);
    assert("i16"@[0] != "and"@[0]);
    assert("i16"@.len() != "or"@.len());
    assert("i16"@[0] != "xor"@[0]);
    assert("i16"@[0] != "shl"@[0]);
    assert("i16"@.len() != "lshr"@.len());
    assert("i16"@.len() != "ashr"@.len());
    assert("i16"@.len() != "eq"@.len());
    assert("i16"@.len() != "lt"@.len());
    assert("i16"@.len() != "gt"@.len());
    assert("i16"@.len() != "alloca"@.len());
    assert("i16"@.len() != "load"@.len());
    assert("i16"@.len() != "store"@.len());
    assert("i16"@.len() != "call"@.len());
    assert("i16"@[0] != "phi"@[0]);
    assert("i16"@[0] != "gep"@[0]);
    assert("i16"@.len() != "cast"@.len());
    assert("i16"@.len() != "select"@.len());
    assert("i16"@.len() != "br"@.len());
    assert("i16"@.len() != "cond_br"@.len());
    assert("i16"@[0] != "ret"@[0]);
    assert("i16"@.len() != "unreachable"@.len());
    assert("i16"@.len() != "zext"@.len());
    assert("i16"@.len() != "sext"@.len());
    assert("i16"@.len() != "trunc"@.len());
    assert("i16"@.len() != "bitcast"@.len());
    assert("i16"@.len() != "ptrtoint"@.len());
    assert("i16"@.len() != "inttoptr"@.len());
    assert("i16"@.len() != "void"@.len());
    assert("i16"@.len() != "true"@.len());
    assert("i16"@.len() != "false"@.len());
    assert("i16"@.len() != "field"@.len());
    assert("i16"@[0] != "loc"@[0]);
    assert("i16"@.len() != "i1"@.len());
    assert("i16"@.len() != "i8"@.len());
    assert("i32"@.len() != "sair"@.len());
    assert("i32"@.len() != "entry"@.len());
    assert("i32"@.len() != "func"@.len());
    assert("i32"@.len() != "param"@.len());
    assert("i32"@.len() != "block"@.len());
    assert("i32"@.len() != "const"@.len());
    assert("i32"@[0] != "add"@[0]);
    assert("i32"@[0] != "sub"@[0]);
    assert("i32"@[0] != "mul"@[0]);
    assert("i32"@[0] != "div"@[0]);
    assert("i32"@[0] != "rem"@[0]);
    assert("i32"@[0] != "and"@[0]);
    assert("i32"@.len() != "or"@.len());
    assert("i32"@[0] != "xor"@[0]);
    assert("i32"@[0] != "shl"@[0]);
    assert("i32"@.len() != "lshr"@.len());
    assert("i32"@.len() != "ashr"@.len());
    assert("i32"@.len() != "eq"@.len());
    assert("i32"@.len() != "lt"@.len());
    assert("i32"@.len() != "gt"@.len());
    assert("i32"@.len() != "alloca"@.len());
    assert("i32"@.len() != "load"@.len());
    assert("i32"@.len() != "store"@.len());
    assert("i32"@.len() != "call"@.len());
    assert("i32"@[0] != "phi"@[0]);
    assert("i32"@[0] != "gep"@[0]);
    assert("i32"@.len() != "cast"@.len());
    assert("i32"@.len() != "select"@.len());
    assert("i32"@.len() != "br"@.len());
    assert("i32"@.len() != "cond_br"@.len());
    assert("i32"@[0] != "ret"@[0]);
    assert("i32"@.len() != "unreachable"@.len());
    assert("i32"@.len() != "zext"@.len());
    assert("i32"@.len() != "sext"@.len());
    assert("i32"@.len() != "trunc"@.len());
    assert("i32"@.len() != "bitcast"@.len());
    assert("i32"@.len() != "ptrtoint"@.len());
    assert("i32"@.len() != "inttoptr"@.len());
    assert("i32"@.len() != "void"@.len());
    assert("i32"@.len() != "true"@.len());
    assert("i32"@.len() != "false"@.len());
    assert("i32"@.len() != "field"@.len());
    assert("i32"@[0] != "loc"@[0]);
    assert("i32"@.len() != "i1"@.len());
    assert("i32"@.len() != "i8"@.len());
    assert("i32"@[1] != "i16"@[1]);
    assert("i64"@.len() != "sair"@.len());
    assert("i64"@.len() != "entry"@.len());
    assert("i64"@.len() != "func"@.len());
    assert("i64"@.len() != "param"@.len());
    assert("i64"@.len() != "block"@.len());
    assert("i64"@.len() != "const"@.len());
    assert("i64"@[0] != "add"@[0]);
    assert("i64"@[0] != "sub"@[0]);
    assert("i64"@[0] != "mul"@[0]);
    assert("i64"@[0] != "div"@[0]);
    assert("i64"@[0] != "rem"@[0]);
    assert("i64"@[0] != "and"@[0]);
    assert("i64"@.len() != "or"@.len());
    assert("i64"@[0] != "xor"@[0]);
    assert("i64"@[0] != "shl"@[0]);
    assert("i64"@.len() != "lshr"@.len());
    assert("i64"@.len() != "ashr"@.len());
    assert("i64"@.len() != "eq"@.len());
    assert("i64"@.len() != "lt"@.len());
    assert("i64"@.len() != "gt"@.len());
    assert("i64"@.len() != "alloca"@.len());
    assert("i64"@.len() != "load"@.len());
    assert("i64"@.len() != "store"@.len());
    assert("i64"@.len() != "call"@.len());
    assert("i64"@[0] != "phi"@[0]);
    assert("i64"@[0] != "gep"@[0]);
    assert("i64"@.len() != "cast"@.len());
    assert("i64"@.len() != "select"@.len());
    assert("i64"@.len() != "br"@.len());
    assert("i64"@.len() != "cond_br"@.len());
    assert("i64"@[0] != "ret"@[0]);
    assert("i64"@.len() != "unreachable"@.len());
    assert("i64"@.len() != "zext"@.len());
    assert("i64"@.len() != "sext"@.len());
    assert("i64"@.len() != "trunc"@.len());
    assert("i64"@.len() != "bitcast"@.len());
    assert("i64"@.len() != "ptrtoint"@.len());
    assert("i64"@.len() != "inttoptr"@.len());
    assert("i64"@.len() != "void"@.len());
    assert("i64"@.len() != "true"@.len());
    assert("i64"@.len() != "false"@.len());
    assert("i64"@.len() != "field"@.len());
    assert("i64"@[0] != "loc"@[0]);
    assert("i64"@.len() != "i1"@.len());
    assert("i64"@.len() != "i8"@.len());
    assert("i64"@[1] != "i16"@[1]);
    assert("i64"@[1] != "i32"@[1]);
    assert("f64"@.len() != "sair"@.len());
    assert("f64"@.len() != "entry"@.len());
    assert("f64"@.len() != "func"@.len());
    assert("f64"@.len() != "param"@.len());
    assert("f64"@.len() != "block"@.len());
    assert("f64"@.len() != "const"@.len());
    assert("f64"@[0] != "add"@[0]);
    assert("f64"@[0] != "sub"@[0]);
    assert("f64"@[0] != "mul"@[0]);
    assert("f64"@[0] != "div"@[0]);
    assert("f64"@[0] != "rem"@[0]);
    assert("f64"@[0] != "and"@[0]);
    assert("f64"@.len() != "or"@.len());
    assert("f64"@[0] != "xor"@[0]);
    assert("f64"@[0] != "shl"@[0]);
    assert("f64"@.len() != "lshr"@.len());
    assert("f64"@.len() != "ashr"@.len());
    assert("f64"@.len() != "eq"@.len());
    assert("f64"@.len() != "lt"@.len());
    assert("f64"@.len() != "gt"@.len());
    assert("f64"@.len() != "alloca"@.len());
    assert("f64"@.len() != "load"@.len());
    assert("f64"@.len() != "store"@.len());
    assert("f64"@.len() != "call"@.len());
    assert("f64"@[0] != "phi"@[0]);
    assert("f64"@[0] != "gep"@[0]);
    assert("f64"@.len() != "cast"@.len());
    assert("f64"@.len() != "select"@.len());
    assert("f64"@.len() != "br"@.len());
    assert("f64"@.len() != "cond_br"@.len());
    assert("f64"@[0] != "ret"@[0]);
    assert("f64"@.len() != "unreachable"@.len());
    assert("f64"@.len() != "zext"@.len());
    assert("f64"@.len() != "sext"@.len());
    assert("f64"@.len() != "trunc"@.len());
    assert("f64"@.len() != "bitcast"@.len());
    assert("f64"@.len() != "ptrtoint"@.len());
    assert("f64"@.len() != "inttoptr"@.len());
    assert("f64"@.len() != "void"@.len());
    assert("f64"@.len() != "true"@.len());
    assert("f64"@.len() != "false"@.len());
    assert("f64"@.len() != "field"@.len());
    assert("f64"@[0] != "loc"@[0]);
    assert("f64"@.len() != "i1"@.len());
    assert("f64"@.len() != "i8"@.len());
    assert("f64"@[0] != "i16"@[0]);
    assert("f64"@[0] != "i32"@[0]);
    assert("f64"@[0] != "i64"@[0]);
    assert("ptr"@.len() != "sair"@.len());
    assert("ptr"@.len() != "entry"@.len());
    assert("ptr"@.len() != "func"@.len());
    assert("ptr"@.len() != "param"@.len());
    assert("ptr"@.len() != "block"@.len());
    assert("ptr"@.len() != "const"@.len());
    assert("ptr"@[0] != "add"@[0]);
    assert("ptr"@[0] != "sub"@[0]);
    assert("ptr"@[0] != "mul"@[0]);
    assert("ptr"@[0] != "div"@[0]);
    assert("ptr"@[0] != "rem"@[0]);
    assert("ptr"@[0] != "and"@[0]);
    assert("ptr"@.len() != "or"@.len());
    assert("ptr"@[0] != "xor"@[0]);
    assert("ptr"@[0] != "shl"@[0]);
    assert("ptr"@.len() != "lshr"@.len());
    assert("ptr"@.len() != "ashr"@.len());
    assert("ptr"@.len() != "eq"@.len());
    assert("ptr"@.len() != "lt"@.len());
    assert("ptr"@.len() != "gt"@.len());
    assert("ptr"@.len() != "alloca"@.len());
    assert("ptr"@.len() != "load"@.len());
    assert("ptr"@.len() != "store"@.len());
    assert("ptr"@.len() != "call"@.len());
    assert("ptr"@[1] != "phi"@[1]);
    assert("ptr"@[0] != "gep"@[0]);
    assert("ptr"@.len() != "cast"@.len());
    assert("ptr"@.len() != "select"@.len());
    assert("ptr"@.len() != "br"@.len());
    assert("ptr"@.len() != "cond_br"@.len());
    assert("ptr"@[0] != "ret"@[0]);
    assert("ptr"@.len() != "unreachable"@.len());
    assert("ptr"@.len() != "zext"@.len());
    assert("ptr"@.len() != "sext"@.len());
    assert("ptr"@.len() != "trunc"@.len());
    assert("ptr"@.len() != "bitcast"@.len());
    assert("ptr"@.len() != "ptrtoint"@.len());
    assert("ptr"@.len() != "inttoptr"@.len());
    assert("ptr"@.len() != "void"@.len());
    assert("ptr"@.len() != "true"@.len());
    assert("ptr"@.len() != "false"@.len());
    assert("ptr"@.len() != "field"@.len());
    assert("ptr"@[0] != "loc"@[0]);
    assert("ptr"@.len() != "i1"@.len());
    assert("ptr"@.len() != "i8"@.len());
    assert("ptr"@[0] != "i16"@[0]);
    assert("ptr"@[0] != "i32"@[0]);
    assert("ptr"@[0] != "i64"@[0]);
    assert("ptr"@[0] != "f64"@[0]);
    assert("void"@[0] != "sair"@[0]);
    assert("void"@.len() != "entry"@.len());
    assert("void"@[0] != "func"@[0]);
    assert("void"@.len() != "param"@.len());
    assert("void"@.len() != "block"@.len());
    assert("void"@.len() != "const"@.len());
    assert("void"@.len() != "add"@.len());
    assert("void"@.len() != "sub"@.len());
    assert("void"@.len() != "mul"@.len());
    assert("void"@.len() != "div"@.len());
    assert("void"@.len() != "rem"@.len());
    assert("void"@.len() != "and"@.len());
    assert("void"@.len() != "or"@.len());
    assert("void"@.len() != "xor"@.len());
    assert("void"@.len() != "shl"@.len());
    assert("void"@[0] != "lshr"@[0]);
    assert("void"@[0] != "ashr"@[0]);
    assert("void"@.len() != "eq"@.len());
    assert("void"@.len() != "lt"@.len());
    assert("void"@.len() != "gt"@.len());
    assert("void"@.len() != "alloca"@.len());
    assert("void"@[0] != "load"@[0]);
    assert("void"@.len() != "store"@.len());
    assert("void"@[0] != "call"@[0]);
    assert("void"@.len() != "phi"@.len());
    assert("void"@.len() != "gep"@.len());
    assert("void"@[0] != "cast"@[0]);
    assert("void"@.len() != "select"@.len());
    assert("void"@.len() != "br"@.len());
    assert("void"@.len() != "cond_br"@.len());
    assert("void"@.len() != "ret"@.len());
    assert("void"@.len() != "unreachable"@.len());
    assert("void"@[0] != "zext"@[0]);
    assert("void"@[0] != "sext"@[0]);
    assert("void"@.len() != "trunc"@.len());
    assert("void"@.len() != "bitcast"@.len());
    assert("void"@.len() != "ptrtoint"@.len());
    assert("void"@.len() != "inttoptr"@.len());
}

/// The word that names a cast operator reads back, in SAIR text, as that
/// operator; so distinct operators have distinct names.
pub proof fn lemma_cast_name_reads_back(op: CastOp)
    ensures
        token_cast_op(word_kind(cast_op_text(op))) == Some(op),
{
    reveal_strlit("i32");
    reveal_strlit("eq");
    reveal_strlit("f64");
    reveal_strlit("trunc");
    reveal_strlit("field");
    reveal_strlit("ptrtoint");
    reveal_strlit("unreachable");
    reveal_strlit("rem");
    reveal_strlit("add");
    reveal_strlit("cond_br");
    reveal_strlit("select");
    reveal_strlit("mul");
    reveal_strlit("call");
    reveal_strlit("and");
    reveal_strlit("void");
    reveal_strlit("i8");
    reveal_strlit("ptr");
    reveal_strlit("gep");
    reveal_strlit("store");
    reveal_strlit("load");
    reveal_strlit("gt");
    reveal_strlit("entry");
    reveal_strlit("xor");
    reveal_strlit("cast");
    reveal_strlit("i16");
    reveal_strlit("true");
    reveal_strlit("ret");
    reveal_strlit("param");
    reveal_strlit("sub");
    reveal_strlit("alloca");
    reveal_strlit("br");
    reveal_strlit("i64");
    reveal_strlit("loc");
    reveal_strlit("sext");
    reveal_strlit("func");
    reveal_strlit("const");
    reveal_strlit("lshr");
    reveal_strlit("ashr");
    reveal_strlit("sair");
    reveal_strlit("or");
    reveal_strlit("false");
    reveal_strlit("div");
    reveal_strlit("bitcast");
    reveal_strlit("inttoptr");
    reveal_strlit("i1");
    reveal_strlit("shl");
    reveal_strlit("block");
    reveal_strlit("phi");
    reveal_strlit("zext");
    reveal_strlit("lt");
    assert("zext"@[0] != "sair"@[0]);
    assert("zext"@.len() != "entry"@.len());
    assert("zext"@[0] != "func"@[0]);
    assert("zext"@.len() != "param"@.len());
    assert("zext"@.len() != "block"@.len());
    assert("zext"@.len() != "const"@.len());
    assert("zext"@.len() != "add"@.len());
    assert("zext"@.len() != "sub"@.len());
    assert("zext"@.len() != "mul"@.len());
    assert("zext"@.len() != "div"@.len());
    assert("zext"@.len() != "rem"@.len());
    assert("zext"@.len() != "and"@.len());
    assert("zext"@.len() != "or"@.len());
    assert("zext"@.len() != "xor"@.len());
    assert("zext"@.len() != "shl"@.len());
    assert("zext"@[0] != "lshr"@[0]);
    assert("zext"@[0] != "ashr"@[0]);
    assert("zext"@.len() != "eq"@.len());
    assert("zext"@.len() != "lt"@.len());
    assert("zext"@.len() != "gt"@.len());
    assert("zext"@.len() != "alloca"@.len());
    assert("zext"@[0] != "load"@[0]);
    assert("zext"@.len() != "store"@.len());
    assert("zext"@[0] != "call"@[0]);
    assert("zext"@.len() != "phi"@.len());
    assert("zext"@.len() != "gep"@.len());
    assert("zext"@[0] != "cast"@[0]);
    assert("zext"@.len() != "select"@.len());
    assert("zext"@.len() != "br"@.len());
    assert("zext"@.len() != "cond_br"@.len());
    assert("zext"@.len() != "ret"@.len());
    assert("zext"@.len() != "unreachable"@.len());
    assert("sext"@[1] != "sair"@[1]);
    assert("sext"@.len() != "entry"@.len());
    assert("sext"@[0] != "func"@[0]);
    assert("sext"@.len() != "param"@.len());
    assert("sext"@.len() != "block"@.len());
    assert("sext"@.len() != "const"@.len());
    assert("sext"@.len() != "add"@.len());
    assert("sext"@.len() != "sub"@.len());
    assert("sext"@.len() != "mul"@.len());
    assert("sext"@.len() != "div"@.len());
    assert("sext"@.len() != "rem"@.len());
    assert("sext"@.len() != "and"@.len());
    assert("sext"@.len() != "or"@.len());
    assert("sext"@.len() != "xor"@.len());
    assert("sext"@.len() != "shl"@.len());
    assert("sext"@[0] != "lshr"@[0]);
    assert("sext"@[0] != "ashr"@[0]);
    assert("sext"@.len() != "eq"@.len());
    assert("sext"@.len() != "lt"@.len());
    assert("sext"@.len() != "gt"@.len());
    assert("sext"@.len() != "alloca"@.len());
    assert("sext"@[0] != "load"@[0]);
    assert("sext"@.len() != "store"@.len());
    assert("sext"@[0] != "call"@[0]);
    assert("sext"@.len() != "phi"@.len());
    assert("sext"@.len() != "gep"@.len());
    assert("sext"@[0] != "cast"@[0]);
    assert("sext"@.len() != "select"@.len());
    assert("sext"@.len() != "br"@.len());
    assert("sext"@.len() != "cond_br"@.len());
    assert("sext"@.len() != "ret"@.len());
    assert("sext"@.len() != "unreachable"@.len());
    assert("sext"@[0] != "zext"@[0]);
    assert("trunc"@.len() != "sair"@.len());
    assert("trunc"@[0] != "entry"@[0]);
    assert("trunc"@.len() != "func"@.len());
    assert("trunc"@[0] != "param"@[0]);
    assert("trunc"@[0] != "block"@[0]);
    assert("trunc"@[0] != "const"@[0]);
    assert("trunc"@.len() != "add"@.len());
    assert("trunc"@.len() != "sub"@.len());
    assert("trunc"@.len() != "mul"@.len());
    assert("trunc"@.len() != "div"@.len());
    assert("trunc"@.len() != "rem"@.len());
    assert("trunc"@.len() != "and"@.len());
    assert("trunc"@.len() != "or"@.len());
    assert("trunc"@.len() != "xor"@.len());
    assert("trunc"@.len() != "shl"@.len());
    assert("trunc"@.len() != "lshr"@.len());
    assert("trunc"@.len() != "ashr"@.len());
    assert("trunc"@.len() != "eq"@.len());
    assert("trunc"@.len() != "lt"@.len());
    assert("trunc"@.len() != "gt"@.len());
    assert("trunc"@.len() != "alloca"@.len());
    assert("trunc"@.len() != "load"@.len());
    assert("trunc"@[0] != "store"@[0]);
    assert("trunc"@.len() != "call"@.len());
    assert("trunc"@.len() != "phi"@.len());
    assert("trunc"@.len() != "gep"@.len());
    assert("trunc"@.len() != "cast"@.len());
    assert("trunc"@.len() != "select"@.len());
    assert("trunc"@.len() != "br"@.len());
    assert("trunc"@.len() != "cond_br"@.len());
    assert("trunc"@.len() != "ret"@.len());
    assert("trunc"@.len() != "unreachable"@.len());
    assert("trunc"@.len() != "zext"@.len());
    assert("trunc"@.len() != "sext"@.len());
    assert("bitcast"@.len() != "sair"@.len());
    assert("bitcast"@.len() != "entry"@.len());
    assert("bitcast"@.len() != "func"@.len());
    assert("bitcast"@.len() != "param"@.len());
    assert("bitcast"@.len() != "block"@.len());
    assert("bitcast"@.len() != "const"@.len());
    assert("bitcast"@.len() != "add"@.len());
    assert("bitcast"@.len() != "sub"@.len());
    assert("bitcast"@.len() != "mul"@.len());
    assert("bitcast"@.len() != "div"@.len());
    assert("bitcast"@.len() != "rem"@.len());
    assert("bitcast"@.len() != "and"@.len());
    assert("bitcast"@.len() != "or"@.len());
    assert("bitcast"@.len() != "xor"@.len());
    assert("bitcast"@.len() != "shl"@.len());
    assert("bitcast"@.len() != "lshr"@.len());
    assert("bitcast"@.len() != "ashr"@.len());
    assert("bitcast"@.len() != "eq"@.len());
    assert("bitcast"@.len() != "lt"@.len());
    assert("bitcast"@.len() != "gt"@.len());
    assert("bitcast"@.len() != "alloca"@.len());
    assert("bitcast"@.len() != "load"@.len());
    assert("bitcast"@.len() != "store"@.len());
    assert("bitcast"@.len() != "call"@.len());
    assert("bitcast"@.len() != "phi"@.len());
    assert("bitcast"@.len() != "gep"@.len());
    assert("bitcast"@.len() != "cast"@.len());
    assert("bitcast"@.len() != "select"@.len());
    assert("bitcast"@.len() != "br"@.len());
    assert("bitcast"@[0] != "cond_br"@[0]);
    assert("bitcast"@.len() != "ret"@.len());
    assert("bitcast"@.len() != "unreachable"@.len());
    assert("bitcast"@.len() != "zext"@.len());
    assert("bitcast"@.len() != "sext"@.len());
    assert("bitcast"@.len() != "trunc"@.len());
    assert("ptrtoint"@.len() != "sair"@.len());
    assert("ptrtoint"@.len() != "entry"@.len());
    assert("ptrtoint"@.len() != "func"@.len());
    assert("ptrtoint"@.len() != "param"@.len());
    assert("ptrtoint"@.len() != "block"@.len());
    assert("ptrtoint"@.len() != "const"@.len());
    assert("ptrtoint"@.len() != "add"@.len());
    assert("ptrtoint"@.len() != "sub"@.len());
    assert("ptrtoint"@.len() != "mul"@.len());
    assert("ptrtoint"@.len() != "div"@.len());
    assert("ptrtoint"@.len() != "rem"@.len());
    assert("ptrtoint"@.len() != "and"@.len());
    assert("ptrtoint"@.len() != "or"@.len());
    assert("ptrtoint"@.len() != "xor"@.len());
    assert("ptrtoint"@.len() != "shl"@.len());
    assert("ptrtoint"@.len() != "lshr"@.len());
    assert("ptrtoint"@.len() != "ashr"@.len());
    assert("ptrtoint"@.len() != "eq"@.len());
    assert("ptrtoint"@.len() != "lt"@.len());
    assert("ptrtoint"@.len() != "gt"@.len());
    assert("ptrtoint"@.len() != "alloca"@.len());
    assert("ptrtoint"@.len() != "load"@.len());
    assert("ptrtoint"@.len() != "store"@.len());
    assert("ptrtoint"@.len() != "call"@.len());
    assert("ptrtoint"@.len() != "phi"@.len());
    assert("ptrtoint"@.len() != "gep"@.len());
    assert("ptrtoint"@.len() != "cast"@.len());
    assert("ptrtoint"@.len() != "select"@.len());
    assert("ptrtoint"@.len() != "br"@.len());
    assert("ptrtoint"@.len() != "cond_br"@.len());
    assert("ptrtoint"@.len() != "ret"@.len());
    assert("ptrtoint"@.len() != "unreachable"@.len());
    assert("ptrtoint"@.len() != "zext"@.len());
    assert("ptrtoint"@.len() != "sext"@.len());
    assert("ptrtoint"@.len() != "trunc"@.len());
    assert("ptrtoint"@.len() != "bitcast"@.len());
    assert("inttoptr"@.len() != "sair"@.len());
    assert("inttoptr"@.len() != "entry"@.len());
    assert("inttoptr"@.len() != "func"@.len());
    assert("inttoptr"@.len() != "param"@.len());
    assert("inttoptr"@.len() != "block"@.len());
    assert("inttoptr"@.len() != "const"@.len());
    assert("inttoptr"@.len() != "add"@.len());
    assert("inttoptr"@.len() != "sub"@.len());
    assert("inttoptr"@.len() != "mul"@.len());
    assert("inttoptr"@.len() != "div"@.len());
    assert("inttoptr"@.len() != "rem"@.len());
    assert("inttoptr"@.len() != "and"@.len());
    assert("inttoptr"@.len() != "or"@.len());
    assert("inttoptr"@.len() != "xor"@.len());
    assert("inttoptr"@.len() != "shl"@.len());
    assert("inttoptr"@.len() != "lshr"@.len());
    assert("inttoptr"@.len() != "ashr"@.len());
    assert("inttoptr"@.len() != "eq"@.len());
    assert("inttoptr"@.len() != "lt"@.len());
    assert("inttoptr"@.len() != "gt"@.len());
    assert("inttoptr"@.len() != "alloca"@.len());
    assert("inttoptr"@.len() != "load"@.len());
    assert("inttoptr"@.len() != "store"@.len());
    assert("inttoptr"@.len() != "call"@.len());
    assert("inttoptr"@.len() != "phi"@.len());
    assert("inttoptr"@.len() != "gep"@.len());
    assert("inttoptr"@.len() != "cast"@.len());
    assert("inttoptr"@.len() != "select"@.len());
    assert("inttoptr"@.len() != "br"@.len());
    assert("inttoptr"@.len() != "cond_br"@.len());
    assert("inttoptr"@.len() != "ret"@.len());
    assert("inttoptr"@.len() != "unreachable"@.len());
    assert("inttoptr"@.len() != "zext"@.len());
    assert("inttoptr"@.len() != "sext"@.len());
    assert("inttoptr"@.len() != "trunc"@.len());
    assert("inttoptr"@.len() != "bitcast"@.len());
    assert("inttoptr"@[0] != "ptrtoint"@[0]);
}

/// The cast operator a token names.
pub open spec fn token_cast_op(k: TokenKind) -> Option<CastOp> {
    match k {
        TokenKind::KwZext => Some(CastOp::Zext),
        TokenKind::KwSext => Some(CastOp::Sext),
        TokenKind::KwTrunc => Some(CastOp::Trunc),
        TokenKind::KwBitcast => Some(CastOp::Bitcast),
        TokenKind::KwPtrToInt => Some(CastOp::PtrToInt),
        TokenKind::KwIntToPtr => Some(CastOp::IntToPtr),
        _ => None,
    }
}

/// Token `t` spells a constant of type `ty`: `true`, `false` or a number
/// for `i1`, a number for the other integer types and `f64`.
pub open spec fn constant_token(ty: IrType, t: Token) -> bool {
    match ty {
        IrType::I1 => t.kind == TokenKind::KwTrue || t.kind == TokenKind::KwFalse || t.kind == TokenKind::Number,
        IrType::I8 | IrType::I16 | IrType::I32 | IrType::I64 | IrType::F64 => t.kind == TokenKind::Number,
        _ => false,
    }
}

/// The tokens from `q` on are `<type> %a, %b` with both locals mapped by
/// `vm`.
pub open spec fn typed_pair_at(ts: Seq<Token>, q: int, vm: Seq<(ValueId, ValueId)>) -> bool {
    &&& q + 3 < ts.len()
    &&& token_type(ts[q].kind) is Some
    &&& ref_at(ts, q + 1, vm) is Some
    &&& ts[q + 2].kind == TokenKind::Comma
    &&& ref_at(ts, q + 3, vm) is Some
}

/// What reading the instruction whose opcode token is `ts[p]` gives, under
/// value map `vm`, when the function being built in `b0` has room for
/// another value: for `const`, the binary operations, `cast`, `select`,
/// `alloca`, `load`, `store`, a `call` without arguments, a `phi` with one
/// incoming value and a `gep` with one index, the tokens
/// that each needs give success, `b1` is `b0` with the instruction they
/// spell appended to the current block, and `fp` is the position after
/// them.
pub open spec fn instruction_read(
    ts: Seq<Token>,
    p: int,
    vm: Seq<(ValueId, ValueId)>,
    b0: IrBuilder,
    b1: IrBuilder,
    r: Result<Option<ValueId>, TextIrError>,
    fp: int,
) -> bool {
    let q = p + 1;
    match ts[p].kind {
        TokenKind::KwConst => const_read(ts, q, b0, b1, r, fp),
        TokenKind::KwCast => cast_read(ts, q, vm, b0, b1, r, fp),
        TokenKind::KwSelect => select_read(ts, q, vm, b0, b1, r, fp),
        TokenKind::KwAlloca => alloca_read(ts, q, b0, b1, r, fp),
        TokenKind::KwLoad => load_read(ts, q, vm, b0, b1, r, fp),
        TokenKind::KwStore => store_read(ts, q, vm, b0, b1, r, fp),
        TokenKind::KwCall => call_read(ts, q, b1, r, fp),
        TokenKind::KwPhi => phi_read(ts, q, vm, b0, b1, r, fp),
        TokenKind::KwGep => gep_read(ts, q, vm, b0, b1, r, fp),
        k => binop_type_kind(k) ==> binop_read(k, ts, q, vm, b0, b1, r, fp),
    }
}

/// `const <type> <constant>` from `q` on (see [`instruction_read`]).
pub open spec fn const_read(ts: Seq<Token>, q: int, b0: IrBuilder, b1: IrBuilder, r: Result<Option<ValueId>, TextIrError>, fp: int) -> bool {
    (q + 1 < ts.len() && token_type(ts[q].kind) is Some && constant_token(token_type(ts[q].kind)->0, ts[q + 1])) ==> ({
        let c = constant_of(token_type(ts[q].kind)->0, ts[q + 1]);
        r matches Ok(Some(id)) && fp == q + 2 && appended_value(b0, b1, Instruction::Const(c), constant_type(c), id)
    })
}

/// A binary operation `<type> %a, %b` from `q` on (see
/// [`instruction_read`]).
pub open spec fn binop_read(
    k: TokenKind,
    ts: Seq<Token>,
    q: int,
    vm: Seq<(ValueId, ValueId)>,
    b0: IrBuilder,
    b1: IrBuilder,
    r: Result<Option<ValueId>, TextIrError>,
    fp: int,
) -> bool {
    typed_pair_at(ts, q, vm) ==> ({
        let ty = token_type(ts[q].kind)->0;
        r matches Ok(Some(id)) && fp == q + 4 && appended_value(
            b0,
            b1,
            binop_instruction(k, ty, ref_at(ts, q + 1, vm)->0, ref_at(ts, q + 3, vm)->0),
            binop_type(k, ty),
            id,
        )
    })
}

/// `cast <op> <type> <type> %v` from `q` on (see [`instruction_read`]).
pub open spec fn cast_read(
    ts: Seq<Token>,
    q: int,
    vm: Seq<(ValueId, ValueId)>,
    b0: IrBuilder,
    b1: IrBuilder,
    r: Result<Option<ValueId>, TextIrError>,
    fp: int,
) -> bool {
    (q + 3 < ts.len() && token_cast_op(ts[q].kind) is Some && token_type(ts[q + 1].kind) is Some && token_type(
        ts[q + 2].kind,
    ) is Some && ref_at(ts, q + 3, vm) is Some) ==> ({
        let to_ty = token_type(ts[q + 2].kind)->0;
        r matches Ok(Some(id)) && fp == q + 4 && appended_value(
            b0,
            b1,
            Instruction::Cast {
                op: token_cast_op(ts[q].kind)->0,
                from_ty: token_type(ts[q + 1].kind)->0,
                to_ty,
                value: ref_at(ts, q + 3, vm)->0,
            },
            to_ty,
            id,
        )
    })
}

/// `select <type> %c, %t, %e` from `q` on (see [`instruction_read`]).
pub open spec fn select_read(
    ts: Seq<Token>,
    q: int,
    vm: Seq<(ValueId, ValueId)>,
    b0: IrBuilder,
    b1: IrBuilder,
    r: Result<Option<ValueId>, TextIrError>,
    fp: int,
) -> bool {
    (typed_pair_at(ts, q, vm) && q + 5 < ts.len() && ts[q + 4].kind == TokenKind::Comma && ref_at(ts, q + 5, vm)
        is Some) ==> ({
        let ty = token_type(ts[q].kind)->0;
        r matches Ok(Some(id)) && fp == q + 6 && appended_value(
            b0,
            b1,
            Instruction::Select {
                ty,
                condition: ref_at(ts, q + 1, vm)->0,
                then_value: ref_at(ts, q + 3, vm)->0,
                else_value: ref_at(ts, q + 5, vm)->0,
            },
            ty,
            id,
        )
    })
}

/// `alloca <type>` or `alloca <type>, <count>` from `q` on (see
/// [`instruction_read`]).
pub open spec fn alloca_read(ts: Seq<Token>, q: int, b0: IrBuilder, b1: IrBuilder, r: Result<Option<ValueId>, TextIrError>, fp: int) -> bool {
    &&& (q + 1 < ts.len() && token_type(ts[q].kind) is Some && ts[q + 1].kind != TokenKind::Comma) ==> (r matches Ok(
        Some(id),
    ) && fp == q + 1 && appended_value(
        b0,
        b1,
        Instruction::Alloca { ty: token_type(ts[q].kind)->0, count: 1 },
        IrType::Pointer,
        id,
    ))
    &&& (q + 2 < ts.len() && token_type(ts[q].kind) is Some && ts[q + 1].kind == TokenKind::Comma && ts[q
        + 2].kind == TokenKind::Number) ==> (r matches Ok(Some(id)) && fp == q + 3 && appended_value(
        b0,
        b1,
        Instruction::Alloca { ty: token_type(ts[q].kind)->0, count: ts[q + 2].number as u32 },
        IrType::Pointer,
        id,
    ))
}

/// `load <type> %a` from `q` on (see [`instruction_read`]).
pub open spec fn load_read(
    ts: Seq<Token>,
    q: int,
    vm: Seq<(ValueId, ValueId)>,
    b0: IrBuilder,
    b1: IrBuilder,
    r: Result<Option<ValueId>, TextIrError>,
    fp: int,
) -> bool {
    (q + 1 < ts.len() && token_type(ts[q].kind) is Some && ref_at(ts, q + 1, vm) is Some) ==> ({
        let ty = token_type(ts[q].kind)->0;
        r matches Ok(Some(id)) && fp == q + 2 && appended_value(
            b0,
            b1,
            Instruction::Load { ty, addr: ref_at(ts, q + 1, vm)->0 },
            ty,
            id,
        )
    })
}

/// `store <type> %v, %a` from `q` on (see [`instruction_read`]).
pub open spec fn store_read(
    ts: Seq<Token>,
    q: int,
    vm: Seq<(ValueId, ValueId)>,
    b0: IrBuilder,
    b1: IrBuilder,
    r: Result<Option<ValueId>, TextIrError>,
    fp: int,
) -> bool {
    typed_pair_at(ts, q, vm) ==> (r matches Ok(None) && fp == q + 4 && appended(
        b0,
        b1,
        Instruction::Store {
            ty: token_type(ts[q].kind)->0,
            value: ref_at(ts, q + 1, vm)->0,
            addr: ref_at(ts, q + 3, vm)->0,
        },
        b0.current_function().values@,
        b0.current_function().next_id(),
    ))
}

/// The tokens from `q` on are `<type> [ "<label>", %v ]` with `%v` mapped
/// by `vm`, and a token that is no comma follows.
pub open spec fn phi_shape(ts: Seq<Token>, q: int, vm: Seq<(ValueId, ValueId)>) -> bool {
    &&& 0 <= q
    &&& q + 6 < ts.len()
    &&& token_type(ts[q].kind) is Some
    &&& ts[q + 1].kind == TokenKind::LBracket
    &&& ts[q + 2].kind == TokenKind::Str
    &&& ts[q + 3].kind == TokenKind::Comma
    &&& ref_at(ts, q + 4, vm) is Some
    &&& ts[q + 5].kind == TokenKind::RBracket
    &&& ts[q + 6].kind != TokenKind::Comma
}

/// `phi <type> [ "<label>", %v ]` from `q` on (see [`instruction_read`]).
pub open spec fn phi_read(
    ts: Seq<Token>,
    q: int,
    vm: Seq<(ValueId, ValueId)>,
    b0: IrBuilder,
    b1: IrBuilder,
    r: Result<Option<ValueId>, TextIrError>,
    fp: int,
) -> bool {
    phi_shape(ts, q, vm) ==> ({
        let ty = token_type(ts[q].kind)->0;
        r matches Ok(Some(id)) && fp == q + 6 && (last_instruction(b1) matches Instruction::Phi { ty: t, incoming }
            && t == ty && incoming@.len() == 1 && incoming@[0].0 == ref_at(ts, q + 4, vm)->0 && incoming@[0].1@
            == ts[q + 2].text@) && appended_value(b0, b1, last_instruction(b1), ty, id)
    })
}

/// The gep index at `p` and the position after it: `field <n>` or a local
/// that `vm` maps.
pub open spec fn gep_index_at(ts: Seq<Token>, p: int, vm: Seq<(ValueId, ValueId)>) -> Option<(GepIndex, int)> {
    if ts[p].kind == TokenKind::KwField {
        if p + 1 < ts.len() && ts[p + 1].kind == TokenKind::Number {
            Some((GepIndex::StructField(ts[p + 1].number as u32), p + 2))
        } else {
            None
        }
    } else if ref_at(ts, p, vm) is Some {
        Some((GepIndex::Dynamic(ref_at(ts, p, vm)->0), p + 1))
    } else {
        None
    }
}

/// The tokens from `q` on are `<type> %base, <index>` with one index and
/// `%base` mapped by `vm`, and a token that is no comma follows.
pub open spec fn gep_shape(ts: Seq<Token>, q: int, vm: Seq<(ValueId, ValueId)>) -> bool {
    &&& 0 <= q
    &&& q + 3 < ts.len()
    &&& token_type(ts[q].kind) is Some
    &&& ref_at(ts, q + 1, vm) is Some
    &&& ts[q + 2].kind == TokenKind::Comma
    &&& gep_index_at(ts, q + 3, vm) is Some
    &&& (gep_index_at(ts, q + 3, vm)->0).1 < ts.len()
    &&& ts[(gep_index_at(ts, q + 3, vm)->0).1].kind != TokenKind::Comma
}

/// `gep <type> %base, <index>` from `q` on (see [`instruction_read`]).
pub open spec fn gep_read(
    ts: Seq<Token>,
    q: int,
    vm: Seq<(ValueId, ValueId)>,
    b0: IrBuilder,
    b1: IrBuilder,
    r: Result<Option<ValueId>, TextIrError>,
    fp: int,
) -> bool {
    gep_shape(ts, q, vm) ==> ({
        let (idx, e) = gep_index_at(ts, q + 3, vm)->0;
        r matches Ok(Some(id)) && fp == e && (last_instruction(b1) matches Instruction::Gep {
            result_ty,
            elem_ty,
            base,
            indices,
        } && result_ty == IrType::Pointer && elem_ty == token_type(ts[q].kind)->0 && base == ref_at(ts, q + 1, vm)->0
            && indices@ == seq![idx]) && appended_value(b0, b1, last_instruction(b1), IrType::Pointer, id)
    })
}

/// `call <type> @f()` from `q` on (see [`instruction_read`]).
pub open spec fn call_read(ts: Seq<Token>, q: int, b1: IrBuilder, r: Result<Option<ValueId>, TextIrError>, fp: int) -> bool {
    (q + 3 < ts.len() && token_type(ts[q].kind) is Some && ts[q + 1].kind == TokenKind::Global && ts[q + 2].kind
        == TokenKind::LParen && ts[q + 3].kind == TokenKind::RParen) ==> (r is Ok && fp == q + 4 && (last_instruction(
        b1,
    ) matches Instruction::Call { return_ty, callee, args } && return_ty == token_type(ts[q].kind)->0 && callee@
        == ts[q + 1].text@ && args@.len() == 0))
}

/// The binary-operation opcode tokens.
pub open spec fn binop_type_kind(k: TokenKind) -> bool {
    k == TokenKind::KwAdd || k == TokenKind::KwSub || k == TokenKind::KwMul || k == TokenKind::KwDiv || k
        == TokenKind::KwRem || k == TokenKind::KwAnd || k == TokenKind::KwOr || k == TokenKind::KwXor || k
        == TokenKind::KwShl || k == TokenKind::KwLshr || k == TokenKind::KwAshr || k == TokenKind::KwEq || k
        == TokenKind::KwLt || k == TokenKind::KwGt
}

/// The tokens that may start a terminator.
spec fn is_terminator_kind(k: TokenKind) -> bool {
    k == TokenKind::KwBr || k == TokenKind::KwCondBr || k == TokenKind::KwRet || k == TokenKind::KwUnreachable
}

/// The constant of type `ty` that token `t` spells.
pub open spec fn constant_of(ty: IrType, t: Token) -> Constant {
    match ty {
        IrType::I1 => if t.kind == TokenKind::KwTrue {
            Constant::I1(true)
        } else if t.kind == TokenKind::KwFalse {
            Constant::I1(false)
        } else {
            Constant::I1(t.number != 0)
        },
        IrType::I8 => Constant::I8(t.number as u8),
        IrType::I16 => Constant::I16(t.number as u16),
        IrType::I32 => Constant::I32(t.number as u32),
        IrType::I64 => Constant::I64(t.number),
        _ => Constant::F64(t.number),
    }
}

/// Local tokens carry only decimal digits.
spec fn local_tokens_digits(ts: Seq<Token>) -> bool {
    forall|i: int, k: int|
        0 <= i < ts.len() && ts[i].kind == TokenKind::Local && 0 <= k < ts[i].text@.len() ==> is_digit_spec(
            #[trigger] ts[i].text@[k],
        )
}

/// The number a local's digits give, when there are some and it fits an
/// id.
pub open spec fn local_value(text: Seq<char>) -> Option<ValueId> {
    if text.len() > 0 && crate::llvm::chars::digits_value(text) <= usize::MAX {
        Some(crate::llvm::chars::digits_value(text) as ValueId)
    } else {
        None
    }
}

/// The id the latest entry for `key` maps to.
/// The builder id that local token `p` of `ts` stands for under value map
/// `vm`, if it is a local with a number that the map holds.
pub open spec fn ref_at(ts: Seq<Token>, p: int, vm: Seq<(ValueId, ValueId)>) -> Option<ValueId> {
    if ts[p].kind == TokenKind::Local && local_value(ts[p].text@) is Some {
        map_lookup(vm, local_value(ts[p].text@)->0)
    } else {
        None
    }
}

/// The instruction that binary opcode `op` builds (a `gt` for any other
/// token).
pub open spec fn binop_instruction(op: TokenKind, ty: IrType, lhs: ValueId, rhs: ValueId) -> Instruction {
    match op {
        TokenKind::KwAdd => Instruction::Add { ty, lhs, rhs },
        TokenKind::KwSub => Instruction::Sub { ty, lhs, rhs },
        TokenKind::KwMul => Instruction::Mul { ty, lhs, rhs },
        TokenKind::KwDiv => Instruction::Div { ty, lhs, rhs },
        TokenKind::KwRem => Instruction::Rem { ty, lhs, rhs },
        TokenKind::KwAnd => Instruction::And { ty, lhs, rhs },
        TokenKind::KwOr => Instruction::Or { ty, lhs, rhs },
        TokenKind::KwXor => Instruction::Xor { ty, lhs, rhs },
        TokenKind::KwShl => Instruction::Shl { ty, lhs, rhs },
        TokenKind::KwLshr => Instruction::Lshr { ty, lhs, rhs },
        TokenKind::KwAshr => Instruction::Ashr { ty, lhs, rhs },
        TokenKind::KwEq => Instruction::Eq { ty, lhs, rhs },
        TokenKind::KwLt => Instruction::Lt { ty, lhs, rhs },
        _ => Instruction::Gt { ty, lhs, rhs },
    }
}

/// The type of the value binary opcode `op` on operands of type `ty`
/// defines: `i1` for the comparisons.
pub open spec fn binop_type(op: TokenKind, ty: IrType) -> IrType {
    match op {
        TokenKind::KwAdd | TokenKind::KwSub | TokenKind::KwMul | TokenKind::KwDiv | TokenKind::KwRem | TokenKind::KwAnd
        | TokenKind::KwOr | TokenKind::KwXor | TokenKind::KwShl | TokenKind::KwLshr | TokenKind::KwAshr => ty,
        _ => IrType::I1,
    }
}

pub open spec fn map_lookup(m: Seq<(ValueId, ValueId)>, key: ValueId) -> Option<ValueId>
    decreases m.len(),
{
    if m.len() == 0 {
        None
    } else if m.last().0 == key {
        Some(m.last().1)
    } else {
        map_lookup(m.drop_last(), key)
    }
}

fn lookup(m: &Vec<(ValueId, ValueId)>, key: ValueId) -> (r: Option<ValueId>)
    ensures
        r == map_lookup(m@, key),
{
    let mut i: usize = m.len();
    proof {
        assert(m@.subrange(0, m@.len() as int) =~= m@);
    }
    while i > 0
        invariant
            i <= m@.len(),
            map_lookup(m@, key) == map_lookup(m@.subrange(0, i as int), key),
        decreases i,
    {
        let ghost prefix = m@.subrange(0, i as int);
        proof {
            assert(prefix.drop_last() =~= m@.subrange(0, i - 1));
        }
        if m[i - 1].0 == key {
            return Some(m[i - 1].1);
        }
        i = i - 1;
    }
    proof {
        assert(m@.subrange(0, 0) =~= Seq::<(ValueId, ValueId)>::empty());
    }
    None
}

} // verus!
