//! Tokens of the SAIR text format.

use vstd::prelude::*;

use crate::ir::text::error::TextIrError;
use crate::llvm::chars::{
    hex_digit_value, hex_value, is_alphabetic, is_alphanumeric, is_digit, is_digit_spec, is_hex_digit,
    is_hex_spec, is_whitespace, parse_digits, str_equal, digits_value, unicode_alphabetic,
    unicode_alphanumeric, unicode_whitespace,
};
use crate::llvm::lexer::{collect_chars, string_of, ws_scan};
use crate::strings::{owned, push_char, push_str};

verus! {

/// The kinds of SAIR tokens. Keywords and type names have their own kinds;
/// quoted strings and bare words are `Str`.
#[derive(Debug, Clone, Copy, PartialEq, Eq, Structural)]
pub enum TokenKind {
    KwSair,
    KwEntry,
    KwFunc,
    KwParam,
    KwBlock,
    KwConst,
    KwAdd,
    KwSub,
    KwMul,
    KwDiv,
    KwRem,
    KwAnd,
    KwOr,
    KwXor,
    KwShl,
    KwLshr,
    KwAshr,
    KwEq,
    KwLt,
    KwGt,
    KwAlloca,
    KwLoad,
    KwStore,
    KwCall,
    KwPhi,
    KwGep,
    KwCast,
    KwSelect,
    KwBr,
    KwCondBr,
    KwRet,
    KwUnreachable,
    KwZext,
    KwSext,
    KwTrunc,
    KwBitcast,
    KwPtrToInt,
    KwIntToPtr,
    KwVoid,
    KwTrue,
    KwFalse,
    KwField,
    KwLoc,
    TyI1,
    TyI8,
    TyI16,
    TyI32,
    TyI64,
    TyF64,
    TyPtr,
    Str,
    Number,
    Version,
    Global,
    Local,
    Arrow,
    Bang,
    Colon,
    Comma,
    Equals,
    LParen,
    RParen,
    LBrace,
    RBrace,
    LBracket,
    RBracket,
    Eof,
}

/// A token: its kind, its text (the string, version, name or digits it
/// carries) and, for a number, its value.
pub struct Token {
    pub kind: TokenKind,
    pub text: String,
    pub number: u64,
}

/// The kind of a bare word: its keyword or type kind, else `Str`.
pub open spec fn word_kind(w: Seq<char>) -> TokenKind {
    if w == "sair"@ { TokenKind::KwSair }
    else if w == "entry"@ { TokenKind::KwEntry }
    else if w == "func"@ { TokenKind::KwFunc }
    else if w == "param"@ { TokenKind::KwParam }
    else if w == "block"@ { TokenKind::KwBlock }
    else if w == "const"@ { TokenKind::KwConst }
    else if w == "add"@ { TokenKind::KwAdd }
    else if w == "sub"@ { TokenKind::KwSub }
    else if w == "mul"@ { TokenKind::KwMul }
    else if w == "div"@ { TokenKind::KwDiv }
    else if w == "rem"@ { TokenKind::KwRem }
    else if w == "and"@ { TokenKind::KwAnd }
    else if w == "or"@ { TokenKind::KwOr }
    else if w == "xor"@ { TokenKind::KwXor }
    else if w == "shl"@ { TokenKind::KwShl }
    else if w == "lshr"@ { TokenKind::KwLshr }
    else if w == "ashr"@ { TokenKind::KwAshr }
    else if w == "eq"@ { TokenKind::KwEq }
    else if w == "lt"@ { TokenKind::KwLt }
    else if w == "gt"@ { TokenKind::KwGt }
    else if w == "alloca"@ { TokenKind::KwAlloca }
    else if w == "load"@ { TokenKind::KwLoad }
    else if w == "store"@ { TokenKind::KwStore }
    else if w == "call"@ { TokenKind::KwCall }
    else if w == "phi"@ { TokenKind::KwPhi }
    else if w == "gep"@ { TokenKind::KwGep }
    else if w == "cast"@ { TokenKind::KwCast }
    else if w == "select"@ { TokenKind::KwSelect }
    else if w == "br"@ { TokenKind::KwBr }
    else if w == "cond_br"@ { TokenKind::KwCondBr }
    else if w == "ret"@ { TokenKind::KwRet }
    else if w == "unreachable"@ { TokenKind::KwUnreachable }
    else if w == "zext"@ { TokenKind::KwZext }
    else if w == "sext"@ { TokenKind::KwSext }
    else if w == "trunc"@ { TokenKind::KwTrunc }
    else if w == "bitcast"@ { TokenKind::KwBitcast }
    else if w == "ptrtoint"@ { TokenKind::KwPtrToInt }
    else if w == "inttoptr"@ { TokenKind::KwIntToPtr }
    else if w == "void"@ { TokenKind::KwVoid }
    else if w == "true"@ { TokenKind::KwTrue }
    else if w == "false"@ { TokenKind::KwFalse }
    else if w == "field"@ { TokenKind::KwField }
    else if w == "loc"@ { TokenKind::KwLoc }
    else if w == "i1"@ { TokenKind::TyI1 }
    else if w == "i8"@ { TokenKind::TyI8 }
    else if w == "i16"@ { TokenKind::TyI16 }
    else if w == "i32"@ { TokenKind::TyI32 }
    else if w == "i64"@ { TokenKind::TyI64 }
    else if w == "f64"@ { TokenKind::TyF64 }
    else if w == "ptr"@ { TokenKind::TyPtr }
    else { TokenKind::Str }
}

/// The kind of a bare word (see [`word_kind`]).
fn word_kind_of(w: &str) -> (k: TokenKind)
    ensures
        k == word_kind(w@),
{
    if str_equal(w, "sair") { TokenKind::KwSair }
    else if str_equal(w, "entry") { TokenKind::KwEntry }
    else if str_equal(w, "func") { TokenKind::KwFunc }
    else if str_equal(w, "param") { TokenKind::KwParam }
    else if str_equal(w, "block") { TokenKind::KwBlock }
    else if str_equal(w, "const") { TokenKind::KwConst }
    else if str_equal(w, "add") { TokenKind::KwAdd }
    else if str_equal(w, "sub") { TokenKind::KwSub }
    else if str_equal(w, "mul") { TokenKind::KwMul }
    else if str_equal(w, "div") { TokenKind::KwDiv }
    else if str_equal(w, "rem") { TokenKind::KwRem }
    else if str_equal(w, "and") { TokenKind::KwAnd }
    else if str_equal(w, "or") { TokenKind::KwOr }
    else if str_equal(w, "xor") { TokenKind::KwXor }
    else if str_equal(w, "shl") { TokenKind::KwShl }
    else if str_equal(w, "lshr") { TokenKind::KwLshr }
    else if str_equal(w, "ashr") { TokenKind::KwAshr }
    else if str_equal(w, "eq") { TokenKind::KwEq }
    else if str_equal(w, "lt") { TokenKind::KwLt }
    else if str_equal(w, "gt") { TokenKind::KwGt }
    else if str_equal(w, "alloca") { TokenKind::KwAlloca }
    else if str_equal(w, "load") { TokenKind::KwLoad }
    else if str_equal(w, "store") { TokenKind::KwStore }
    else if str_equal(w, "call") { TokenKind::KwCall }
    else if str_equal(w, "phi") { TokenKind::KwPhi }
    else if str_equal(w, "gep") { TokenKind::KwGep }
    else if str_equal(w, "cast") { TokenKind::KwCast }
    else if str_equal(w, "select") { TokenKind::KwSelect }
    else if str_equal(w, "br") { TokenKind::KwBr }
    else if str_equal(w, "cond_br") { TokenKind::KwCondBr }
    else if str_equal(w, "ret") { TokenKind::KwRet }
    else if str_equal(w, "unreachable") { TokenKind::KwUnreachable }
    else if str_equal(w, "zext") { TokenKind::KwZext }
    else if str_equal(w, "sext") { TokenKind::KwSext }
    else if str_equal(w, "trunc") { TokenKind::KwTrunc }
    else if str_equal(w, "bitcast") { TokenKind::KwBitcast }
    else if str_equal(w, "ptrtoint") { TokenKind::KwPtrToInt }
    else if str_equal(w, "inttoptr") { TokenKind::KwIntToPtr }
    else if str_equal(w, "void") { TokenKind::KwVoid }
    else if str_equal(w, "true") { TokenKind::KwTrue }
    else if str_equal(w, "false") { TokenKind::KwFalse }
    else if str_equal(w, "field") { TokenKind::KwField }
    else if str_equal(w, "loc") { TokenKind::KwLoc }
    else if str_equal(w, "i1") { TokenKind::TyI1 }
    else if str_equal(w, "i8") { TokenKind::TyI8 }
    else if str_equal(w, "i16") { TokenKind::TyI16 }
    else if str_equal(w, "i32") { TokenKind::TyI32 }
    else if str_equal(w, "i64") { TokenKind::TyI64 }
    else if str_equal(w, "f64") { TokenKind::TyF64 }
    else if str_equal(w, "ptr") { TokenKind::TyPtr }
    else { TokenKind::Str }
}

/// The value of a run of hexadecimal digits.
pub open spec fn hex_run_value(s: Seq<char>) -> nat
    decreases s.len(),
{
    if s.len() == 0 {
        0
    } else {
        hex_run_value(s.drop_last()) * 16 + hex_value(s.last())
    }
}

/// The number a run of hexadecimal digits denotes: its value when the run
/// is non-empty and the value fits in `u64`, else zero.
pub open spec fn hex_number(s: Seq<char>) -> u64 {
    if s.len() > 0 && hex_run_value(s) <= u64::MAX {
        hex_run_value(s) as u64
    } else {
        0
    }
}

proof fn lemma_hex_grow(s: Seq<char>, k: int)
    requires
        0 < k <= s.len(),
        forall|i: int| 0 <= i < s.len() ==> is_hex_spec(#[trigger] s[i]),
    ensures
        hex_run_value(s.take(k)) <= hex_run_value(s),
    decreases s.len() - k,
{
    if k < s.len() {
        lemma_hex_grow(s, k + 1);
        assert(s.take(k + 1).drop_last() =~= s.take(k));
    } else {
        assert(s.take(k) =~= s);
    }
}

/// The number the hexadecimal digits `chars[start..end]` denote.
fn parse_hex(chars: &Vec<char>, start: usize, end: usize) -> (v: u64)
    requires
        start <= end <= chars@.len(),
        forall|i: int| start <= i < end ==> is_hex_spec(#[trigger] chars@[i]),
    ensures
        v == hex_number(chars@.subrange(start as int, end as int)),
{
    let ghost run = chars@.subrange(start as int, end as int);
    if start == end {
        return 0;
    }
    let mut v: u64 = 0;
    let mut i: usize = start;
    while i < end
        invariant
            start <= i <= end <= chars@.len(),
            start < end,
            run == chars@.subrange(start as int, end as int),
            forall|k: int| start <= k < end ==> is_hex_spec(#[trigger] chars@[k]),
            v == hex_run_value(run.take(i - start)),
        decreases end - i,
    {
        assert(run.take(i - start + 1).drop_last() =~= run.take(i - start));
        assert(run[i - start] == chars@[i as int]);
        let d = hex_digit_value(chars[i]) as u64;
        if v > (u64::MAX - d) / 16 {
            proof {
                assert forall|k: int| 0 <= k < run.len() implies is_hex_spec(#[trigger] run[k]) by {
                    assert(run[k] == chars@[start + k]);
                }
                lemma_hex_grow(run, i - start + 1);
                assert(hex_run_value(run.take(i - start + 1)) > u64::MAX) by (nonlinear_arith)
                    requires
                        hex_run_value(run.take(i - start + 1)) == v * 16 + d,
                        v > (u64::MAX - d) / 16,
                        d < 16;
            }
            return 0;
        }
        assert(v * 16 + d <= u64::MAX) by (nonlinear_arith)
            requires
                v <= (u64::MAX - d) / 16,
                d < 16;
        v = v * 16 + d;
        i = i + 1;
    }
    assert(run.take(end - start) =~= run);
    v
}

/// The SAIR lexer: the input characters and the position of the next one.
pub struct Lexer {
    pub chars: Vec<char>,
    pub pos: usize,
}

/// A name character of a global (`@name`).
pub open spec fn global_char(c: char) -> bool {
    unicode_alphanumeric(c) || c == '_' || c == '-' || c == '.'
}

/// A character of a bare word.
pub open spec fn word_char(c: char) -> bool {
    unicode_alphanumeric(c) || c == '_' || c == '-'
}

impl Lexer {
    pub open spec fn wf(&self) -> bool {
        self.pos <= self.chars@.len()
    }

    pub fn new(input: &str) -> (r: Self)
        ensures
            r.wf(),
            r.chars@ == input@,
            r.pos == 0,
    {
        Lexer { chars: collect_chars(input), pos: 0 }
    }

    pub fn peek_char(&self) -> (r: Option<char>)
        requires
            self.wf(),
        ensures
            self.pos < self.chars@.len() ==> r == Some(self.chars@[self.pos as int]),
            self.pos >= self.chars@.len() ==> r is None,
    {
        if self.pos < self.chars.len() {
            Some(self.chars[self.pos])
        } else {
            None
        }
    }

    pub fn advance_char(&mut self)
        requires
            old(self).wf(),
        ensures
            final(self).wf(),
            final(self).chars == old(self).chars,
            old(self).pos < old(self).chars@.len() ==> final(self).pos == old(self).pos + 1,
            old(self).pos >= old(self).chars@.len() ==> final(self).pos == old(self).pos,
    {
        if self.pos < self.chars.len() {
            self.pos = self.pos + 1;
        }
    }

    /// Skip whitespace and `;` comments, each running to the end of its
    /// line; stops at the end or at a character that starts a token.
    pub fn skip_whitespace_and_comments(&mut self)
        requires
            old(self).wf(),
        ensures
            final(self).wf(),
            final(self).chars == old(self).chars,
            final(self).pos >= old(self).pos,
            final(self).pos < final(self).chars@.len() ==> !unicode_whitespace(
                final(self).chars@[final(self).pos as int],
            ) && final(self).chars@[final(self).pos as int] != ';',
            final(self).pos == ws_scan(old(self).chars@, old(self).pos as int, false),
    {
        let ghost target = ws_scan(self.chars@, self.pos as int, false);
        while self.pos < self.chars.len()
            invariant
                self.wf(),
                self.chars == old(self).chars,
                self.pos >= old(self).pos,
                ws_scan(self.chars@, self.pos as int, false) == target,
                target == ws_scan(old(self).chars@, old(self).pos as int, false),
            decreases self.chars@.len() - self.pos,
        {
            let c = self.chars[self.pos];
            if is_whitespace(c) {
                self.pos = self.pos + 1;
            } else if c == ';' {
                let ghost p0 = self.pos;
                self.pos = self.pos + 1;
                while self.pos < self.chars.len()
                    invariant_except_break
                        ws_scan(self.chars@, self.pos as int, true) == target,
                    invariant
                        self.wf(),
                        self.chars == old(self).chars,
                        self.pos >= old(self).pos,
                        self.pos > p0,
                        target == ws_scan(old(self).chars@, old(self).pos as int, false),
                    ensures
                        self.wf(),
                        self.chars == old(self).chars,
                        self.pos >= old(self).pos,
                        self.pos > p0,
                        ws_scan(self.chars@, self.pos as int, false) == target,
                    decreases self.chars@.len() - self.pos,
                {
                    let d = self.chars[self.pos];
                    let ghost p1 = self.pos as int;
                    self.pos = self.pos + 1;
                    if d == '\n' {
                        proof {
                            assert(('\n' as u32) == 0x0A);
                            assert(unicode_whitespace(self.chars@[p1]));
                            assert(ws_scan(self.chars@, p1, true) == ws_scan(self.chars@, p1, false));
                        }
                        break;
                    }
                }
            } else {
                return ;
            }
        }
    }

    /// Read a quoted string whose opening quote is the next character;
    /// `\"` and `\\` are its only escapes.
    pub fn read_string(&mut self) -> (r: Result<Token, TextIrError>)
        requires
            old(self).wf(),
            old(self).pos < old(self).chars@.len(),
        ensures
            final(self).wf(),
            final(self).chars == old(self).chars,
            final(self).pos > old(self).pos,
            r matches Ok(t) ==> t.kind == TokenKind::Str,
            r matches Err(e) ==> e is Parse,
            match quoted_from(old(self).chars@, old(self).pos + 1, seq![]) {
                Some((body, e)) => r matches Ok(t) && t.text@ == body && t.number == 0 && final(self).pos == e,
                None => r is Err,
            },
    {
        let ghost goal = quoted_from(self.chars@, self.pos + 1, seq![]);
        self.advance_char();
        let mut s = String::new();
        loop
            invariant_except_break
                quoted_from(self.chars@, self.pos as int, s@) == goal,
            invariant
                self.wf(),
                self.chars == old(self).chars,
                self.pos > old(self).pos,
                goal == quoted_from(old(self).chars@, old(self).pos + 1, seq![]),
            ensures
                self.wf(),
                self.chars == old(self).chars,
                self.pos > old(self).pos,
                goal == Some((s@, self.pos as int)),
            decreases self.chars@.len() - self.pos,
        {
            match self.peek_char() {
                Some('"') => {
                    self.advance_char();
                    break;
                },
                Some('\\') => {
                    self.advance_char();
                    match self.peek_char() {
                        Some('"') => push_char(&mut s, '"'),
                        Some('\\') => push_char(&mut s, '\\'),
                        Some(c) => {
                            let mut msg = owned("bad escape: \\");
                            push_char(&mut msg, c);
                            return Err(TextIrError::Parse(msg));
                        },
                        None => {
                            return Err(TextIrError::Parse(owned("unterminated string")));
                        },
                    }
                    self.advance_char();
                },
                Some(c) => {
                    push_char(&mut s, c);
                    self.advance_char();
                },
                None => {
                    return Err(TextIrError::Parse(owned("unterminated string")));
                },
            }
        }
        Ok(Token { kind: TokenKind::Str, text: s, number: 0 })
    }

    /// Advance over the characters satisfying `class` (0: decimal digit,
    /// 1: hexadecimal digit, 2: word character, 3: global name character).
    fn skip_class(&mut self, class: u8)
        requires
            old(self).wf(),
        ensures
            final(self).wf(),
            final(self).chars == old(self).chars,
            final(self).pos >= old(self).pos,
            forall|i: int|
                old(self).pos <= i < final(self).pos ==> in_class(class, #[trigger] final(self).chars@[i]),
            final(self).pos < final(self).chars@.len() ==> !in_class(class, final(self).chars@[final(self).pos as int]),
            final(self).pos == class_end(old(self).chars@, old(self).pos as int, class),
    {
        while self.pos < self.chars.len()
            invariant
                self.wf(),
                self.chars == old(self).chars,
                self.pos >= old(self).pos,
                forall|i: int| old(self).pos <= i < self.pos ==> in_class(class, #[trigger] self.chars@[i]),
            decreases self.chars@.len() - self.pos,
        {
            let c = self.chars[self.pos];
            let member = if class == 0 {
                is_digit(c)
            } else if class == 1 {
                is_hex_digit(c)
            } else if class == 2 {
                is_alphanumeric(c) || c == '_' || c == '-'
            } else {
                is_alphanumeric(c) || c == '_' || c == '-' || c == '.'
            };
            if !member {
                proof {
                    lemma_class_end(self.chars@, old(self).pos as int, self.pos as int, class);
                }
                return ;
            }
            self.pos = self.pos + 1;
        }
        proof {
            lemma_class_end(self.chars@, old(self).pos as int, self.pos as int, class);
        }
    }

    /// Read a number whose first digit is the next character: decimal, `0x`
    /// hexadecimal, or a version `0.n`. A number too large for `u64`, or a
    /// `0x` without digits, reads as zero.
    pub fn read_number(&mut self) -> (t: Token)
        requires
            old(self).wf(),
            old(self).pos < old(self).chars@.len(),
            is_digit_spec(old(self).chars@[old(self).pos as int]),
        ensures
            final(self).wf(),
            final(self).chars == old(self).chars,
            final(self).pos > old(self).pos,
            t.kind == TokenKind::Number || t.kind == TokenKind::Version,
            (t.kind, t.text@, t.number, final(self).pos as int) == number_at(old(self).chars@, old(self).pos as int),
    {
        proof {
            reveal_strlit("0.");
        }
        let start = self.pos;
        if self.chars[self.pos] == '0' {
            self.advance_char();
            match self.peek_char() {
                Some('x') | Some('X') => {
                    self.advance_char();
                    let hex_start = self.pos;
                    self.skip_class(1);
                    let val = parse_hex(&self.chars, hex_start, self.pos);
                    return Token { kind: TokenKind::Number, text: string_of(&self.chars, start, self.pos), number: val };
                },
                Some('.') => {
                    self.advance_char();
                    let rest_start = self.pos;
                    self.skip_class(0);
                    let mut v = owned("0.");
                    let rest = string_of(&self.chars, rest_start, self.pos);
                    push_str(&mut v, rest.as_str());
                    return Token { kind: TokenKind::Version, text: v, number: 0 };
                },
                _ => {},
            }
        }
        let from = self.pos;
        proof {
            assert(from == start || (from == start + 1 && self.chars@[start as int] == '0'));
        }
        self.skip_class(0);
        proof {
            if from > start {
                assert(class_end(self.chars@, start as int, 0) == class_end(self.chars@, from as int, 0));
            }
            assert forall|i: int| start <= i < self.pos implies is_digit_spec(#[trigger] self.chars@[i]) by {
                if i >= from {
                    assert(in_class(0, self.chars@[i]));
                }
            }
        }
        let val = match parse_digits(&self.chars, start, self.pos) {
            Some(v) => v,
            None => 0,
        };
        Token { kind: TokenKind::Number, text: string_of(&self.chars, start, self.pos), number: val }
    }

    /// Read a bare word whose first character is the next one: a keyword,
    /// a type name, or else a `Str` token.
    pub fn read_word(&mut self) -> (t: Token)
        requires
            old(self).wf(),
            old(self).pos < old(self).chars@.len(),
            unicode_alphabetic(old(self).chars@[old(self).pos as int]) || old(self).chars@[old(self).pos as int] == '_',
        ensures
            final(self).wf(),
            final(self).chars == old(self).chars,
            final(self).pos > old(self).pos,
            t.text@ == old(self).chars@.subrange(old(self).pos as int, final(self).pos as int),
            t.kind == word_kind(t.text@),
            final(self).pos == class_end(old(self).chars@, old(self).pos as int, 2),
            t.number == 0,
    {
        let start = self.pos;
        let first_is_alphanumeric = is_alphanumeric(self.chars[start]);
        self.skip_class(2);
        let word = string_of(&self.chars, start, self.pos);
        let kind = word_kind_of(word.as_str());
        Token { kind, text: word, number: 0 }
    }

    /// Read `@name`.
    pub fn read_global(&mut self) -> (t: Token)
        requires
            old(self).wf(),
            old(self).pos < old(self).chars@.len(),
        ensures
            final(self).wf(),
            final(self).chars == old(self).chars,
            final(self).pos > old(self).pos,
            t.kind == TokenKind::Global,
            t.text@ == old(self).chars@.subrange(old(self).pos + 1, final(self).pos as int),
            final(self).pos == class_end(old(self).chars@, old(self).pos + 1, 3),
            t.number == 0,
            forall|i: int| 0 <= i < t.text@.len() ==> global_char(#[trigger] t.text@[i]),
    {
        self.advance_char();
        let start = self.pos;
        self.skip_class(3);
        let name = string_of(&self.chars, start, self.pos);
        proof {
            assert forall|i: int| 0 <= i < name@.len() implies global_char(#[trigger] name@[i]) by {
                assert(name@[i] == self.chars@[start + i]);
                assert(in_class(3, self.chars@[start + i]));
            }
        }
        Token { kind: TokenKind::Global, text: name, number: 0 }
    }

    /// Read `%digits`.
    pub fn read_local(&mut self) -> (t: Token)
        requires
            old(self).wf(),
            old(self).pos < old(self).chars@.len(),
        ensures
            final(self).wf(),
            final(self).chars == old(self).chars,
            final(self).pos > old(self).pos,
            t.kind == TokenKind::Local,
            t.text@ == old(self).chars@.subrange(old(self).pos + 1, final(self).pos as int),
            final(self).pos == class_end(old(self).chars@, old(self).pos + 1, 0),
            t.number == 0,
            forall|i: int| 0 <= i < t.text@.len() ==> is_digit_spec(#[trigger] t.text@[i]),
    {
        self.advance_char();
        let start = self.pos;
        self.skip_class(0);
        let digits = string_of(&self.chars, start, self.pos);
        proof {
            assert forall|i: int| 0 <= i < digits@.len() implies is_digit_spec(#[trigger] digits@[i]) by {
                assert(digits@[i] == self.chars@[start + i]);
                assert(in_class(0, self.chars@[start + i]));
            }
        }
        Token { kind: TokenKind::Local, text: digits, number: 0 }
    }

    fn punct(&mut self, kind: TokenKind) -> (r: Result<Token, TextIrError>)
        requires
            old(self).wf(),
            old(self).pos < old(self).chars@.len(),
        ensures
            final(self).wf(),
            final(self).chars == old(self).chars,
            final(self).pos == old(self).pos + 1,
            r matches Ok(t) && t.kind == kind && t.text@.len() == 0 && t.number == 0,
    {
        self.advance_char();
        Ok(Token { kind, text: String::new(), number: 0 })
    }

    /// The next token; `Eof` once only whitespace and comments remain.
    pub fn next_token(&mut self) -> (r: Result<Token, TextIrError>)
        requires
            old(self).wf(),
        ensures
            final(self).wf(),
            final(self).chars == old(self).chars,
            final(self).pos >= old(self).pos,
            r matches Ok(t) && t.kind == TokenKind::Eof ==> final(self).pos == final(self).chars@.len(),
            r matches Ok(t) && t.kind != TokenKind::Eof ==> final(self).pos > old(self).pos,
            r matches Ok(t) ==> (t.kind == TokenKind::Local ==> forall|k: int|
                0 <= k < t.text@.len() ==> is_digit_spec(#[trigger] t.text@[k])),
            r matches Err(e) ==> e is Parse,
            match sair_token_at(old(self).chars@, old(self).pos as int) {
                Some((k, text, n, e)) => r matches Ok(t) && t.kind == k && t.text@ == text && t.number == n
                    && final(self).pos == e,
                None => r is Err,
            },
    {
        self.skip_whitespace_and_comments();
        match self.peek_char() {
            None => Ok(Token { kind: TokenKind::Eof, text: String::new(), number: 0 }),
            Some(c) => {
                if c == '"' {
                    self.read_string()
                } else if c == '@' {
                    Ok(self.read_global())
                } else if c == '%' {
                    Ok(self.read_local())
                } else if c == '-' {
                    self.advance_char();
                    if self.peek_char() == Some('>') {
                        self.advance_char();
                        Ok(Token { kind: TokenKind::Arrow, text: String::new(), number: 0 })
                    } else {
                        Err(TextIrError::Parse(owned("expected '->'")))
                    }
                } else if c == ':' {
                    self.punct(TokenKind::Colon)
                } else if c == ',' {
                    self.punct(TokenKind::Comma)
                } else if c == '=' {
                    self.punct(TokenKind::Equals)
                } else if c == '!' {
                    self.punct(TokenKind::Bang)
                } else if c == '(' {
                    self.punct(TokenKind::LParen)
                } else if c == ')' {
                    self.punct(TokenKind::RParen)
                } else if c == '{' {
                    self.punct(TokenKind::LBrace)
                } else if c == '}' {
                    self.punct(TokenKind::RBrace)
                } else if c == '[' {
                    self.punct(TokenKind::LBracket)
                } else if c == ']' {
                    self.punct(TokenKind::RBracket)
                } else if is_digit(c) {
                    Ok(self.read_number())
                } else if is_alphabetic(c) || c == '_' {
                    Ok(self.read_word())
                } else {
                    let mut msg = owned("unexpected character: ");
                    push_char(&mut msg, c);
                    Err(TextIrError::Parse(msg))
                }
            },
        }
    }
}

/// Membership in a character class of [`Lexer::skip_class`].
pub open spec fn in_class(class: u8, c: char) -> bool {
    if class == 0 {
        is_digit_spec(c)
    } else if class == 1 {
        is_hex_spec(c)
    } else if class == 2 {
        word_char(c)
    } else {
        global_char(c)
    }
}

/// The end of the run of characters of class `class` (see [`in_class`])
/// starting at `p`.
pub open spec fn class_end(cs: Seq<char>, p: int, class: u8) -> int
    decreases cs.len() - p,
{
    if p < 0 || p >= cs.len() || !in_class(class, cs[p]) {
        p
    } else {
        class_end(cs, p + 1, class)
    }
}

/// A maximal run of class `class` from `p` ends at `e`.
proof fn lemma_class_end(cs: Seq<char>, p: int, e: int, class: u8)
    requires
        0 <= p <= e <= cs.len(),
        forall|i: int| p <= i < e ==> in_class(class, #[trigger] cs[i]),
        e < cs.len() ==> !in_class(class, cs[e]),
    ensures
        class_end(cs, p, class) == e,
    decreases e - p,
{
    if p < e {
        lemma_class_end(cs, p + 1, e, class);
    }
}

/// The body of a quoted string read from `p` on, after the characters `acc`
/// already read, and the position after its closing quote; `None` when the
/// input ends first or an escape other than `\"` and `\\` occurs.
pub open spec fn quoted_from(cs: Seq<char>, p: int, acc: Seq<char>) -> Option<(Seq<char>, int)>
    decreases cs.len() - p,
{
    if p < 0 || p >= cs.len() {
        None
    } else if cs[p] == '"' {
        Some((acc, p + 1))
    } else if cs[p] == '\\' {
        if p + 1 < cs.len() && (cs[p + 1] == '"' || cs[p + 1] == '\\') {
            quoted_from(cs, p + 2, acc.push(cs[p + 1]))
        } else {
            None
        }
    } else {
        quoted_from(cs, p + 1, acc.push(cs[p]))
    }
}

/// The punctuation kind a single character stands for.
pub open spec fn punct_kind(c: char) -> Option<TokenKind> {
    if c == ':' {
        Some(TokenKind::Colon)
    } else if c == ',' {
        Some(TokenKind::Comma)
    } else if c == '=' {
        Some(TokenKind::Equals)
    } else if c == '!' {
        Some(TokenKind::Bang)
    } else if c == '(' {
        Some(TokenKind::LParen)
    } else if c == ')' {
        Some(TokenKind::RParen)
    } else if c == '{' {
        Some(TokenKind::LBrace)
    } else if c == '}' {
        Some(TokenKind::RBrace)
    } else if c == '[' {
        Some(TokenKind::LBracket)
    } else if c == ']' {
        Some(TokenKind::RBracket)
    } else {
        None
    }
}

/// The number token (kind, text, value) whose first digit is at `q`, and
/// the position after it: `0x` and hexadecimal digits, a version `0.`
/// and digits, or decimal digits; a value too large for `u64` reads as zero.
pub open spec fn number_at(cs: Seq<char>, q: int) -> (TokenKind, Seq<char>, u64, int) {
    if cs[q] == '0' && q + 1 < cs.len() && (cs[q + 1] == 'x' || cs[q + 1] == 'X') {
        let e = class_end(cs, q + 2, 1);
        (TokenKind::Number, cs.subrange(q, e), hex_number(cs.subrange(q + 2, e)), e)
    } else if cs[q] == '0' && q + 1 < cs.len() && cs[q + 1] == '.' {
        let e = class_end(cs, q + 2, 0);
        (TokenKind::Version, seq!['0', '.'] + cs.subrange(q + 2, e), 0, e)
    } else {
        let e = class_end(cs, q, 0);
        let run = cs.subrange(q, e);
        (TokenKind::Number, run, if digits_value(run) <= u64::MAX {
            digits_value(run) as u64
        } else {
            0
        }, e)
    }
}

/// The token (kind, text, value) the SAIR text `cs` holds at `p` after
/// whitespace and comments, and the position after it; `None` where no
/// token can be read there.
pub open spec fn sair_token_at(cs: Seq<char>, p: int) -> Option<(TokenKind, Seq<char>, u64, int)> {
    let q = ws_scan(cs, p, false);
    if q >= cs.len() {
        Some((TokenKind::Eof, seq![], 0, cs.len() as int))
    } else {
        let c = cs[q];
        if c == '"' {
            match quoted_from(cs, q + 1, seq![]) {
                Some((s, e)) => Some((TokenKind::Str, s, 0, e)),
                None => None,
            }
        } else if c == '@' {
            let e = class_end(cs, q + 1, 3);
            Some((TokenKind::Global, cs.subrange(q + 1, e), 0, e))
        } else if c == '%' {
            let e = class_end(cs, q + 1, 0);
            Some((TokenKind::Local, cs.subrange(q + 1, e), 0, e))
        } else if c == '-' {
            if q + 1 < cs.len() && cs[q + 1] == '>' {
                Some((TokenKind::Arrow, seq![], 0, q + 2))
            } else {
                None
            }
        } else if punct_kind(c) is Some {
            Some((punct_kind(c)->0, seq![], 0, q + 1))
        } else if is_digit_spec(c) {
            Some(number_at(cs, q))
        } else if unicode_alphabetic(c) || c == '_' {
            let e = class_end(cs, q, 2);
            Some((word_kind(cs.subrange(q, e)), cs.subrange(q, e), 0, e))
        } else {
            None
        }
    }
}

/// A token as its kind, text and value.
pub open spec fn token_view(t: Token) -> (TokenKind, Seq<char>, u64) {
    (t.kind, t.text@, t.number)
}

/// Each token as its kind, text and value (see [`token_view`]).
pub open spec fn token_views(ts: Seq<Token>) -> Seq<(TokenKind, Seq<char>, u64)> {
    ts.map_values(|t: Token| token_view(t))
}

/// The tokens of the SAIR text `cs` from position `p` on, ending with
/// `Eof`; `None` when some position holds no token.
pub open spec fn sair_tokens_from(cs: Seq<char>, p: int) -> Option<Seq<(TokenKind, Seq<char>, u64)>>
    decreases cs.len() - p,
{
    match sair_token_at(cs, p) {
        None => None,
        Some((k, s, n, e)) => if k == TokenKind::Eof {
            Some(seq![(k, s, n)])
        } else if p < e <= cs.len() {
            match sair_tokens_from(cs, e) {
                Some(rest) => Some(seq![(k, s, n)] + rest),
                None => None,
            }
        } else {
            None
        },
    }
}

/// The tokens of `input`, ending with `Eof`.
pub fn tokenize(input: &str) -> (r: Result<Vec<Token>, TextIrError>)
    ensures
        r matches Ok(ts) ==> ts@.len() > 0 && ts@.last().kind == TokenKind::Eof && forall|i: int|
            0 <= i < ts@.len() - 1 ==> #[trigger] ts@[i].kind != TokenKind::Eof,
        r matches Ok(ts) ==> forall|i: int, k: int|
            0 <= i < ts@.len() && ts@[i].kind == TokenKind::Local && 0 <= k < ts@[i].text@.len() ==> is_digit_spec(
                #[trigger] ts@[i].text@[k],
            ),
        r matches Err(e) ==> e is Parse,
        match sair_tokens_from(input@, 0) {
            Some(s) => r matches Ok(ts) && token_views(ts@) == s,
            None => r is Err,
        },
{
    let mut lexer = Lexer::new(input);
    let mut tokens: Vec<Token> = Vec::new();
    loop
        invariant
            lexer.wf(),
            lexer.chars@ == input@,
            sair_tokens_from(input@, 0) == match sair_tokens_from(input@, lexer.pos as int) {
                Some(rest) => Some(token_views(tokens@) + rest),
                None => None::<Seq<(TokenKind, Seq<char>, u64)>>,
            },
            forall|i: int| 0 <= i < tokens@.len() ==> #[trigger] tokens@[i].kind != TokenKind::Eof,
            forall|i: int, k: int|
                0 <= i < tokens@.len() && tokens@[i].kind == TokenKind::Local && 0 <= k < tokens@[i].text@.len()
                    ==> is_digit_spec(#[trigger] tokens@[i].text@[k]),
        decreases lexer.chars@.len() - lexer.pos,
    {
        let ghost before = lexer.pos;
        let ghost prev = tokens@;
        let t = lexer.next_token()?;
        let ghost tv = token_view(t);
        if t.kind == TokenKind::Eof {
            tokens.push(t);
            proof {
                assert(token_views(tokens@) =~= token_views(prev)
                    + seq![tv]);
            }
            return Ok(tokens);
        }
        tokens.push(t);
        proof {
            assert(token_views(tokens@) =~= token_views(prev)
                + seq![tv]);
            match sair_tokens_from(input@, lexer.pos as int) {
                Some(rest) => {
                    assert(seq![tv] + rest =~= sair_tokens_from(input@, before as int)->0);
                    assert(token_views(prev) + (seq![tv] + rest) =~= token_views(tokens@) + rest);
                },
                None => {},
            }
        }
    }
}

} // verus!
