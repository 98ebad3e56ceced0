//! Tokens of LLVM textual IR and the lexer that produces them.

use vstd::prelude::*;

use crate::llvm::chars::{
    char_low_byte, digits_value, hex_digit_value, hex_value, is_alphabetic, is_alphanumeric,
    is_digit, is_digit_spec, is_hex_digit, is_hex_spec, is_whitespace, parse_digits, str_equal,
    unicode_alphabetic, unicode_alphanumeric, unicode_whitespace,
};
use crate::strings::push_char;

verus! {

/// The characters of `s`, in order.
pub fn collect_chars(s: &str) -> (v: Vec<char>)
    ensures
        v@ == s@,
{
    broadcast use vstd::string::group_string_axioms;

    let mut chars: Vec<char> = Vec::new();
    for c in it: s.chars()
        invariant
            chars@.len() == it.index(),
            forall|i: int| 0 <= i < chars@.len() ==> chars@[i] == it.seq()[i],
    {
        chars.push(c);
    }
    assert(chars@ =~= s@);
    chars
}

/// A token of LLVM textual IR.
#[derive(Debug, Clone, PartialEq)]
pub enum Token {
    Define,
    Declare,
    I1,
    I8,
    I16,
    I32,
    Ptr,
    Void,
    True,
    False,
    /// A named block label header (`entry:`).
    Label(String),
    /// A numeric block label header (`13:`): a digit run directly followed by
    /// a colon.
    NumLabel(String),
    GlobalId(String),
    LocalId(String),
    Number(i64),
    OpenBrace,
    CloseBrace,
    OpenParen,
    CloseParen,
    OpenBracket,
    CloseBracket,
    Comma,
    Equals,
    Ident(String),
    /// A `c"…"` string literal, decoded to its raw bytes.
    StringLiteral(Vec<u8>),
    EqPred,
    NePred,
    SltPred,
    SgtPred,
    SlePred,
    SgePred,
    Eof,
}

/// Two tokens are the same: same kind and same text or value.
pub open spec fn token_eq(a: Token, b: Token) -> bool {
    match (a, b) {
        (Token::Label(x), Token::Label(y)) => x@ == y@,
        (Token::NumLabel(x), Token::NumLabel(y)) => x@ == y@,
        (Token::GlobalId(x), Token::GlobalId(y)) => x@ == y@,
        (Token::LocalId(x), Token::LocalId(y)) => x@ == y@,
        (Token::Ident(x), Token::Ident(y)) => x@ == y@,
        (Token::Number(x), Token::Number(y)) => x == y,
        (Token::StringLiteral(x), Token::StringLiteral(y)) => x@ == y@,
        (Token::Label(_), _) | (Token::NumLabel(_), _) | (Token::GlobalId(_), _) | (
            Token::LocalId(_),
            _,
        ) | (Token::Ident(_), _) | (Token::Number(_), _) | (Token::StringLiteral(_), _) => false,
        (_, Token::Label(_)) | (_, Token::NumLabel(_)) | (_, Token::GlobalId(_)) | (
            _,
            Token::LocalId(_),
        ) | (_, Token::Ident(_)) | (_, Token::Number(_)) | (_, Token::StringLiteral(_)) => false,
        _ => a == b,
    }
}

/// The token is an identifier with text `w`.
pub open spec fn is_ident(t: Token, w: Seq<char>) -> bool {
    t matches Token::Ident(s) && s@ == w
}

/// Characters that may continue an identifier or a global/local name.
pub open spec fn name_char(c: char) -> bool {
    unicode_alphanumeric(c) || c == '_' || c == '-' || c == '.'
}

/// Whether two tokens are the same (see [`token_eq`]).
pub fn same_token(a: &Token, b: &Token) -> (r: bool)
    ensures
        r == token_eq(*a, *b),
{
    match (a, b) {
        (Token::Label(x), Token::Label(y)) => *x == *y,
        (Token::NumLabel(x), Token::NumLabel(y)) => *x == *y,
        (Token::GlobalId(x), Token::GlobalId(y)) => *x == *y,
        (Token::LocalId(x), Token::LocalId(y)) => *x == *y,
        (Token::Ident(x), Token::Ident(y)) => *x == *y,
        (Token::Number(x), Token::Number(y)) => *x == *y,
        (Token::StringLiteral(x), Token::StringLiteral(y)) => bytes_equal(x, y),
        (Token::Define, Token::Define) => true,
        (Token::Declare, Token::Declare) => true,
        (Token::I1, Token::I1) => true,
        (Token::I8, Token::I8) => true,
        (Token::I16, Token::I16) => true,
        (Token::I32, Token::I32) => true,
        (Token::Ptr, Token::Ptr) => true,
        (Token::Void, Token::Void) => true,
        (Token::True, Token::True) => true,
        (Token::False, Token::False) => true,
        (Token::OpenBrace, Token::OpenBrace) => true,
        (Token::CloseBrace, Token::CloseBrace) => true,
        (Token::OpenParen, Token::OpenParen) => true,
        (Token::CloseParen, Token::CloseParen) => true,
        (Token::OpenBracket, Token::OpenBracket) => true,
        (Token::CloseBracket, Token::CloseBracket) => true,
        (Token::Comma, Token::Comma) => true,
        (Token::Equals, Token::Equals) => true,
        (Token::EqPred, Token::EqPred) => true,
        (Token::NePred, Token::NePred) => true,
        (Token::SltPred, Token::SltPred) => true,
        (Token::SgtPred, Token::SgtPred) => true,
        (Token::SlePred, Token::SlePred) => true,
        (Token::SgePred, Token::SgePred) => true,
        (Token::Eof, Token::Eof) => true,
        _ => false,
    }
}

fn bytes_equal(x: &Vec<u8>, y: &Vec<u8>) -> (r: bool)
    ensures
        r == (x@ == y@),
{
    if x.len() != y.len() {
        return false;
    }
    let mut i: usize = 0;
    while i < x.len()
        invariant
            x@.len() == y@.len(),
            i <= x@.len(),
            forall|j: int| 0 <= j < i ==> x@[j] == y@[j],
        decreases x.len() - i,
    {
        if x[i] != y[i] {
            return false;
        }
        i = i + 1;
    }
    assert(x@ =~= y@);
    true
}

/// The text of `chars[start..end]` as a string.
pub fn string_of(chars: &Vec<char>, start: usize, end: usize) -> (s: String)
    requires
        start <= end <= chars@.len(),
    ensures
        s@ == chars@.subrange(start as int, end as int),
{
    let mut s = String::new();
    let mut i = start;
    while i < end
        invariant
            start <= i <= end <= chars@.len(),
            s@ == chars@.subrange(start as int, i as int),
        decreases end - i,
    {
        push_char(&mut s, chars[i]);
        i = i + 1;
        assert(s@ =~= chars@.subrange(start as int, i as int));
    }
    s
}

/// The keyword token a word stands for, or `Ident(word)`.
pub open spec fn word_token_matches(word: Seq<char>, t: Token) -> bool {
    if word == "define"@ {
        t == Token::Define
    } else if word == "declare"@ {
        t == Token::Declare
    } else if word == "i1"@ {
        t == Token::I1
    } else if word == "i8"@ {
        t == Token::I8
    } else if word == "i16"@ {
        t == Token::I16
    } else if word == "i32"@ {
        t == Token::I32
    } else if word == "ptr"@ {
        t == Token::Ptr
    } else if word == "void"@ {
        t == Token::Void
    } else if word == "true"@ {
        t == Token::True
    } else if word == "false"@ {
        t == Token::False
    } else if word == "eq"@ {
        t == Token::EqPred
    } else if word == "ne"@ {
        t == Token::NePred
    } else if word == "slt"@ {
        t == Token::SltPred
    } else if word == "sgt"@ {
        t == Token::SgtPred
    } else if word == "sle"@ {
        t == Token::SlePred
    } else if word == "sge"@ {
        t == Token::SgePred
    } else {
        is_ident(t, word)
    }
}

fn word_token(word: String) -> (t: Token)
    ensures
        word_token_matches(word@, t),
{
    let w = word.as_str();
    if str_equal(w, "define") {
        Token::Define
    } else if str_equal(w, "declare") {
        Token::Declare
    } else if str_equal(w, "i1") {
        Token::I1
    } else if str_equal(w, "i8") {
        Token::I8
    } else if str_equal(w, "i16") {
        Token::I16
    } else if str_equal(w, "i32") {
        Token::I32
    } else if str_equal(w, "ptr") {
        Token::Ptr
    } else if str_equal(w, "void") {
        Token::Void
    } else if str_equal(w, "true") {
        Token::True
    } else if str_equal(w, "false") {
        Token::False
    } else if str_equal(w, "eq") {
        Token::EqPred
    } else if str_equal(w, "ne") {
        Token::NePred
    } else if str_equal(w, "slt") {
        Token::SltPred
    } else if str_equal(w, "sgt") {
        Token::SgtPred
    } else if str_equal(w, "sle") {
        Token::SlePred
    } else if str_equal(w, "sge") {
        Token::SgePred
    } else {
        Token::Ident(word)
    }
}

/// The value of `-<mag>` wrapped into `i64`.
pub open spec fn negated(mag: nat) -> int {
    if mag <= 0x8000_0000_0000_0000 {
        -(mag as int)
    } else {
        0x1_0000_0000_0000_0000 - mag
    }
}

fn negate_magnitude(mag: u64) -> (v: i64)
    ensures
        v == negated(mag as nat),
{
    if mag == 0x8000_0000_0000_0000u64 {
        i64::MIN
    } else if mag < 0x8000_0000_0000_0000u64 {
        -(mag as i64)
    } else {
        (0xffff_ffff_ffff_ffffu64 - mag + 1) as i64
    }
}

/// The position after the whitespace and `;` comments starting at `p` (a
/// comment, entered when `in_comment`, runs up to its line's end).
pub open spec fn ws_scan(cs: Seq<char>, p: int, in_comment: bool) -> int
    decreases cs.len() - p, if in_comment {
        1int
    } else {
        0int
    },
{
    if p < 0 || p >= cs.len() {
        p
    } else if in_comment {
        if cs[p] == '\n' {
            ws_scan(cs, p, false)
        } else {
            ws_scan(cs, p + 1, true)
        }
    } else if cs[p] == ';' {
        ws_scan(cs, p + 1, true)
    } else if unicode_whitespace(cs[p]) {
        ws_scan(cs, p + 1, false)
    } else {
        p
    }
}

/// The end of the run of name characters starting at `p`.
pub open spec fn name_end(cs: Seq<char>, p: int) -> int
    decreases cs.len() - p,
{
    if p < 0 || p >= cs.len() || !name_char(cs[p]) {
        p
    } else {
        name_end(cs, p + 1)
    }
}

/// The end of the run of ASCII digits starting at `p`.
pub open spec fn digits_end(cs: Seq<char>, p: int) -> int
    decreases cs.len() - p,
{
    if p < 0 || p >= cs.len() || !is_digit_spec(cs[p]) {
        p
    } else {
        digits_end(cs, p + 1)
    }
}

/// A maximal run of name characters from `p` ends at `e`.
proof fn lemma_name_end(cs: Seq<char>, p: int, e: int)
    requires
        0 <= p <= e <= cs.len(),
        forall|i: int| p <= i < e ==> name_char(#[trigger] cs[i]),
        e < cs.len() ==> !name_char(cs[e]),
    ensures
        name_end(cs, p) == e,
    decreases e - p,
{
    if p < e {
        lemma_name_end(cs, p + 1, e);
    }
}

/// A maximal run of digits from `p` ends at `e`.
proof fn lemma_digits_end(cs: Seq<char>, p: int, e: int)
    requires
        0 <= p <= e <= cs.len(),
        forall|i: int| p <= i < e ==> is_digit_spec(#[trigger] cs[i]),
        e < cs.len() ==> !is_digit_spec(cs[e]),
    ensures
        digits_end(cs, p) == e,
    decreases e - p,
{
    if p < e {
        lemma_digits_end(cs, p + 1, e);
    }
}

/// The token that an unsigned digit run `cs[q..e]` gives, and the position
/// after it: a numeric label when a colon follows, else an integer literal
/// (zero when it does not fit `i64`).
pub open spec fn number_token(cs: Seq<char>, q: int, e: int, t: Token, end: int) -> bool {
    let run = cs.subrange(q, e);
    if e < cs.len() && cs[e] == ':' {
        t matches Token::NumLabel(s) && s@ == run && end == e + 1
    } else {
        end == e && t == Token::Number(
            if digits_value(run) <= 0x7fff_ffff_ffff_ffff {
                digits_value(run) as i64
            } else {
                0i64
            },
        )
    }
}

/// The one-character punctuation token `c` stands for.
pub open spec fn punct_token(c: char) -> Option<Token> {
    if c == '{' {
        Some(Token::OpenBrace)
    } else if c == '}' {
        Some(Token::CloseBrace)
    } else if c == '(' {
        Some(Token::OpenParen)
    } else if c == ')' {
        Some(Token::CloseParen)
    } else if c == '[' {
        Some(Token::OpenBracket)
    } else if c == ']' {
        Some(Token::CloseBracket)
    } else if c == ',' {
        Some(Token::Comma)
    } else if c == '=' {
        Some(Token::Equals)
    } else {
        None
    }
}

/// `t` is the token that `cs` holds at `p` after skipping whitespace and
/// comments, and `end` is the position just after it.
pub open spec fn token_at(cs: Seq<char>, p: int, t: Token, end: int) -> bool {
    let q = ws_scan(cs, p, false);
    if q >= cs.len() {
        t is Eof && end == cs.len()
    } else {
        let c = cs[q];
        if unicode_alphabetic(c) || c == '_' || c == '.' {
            let e = name_end(cs, q);
            let word = cs.subrange(q, e);
            if e < cs.len() && cs[e] == ':' {
                t matches Token::Label(w) && w@ == word && end == e + 1
            } else if e == q + 1 && c == 'c' && e < cs.len() && cs[e] == '"' {
                t matches Token::StringLiteral(v) && v@ == literal_from(cs, e + 1).0 && end == literal_from(
                    cs,
                    e + 1,
                ).1
            } else {
                word_token_matches(word, t) && end == e
            }
        } else if c == '@' {
            t matches Token::GlobalId(n) && n@ == cs.subrange(q + 1, name_end(cs, q + 1)) && end == name_end(cs, q + 1)
        } else if c == '%' {
            t matches Token::LocalId(n) && n@ == cs.subrange(q + 1, name_end(cs, q + 1)) && end == name_end(cs, q + 1)
        } else if is_digit_spec(c) {
            number_token(cs, q, digits_end(cs, q), t, end)
        } else if punct_token(c) is Some {
            t == punct_token(c)->0 && end == q + 1
        } else if c == '-' && q + 1 < cs.len() && is_digit_spec(cs[q + 1]) {
            let e = digits_end(cs, q + 1);
            let mag = digits_value(cs.subrange(q + 1, e));
            end == e && t == Token::Number(
                negated(
                    if mag <= u64::MAX {
                        mag
                    } else {
                        u64::MAX as nat
                    },
                ) as i64,
            )
        } else {
            t matches Token::Ident(s) && s@ == seq![c] && end == q + 1
        }
    }
}

/// Reading at the same position gives the same token (up to the identity of
/// its strings) and the same end.
pub proof fn lemma_token_at_unique(cs: Seq<char>, p: int, t1: Token, e1: int, t2: Token, e2: int)
    requires
        token_at(cs, p, t1, e1),
        token_at(cs, p, t2, e2),
    ensures
        token_eq(t1, t2),
        e1 == e2,
{
}

/// `ts` are the tokens that `cs` holds from position `p` on, one after the
/// other.
pub open spec fn lexes(cs: Seq<char>, p: int, ts: Seq<Token>) -> bool
    decreases ts.len(),
{
    if ts.len() == 0 {
        true
    } else {
        exists|mid: int| #[trigger] token_at(cs, p, ts[0], mid) && lexes(cs, mid, ts.drop_first())
    }
}

/// The byte a named escape letter `c` stands for (`\n`, `\t`, `\r`, `\a`,
/// `\b`, `\f`, `\v`, `\\`, `\'`, `\"`, `\?`).
pub open spec fn escape_byte(c: char) -> Option<u8> {
    if c == 'n' {
        Some(10u8)
    } else if c == 't' {
        Some(9u8)
    } else if c == 'r' {
        Some(13u8)
    } else if c == 'a' {
        Some(7u8)
    } else if c == 'b' {
        Some(8u8)
    } else if c == 'f' {
        Some(12u8)
    } else if c == 'v' {
        Some(11u8)
    } else if c == '\\' {
        Some(92u8)
    } else if c == '\'' {
        Some(39u8)
    } else if c == '"' {
        Some(34u8)
    } else if c == '?' {
        Some(63u8)
    } else {
        None
    }
}

/// The low byte of `c`'s code point.
pub open spec fn char_low_byte_spec(c: char) -> u8 {
    ((c as nat) % 256) as u8
}

/// The bytes of the string literal whose text starts at `p` in `cs` (just
/// after the opening quote) and the position after it: up to the closing
/// quote or the end of input; a named escape is one byte; `\h` or `\hh`
/// (hex digits) one byte; a backslash before any other character gives
/// that character's low byte; any other character its low byte.
pub open spec fn literal_from(cs: Seq<char>, p: int) -> (Seq<u8>, int)
    decreases cs.len() - p,
{
    if p < 0 || p >= cs.len() {
        (seq![], p)
    } else if cs[p] == '"' {
        (seq![], p + 1)
    } else if cs[p] == '\\' {
        if p + 1 >= cs.len() {
            (seq![], p + 1)
        } else {
            let e = cs[p + 1];
            if escape_byte(e) is Some {
                let r = literal_from(cs, p + 2);
                (seq![escape_byte(e)->0] + r.0, r.1)
            } else if is_hex_spec(e) {
                if p + 2 < cs.len() && is_hex_spec(cs[p + 2]) {
                    let r = literal_from(cs, p + 3);
                    (seq![(hex_value(e) * 16 + hex_value(cs[p + 2])) as u8] + r.0, r.1)
                } else {
                    let r = literal_from(cs, p + 2);
                    (seq![hex_value(e) as u8] + r.0, r.1)
                }
            } else {
                let r = literal_from(cs, p + 2);
                (seq![char_low_byte_spec(e)] + r.0, r.1)
            }
        }
    } else {
        let r = literal_from(cs, p + 1);
        (seq![char_low_byte_spec(cs[p])] + r.0, r.1)
    }
}

proof fn lemma_literal_end(cs: Seq<char>, p: int)
    requires
        0 <= p <= cs.len(),
    ensures
        p <= literal_from(cs, p).1 <= cs.len(),
    decreases cs.len() - p,
{
    if p < cs.len() && cs[p] != '"' {
        if cs[p] == '\\' {
            if p + 1 < cs.len() {
                let e = cs[p + 1];
                if escape_byte(e) is None && is_hex_spec(e) && p + 2 < cs.len() && is_hex_spec(cs[p + 2]) {
                    lemma_literal_end(cs, p + 3);
                } else {
                    lemma_literal_end(cs, p + 2);
                }
            }
        } else {
            lemma_literal_end(cs, p + 1);
        }
    }
}

/// The lexer: the input characters and the position of the next one.
///
/// An integer literal too large for `i64` is recorded in `bad_number` (the
/// first such literal) and read as zero; the parser reports it as an error.
pub struct Lexer {
    pub chars: Vec<char>,
    pub pos: usize,
    pub bad_number: Option<String>,
}

impl Lexer {
    pub open spec fn wf(&self) -> bool {
        self.pos <= self.chars@.len()
    }

    /// Moves made by a lexer step: same input, position not moving back, a
    /// recorded bad literal kept.
    pub open spec fn steps_to(&self, next: &Lexer) -> bool {
        &&& next.chars@ == self.chars@
        &&& next.pos >= self.pos
        &&& next.wf()
        &&& self.bad_number.is_some() ==> next.bad_number == self.bad_number
    }

    pub fn new(input: &str) -> (r: Self)
        ensures
            r.chars@ == input@,
            r.pos == 0,
            r.bad_number.is_none(),
    {
        Lexer { chars: collect_chars(input), pos: 0, bad_number: None }
    }

    pub fn peek(&self) -> (r: Option<char>)
        requires
            self.wf(),
        ensures
            self.pos < self.chars@.len() ==> r == Some(self.chars@[self.pos as int]),
            self.pos >= self.chars@.len() ==> r.is_none(),
    {
        if self.pos < self.chars.len() {
            Some(self.chars[self.pos])
        } else {
            None
        }
    }

    fn advance(&mut self)
        requires
            old(self).pos < old(self).chars.len(),
        ensures
            final(self).pos == old(self).pos + 1,
            final(self).chars == old(self).chars,
            final(self).bad_number == old(self).bad_number,
    {
        self.pos = self.pos + 1;
    }

    /// Skip whitespace and `;` comments (a comment runs to the end of its
    /// line).
    pub fn skip_whitespace(&mut self)
        requires
            old(self).wf(),
        ensures
            old(self).steps_to(&*final(self)),
            final(self).bad_number == old(self).bad_number,
            final(self).pos < final(self).chars@.len() ==> !unicode_whitespace(
                final(self).chars@[final(self).pos as int],
            ) && final(self).chars@[final(self).pos as int] != ';',
            final(self).pos == ws_scan(old(self).chars@, old(self).pos as int, false),
    {
        let ghost target = ws_scan(self.chars@, self.pos as int, false);
        loop
            invariant
                old(self).steps_to(&*self),
                self.bad_number == old(self).bad_number,
                ws_scan(self.chars@, self.pos as int, false) == target,
                target == ws_scan(old(self).chars@, old(self).pos as int, false),
            ensures
                self.pos == target,
                old(self).steps_to(&*self),
                self.bad_number == old(self).bad_number,
                self.pos < self.chars@.len() ==> !unicode_whitespace(self.chars@[self.pos as int])
                    && self.chars@[self.pos as int] != ';',
            decreases self.chars@.len() - self.pos,
        {
            let ghost p0 = self.pos;
            match self.peek() {
                Some(c) => {
                    if c == ';' {
                        self.advance();
                        loop
                            invariant
                                old(self).steps_to(&*self),
                                self.bad_number == old(self).bad_number,
                                self.pos > p0,
                                ws_scan(self.chars@, self.pos as int, true) == target,
                                target == ws_scan(old(self).chars@, old(self).pos as int, false),
                            ensures
                                old(self).steps_to(&*self),
                                self.bad_number == old(self).bad_number,
                                self.pos > p0,
                                ws_scan(self.chars@, self.pos as int, false) == target,
                            decreases self.chars@.len() - self.pos,
                        {
                            match self.peek() {
                                Some(c) => {
                                    if c == '\n' {
                                        break;
                                    }
                                    self.advance();
                                },
                                None => break,
                            }
                        }
                    } else if is_whitespace(c) {
                        self.advance();
                    } else {
                        break;
                    }
                },
                None => break,
            }
        }
    }

    /// Advance over a run of name characters (alphanumerics, `_`, `-`, `.`).
    fn skip_name_chars(&mut self)
        requires
            old(self).wf(),
        ensures
            old(self).steps_to(&*final(self)),
            final(self).bad_number == old(self).bad_number,
            forall|i: int| old(self).pos <= i < final(self).pos ==> name_char(#[trigger] final(self).chars@[i]),
            final(self).pos < final(self).chars@.len() ==> !name_char(final(self).chars@[final(self).pos as int]),
    {
        loop
            invariant
                old(self).steps_to(&*self),
                self.bad_number == old(self).bad_number,
                forall|i: int| old(self).pos <= i < self.pos ==> name_char(#[trigger] self.chars@[i]),
            ensures
                old(self).steps_to(&*self),
                self.bad_number == old(self).bad_number,
                forall|i: int| old(self).pos <= i < self.pos ==> name_char(#[trigger] self.chars@[i]),
                self.pos < self.chars@.len() ==> !name_char(self.chars@[self.pos as int]),
            decreases self.chars@.len() - self.pos,
        {
            match self.peek() {
                Some(c) => {
                    if is_alphanumeric(c) || c == '_' || c == '-' || c == '.' {
                        self.advance();
                    } else {
                        break;
                    }
                },
                None => break,
            }
        }
    }

    /// Advance over a run of ASCII digits.
    fn skip_digits(&mut self)
        requires
            old(self).wf(),
        ensures
            old(self).steps_to(&*final(self)),
            final(self).bad_number == old(self).bad_number,
            forall|i: int| old(self).pos <= i < final(self).pos ==> is_digit_spec(#[trigger] final(self).chars@[i]),
            final(self).pos < final(self).chars@.len() ==> !is_digit_spec(final(self).chars@[final(self).pos as int]),
    {
        loop
            invariant
                old(self).steps_to(&*self),
                self.bad_number == old(self).bad_number,
                forall|i: int| old(self).pos <= i < self.pos ==> is_digit_spec(#[trigger] self.chars@[i]),
            ensures
                old(self).steps_to(&*self),
                self.bad_number == old(self).bad_number,
                forall|i: int| old(self).pos <= i < self.pos ==> is_digit_spec(#[trigger] self.chars@[i]),
                self.pos < self.chars@.len() ==> !is_digit_spec(self.chars@[self.pos as int]),
            decreases self.chars@.len() - self.pos,
        {
            match self.peek() {
                Some(c) => {
                    if is_digit(c) {
                        self.advance();
                    } else {
                        break;
                    }
                },
                None => break,
            }
        }
    }

    /// Read an unsigned digit run: a numeric label header when a colon
    /// follows, else an integer literal.
    fn read_number(&mut self) -> (t: Token)
        requires
            old(self).pos < old(self).chars@.len(),
            is_digit_spec(old(self).chars@[old(self).pos as int]),
        ensures
            old(self).steps_to(&*final(self)),
            final(self).pos > old(self).pos,
            t is NumLabel || t is Number,
            t matches Token::NumLabel(s) ==> s@.len() > 0 && forall|i: int| 0 <= i < s@.len() ==> is_digit_spec(#[trigger] s@[i]),
            number_token(
                old(self).chars@,
                old(self).pos as int,
                digits_end(old(self).chars@, old(self).pos as int),
                t,
                final(self).pos as int,
            ),
            t is NumLabel ==> final(self).bad_number == old(self).bad_number,
    {
        let start = self.pos;
        self.skip_digits();
        let end = self.pos;
        proof {
            lemma_digits_end(self.chars@, start as int, end as int);
        }
        if self.peek() == Some(':') {
            self.advance();
            let s = string_of(&self.chars, start, end);
            return Token::NumLabel(s);
        }
        match parse_digits(&self.chars, start, end) {
            Some(v) if v <= 0x7fff_ffff_ffff_ffffu64 => Token::Number(v as i64),
            _ => {
                if self.bad_number.is_none() {
                    self.bad_number = Some(string_of(&self.chars, start, end));
                }
                Token::Number(0)
            },
        }
    }

    /// Read a `c"…"` string literal, positioned on the opening quote. LLVM
    /// escapes (`\n`, `\t`, `\xx` hex, `\\`, `\"`, …) decode to their byte
    /// values; any other character stands for the low byte of its code point.
    /// An unterminated literal keeps what was read.
    fn read_string_literal(&mut self) -> (t: Token)
        requires
            old(self).pos < old(self).chars@.len(),
            old(self).chars@[old(self).pos as int] == '"',
        ensures
            old(self).steps_to(&*final(self)),
            final(self).pos > old(self).pos,
            final(self).bad_number == old(self).bad_number,
            t matches Token::StringLiteral(v) && v@ == literal_from(old(self).chars@, old(self).pos + 1).0,
            final(self).pos == literal_from(old(self).chars@, old(self).pos + 1).1,
    {
        let ghost cs = self.chars@;
        let ghost start = self.pos + 1;
        self.advance();
        let mut bytes: Vec<u8> = Vec::new();
        proof {
            lemma_literal_end(cs, start);
        }
        loop
            invariant_except_break
                bytes@ + literal_from(cs, self.pos as int).0 == literal_from(cs, start).0,
                literal_from(cs, self.pos as int).1 == literal_from(cs, start).1,
            invariant
                old(self).steps_to(&*self),
                self.bad_number == old(self).bad_number,
                cs == self.chars@,
                start == old(self).pos + 1,
                self.pos >= start,
            ensures
                old(self).steps_to(&*self),
                self.bad_number == old(self).bad_number,
                self.pos >= start,
                bytes@ == literal_from(cs, start).0,
                self.pos == literal_from(cs, start).1,
            decreases self.chars@.len() - self.pos,
        {
            let ghost p = self.pos as int;
            match self.peek() {
                None => {
                    assert(bytes@ + Seq::<u8>::empty() =~= bytes@);
                    break;
                },
                Some(c) => {
                    if c == '"' {
                        self.advance();
                        assert(bytes@ + Seq::<u8>::empty() =~= bytes@);
                        break;
                    } else if c == '\\' {
                        self.advance();
                        if let Some(esc) = self.peek() {
                            let is_hex = is_hex_digit(esc);
                            let named = esc == 'n' || esc == 't' || esc == 'r' || esc == 'a' || esc == 'b' || esc
                                == 'f' || esc == 'v' || esc == '\\' || esc == '\'' || esc == '"' || esc == '?';
                            let byte: u8 = if esc == 'n' {
                                10
                            } else if esc == 't' {
                                9
                            } else if esc == 'r' {
                                13
                            } else if esc == 'a' {
                                0x07
                            } else if esc == 'b' {
                                0x08
                            } else if esc == 'f' {
                                0x0C
                            } else if esc == 'v' {
                                0x0B
                            } else if esc == '\\' {
                                92
                            } else if esc == '\'' {
                                39
                            } else if esc == '"' {
                                34
                            } else if esc == '?' {
                                63
                            } else if is_hex {
                                let mut v: u8 = hex_digit_value(esc);
                                self.advance();
                                if let Some(h2) = self.peek() {
                                    if is_hex_digit(h2) {
                                        v = v * 16 + hex_digit_value(h2);
                                        self.advance();
                                    }
                                }
                                v
                            } else {
                                char_low_byte(esc)
                            };
                            if named || !is_hex {
                                self.advance();
                            }
                            proof {
                                assert(bytes@.push(byte) + literal_from(cs, self.pos as int).0 =~= bytes@ + (seq![byte]
                                    + literal_from(cs, self.pos as int).0));
                            }
                            bytes.push(byte);
                        }
                    } else {
                        proof {
                            assert(bytes@.push(char_low_byte_spec(c)) + literal_from(cs, p + 1).0 =~= bytes@ + (seq![
                                char_low_byte_spec(c),
                            ] + literal_from(cs, p + 1).0));
                        }
                        bytes.push(char_low_byte(c));
                        self.advance();
                    }
                },
            }
        }
        Token::StringLiteral(bytes)
    }

    /// Read the next token.
    pub fn next_token(&mut self) -> (t: Token)
        requires
            old(self).wf(),
        ensures
            old(self).steps_to(&*final(self)),
            t is Eof ==> final(self).pos == final(self).chars@.len(),
            !(t is Eof) ==> final(self).pos > old(self).pos,
            old(self).pos == old(self).chars@.len() ==> t is Eof,
            old(self).pos == old(self).chars@.len() ==> final(self).bad_number == old(self).bad_number,
            token_at(old(self).chars@, old(self).pos as int, t, final(self).pos as int),
            !(t is Number) ==> final(self).bad_number == old(self).bad_number,
    {
        proof {
            reveal_strlit("-");
        }
        self.skip_whitespace();
        let c = match self.peek() {
            None => {
                return Token::Eof;
            },
            Some(c) => c,
        };
        if is_alphabetic(c) || c == '_' || c == '.' {
            let start = self.pos;
            // an alphabetic first character also continues the name
            let _continues = is_alphanumeric(c);
            self.skip_name_chars();
            proof {
                lemma_name_end(self.chars@, start as int, self.pos as int);
            }
            let word = string_of(&self.chars, start, self.pos);
            if self.peek() == Some(':') {
                self.advance();
                return Token::Label(word);
            }
            if self.pos - start == 1 && c == 'c' && self.peek() == Some('"') {
                return self.read_string_literal();
            }
            return word_token(word);
        }
        if c == '@' || c == '%' {
            self.advance();
            let start = self.pos;
            self.skip_name_chars();
            proof {
                lemma_name_end(self.chars@, start as int, self.pos as int);
            }
            let name = string_of(&self.chars, start, self.pos);
            if c == '@' {
                return Token::GlobalId(name);
            } else {
                return Token::LocalId(name);
            }
        }
        if is_digit(c) {
            return self.read_number();
        }
        self.advance();
        if c == '{' {
            Token::OpenBrace
        } else if c == '}' {
            Token::CloseBrace
        } else if c == '(' {
            Token::OpenParen
        } else if c == ')' {
            Token::CloseParen
        } else if c == '[' {
            Token::OpenBracket
        } else if c == ']' {
            Token::CloseBracket
        } else if c == ',' {
            Token::Comma
        } else if c == '=' {
            Token::Equals
        } else if c == '-' {
            match self.peek() {
                Some(d) => {
                    if is_digit(d) {
                        let start = self.pos;
                        self.skip_digits();
                        proof {
                            lemma_digits_end(self.chars@, start as int, self.pos as int);
                        }
                        let mag = match parse_digits(&self.chars, start, self.pos) {
                            Some(m) => m,
                            None => 0xffff_ffff_ffff_ffffu64,
                        };
                        Token::Number(negate_magnitude(mag))
                    } else {
                        let m = String::from_str("-");
                        assert(m@ =~= seq!['-']);
                        Token::Ident(m)
                    }
                },
                None => {
                    let m = String::from_str("-");
                    assert(m@ =~= seq!['-']);
                    Token::Ident(m)
                },
            }
        } else {
            let mut s = String::new();
            push_char(&mut s, c);
            assert(s@ =~= seq![c]);
            Token::Ident(s)
        }
    }
}

} // verus!
