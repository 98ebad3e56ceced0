//! Calls the interpreter resolves itself: the `llvm.*` bit and memory
//! intrinsics, and the runtime's named intrinsics.

use vstd::prelude::*;
use vstd::arithmetic::power2::pow2;

use crate::interpreter::values::{
    lift, mem_addr_spec, mem_byte_spec, mem_len_spec, type_fault, value_bits_spec, word_spec, as_mem_addr,
    as_mem_byte, as_mem_len, intrinsic_result_to_runtime_value, intrinsic_value_spec, runtime_value_to_u32,
    value_bits, Fault, InterpError, RuntimeValue,
};
use crate::ir::types::IrType;
use crate::llvm::chars::{digits_value, is_digit, is_digit_spec, parse_digits};
use crate::llvm::lexer::collect_chars;
use crate::runtime::bitops::{bit_intrinsic_value, bit_value, is_bit_width, BitIntrinsicKind};
use crate::runtime::intrinsics::{builtin_view, dispatch_intrinsic, dispatch_outcome};
use crate::runtime::{IntrinsicResult, RuntimeError};
use crate::strings::{decimal, owned, push_decimal, push_str};

verus! {

/// `p` is a prefix of `s`.
pub open spec fn has_prefix(s: Seq<char>, p: Seq<char>) -> bool {
    p.len() <= s.len() && s.take(p.len() as int) == p
}

/// A `.i` starts at `d`.
pub open spec fn dot_i_at(s: Seq<char>, d: int) -> bool {
    0 <= d && d + 1 < s.len() && s[d] == '.' && s[d + 1] == 'i'
}

/// Where the last `.i` of `s` starts.
pub open spec fn last_dot_i(s: Seq<char>) -> Option<int>
    decreases s.len(),
{
    if s.len() < 2 {
        None
    } else if s[s.len() - 2] == '.' && s[s.len() - 1] == 'i' {
        Some(s.len() - 2)
    } else {
        last_dot_i(s.drop_last())
    }
}

/// `s` without one leading `+`.
pub open spec fn unsigned_part(s: Seq<char>) -> Seq<char> {
    if s.len() > 0 && s[0] == '+' {
        s.drop_first()
    } else {
        s
    }
}

/// Every character of `d` is an ASCII digit.
pub open spec fn all_digits(d: Seq<char>) -> bool {
    forall|i: int| 0 <= i < d.len() ==> #[trigger] is_digit_spec(d[i])
}

/// An unsigned 32-bit decimal numeral, with an optional leading `+`.
pub open spec fn parse_u32_spec(s: Seq<char>) -> Option<u32> {
    let d = unsigned_part(s);
    if d.len() > 0 && all_digits(d) && digits_value(d) <= u32::MAX {
        Some(digits_value(d) as u32)
    } else {
        None
    }
}

/// The bit-intrinsic family a name part spells.
pub open spec fn bit_family(f: Seq<char>) -> Option<BitIntrinsicKind> {
    if f == "bswap"@ {
        Some(BitIntrinsicKind::ByteReverse)
    } else if f == "ctpop"@ {
        Some(BitIntrinsicKind::PopCount)
    } else if f == "ctlz"@ {
        Some(BitIntrinsicKind::CountLeadingZeros)
    } else if f == "cttz"@ {
        Some(BitIntrinsicKind::CountTrailingZeros)
    } else {
        None
    }
}

/// LLVM's name for a bit-intrinsic family.
pub open spec fn family_name(k: BitIntrinsicKind) -> Seq<char> {
    match k {
        BitIntrinsicKind::ByteReverse => "bswap"@,
        BitIntrinsicKind::PopCount => "ctpop"@,
        BitIntrinsicKind::CountLeadingZeros => "ctlz"@,
        BitIntrinsicKind::CountTrailingZeros => "cttz"@,
    }
}

/// A family part names the family LLVM spells with it, and only that one:
/// part `f` is read as family `k` exactly when `k` is spelled `f`.
pub proof fn lemma_family_names(f: Seq<char>)
    ensures
        forall|k: BitIntrinsicKind| #[trigger] family_name(k) == f <==> bit_family(f) == Some(k),
{
    reveal_strlit("bswap");
    reveal_strlit("ctpop");
    reveal_strlit("ctlz");
    reveal_strlit("cttz");
    assert("bswap"@[0] != "ctpop"@[0]);
    assert("bswap"@[0] != "ctlz"@[0]);
    assert("bswap"@[0] != "cttz"@[0]);
    assert("ctpop"@.len() != "ctlz"@.len());
    assert("ctpop"@.len() != "cttz"@.len());
    assert("ctlz"@[2] != "cttz"@[2]);
    assert forall|k: BitIntrinsicKind| #[trigger] family_name(k) == f <==> bit_family(f) == Some(k) by {
        match k {
            BitIntrinsicKind::ByteReverse => {},
            BitIntrinsicKind::PopCount => {},
            BitIntrinsicKind::CountLeadingZeros => {},
            BitIntrinsicKind::CountTrailingZeros => {},
        }
    }
}

/// A `llvm.<family>.i<width>` call: the value of one of the four bit
/// families on the first argument masked to `width` bits (`I64` for 64
/// bits, else `I32`), `None` for another family.
pub open spec fn llvm_bit_spec(name: Seq<char>, args: Seq<RuntimeValue>) -> Result<Option<RuntimeValue>, Fault> {
    let rest = name.skip(5);
    let malformed = Fault::UnsupportedInstruction("malformed llvm intrinsic: "@ + name);
    match last_dot_i(rest) {
        None => Err(malformed),
        Some(d) => match parse_u32_spec(rest.skip(d + 2)) {
            None => Err(malformed),
            Some(width) => if !is_bit_width(width) {
                Err(
                    Fault::UnsupportedInstruction(
                        "unsupported llvm intrinsic width "@ + decimal(width as nat) + " in "@ + name,
                    ),
                )
            } else if args.len() == 0 {
                type_fault(name + " requires at least one argument"@)
            } else {
                match value_bits_spec(args[0]) {
                    Err(e) => Err(e),
                    Ok(bits) => match bit_family(rest.take(d)) {
                        None => Ok(None),
                        Some(kind) => {
                            let v = bit_value(kind, width as nat, bits as nat % pow2(width as nat));
                            Ok(
                                Some(
                                    if width == 64 {
                                        RuntimeValue::I64(v as u64)
                                    } else {
                                        RuntimeValue::I32((v % 0x1_0000_0000) as u32)
                                    },
                                ),
                            )
                        },
                    },
                }
            },
        },
    }
}

proof fn lemma_last_dot_i(s: Seq<char>)
    ensures
        last_dot_i(s) matches Some(d) ==> dot_i_at(s, d),
    decreases s.len(),
{
    if s.len() >= 2 && !(s[s.len() - 2] == '.' && s[s.len() - 1] == 'i') {
        lemma_last_dot_i(s.drop_last());
    }
}

proof fn lemma_u64_cast(x: nat, y: u64)
    requires
        x <= u64::MAX,
        y == x as u64,
    ensures
        y as nat == x,
{
}

/// Whether `s[start..end]` spells `lit`.
fn chars_match(s: &Vec<char>, start: usize, end: usize, lit: &str) -> (r: bool)
    requires
        start <= end <= s@.len(),
    ensures
        r == (s@.subrange(start as int, end as int) == lit@),
{
    let l = collect_chars(lit);
    if end - start != l.len() {
        return false;
    }
    let mut i: usize = 0;
    while i < l.len()
        invariant
            start <= end <= s@.len(),
            l@ == lit@,
            end - start == l@.len(),
            i <= l@.len(),
            forall|k: int| 0 <= k < i ==> s@[start + k] == l@[k],
        decreases l.len() - i,
    {
        if s[start + i] != l[i] {
            assert(s@.subrange(start as int, end as int)[i as int] != l@[i as int]);
            assert(s@.subrange(start as int, end as int) != l@);
            return false;
        }
        i = i + 1;
    }
    assert(s@.subrange(start as int, end as int) =~= l@);
    true
}

/// Where the last `.i` of `s[start..]` starts, counted from `start`.
fn find_last_dot_i(s: &Vec<char>, start: usize) -> (r: Option<usize>)
    requires
        start <= s@.len(),
    ensures
        match last_dot_i(s@.skip(start as int)) {
            Some(d) => r == Some(d as usize),
            None => r is None,
        },
{
    let ghost rest = s@.skip(start as int);
    let mut end: usize = s.len();
    assert(rest.take((end - start) as int) =~= rest);
    while end - start >= 2
        invariant
            start <= end <= s@.len(),
            rest == s@.skip(start as int),
            last_dot_i(rest) == last_dot_i(rest.take((end - start) as int)),
        decreases end,
    {
        let ghost t = rest.take(end - start);
        assert(t[t.len() - 2] == s@[end - 2]);
        assert(t[t.len() - 1] == s@[end - 1]);
        if s[end - 2] == '.' && s[end - 1] == 'i' {
            return Some(end - 2 - start);
        }
        assert(t.drop_last() =~= rest.take((end - 1 - start) as int));
        end = end - 1;
    }
    None
}

/// Parse `s[start..]` as an unsigned 32-bit decimal numeral.
fn parse_u32(s: &Vec<char>, start: usize) -> (r: Option<u32>)
    requires
        start <= s@.len(),
    ensures
        r == parse_u32_spec(s@.skip(start as int)),
{
    let ghost t = s@.skip(start as int);
    let first = if start < s.len() && s[start] == '+' {
        start + 1
    } else {
        start
    };
    let ghost d = s@.subrange(first as int, s@.len() as int);
    assert(d =~= unsigned_part(t));
    if first >= s.len() {
        return None;
    }
    let mut i = first;
    while i < s.len()
        invariant
            first <= i <= s@.len(),
            d == s@.subrange(first as int, s@.len() as int),
            t == s@.skip(start as int),
            d == unsigned_part(t),
            forall|k: int| first <= k < i ==> is_digit_spec(#[trigger] s@[k]),
        decreases s.len() - i,
    {
        if !is_digit(s[i]) {
            assert(!is_digit_spec(d[i - first]));
            return None;
        }
        i = i + 1;
    }
    assert forall|k: int| 0 <= k < d.len() implies #[trigger] is_digit_spec(d[k]) by {
        assert(d[k] == s@[first + k]);
    }
    match parse_digits(s, first, s.len()) {
        Some(v) => {
            if v <= 0xffff_ffff {
                Some(v as u32)
            } else {
                None
            }
        },
        None => None,
    }
}

/// The value of an `llvm.*` bit intrinsic call, `None` when the family is
/// not one of `bswap`, `ctpop`, `ctlz` and `cttz`.
pub fn dispatch_llvm_intrinsic(name: &str, args: &[RuntimeValue]) -> (r: Result<Option<RuntimeValue>, InterpError>)
    requires
        has_prefix(name@, "llvm."@),
    ensures
        lift(r) == llvm_bit_spec(name@, args@),
{
    let s = collect_chars(name);
    proof {
        reveal_strlit("llvm.");
    }
    let dot = match find_last_dot_i(&s, 5) {
        Some(d) => d,
        None => {
            let mut m = owned("malformed llvm intrinsic: ");
            push_str(&mut m, name);
            return Err(InterpError::UnsupportedInstruction(m));
        },
    };
    proof {
        lemma_last_dot_i(s@.skip(5));
    }
    let width = match parse_u32(&s, 5 + dot + 2) {
        Some(w) => w,
        None => {
            proof {
                assert(s@.skip(5).skip(dot + 2) =~= s@.skip(5 + dot + 2));
            }
            let mut m = owned("malformed llvm intrinsic: ");
            push_str(&mut m, name);
            return Err(InterpError::UnsupportedInstruction(m));
        },
    };
    proof {
        assert(s@.skip(5).skip(dot + 2) =~= s@.skip(5 + dot + 2));
    }
    if width != 8 && width != 16 && width != 32 && width != 64 {
        let mut m = owned("unsupported llvm intrinsic width ");
        push_decimal(&mut m, width as u64);
        push_str(&mut m, " in ");
        push_str(&mut m, name);
        return Err(InterpError::UnsupportedInstruction(m));
    }
    if args.len() == 0 {
        let mut m = owned(name);
        push_str(&mut m, " requires at least one argument");
        return Err(InterpError::TypeMismatch(m));
    }
    let bits = match value_bits(&args[0]) {
        Ok(b) => b,
        Err(e) => return Err(e),
    };
    proof {
        assert(s@.skip(5).take(dot as int) =~= s@.subrange(5, 5 + dot));
    }
    let kind = if chars_match(&s, 5, 5 + dot, "bswap") {
        BitIntrinsicKind::ByteReverse
    } else if chars_match(&s, 5, 5 + dot, "ctpop") {
        BitIntrinsicKind::PopCount
    } else if chars_match(&s, 5, 5 + dot, "ctlz") {
        BitIntrinsicKind::CountLeadingZeros
    } else if chars_match(&s, 5, 5 + dot, "cttz") {
        BitIntrinsicKind::CountTrailingZeros
    } else {
        return Ok(None);
    };
    let v = match bit_intrinsic_value(kind, width, bits) {
        Some(v) => v,
        None => return Ok(None),
    };
    let ghost bv = bit_value(kind, width as nat, bits as nat % pow2(width as nat));
    proof {
        lemma_u64_cast(bv, v);
    }
    if width == 64 {
        Ok(Some(RuntimeValue::I64(v)))
    } else {
        Ok(Some(RuntimeValue::I32((v % 0x1_0000_0000) as u32)))
    }
}


/// The memory intrinsic families.
#[derive(Debug, Clone, Copy, PartialEq, Eq, Structural)]
pub enum MemOp {
    Copy,
    Move,
    Fill,
}

/// How many dots `s` holds.
pub open spec fn count_dots(s: Seq<char>) -> nat
    decreases s.len(),
{
    if s.len() == 0 {
        0
    } else {
        count_dots(s.drop_last()) + if s.last() == '.' {
            1nat
        } else {
            0nat
        }
    }
}

/// The index of the first dot of `s`, or its length when it has none.
pub open spec fn first_dot(s: Seq<char>) -> int
    decreases s.len(),
{
    if s.len() == 0 || s[0] == '.' {
        0
    } else {
        1 + first_dot(s.drop_first())
    }
}

/// `rest` splits at dots into three parts, the first two starting with
/// `p` (`p<dst>.p<src>.i<len>`).
pub open spec fn two_address_variant(rest: Seq<char>) -> bool {
    &&& count_dots(rest) == 2
    &&& rest.len() > 0
    &&& rest[0] == 'p'
    &&& first_dot(rest) + 1 < rest.len()
    &&& rest[first_dot(rest) + 1] == 'p'
}

/// `rest` splits at dots into two parts, the first starting with `p`
/// (`p<dst>.i<len>`).
pub open spec fn one_address_variant(rest: Seq<char>) -> bool {
    &&& count_dots(rest) == 1
    &&& rest.len() > 0
    &&& rest[0] == 'p'
}

/// The memory family a name belongs to, with the length of its prefix.
pub open spec fn mem_family(name: Seq<char>) -> Option<(MemOp, int)> {
    if has_prefix(name, "llvm.memcpy."@) {
        Some((MemOp::Copy, 12))
    } else if has_prefix(name, "llvm.memmove."@) {
        Some((MemOp::Move, 13))
    } else if has_prefix(name, "llvm.memset."@) {
        Some((MemOp::Fill, 12))
    } else {
        None
    }
}

/// The message prefix for a refused variant of a memory family.
pub open spec fn variant_text(op: MemOp) -> Seq<char> {
    match op {
        MemOp::Copy => "unsupported llvm.memcpy variant: "@,
        MemOp::Move => "unsupported llvm.memmove variant: "@,
        MemOp::Fill => "unsupported llvm.memset variant: "@,
    }
}

/// `m` with the bytes from `at` on replaced by `b`.
pub open spec fn spliced(m: Seq<u8>, at: int, b: Seq<u8>) -> Seq<u8> {
    m.subrange(0, at) + b + m.subrange(at + b.len(), m.len() as int)
}

/// A copy of `n` bytes from `args[1]` to `args[0]`, read as a whole
/// before it is written.
pub open spec fn copy_spec(args: Seq<RuntimeValue>, n: u64, m: Seq<u8>) -> Result<Option<(RuntimeValue, Seq<u8>)>, Fault> {
    match mem_addr_spec(args[0]) {
        Err(e) => Err(e),
        Ok(dst) => match mem_addr_spec(args[1]) {
            Err(e) => Err(e),
            Ok(src) => if n == 0 {
                Ok(Some((RuntimeValue::I32(0), m)))
            } else if dst == 0 {
                Err(Fault::NullPointer)
            } else if dst + n > u64::MAX {
                Err(Fault::MemoryOutOfBounds(dst))
            } else if src + n > u64::MAX {
                Err(Fault::MemoryOutOfBounds(src))
            } else if dst + n > m.len() || src + n > m.len() {
                Err(Fault::MemoryOutOfBounds(dst))
            } else {
                Ok(Some((RuntimeValue::I32(0), spliced(m, dst as int, m.subrange(src as int, src + n)))))
            },
        },
    }
}

/// `n` copies of the byte `args[1]` written from `args[0]` on.
pub open spec fn set_spec(args: Seq<RuntimeValue>, n: u64, m: Seq<u8>) -> Result<Option<(RuntimeValue, Seq<u8>)>, Fault> {
    match mem_addr_spec(args[0]) {
        Err(e) => Err(e),
        Ok(dst) => match mem_byte_spec(args[1]) {
            Err(e) => Err(e),
            Ok(byte) => if n == 0 {
                Ok(Some((RuntimeValue::I32(0), m)))
            } else if dst == 0 {
                Err(Fault::NullPointer)
            } else if dst + n > u64::MAX || dst + n > m.len() {
                Err(Fault::MemoryOutOfBounds(dst))
            } else {
                Ok(Some((RuntimeValue::I32(0), spliced(m, dst as int, Seq::new(n as nat, |i: int| byte)))))
            },
        },
    }
}

/// A memory intrinsic call: `None` when `name` is not one of the three
/// families, else the result and the memory after it.
pub open spec fn mem_spec(name: Seq<char>, args: Seq<RuntimeValue>, m: Seq<u8>) -> Result<Option<(RuntimeValue, Seq<u8>)>, Fault> {
    match mem_family(name) {
        None => Ok(None),
        Some((op, plen)) => {
            let rest = name.skip(plen);
            let ok = if op == MemOp::Fill {
                one_address_variant(rest)
            } else {
                two_address_variant(rest)
            };
            if !ok {
                Err(Fault::UnsupportedInstruction(variant_text(op) + name))
            } else if args.len() < 3 {
                type_fault(
                    name + " requires (dst, src/val, len) at minimum, got "@ + decimal(args.len()) + " arguments"@,
                )
            } else {
                match mem_len_spec(args[2]) {
                    Err(e) => Err(e),
                    Ok(n) => if op == MemOp::Fill {
                        set_spec(args, n, m)
                    } else {
                        copy_spec(args, n, m)
                    },
                }
            }
        },
    }
}

/// Whether `s` starts with `p`.
fn chars_start_with(s: &Vec<char>, p: &str) -> (r: bool)
    ensures
        r == has_prefix(s@, p@),
{
    let l = collect_chars(p);
    if l.len() > s.len() {
        return false;
    }
    let r = chars_match(s, 0, l.len(), p);
    proof {
        assert(s@.take(l@.len() as int) =~= s@.subrange(0, l@.len() as int));
    }
    r
}

/// The dot count, and where the first dot is, of `s[start..]`.
fn dot_shape(s: &Vec<char>, start: usize) -> (r: (usize, usize))
    requires
        start <= s@.len(),
    ensures
        r.0 == count_dots(s@.skip(start as int)),
        r.1 == first_dot(s@.skip(start as int)),
        r.1 <= s@.len() - start,
{
    let ghost rest = s@.skip(start as int);
    let mut count: usize = 0;
    let mut first: usize = s.len() - start;
    let mut found = false;
    let mut i: usize = start;
    while i < s.len()
        invariant
            start <= i <= s@.len(),
            rest == s@.skip(start as int),
            count == count_dots(rest.take(i - start)),
            count <= i - start,
            first <= s@.len() - start,
            !found ==> first == s@.len() - start && forall|k: int| start <= k < i ==> s@[k] != '.',
            found ==> first == first_dot(rest),
        decreases s.len() - i,
    {
        proof {
            assert(rest.take(i - start + 1).drop_last() =~= rest.take(i - start));
        }
        if s[i] == '.' {
            count = count + 1;
            if !found {
                proof {
                    lemma_first_dot_at(rest, (i - start) as int);
                }
                found = true;
                first = i - start;
            }
        }
        i = i + 1;
    }
    proof {
        assert(rest.take(i - start) =~= rest);
        if !found {
            lemma_first_dot_at(rest, rest.len() as int);
        }
    }
    (count, first)
}

proof fn lemma_first_dot_at(s: Seq<char>, k: int)
    requires
        0 <= k <= s.len(),
        forall|j: int| 0 <= j < k ==> s[j] != '.',
        k < s.len() ==> s[k] == '.',
    ensures
        first_dot(s) == k,
    decreases k,
{
    if k > 0 {
        lemma_first_dot_at(s.drop_first(), k - 1);
    }
}

/// Resolve an `llvm.memcpy.*`, `llvm.memmove.*` or `llvm.memset.*` call
/// against `memory`; `None` for any other name.
pub fn dispatch_memory_intrinsic(memory: &mut Vec<u8>, name: &str, args: &[RuntimeValue]) -> (r: Result<
    Option<RuntimeValue>,
    InterpError,
>)
    ensures
        match mem_spec(name@, args@, old(memory)@) {
            Ok(Some((v, m2))) => r == Ok::<Option<RuntimeValue>, InterpError>(Some(v)) && final(memory)@ == m2,
            Ok(None) => r == Ok::<Option<RuntimeValue>, InterpError>(None) && final(memory)@ == old(memory)@,
            Err(f) => lift(r) == Err::<Option<RuntimeValue>, Fault>(f) && final(memory)@ == old(memory)@,
        },
{
    let s = collect_chars(name);
    proof {
        reveal_strlit("llvm.memcpy.");
        reveal_strlit("llvm.memmove.");
        reveal_strlit("llvm.memset.");
    }
    let (op, plen) = if chars_start_with(&s, "llvm.memcpy.") {
        (MemOp::Copy, 12usize)
    } else if chars_start_with(&s, "llvm.memmove.") {
        (MemOp::Move, 13usize)
    } else if chars_start_with(&s, "llvm.memset.") {
        (MemOp::Fill, 12usize)
    } else {
        return Ok(None);
    };
    let (dots, first) = dot_shape(&s, plen);
    let ghost rest = s@.skip(plen as int);
    let ok = if op == MemOp::Fill {
        dots == 1 && plen < s.len() && s[plen] == 'p'
    } else {
        dots == 2 && plen < s.len() && s[plen] == 'p' && first < s.len() - plen - 1 && s[plen + first + 1] == 'p'
    };
    if !ok {
        let mut m = owned(
            match op {
                MemOp::Copy => "unsupported llvm.memcpy variant: ",
                MemOp::Move => "unsupported llvm.memmove variant: ",
                MemOp::Fill => "unsupported llvm.memset variant: ",
            },
        );
        push_str(&mut m, name);
        return Err(InterpError::UnsupportedInstruction(m));
    }
    if args.len() < 3 {
        let mut m = owned(name);
        push_str(&mut m, " requires (dst, src/val, len) at minimum, got ");
        push_decimal(&mut m, args.len() as u64);
        push_str(&mut m, " arguments");
        return Err(InterpError::TypeMismatch(m));
    }
    let n = match as_mem_len(&args[2]) {
        Ok(n) => n,
        Err(e) => return Err(e),
    };
    let len = memory.len() as u64;
    match op {
        MemOp::Fill => {
            let dst = match as_mem_addr(&args[0]) {
                Ok(a) => a,
                Err(e) => return Err(e),
            };
            let byte = match as_mem_byte(&args[1]) {
                Ok(b) => b,
                Err(e) => return Err(e),
            };
            if n == 0 {
                return Ok(Some(RuntimeValue::I32(0)));
            }
            if dst == 0 {
                return Err(InterpError::NullPointer);
            }
            if n > u64::MAX - dst as u64 || dst as u64 + n > len {
                return Err(InterpError::MemoryOutOfBounds(dst));
            }
            let ghost m0 = memory@;
            let start = dst as usize;
            let count = n as usize;
            let mut i: usize = 0;
            while i < count
                invariant
                    start + count <= memory@.len(),
                    m0.len() <= usize::MAX,
                    memory@.len() == m0.len(),
                    i <= count,
                    forall|k: int| 0 <= k < start ==> memory@[k] == m0[k],
                    forall|k: int| start + count <= k < m0.len() ==> memory@[k] == m0[k],
                    forall|k: int| start <= k < start + i ==> memory@[k] == byte,
                    forall|k: int| start + i <= k < start + count ==> memory@[k] == m0[k],
                decreases count - i,
            {
                memory.set(start + i, byte);
                i = i + 1;
            }
            proof {
                assert(memory@ =~= spliced(m0, dst as int, Seq::new(n as nat, |k: int| byte)));
            }
            Ok(Some(RuntimeValue::I32(0)))
        },
        _ => {
            let dst = match as_mem_addr(&args[0]) {
                Ok(a) => a,
                Err(e) => return Err(e),
            };
            let src = match as_mem_addr(&args[1]) {
                Ok(a) => a,
                Err(e) => return Err(e),
            };
            if n == 0 {
                return Ok(Some(RuntimeValue::I32(0)));
            }
            if dst == 0 {
                return Err(InterpError::NullPointer);
            }
            if n > u64::MAX - dst as u64 {
                return Err(InterpError::MemoryOutOfBounds(dst));
            }
            if n > u64::MAX - src as u64 {
                return Err(InterpError::MemoryOutOfBounds(src));
            }
            if dst as u64 + n > len || src as u64 + n > len {
                return Err(InterpError::MemoryOutOfBounds(dst));
            }
            let ghost m0 = memory@;
            let from = src as usize;
            let to = dst as usize;
            let count = n as usize;
            let mut tmp: Vec<u8> = Vec::new();
            let mut i: usize = 0;
            while i < count
                invariant
                    from + count <= memory@.len(),
                    m0.len() <= usize::MAX,
                    memory@ == m0,
                    i <= count,
                    tmp@ == m0.subrange(from as int, from + i),
                decreases count - i,
            {
                tmp.push(memory[from + i]);
                i = i + 1;
                assert(tmp@ =~= m0.subrange(from as int, from + i));
            }
            let mut j: usize = 0;
            while j < count
                invariant
                    to + count <= memory@.len(),
                    from + count <= m0.len(),
                    m0.len() <= usize::MAX,
                    memory@.len() == m0.len(),
                    tmp@ == m0.subrange(from as int, from + count),
                    j <= count,
                    forall|k: int| 0 <= k < to ==> memory@[k] == m0[k],
                    forall|k: int| to + count <= k < m0.len() ==> memory@[k] == m0[k],
                    forall|k: int| to <= k < to + j ==> memory@[k] == tmp@[k - to],
                    forall|k: int| to + j <= k < to + count ==> memory@[k] == m0[k],
                decreases count - j,
            {
                memory.set(to + j, tmp[j]);
                j = j + 1;
            }
            proof {
                assert(memory@ =~= spliced(m0, dst as int, m0.subrange(src as int, src + n)));
            }
            Ok(Some(RuntimeValue::I32(0)))
        },
    }
}


/// The words of `args` passed to a runtime intrinsic, or the fault of the
/// first one that cannot be passed.
pub open spec fn words_spec(args: Seq<RuntimeValue>) -> Result<Seq<u32>, Fault>
    decreases args.len(),
{
    if args.len() == 0 {
        Ok(seq![])
    } else {
        match words_spec(args.drop_last()) {
            Err(e) => Err(e),
            Ok(ws) => match word_spec(args.last()) {
                Err(e) => Err(e),
                Ok(w) => Ok(ws.push(w)),
            },
        }
    }
}

/// The outcome `r`, with memory going from `m` to `m2`, of calling the
/// runtime intrinsic `name` on `args` at return type `ret`.
pub open spec fn runtime_call_outcome(
    name: Seq<char>,
    ret: IrType,
    args: Seq<RuntimeValue>,
    m: Seq<u8>,
    r: Result<RuntimeValue, InterpError>,
    m2: Seq<u8>,
) -> bool {
    match words_spec(args) {
        Err(e) => lift(r) == Err::<RuntimeValue, Fault>(e) && m2 == m,
        Ok(ws) => exists|res: Result<IntrinsicResult, RuntimeError>|
            #[trigger] dispatch_outcome(builtin_view(), name, m, ws, res, m2) && match res {
                Err(e) => lift(r) == Err::<RuntimeValue, Fault>(Fault::Runtime(e)),
                Ok(v) => lift(r) == intrinsic_value_spec(v, ret),
            },
    }
}

/// The outcome of a call to a function the module does not define: an
/// `llvm.*` memory or bit intrinsic, or else a runtime intrinsic.
pub open spec fn intrinsic_call_outcome(
    name: Seq<char>,
    ret: IrType,
    args: Seq<RuntimeValue>,
    m: Seq<u8>,
    r: Result<RuntimeValue, InterpError>,
    m2: Seq<u8>,
) -> bool {
    if has_prefix(name, "llvm."@) {
        match mem_spec(name, args, m) {
            Ok(Some((v, mm))) => r == Ok::<RuntimeValue, InterpError>(v) && m2 == mm,
            Err(f) => lift(r) == Err::<RuntimeValue, Fault>(f) && m2 == m,
            Ok(None) => m2 == m && match llvm_bit_spec(name, args) {
                Ok(Some(v)) => r == Ok::<RuntimeValue, InterpError>(v),
                Ok(None) => lift(r) == Err::<RuntimeValue, Fault>(
                    Fault::UnsupportedInstruction("unsupported llvm intrinsic: "@ + name),
                ),
                Err(f) => lift(r) == Err::<RuntimeValue, Fault>(f),
            },
        }
    } else {
        runtime_call_outcome(name, ret, args, m, r, m2)
    }
}

/// The words passed to a runtime intrinsic.
fn intrinsic_words(args: &[RuntimeValue]) -> (r: Result<Vec<u32>, InterpError>)
    ensures
        match words_spec(args@) {
            Ok(ws) => r matches Ok(v) && v@ == ws,
            Err(e) => r matches Err(x) && x@ == e,
        },
{
    let mut out: Vec<u32> = Vec::new();
    let mut i: usize = 0;
    while i < args.len()
        invariant
            i <= args@.len(),
            words_spec(args@.take(i as int)) == Ok::<Seq<u32>, Fault>(out@),
        decreases args.len() - i,
    {
        proof {
            assert(args@.take(i + 1).drop_last() =~= args@.take(i as int));
        }
        match runtime_value_to_u32(&args[i]) {
            Ok(w) => out.push(w),
            Err(e) => {
                proof {
                    lemma_words_prefix_err(args@, i + 1);
                }
                return Err(e);
            },
        }
        i = i + 1;
    }
    proof {
        assert(args@.take(i as int) =~= args@);
    }
    Ok(out)
}

proof fn lemma_words_prefix_err(args: Seq<RuntimeValue>, k: int)
    requires
        0 <= k <= args.len(),
        words_spec(args.take(k)) is Err,
    ensures
        words_spec(args) == words_spec(args.take(k)),
    decreases args.len() - k,
{
    if k < args.len() {
        assert(args.take(k + 1).drop_last() =~= args.take(k));
        lemma_words_prefix_err(args, k + 1);
    } else {
        assert(args.take(k) =~= args);
    }
}

/// Call a function the module does not define: `llvm.*` memory and bit
/// intrinsics are resolved here, any other name goes to the runtime's
/// intrinsics with its arguments passed as words.
pub fn dispatch_runtime_intrinsic(memory: &mut Vec<u8>, name: &str, return_ty: IrType, args: &[RuntimeValue]) -> (r: Result<
    RuntimeValue,
    InterpError,
>)
    requires
        old(memory)@.len() < 0x1_0000_0000,
    ensures
        intrinsic_call_outcome(name@, return_ty, args@, old(memory)@, r, final(memory)@),
{
    let s = collect_chars(name);
    if chars_start_with(&s, "llvm.") {
        match dispatch_memory_intrinsic(memory, name, args) {
            Ok(Some(v)) => return Ok(v),
            Ok(None) => {},
            Err(e) => return Err(e),
        }
        return match dispatch_llvm_intrinsic(name, args) {
            Ok(Some(v)) => Ok(v),
            Ok(None) => {
                let mut m = owned("unsupported llvm intrinsic: ");
                push_str(&mut m, name);
                Err(InterpError::UnsupportedInstruction(m))
            },
            Err(e) => Err(e),
        };
    }
    let words = match intrinsic_words(args) {
        Ok(w) => w,
        Err(e) => return Err(e),
    };
    let ghost m0 = memory@;
    let res = dispatch_intrinsic(name, memory, words.as_slice());
    let ghost m1 = memory@;
    proof {
        assert(dispatch_outcome(builtin_view(), name@, m0, words@, res, m1));
    }
    match res {
        Ok(v) => intrinsic_result_to_runtime_value(v, return_ty),
        Err(e) => Err(InterpError::Runtime(e)),
    }
}


proof fn lemma_spliced_len(m: Seq<u8>, at: int, b: Seq<u8>)
    requires
        0 <= at,
        at + b.len() <= m.len(),
    ensures
        spliced(m, at, b).len() == m.len(),
{
}

/// A call of a function the module lacks leaves the memory's size alone.
pub proof fn lemma_intrinsic_call_keeps_len(
    name: Seq<char>,
    ret: IrType,
    args: Seq<RuntimeValue>,
    m: Seq<u8>,
    r: Result<RuntimeValue, InterpError>,
    m2: Seq<u8>,
)
    requires
        intrinsic_call_outcome(name, ret, args, m, r, m2),
    ensures
        m2.len() == m.len(),
{
    if has_prefix(name, "llvm."@) {
        match mem_spec(name, args, m) {
            Ok(Some((v, mm))) => {
                let (op, plen) = mem_family(name)->0;
                let n = mem_len_spec(args[2])->Ok_0;
                if op == MemOp::Fill {
                    let dst = mem_addr_spec(args[0])->Ok_0;
                    if n != 0 {
                        let byte = mem_byte_spec(args[1])->Ok_0;
                        lemma_spliced_len(m, dst as int, Seq::new(n as nat, |i: int| byte));
                    }
                } else {
                    let dst = mem_addr_spec(args[0])->Ok_0;
                    let src = mem_addr_spec(args[1])->Ok_0;
                    if n != 0 {
                        lemma_spliced_len(m, dst as int, m.subrange(src as int, src + n));
                    }
                }
            },
            _ => {},
        }
    } else {
        match words_spec(args) {
            Ok(ws) => {
                let res = choose|res: Result<IntrinsicResult, RuntimeError>|
                    #[trigger] dispatch_outcome(builtin_view(), name, m, ws, res, m2) && match res {
                        Err(e) => lift(r) == Err::<RuntimeValue, Fault>(Fault::Runtime(e)),
                        Ok(v) => lift(r) == intrinsic_value_spec(v, ret),
                    };
                assert(dispatch_outcome(builtin_view(), name, m, ws, res, m2));
            },
            Err(_) => {},
        }
    }
}

} // verus!
