//! Engine-neutral semantics for the bit-intrinsic families ScratchArch
//! realises (byte swap, population count, leading and trailing zero count).
//!
//! The value is masked to `width` bits first; counting the leading or
//! trailing zeros of zero yields `width`; a byte swap reverses only the low
//! `width / 8` bytes; the result occupies the low `width` bits.

use vstd::prelude::*;
use vstd::arithmetic::power2::{lemma2_to64, lemma2_to64_rest, lemma_pow2_adds, lemma_pow2_pos, lemma_pow2_unfold, pow2};
use vstd::arithmetic::div_mod::{
    lemma_div_denominator, lemma_fundamental_div_mod_converse, lemma_mod_breakdown, lemma_mod_mod,
};

verus! {

/// The bit-intrinsic families, independent of any LLVM name spelling.
#[derive(Debug, Clone, Copy, PartialEq, Eq)]
pub enum BitIntrinsicKind {
    /// Byte-swap: reverse the low `width / 8` bytes of the value.
    ByteReverse,
    /// Count the set bits of the (width-masked) value.
    PopCount,
    /// Count leading zeros of the width-bit value; zero yields `width`.
    CountLeadingZeros,
    /// Count trailing zeros of the width-bit value; zero yields `width`.
    CountTrailingZeros,
}

/// The widths the bit intrinsics accept.
pub open spec fn is_bit_width(width: u32) -> bool {
    width == 8 || width == 16 || width == 32 || width == 64
}

/// Number of set bits of `x`.
pub open spec fn popcount(x: nat) -> nat
    decreases x,
{
    if x == 0 {
        0
    } else {
        x % 2 + popcount(x / 2)
    }
}

/// Number of bits needed to write `x` (zero for zero).
pub open spec fn bit_length(x: nat) -> nat
    decreases x,
{
    if x == 0 {
        0
    } else {
        1 + bit_length(x / 2)
    }
}

/// Number of trailing zero bits of a non-zero `x`.
pub open spec fn trailing_zeros(x: nat) -> nat
    decreases x,
{
    if x == 0 || x % 2 == 1 {
        0
    } else {
        1 + trailing_zeros(x / 2)
    }
}

/// `acc` followed by the low `nb` bytes of `x` taken from the least
/// significant one up, i.e. those bytes in reverse order.
pub open spec fn rev_bytes(x: nat, nb: nat, acc: nat) -> nat
    decreases nb,
{
    if nb == 0 {
        acc
    } else {
        rev_bytes(x / 256, (nb - 1) as nat, acc * 256 + x % 256)
    }
}

/// The value of a bit intrinsic on a `width`-bit value `x`.
pub open spec fn bit_value(kind: BitIntrinsicKind, width: nat, x: nat) -> nat {
    match kind {
        BitIntrinsicKind::ByteReverse => rev_bytes(x, width / 8, 0),
        BitIntrinsicKind::PopCount => popcount(x),
        BitIntrinsicKind::CountLeadingZeros => if x == 0 {
            width
        } else {
            (width - bit_length(x)) as nat
        },
        BitIntrinsicKind::CountTrailingZeros => if x == 0 {
            width
        } else {
            trailing_zeros(x)
        },
    }
}

proof fn lemma_popcount_le(x: nat)
    ensures
        popcount(x) <= x,
    decreases x,
{
    if x > 0 {
        lemma_popcount_le(x / 2);
    }
}

proof fn lemma_bit_length_bound(x: nat, k: nat)
    requires
        x < pow2(k),
    ensures
        bit_length(x) <= k,
    decreases k,
{
    if x > 0 {
        if k == 0 {
            lemma2_to64();
        } else {
            lemma_pow2_unfold(k);
            lemma_bit_length_bound(x / 2, (k - 1) as nat);
        }
    }
}

proof fn lemma_trailing_le_length(x: nat)
    requires
        x > 0,
    ensures
        trailing_zeros(x) < bit_length(x),
    decreases x,
{
    if x % 2 == 0 {
        lemma_trailing_le_length(x / 2);
    }
}

fn mask_to_width(width: u32, value: u64) -> (x: u64)
    requires
        is_bit_width(width),
    ensures
        x == (value as nat) % pow2(width as nat),
        x < pow2(width as nat),
{
    proof {
        lemma2_to64();
        lemma2_to64_rest();
    }
    if width == 8 {
        assert(value & 0xff == value % 0x100) by (bit_vector);
        value & 0xff
    } else if width == 16 {
        assert(value & 0xffff == value % 0x10000) by (bit_vector);
        value & 0xffff
    } else if width == 32 {
        assert(value & 0xffff_ffff == value % 0x1_0000_0000) by (bit_vector);
        value & 0xffff_ffff
    } else {
        value
    }
}

fn pop_count(x: u64) -> (c: u64)
    ensures
        c == popcount(x as nat),
{
    let mut v = x;
    let mut c: u64 = 0;
    proof {
        lemma_popcount_le(x as nat);
    }
    while v != 0
        invariant
            c + popcount(v as nat) == popcount(x as nat),
            popcount(x as nat) <= x,
        decreases v,
    {
        assert(v & 1 == v % 2) by (bit_vector);
        assert(v >> 1 == v / 2) by (bit_vector);
        c = c + (v & 1);
        v = v >> 1;
    }
    c
}

fn leading_zeros_in(width: u32, x: u64) -> (c: u64)
    requires
        is_bit_width(width),
        0 < x < pow2(width as nat),
    ensures
        c == width - bit_length(x as nat),
{
    proof {
        lemma_bit_length_bound(x as nat, width as nat);
    }
    let mut v = x;
    let mut bl: u64 = 0;
    while v != 0
        invariant
            bl + bit_length(v as nat) == bit_length(x as nat),
            bit_length(x as nat) <= width,
            is_bit_width(width),
        decreases v,
    {
        assert(v >> 1 == v / 2) by (bit_vector);
        bl = bl + 1;
        v = v >> 1;
    }
    width as u64 - bl
}

fn trailing_zeros_of(x: u64) -> (c: u64)
    requires
        x > 0,
    ensures
        c == trailing_zeros(x as nat),
{
    proof {
        lemma2_to64_rest();
        lemma_bit_length_bound(x as nat, 64);
    }
    let mut v = x;
    let mut tz: u64 = 0;
    while v & 1 == 0
        invariant
            v > 0,
            tz + trailing_zeros(v as nat) == trailing_zeros(x as nat),
            tz + bit_length(v as nat) == bit_length(x as nat),
            bit_length(x as nat) <= 64,
        decreases v,
    {
        assert(v & 1 == v % 2) by (bit_vector);
        assert(v >> 1 == v / 2) by (bit_vector);
        proof {
            lemma_trailing_le_length(v as nat);
        }
        tz = tz + 1;
        v = v >> 1;
    }
    assert(v & 1 == v % 2) by (bit_vector);
    tz
}

fn byte_reverse(nb: u32, x: u64) -> (r: u64)
    requires
        nb <= 8,
        x < pow2(8 * nb as nat),
    ensures
        r == rev_bytes(x as nat, nb as nat, 0),
{
    let mut v = x;
    let mut out: u64 = 0;
    let mut i: u32 = 0;
    proof {
        lemma2_to64();
        lemma2_to64_rest();
    }
    while i < nb
        invariant
            i <= nb <= 8,
            rev_bytes(v as nat, (nb - i) as nat, out as nat) == rev_bytes(x as nat, nb as nat, 0),
            out < pow2(8 * i as nat),
            pow2(64) == 0x1_0000_0000_0000_0000,
        decreases nb - i,
    {
        assert(v & 0xff == v % 256) by (bit_vector);
        assert(v >> 8 == v / 256) by (bit_vector);
        proof {
            lemma_pow2_adds(8 * i as nat, 8);
            lemma2_to64();
            assert(8 * (i + 1) as nat == 8 * i as nat + 8);
            if i + 1 < 8 {
                vstd::arithmetic::power2::lemma_pow2_strictly_increases(8 * (i + 1) as nat, 64);
            }
            let p = pow2(8 * i as nat);
            assert(out * 256 + v % 256 < p * 256) by (nonlinear_arith)
                requires
                    out < p,
                    v % 256 < 256,
            ;
        }
        out = out * 256 + (v & 0xff);
        v = v >> 8;
        i = i + 1;
    }
    out
}

/// Evaluate a bit intrinsic over a `width`-bit value, returning the result in
/// the low `width` bits. Returns `None` for a width outside `{8, 16, 32, 64}`.
pub fn bit_intrinsic_value(kind: BitIntrinsicKind, width: u32, value: u64) -> (r: Option<u64>)
    ensures
        !is_bit_width(width) ==> r == None::<u64>,
        is_bit_width(width) ==> r == Some(
            bit_value(kind, width as nat, value as nat % pow2(width as nat)) as u64,
        ),
        is_bit_width(width) ==> bit_value(kind, width as nat, value as nat % pow2(width as nat))
            <= u64::MAX,
{
    if !(width == 8 || width == 16 || width == 32 || width == 64) {
        return None;
    }
    let x = mask_to_width(width, value);
    let out = match kind {
        BitIntrinsicKind::ByteReverse => {
            proof {
                assert(8 * (width / 8) as nat == width);
            }
            byte_reverse(width / 8, x)
        },
        BitIntrinsicKind::PopCount => pop_count(x),
        BitIntrinsicKind::CountLeadingZeros => {
            if x == 0 {
                width as u64
            } else {
                leading_zeros_in(width, x)
            }
        },
        BitIntrinsicKind::CountTrailingZeros => {
            if x == 0 {
                width as u64
            } else {
                trailing_zeros_of(x)
            }
        },
    };
    Some(out)
}

/// `256` to the power `n`: the number of values `n` bytes hold.
pub open spec fn byte_base(n: nat) -> nat
    decreases n,
{
    if n == 0 {
        1
    } else {
        256 * byte_base((n - 1) as nat)
    }
}

proof fn lemma_byte_base_pos(n: nat)
    ensures
        byte_base(n) > 0,
    decreases n,
{
    if n > 0 {
        lemma_byte_base_pos((n - 1) as nat);
    }
}

proof fn lemma_byte_base_pow2(n: nat)
    ensures
        byte_base(n) == pow2(8 * n),
    decreases n,
{
    if n == 0 {
        lemma2_to64();
    } else {
        lemma_byte_base_pow2((n - 1) as nat);
        lemma_pow2_adds(8, 8 * (n - 1) as nat);
        lemma2_to64();
        assert(8 * n == 8 + 8 * (n - 1) as nat);
    }
}

proof fn lemma_rev_acc(x: nat, n: nat, acc: nat)
    ensures
        rev_bytes(x, n, acc) == acc * byte_base(n) + rev_bytes(x, n, 0),
    decreases n,
{
    if n == 0 {
        assert(acc * 1 == acc);
    } else {
        let m = (n - 1) as nat;
        let b = x % 256;
        let p = byte_base(m);
        let r = rev_bytes(x / 256, m, 0);
        assert(rev_bytes(x, n, acc) == rev_bytes(x / 256, m, acc * 256 + b));
        assert(0 * 256 + b == b);
        assert(rev_bytes(x, n, 0) == rev_bytes(x / 256, m, b));
        assert(byte_base(n) == 256 * p);
        lemma_rev_acc(x / 256, m, acc * 256 + b);
        lemma_rev_acc(x / 256, m, b);
        assert((acc * 256 + b) * p == acc * (256 * p) + b * p) by (nonlinear_arith);
    }
}

proof fn lemma_rev_bound(x: nat, n: nat)
    ensures
        rev_bytes(x, n, 0) < byte_base(n),
    decreases n,
{
    if n > 0 {
        let m = (n - 1) as nat;
        lemma_rev_acc(x / 256, m, x % 256);
        lemma_rev_bound(x / 256, m);
        let b = x % 256;
        let r = rev_bytes(x / 256, m, 0);
        let p = byte_base(m);
        assert(b * p + r < 256 * p) by (nonlinear_arith)
            requires
                b <= 255,
                r < p,
        ;
    }
}

/// Reversing `n + 1` bytes puts the top byte at the bottom.
proof fn lemma_rev_low(y: nat, n: nat)
    ensures
        rev_bytes(y, n + 1, 0) == rev_bytes(y % byte_base(n), n, 0) * 256 + (y / byte_base(n)) % 256,
    decreases n,
{
    lemma_byte_base_pos(n);
    if n == 0 {
        assert(rev_bytes(y, 1, 0) == rev_bytes(y / 256, 0, 0 * 256 + y % 256));
        assert(y % 1 == 0);
        assert(y / 1 == y);
    } else {
        let m = (n - 1) as nat;
        let p = byte_base(m);
        lemma_byte_base_pos(m);
        assert(rev_bytes(y, n + 1, 0) == rev_bytes(y / 256, n, 0 * 256 + y % 256));
        assert(byte_base(n) == 256 * p);
        lemma_rev_acc(y / 256, n, y % 256);
        lemma_rev_low(y / 256, m);
        let z = y % byte_base(n);
        assert(rev_bytes(z, n, 0) == rev_bytes(z / 256, m, 0 * 256 + z % 256));
        lemma_rev_acc(z / 256, m, z % 256);
        lemma_mod_breakdown(y as int, 256, p as int);
        lemma_mod_mod(y as int, 256, p as int);
        lemma_fundamental_div_mod_converse(z as int, 256, ((y / 256) % p) as int, (y % 256) as int);
        lemma_div_denominator(y as int, 256, p as int);
        let a = y % 256;
        let q = rev_bytes((y / 256) % p, m, 0);
        let c = (y / 256 / p) % 256;
        assert(a * (256 * p) + (q * 256 + c) == (a * p + q) * 256 + c) by (nonlinear_arith);
    }
}

/// Reversing the bytes twice gives back the low `n` bytes.
proof fn lemma_rev_twice(x: nat, n: nat)
    ensures
        rev_bytes(rev_bytes(x, n, 0), n, 0) == x % byte_base(n),
    decreases n,
{
    if n == 0 {
        assert(x % 1 == 0);
    } else {
        let m = (n - 1) as nat;
        let p = byte_base(m);
        lemma_byte_base_pos(m);
        let y = rev_bytes(x, n, 0);
        let b = x % 256;
        let r = rev_bytes(x / 256, m, 0);
        lemma_rev_acc(x / 256, m, b);
        lemma_rev_bound(x / 256, m);
        lemma_rev_low(y, m);
        lemma_fundamental_div_mod_converse(y as int, p as int, b as int, r as int);
        assert(b % 256 == b);
        lemma_rev_twice(x / 256, m);
        lemma_mod_breakdown(x as int, 256, p as int);
        assert(256 * ((x / 256) % p) + b == ((x / 256) % p) * 256 + b) by (nonlinear_arith);
    }
}

/// A byte swap is undone by a second byte swap of the same width: the
/// result is the value masked to that width.
pub proof fn lemma_byte_reverse_involution(width: u32, x: nat)
    requires
        is_bit_width(width),
    ensures
        bit_value(
            BitIntrinsicKind::ByteReverse,
            width as nat,
            bit_value(BitIntrinsicKind::ByteReverse, width as nat, x % pow2(width as nat)),
        ) == x % pow2(width as nat),
        bit_value(BitIntrinsicKind::ByteReverse, width as nat, x % pow2(width as nat)) < pow2(width as nat),
{
    let n = (width / 8) as nat;
    assert(8 * n == width);
    lemma_byte_base_pow2(n);
    lemma_byte_base_pos(n);
    lemma_rev_twice(x % byte_base(n), n);
    lemma_rev_bound(x % byte_base(n), n);
    assert((x % byte_base(n)) % byte_base(n) == x % byte_base(n)) by {
        lemma_mod_mod(x as int, byte_base(n) as int, 1);
    }
}

proof fn lemma_popcount_le_length(x: nat)
    ensures
        popcount(x) <= bit_length(x),
    decreases x,
{
    if x > 0 {
        lemma_popcount_le_length(x / 2);
    }
}

proof fn lemma_power_bits(k: nat)
    ensures
        popcount(pow2(k)) == 1,
        trailing_zeros(pow2(k)) == k,
        bit_length(pow2(k)) == k + 1,
    decreases k,
{
    if k == 0 {
        lemma2_to64();
        assert(pow2(0) == 1);
        assert(popcount(0) == 0);
        assert(bit_length(0) == 0);
    } else {
        lemma_power_bits((k - 1) as nat);
        lemma_pow2_unfold(k);
        let p = pow2((k - 1) as nat);
        assert(pow2(k) == 2 * p);
        assert((2 * p) / 2 == p);
        assert((2 * p) % 2 == 0);
        assert(pow2(k) != 0);
    }
}

/// On a value with one set bit, bit `k` of a `width`-bit word, the counting
/// intrinsics tell where that bit is: the population count is one, there
/// are `k` trailing zeros and `width - 1 - k` leading zeros.
pub proof fn lemma_single_bit_counts(width: u32, k: nat)
    requires
        is_bit_width(width),
        k < width,
    ensures
        bit_value(BitIntrinsicKind::PopCount, width as nat, pow2(k)) == 1,
        bit_value(BitIntrinsicKind::CountTrailingZeros, width as nat, pow2(k)) == k,
        bit_value(BitIntrinsicKind::CountLeadingZeros, width as nat, pow2(k)) == width - 1 - k,
{
    lemma_power_bits(k);
    lemma2_to64();
    assert(pow2(k) > 0) by {
        lemma_pow2_pos(k);
    }
}

/// The counting intrinsics (population count, leading and trailing zeros)
/// give at most the width; a byte swap gives a value of the width.
pub proof fn lemma_bit_value_bounds(kind: BitIntrinsicKind, width: u32, x: nat)
    requires
        is_bit_width(width),
    ensures
        kind != BitIntrinsicKind::ByteReverse ==> bit_value(kind, width as nat, x % pow2(width as nat)) <= width,
        bit_value(kind, width as nat, x % pow2(width as nat)) < pow2(width as nat),
{
    let w = width as nat;
    let v = x % pow2(w);
    lemma2_to64();
    lemma2_to64_rest();
    assert(pow2(w) > 0);
    assert(v < pow2(w));
    lemma_bit_length_bound(v, w);
    lemma_popcount_le_length(v);
    if v > 0 {
        lemma_trailing_le_length(v);
    }
    lemma_byte_reverse_involution(width, x);
    assert(w < pow2(w));
}

} // verus!
