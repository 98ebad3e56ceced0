//! Portable C-style string routines.
//!
//! The routines that scan for a terminator without a length bound need the
//! scan to end: in a memory smaller than the 32-bit address space every scan
//! reaches either a terminator or an out-of-bounds address; in a larger one
//! every address is readable and the scan must reach a zero byte.

use vstd::prelude::*;
use vstd::arithmetic::div_mod::{lemma_add_mod_noop, lemma_mod_bound, lemma_small_mod};

use crate::runtime::memory::{
    addr_at, addr_space, copy_forward, first_difference, lemma_offset, oob, pair_fault, pair_fault_addr,
    pair_ok_before,
};
use crate::runtime::{ByteMemory, RuntimeError};

verus! {

/// Every byte of the string at `s` before offset `k` is in bounds and
/// non-zero.
pub open spec fn nonzero_before(m: Seq<u8>, s: u32, k: int) -> bool {
    forall|j: int| 0 <= j < k ==> #[trigger] addr_at(s, j) < m.len() && m[addr_at(s, j)] != 0
}

/// The outcome of measuring the null-terminated string at `s`: the offset of
/// the first zero byte; `MemoryOutOfBounds` when `s` itself is out of
/// bounds; `UnterminatedString` at the first out-of-bounds address when the
/// string runs off the end of memory without a terminator, or when the
/// count would pass `usize::MAX`.
pub open spec fn strlen_outcome(m: Seq<u8>, s: u32, r: Result<usize, RuntimeError>) -> bool {
    match r {
        Ok(k) => nonzero_before(m, s, k as int) && addr_at(s, k as int) < m.len() && m[addr_at(
            s,
            k as int,
        )] == 0,
        Err(e) => {
            ||| addr_at(s, 0) >= m.len() && e == oob(addr_at(s, 0) as u32)
            ||| exists|k: int|
                1 <= k <= usize::MAX && nonzero_before(m, s, k) && #[trigger] addr_at(s, k) >= m.len() && e
                    == RuntimeError::UnterminatedString { addr: addr_at(s, k) as u32 }
            ||| nonzero_before(m, s, usize::MAX + 1) && e == RuntimeError::UnterminatedString {
                addr: addr_at(s, usize::MAX as int) as u32,
            }
        },
    }
}

/// Compute the length of a null-terminated string, excluding the terminator.
pub fn strlen<M: ByteMemory>(mem: &M, s: u32) -> (r: Result<usize, RuntimeError>)
    ensures
        strlen_outcome(mem.bytes(), s, r),
{
    let ghost m = mem.bytes();
    let mut len: usize = 0;
    loop
        invariant
            m == mem.bytes(),
            nonzero_before(m, s, len as int),
        decreases usize::MAX - len,
    {
        let off = ((len as u64) % 0x1_0000_0000u64) as u32;
        proof {
            lemma_offset(s, len as int);
        }
        let addr = s.wrapping_add(off);
        let b = match mem.load_u8(addr) {
            Ok(b) => b,
            Err(e) => {
                assert(addr_at(s, len as int) >= m.len());
                if len == 0 {
                    return Err(e);
                }
                return Err(RuntimeError::UnterminatedString { addr });
            },
        };
        if b == 0 {
            return Ok(len);
        }
        assert(nonzero_before(m, s, len + 1));
        if len == usize::MAX {
            return Err(RuntimeError::UnterminatedString { addr });
        }
        len = len + 1;
    }
}

/// The strings at `s1` and `s2` agree on their first `k` bytes, all of which
/// are in bounds and non-zero.
pub open spec fn str_equal_before(m: Seq<u8>, s1: u32, s2: u32, k: int) -> bool {
    forall|j: int|
        0 <= j < k ==> !#[trigger] pair_fault(m.len(), s1, s2, j) && m[addr_at(s1, j)] == m[addr_at(
            s2,
            j,
        )] && m[addr_at(s1, j)] != 0
}

/// The outcome of comparing the null-terminated strings at `s1` and `s2`
/// byte by byte (reading `s1 + i`, then `s2 + i`): at the first offset where
/// the bytes differ the result is their difference; where both are zero the
/// strings are equal; the first failing read is reported.
pub open spec fn string_order_outcome(m: Seq<u8>, s1: u32, s2: u32, r: Result<i32, RuntimeError>) -> bool {
    match r {
        Ok(v) => exists|k: int|
            0 <= k && str_equal_before(m, s1, s2, k) && !#[trigger] pair_fault(m.len(), s1, s2, k) && (
            (m[addr_at(s1, k)] != m[addr_at(s2, k)] && v == m[addr_at(s1, k)] as int - m[addr_at(
                s2,
                k,
            )] as int) || (m[addr_at(s1, k)] == 0 && m[addr_at(s2, k)] == 0 && v == 0)),
        Err(e) => exists|k: int|
            0 <= k && str_equal_before(m, s1, s2, k) && #[trigger] pair_fault(m.len(), s1, s2, k)
                && e == oob(pair_fault_addr(m.len(), s1, s2, k)),
    }
}

/// In a memory below the address-space size, addresses of a run of in-bounds
/// offsets from `base` do not wrap.
proof fn lemma_run_no_wrap(len: nat, base: u32, i: int)
    requires
        len < addr_space(),
        0 <= i < addr_space(),
        i > 0 ==> base + i <= len,
    ensures
        addr_at(base, i) == (base + i) % addr_space(),
        base.wrapping_add(i as u32) == addr_at(base, i),
        addr_at(base, i) < len ==> base + i < len,
{
    lemma_small_mod(i as nat, addr_space() as nat);
    lemma_offset(base, i);
    if base + i < addr_space() {
        lemma_small_mod((base + i) as nat, addr_space() as nat);
    }
}

/// A byte-by-byte scan for a zero byte ends inside the address space: the
/// memory is smaller than the address space (so a read past its end
/// fails), or some address holds a zero byte.
pub open spec fn scan_ends(m: Seq<u8>) -> bool {
    m.len() < addr_space() || exists|j: int| 0 <= j < addr_space() && #[trigger] m[j] == 0
}

/// From `base`, the scan reaches address `z` (below the address space) after
/// `(z - base) mod 2^32` steps.
proof fn lemma_reach_offset(base: u32, z: int)
    requires
        0 <= z < addr_space(),
    ensures
        0 <= (z - base) % addr_space() < addr_space(),
        addr_at(base, (z - base) % addr_space()) == z,
{
    lemma_add_mod_noop(base as int, z - base, addr_space());
    lemma_small_mod(base as nat, addr_space() as nat);
    lemma_small_mod(z as nat, addr_space() as nat);
    lemma_mod_bound(z - base, addr_space());
}

/// Byte-wise string comparison loop behind [`strcmp`].
fn compare_strings<M: ByteMemory>(mem: &M, s1: u32, s2: u32) -> (r: Result<i32, RuntimeError>)
    requires
        scan_ends(mem.bytes()),
    ensures
        string_order_outcome(mem.bytes(), s1, s2, r),
{
    let ghost m = mem.bytes();
    let ghost len = m.len();
    let ghost big = len >= addr_space();
    let ghost z: int = if big {
        choose|j: int| 0 <= j < addr_space() && #[trigger] m[j] == 0
    } else {
        0
    };
    let ghost d: int = (z - s1) % addr_space();
    proof {
        lemma_reach_offset(s1, z);
    }
    let mut i: u32 = 0;
    loop
        invariant
            m == mem.bytes(),
            len == m.len(),
            !big ==> len < addr_space(),
            !big ==> (i > 0 ==> s1 + i <= len),
            big ==> len >= addr_space() && 0 <= d < addr_space() && i <= d && m[addr_at(s1, d)] == 0,
            str_equal_before(m, s1, s2, i as int),
        decreases addr_space() - i,
    {
        proof {
            if !big {
                lemma_run_no_wrap(len, s1, i as int);
            }
            lemma_offset(s1, i as int);
            lemma_offset(s2, i as int);
            lemma_small_mod(i as nat, addr_space() as nat);
            assert(((i as int) % addr_space()) as u32 == i);
            assert(s1.wrapping_add(i) == addr_at(s1, i as int));
            assert(s2.wrapping_add(i) == addr_at(s2, i as int));
        }
        let a = match mem.load_u8(s1.wrapping_add(i)) {
            Ok(v) => v,
            Err(e) => {
                assert(pair_fault(len, s1, s2, i as int));
                return Err(e);
            },
        };
        let b = match mem.load_u8(s2.wrapping_add(i)) {
            Ok(v) => v,
            Err(e) => {
                assert(pair_fault(len, s1, s2, i as int));
                return Err(e);
            },
        };
        assert(!pair_fault(len, s1, s2, i as int));
        if a != b {
            return Ok(a as i32 - b as i32);
        }
        if a == 0 {
            return Ok(0);
        }
        assert(a == m[addr_at(s1, i as int)]);
        assert(b == m[addr_at(s2, i as int)]);
        assert(str_equal_before(m, s1, s2, i + 1)) by {
            assert forall|j: int| 0 <= j < i + 1 implies !#[trigger] pair_fault(m.len(), s1, s2, j) && m[addr_at(s1, j)]
                == m[addr_at(s2, j)] && m[addr_at(s1, j)] != 0 by {
                if j < i {
                    assert(!pair_fault(m.len(), s1, s2, j));
                }
            }
        }
        proof {
            if big {
                assert(i != d);
            }
        }
        i = i + 1;
    }
}

/// Compare two null-terminated strings lexicographically as unsigned bytes:
/// negative, zero or positive following standard C `strcmp` semantics; see
/// [`string_order_outcome`] for the exact result.
pub fn strcmp<M: ByteMemory>(mem: &M, s1: u32, s2: u32) -> (r: Result<i32, RuntimeError>)
    requires
        scan_ends(mem.bytes()),
    ensures
        string_order_outcome(mem.bytes(), s1, s2, r),
{
    compare_strings(mem, s1, s2)
}

/// Each of the first `k` steps of a string copy read an in-bounds, non-zero
/// byte (in the memory as the copy had left it) and stored it in bounds.
pub open spec fn copied_nonzero_before(m: Seq<u8>, dest: u32, src: u32, k: int) -> bool {
    forall|j: int|
        0 <= j < k ==> !#[trigger] pair_fault(m.len(), src, dest, j) && copy_forward(
            m,
            dest,
            src,
            j as nat,
        )[addr_at(src, j)] != 0
}

/// The outcome of [`strcpy`]: memory `m` becomes `m2` and the result is `r`.
pub open spec fn strcpy_outcome(m: Seq<u8>, dest: u32, src: u32, r: Result<u32, RuntimeError>, m2: Seq<u8>) -> bool {
    &&& (m2.len() == m.len())
    &&& (match r {
            Ok(v) => v == dest && exists|k: int|
                0 <= k && copied_nonzero_before(m, dest, src, k) && !#[trigger] pair_fault(
                    m.len(),
                    src,
                    dest,
                    k,
                ) && copy_forward(m, dest, src, k as nat)[addr_at(src, k)] == 0
                    && m2 == copy_forward(m, dest, src, (k + 1) as nat),
            Err(e) => exists|k: int|
                0 <= k && copied_nonzero_before(m, dest, src, k) && #[trigger] pair_fault(
                    m.len(),
                    src,
                    dest,
                    k,
                ) && e == oob(pair_fault_addr(m.len(), src, dest, k)) && m2 == copy_forward(m, dest, src, k as nat),
        })
}

/// A string copy from `src` to `dest` ends inside the address space: the
/// memory is smaller than the address space, or some step of the copy
/// reads a zero byte (from the memory as the copy has left it so far).
pub open spec fn copy_ends(m: Seq<u8>, dest: u32, src: u32) -> bool {
    m.len() < addr_space() || exists|k: int|
        0 <= k < addr_space() && #[trigger] copy_forward(m, dest, src, k as nat)[addr_at(src, k)] == 0
}

/// Copy a null-terminated string from `src` to `dest`, including the
/// terminator, one byte at a time (each byte read from memory as the copy has
/// left it so far). Returns `dest` on success; the first failing access is
/// reported and the bytes copied before it stay written.
pub fn strcpy<M: ByteMemory>(mem: &mut M, dest: u32, src: u32) -> (r: Result<u32, RuntimeError>)
    requires
        copy_ends(old(mem).bytes(), dest, src),
    ensures
        strcpy_outcome(old(mem).bytes(), dest, src, r, final(mem).bytes()),

{
    let ghost m0 = mem.bytes();
    let ghost len = m0.len();
    let ghost big = len >= addr_space();
    let ghost k0: int = if big {
        choose|k: int| 0 <= k < addr_space() && #[trigger] copy_forward(m0, dest, src, k as nat)[addr_at(src, k)] == 0
    } else {
        0
    };
    let mut i: u32 = 0;
    loop
        invariant
            m0 == old(mem).bytes(),
            len == m0.len(),
            !big ==> len < addr_space(),
            big ==> len >= addr_space() && 0 <= k0 < addr_space() && i <= k0 && copy_forward(
                m0,
                dest,
                src,
                k0 as nat,
            )[addr_at(src, k0)] == 0,
            mem.bytes().len() == len,
            mem.bytes() == copy_forward(m0, dest, src, i as nat),
            !big ==> (i > 0 ==> src + i <= len),
            copied_nonzero_before(m0, dest, src, i as int),
        decreases addr_space() - i,
    {
        proof {
            if !big {
                lemma_run_no_wrap(len, src, i as int);
            }
            lemma_offset(src, i as int);
            lemma_offset(dest, i as int);
            lemma_small_mod(i as nat, addr_space() as nat);
            assert(((i as int) % addr_space()) as u32 == i);
            assert(src.wrapping_add(i) == addr_at(src, i as int));
            assert(dest.wrapping_add(i) == addr_at(dest, i as int));
        }
        let b = match mem.load_u8(src.wrapping_add(i)) {
            Ok(v) => v,
            Err(e) => {
                assert(pair_fault(len, src, dest, i as int));
                return Err(e);
            },
        };
        match mem.store_u8(dest.wrapping_add(i), b) {
            Ok(()) => {},
            Err(e) => {
                assert(pair_fault(len, src, dest, i as int));
                return Err(e);
            },
        }
        assert(!pair_fault(len, src, dest, i as int));
        if b == 0 {
            return Ok(dest);
        }
        assert(copied_nonzero_before(m0, dest, src, i + 1)) by {
            assert forall|j: int| 0 <= j < i + 1 implies !#[trigger] pair_fault(m0.len(), src, dest, j)
                && copy_forward(m0, dest, src, j as nat)[addr_at(src, j)] != 0 by {
                if j < i {
                    assert(!pair_fault(m0.len(), src, dest, j));
                }
            }
        }
        proof {
            if big {
                assert(i != k0);
            }
        }
        i = i + 1;
    }
}

/// State of a bounded string copy after `k` steps: the memory, and whether
/// the terminator has been copied (after which zeros are written).
pub open spec fn ncopy(m: Seq<u8>, dest: u32, src: u32, k: nat) -> (Seq<u8>, bool)
    decreases k,
{
    if k == 0 {
        (m, false)
    } else {
        let i = k - 1;
        let prev = ncopy(m, dest, src, i as nat);
        if prev.1 {
            (prev.0.update(addr_at(dest, i), 0), true)
        } else {
            let v = prev.0[addr_at(src, i)];
            (prev.0.update(addr_at(dest, i), v), v == 0)
        }
    }
}

/// Step `i` of a bounded string copy faults: it reads the source (before the
/// terminator) out of bounds, or stores out of bounds.
pub open spec fn ncopy_fault(m: Seq<u8>, dest: u32, src: u32, i: int) -> bool {
    (!ncopy(m, dest, src, i as nat).1 && addr_at(src, i) >= m.len()) || addr_at(dest, i) >= m.len()
}

/// The address reported by a faulting step of a bounded string copy.
pub open spec fn ncopy_fault_addr(m: Seq<u8>, dest: u32, src: u32, i: int) -> u32 {
    if !ncopy(m, dest, src, i as nat).1 && addr_at(src, i) >= m.len() {
        addr_at(src, i) as u32
    } else {
        addr_at(dest, i) as u32
    }
}

/// No step of a bounded string copy before `k` faults.
pub open spec fn ncopy_ok_before(m: Seq<u8>, dest: u32, src: u32, k: int) -> bool {
    forall|i: int| 0 <= i < k ==> !#[trigger] ncopy_fault(m, dest, src, i)
}

/// The outcome of [`strncpy`]: memory `m` becomes `m2` and the result is `r`.
pub open spec fn strncpy_outcome(m: Seq<u8>, dest: u32, src: u32, n: usize, r: Result<u32, RuntimeError>, m2: Seq<u8>) -> bool {
    &&& (m2.len() == m.len())
    &&& (ncopy_ok_before(m, dest, src, n as int) ==> r == Ok::<u32, RuntimeError>(dest)
            && m2 == ncopy(m, dest, src, n as nat).0)
    &&& (!ncopy_ok_before(m, dest, src, n as int) ==> exists|i: int|
            0 <= i < n && ncopy_ok_before(m, dest, src, i) && #[trigger] ncopy_fault(
                m,
                dest,
                src,
                i,
            ) && r == Err::<u32, RuntimeError>(
                oob(ncopy_fault_addr(m, dest, src, i)),
            ) && m2 == ncopy(m, dest, src, i as nat).0)
}

/// Copy up to `n` bytes from `src` to `dest`. If `src` is shorter than `n`,
/// the remainder of `dest` is padded with zeros. Returns `dest` on success;
/// the first failing access is reported and the bytes written before it stay.
pub fn strncpy<M: ByteMemory>(mem: &mut M, dest: u32, src: u32, n: usize) -> (r: Result<
    u32,
    RuntimeError,
>)
    ensures
        strncpy_outcome(old(mem).bytes(), dest, src, n, r, final(mem).bytes()),

{
    let ghost m0 = mem.bytes();
    let ghost len = m0.len();
    let mut terminated = false;
    let mut i: usize = 0;
    while i < n
        invariant
            0 <= i <= n,
            m0 == old(mem).bytes(),
            len == m0.len(),
            mem.bytes().len() == len,
            mem.bytes() == ncopy(m0, dest, src, i as nat).0,
            terminated == ncopy(m0, dest, src, i as nat).1,
            ncopy_ok_before(m0, dest, src, i as int),
        decreases n - i,
    {
        let off = ((i as u64) % 0x1_0000_0000u64) as u32;
        proof {
            lemma_offset(src, i as int);
            lemma_offset(dest, i as int);
        }
        let b = if terminated {
            0
        } else {
            let v = match mem.load_u8(src.wrapping_add(off)) {
                Ok(v) => v,
                Err(e) => {
                    assert(ncopy_fault(m0, dest, src, i as int));
                    return Err(e);
                },
            };
            if v == 0 {
                terminated = true;
            }
            v
        };
        match mem.store_u8(dest.wrapping_add(off), b) {
            Ok(()) => {},
            Err(e) => {
                assert(ncopy_fault(m0, dest, src, i as int));
                return Err(e);
            },
        }
        assert(!ncopy_fault(m0, dest, src, i as int));
        i = i + 1;
    }
    Ok(dest)
}

/// Comparing the strings at `s1` and `s2` stops at offset `k`: the bytes
/// before agree and are non-zero, and at `k` a read fails, the bytes differ,
/// or both are zero.
pub open spec fn order_stops_at(m: Seq<u8>, s1: u32, s2: u32, k: int) -> bool {
    &&& 0 <= k
    &&& str_equal_before(m, s1, s2, k)
    &&& (pair_fault(m.len(), s1, s2, k) || m[addr_at(s1, k)] != m[addr_at(s2, k)] || (m[addr_at(s1, k)] == 0
        && m[addr_at(s2, k)] == 0))
}

proof fn lemma_order_stop_unique(m: Seq<u8>, s1: u32, s2: u32, k1: int, k2: int)
    requires
        order_stops_at(m, s1, s2, k1),
        order_stops_at(m, s2, s1, k2),
    ensures
        k1 == k2,
{
    if k1 < k2 {
        assert(!pair_fault(m.len(), s2, s1, k1));
    } else if k2 < k1 {
        assert(!pair_fault(m.len(), s1, s2, k2));
    }
}

/// `strcmp` is antisymmetric: comparing the strings the other way round
/// succeeds exactly when comparing them this way does, with the negated
/// result.
pub proof fn lemma_string_order_antisymmetric(
    m: Seq<u8>,
    s1: u32,
    s2: u32,
    r1: Result<i32, RuntimeError>,
    r2: Result<i32, RuntimeError>,
)
    requires
        string_order_outcome(m, s1, s2, r1),
        string_order_outcome(m, s2, s1, r2),
    ensures
        r1 is Ok <==> r2 is Ok,
        r1 matches Ok(a) ==> (r2 matches Ok(b) && a == -b),
{
    let k1 = if r1 is Ok {
        choose|k: int|
            0 <= k && str_equal_before(m, s1, s2, k) && !#[trigger] pair_fault(m.len(), s1, s2, k) && ((m[addr_at(
                s1,
                k,
            )] != m[addr_at(s2, k)] && r1->Ok_0 == m[addr_at(s1, k)] as int - m[addr_at(s2, k)] as int) || (m[addr_at(
                s1,
                k,
            )] == 0 && m[addr_at(s2, k)] == 0 && r1->Ok_0 == 0))
    } else {
        choose|k: int|
            0 <= k && str_equal_before(m, s1, s2, k) && #[trigger] pair_fault(m.len(), s1, s2, k) && r1->Err_0 == oob(
                pair_fault_addr(m.len(), s1, s2, k),
            )
    };
    let k2 = if r2 is Ok {
        choose|k: int|
            0 <= k && str_equal_before(m, s2, s1, k) && !#[trigger] pair_fault(m.len(), s2, s1, k) && ((m[addr_at(
                s2,
                k,
            )] != m[addr_at(s1, k)] && r2->Ok_0 == m[addr_at(s2, k)] as int - m[addr_at(s1, k)] as int) || (m[addr_at(
                s2,
                k,
            )] == 0 && m[addr_at(s1, k)] == 0 && r2->Ok_0 == 0))
    } else {
        choose|k: int|
            0 <= k && str_equal_before(m, s2, s1, k) && #[trigger] pair_fault(m.len(), s2, s1, k) && r2->Err_0 == oob(
                pair_fault_addr(m.len(), s2, s1, k),
            )
    };
    assert(order_stops_at(m, s1, s2, k1));
    assert(order_stops_at(m, s2, s1, k2));
    lemma_order_stop_unique(m, s1, s2, k1, k2);
}

/// The string at `s` ends with its first zero byte at offset `l`, inside
/// memory and without passing the end of the address space.
pub open spec fn terminated_at(m: Seq<u8>, s: u32, l: int) -> bool {
    &&& 0 <= l
    &&& s + l < m.len()
    &&& s + l < addr_space()
    &&& m[s + l] == 0
    &&& forall|j: int| 0 <= j < l ==> #[trigger] m[s + j] != 0
}

/// Up to the terminator, offsets from a terminated string's start address
/// do not wrap.
proof fn lemma_terminated_addrs(m: Seq<u8>, s: u32, l: int)
    requires
        terminated_at(m, s, l),
    ensures
        forall|j: int| 0 <= j <= l ==> #[trigger] addr_at(s, j) == s + j,
{
    assert forall|j: int| 0 <= j <= l implies #[trigger] addr_at(s, j) == s + j by {
        lemma_small_mod((s + j) as nat, addr_space() as nat);
    }
}

/// `strlen` of a string terminated at offset `l` succeeds with `l`: the
/// offset of the first zero byte, the terminator not counted.
pub proof fn lemma_strlen_counts_to_terminator(m: Seq<u8>, s: u32, l: int, r: Result<usize, RuntimeError>)
    requires
        terminated_at(m, s, l),
        strlen_outcome(m, s, r),
    ensures
        r matches Ok(n) && n == l,
{
    lemma_terminated_addrs(m, s, l);
    match r {
        Ok(k) => {
            if k < l {
                assert(m[s + k] != 0);
            } else if k > l {
                assert(addr_at(s, l) < m.len() && m[addr_at(s, l)] != 0);
            }
        },
        Err(e) => {
            if addr_at(s, 0) >= m.len() {
                assert(addr_at(s, 0) == s + 0);
            } else if nonzero_before(m, s, usize::MAX + 1) {
                assert(l <= usize::MAX) by {
                    assert(s + l < addr_space());
                }
                assert(addr_at(s, l) < m.len() && m[addr_at(s, l)] != 0);
            } else {
                let k = choose|k: int|
                    1 <= k <= usize::MAX && nonzero_before(m, s, k) && #[trigger] addr_at(s, k) >= m.len() && e
                        == RuntimeError::UnterminatedString { addr: addr_at(s, k) as u32 };
                if k <= l {
                    assert(addr_at(s, k) == s + k);
                } else {
                    assert(addr_at(s, l) < m.len() && m[addr_at(s, l)] != 0);
                }
            }
        },
    }
}

/// The bytes of the string at `s` terminated at offset `l`, terminator
/// included.
pub open spec fn string_bytes(m: Seq<u8>, s: u32, l: int) -> Seq<u8> {
    m.subrange(s as int, s + l + 1)
}

/// `strcmp` of two strings terminated at offsets `l1` and `l2` succeeds;
/// it gives zero exactly when the strings are equal (terminators
/// included), and otherwise the difference of the bytes at the first
/// offset where they differ.
pub proof fn lemma_string_order_of_terminated(
    m: Seq<u8>,
    s1: u32,
    s2: u32,
    l1: int,
    l2: int,
    r: Result<i32, RuntimeError>,
)
    requires
        terminated_at(m, s1, l1),
        terminated_at(m, s2, l2),
        string_order_outcome(m, s1, s2, r),
    ensures
        r is Ok,
        r matches Ok(v) ==> (v == 0 <==> string_bytes(m, s1, l1) == string_bytes(m, s2, l2)),
        r matches Ok(v) ==> (string_bytes(m, s1, l1) != string_bytes(m, s2, l2) ==> exists|k: int|
            #[trigger] first_difference(string_bytes(m, s1, l1), string_bytes(m, s2, l2), k) && v == m[s1 + k] as int
                - m[s2 + k] as int),
{
    let a = string_bytes(m, s1, l1);
    let b = string_bytes(m, s2, l2);
    lemma_terminated_addrs(m, s1, l1);
    lemma_terminated_addrs(m, s2, l2);
    match r {
        Ok(v) => {
            let k = choose|k: int|
                0 <= k && str_equal_before(m, s1, s2, k) && !#[trigger] pair_fault(m.len(), s1, s2, k) && ((m[addr_at(
                    s1,
                    k,
                )] != m[addr_at(s2, k)] && v == m[addr_at(s1, k)] as int - m[addr_at(s2, k)] as int) || (m[addr_at(
                    s1,
                    k,
                )] == 0 && m[addr_at(s2, k)] == 0 && v == 0));
            if k > l1 {
                assert(!pair_fault(m.len(), s1, s2, l1));
                assert(m[addr_at(s1, l1)] != 0);
            }
            if k > l2 {
                assert(!pair_fault(m.len(), s1, s2, l2));
                assert(m[addr_at(s1, l2)] == m[addr_at(s2, l2)]);
            }
            assert forall|j: int| 0 <= j < k implies #[trigger] m[s1 + j] == m[s2 + j] && m[s1 + j] != 0 by {
                assert(!pair_fault(m.len(), s1, s2, j));
            }
            if v == 0 {
                if k < l1 {
                    assert(m[s1 + k] != 0);
                }
                if k < l2 {
                    assert(m[s2 + k] != 0);
                }
                assert(a =~= b) by {
                    assert forall|j: int| 0 <= j < a.len() implies a[j] == b[j] by {
                        if j < k {
                            assert(m[s1 + j] == m[s2 + j]);
                        }
                    }
                }
            } else {
                assert(m[s1 + k] != m[s2 + k]);
                assert(a[k] == m[s1 + k] && b[k] == m[s2 + k]);
                assert(a != b);
                assert forall|j: int| 0 <= j < k implies #[trigger] a[j] == b[j] by {
                    assert(m[s1 + j] == m[s2 + j]);
                }
                assert(first_difference(a, b, k));
            }
        },
        Err(e) => {
            let k = choose|k: int|
                0 <= k && str_equal_before(m, s1, s2, k) && #[trigger] pair_fault(m.len(), s1, s2, k) && e == oob(
                    pair_fault_addr(m.len(), s1, s2, k),
                );
            if k > l1 {
                assert(!pair_fault(m.len(), s1, s2, l1));
                assert(m[addr_at(s1, l1)] != 0);
            } else if k > l2 {
                assert(!pair_fault(m.len(), s1, s2, l2));
                assert(m[addr_at(s1, l2)] == m[addr_at(s2, l2)]);
            }
        },
    }
}

/// While the first `k` bytes at `dest` and at `src` lie apart in memory,
/// inside the address space, a forward copy of `k` bytes has put the
/// original bytes at `src` into `dest` and left every other byte alone.
proof fn lemma_copy_forward_apart(m: Seq<u8>, dest: u32, src: u32, n: int, k: nat)
    requires
        src + n <= addr_space(),
        dest + n <= addr_space(),
        k <= n,
        src + n <= m.len(),
        dest + n <= m.len(),
        dest + n <= src || src + n <= dest,
    ensures
        copy_forward(m, dest, src, k).len() == m.len(),
        forall|a: int|
            0 <= a < m.len() ==> #[trigger] copy_forward(m, dest, src, k)[a] == if dest <= a < dest + k {
                m[src + (a - dest)]
            } else {
                m[a]
            },
    decreases k,
{
    if k > 0 {
        lemma_copy_forward_apart(m, dest, src, n, (k - 1) as nat);
        lemma_small_mod((dest + k - 1) as nat, addr_space() as nat);
        lemma_small_mod((src + k - 1) as nat, addr_space() as nat);
    }
}

/// `strcpy` from a terminated string at `src` to a destination that lies
/// apart from it and has room for it (both inside the address space)
/// succeeds, returns `dest`, writes the string with its terminator at
/// `dest` and leaves every other byte alone.
pub proof fn lemma_strcpy_copies(m: Seq<u8>, dest: u32, src: u32, len: usize, r: Result<u32, RuntimeError>, m2: Seq<u8>)
    requires
        src + len < addr_space(),
        dest + len < addr_space(),
        strlen_outcome(m, src, Ok(len)),
        src + len < m.len(),
        dest + len < m.len(),
        dest + len < src || src + len < dest,
        strcpy_outcome(m, dest, src, r, m2),
    ensures
        r == Ok::<u32, RuntimeError>(dest),
        m2.len() == m.len(),
        forall|i: int| 0 <= i <= len ==> #[trigger] m2[dest + i] == m[src + i],
        forall|a: int| 0 <= a < m.len() && !(dest <= a <= dest + len) ==> #[trigger] m2[a] == m[a],
{
    let n = len + 1;
    assert forall|j: int| 0 <= j < n implies addr_at(src, j) == src + j && addr_at(dest, j) == dest + j by {
        lemma_small_mod((src + j) as nat, addr_space() as nat);
        lemma_small_mod((dest + j) as nat, addr_space() as nat);
    }
    assert forall|k: nat, j: int| k <= n && 0 <= j < n implies #[trigger] copy_forward(m, dest, src, k)[src + j]
        == m[src + j] by {
        lemma_copy_forward_apart(m, dest, src, n, k);
    }
    match r {
        Ok(v) => {
            let k = choose|k: int|
                0 <= k && copied_nonzero_before(m, dest, src, k) && !#[trigger] pair_fault(m.len(), src, dest, k)
                    && copy_forward(m, dest, src, k as nat)[addr_at(src, k)] == 0 && m2 == copy_forward(
                    m,
                    dest,
                    src,
                    (k + 1) as nat,
                );
            if k < len {
                assert(m[addr_at(src, k)] != 0);
                assert(copy_forward(m, dest, src, k as nat)[src + k] == m[src + k]);
            } else if k > len {
                assert(!pair_fault(m.len(), src, dest, len as int));
                assert(copy_forward(m, dest, src, len as nat)[addr_at(src, len as int)] != 0);
                assert(copy_forward(m, dest, src, len as nat)[src + len] == m[src + len]);
            }
            lemma_copy_forward_apart(m, dest, src, n, n as nat);
        },
        Err(e) => {
            let k = choose|k: int|
                0 <= k && copied_nonzero_before(m, dest, src, k) && #[trigger] pair_fault(m.len(), src, dest, k)
                    && e == oob(pair_fault_addr(m.len(), src, dest, k)) && m2 == copy_forward(m, dest, src, k as nat);
            if k > len {
                assert(!pair_fault(m.len(), src, dest, len as int));
                assert(copy_forward(m, dest, src, len as nat)[addr_at(src, len as int)] != 0);
                assert(copy_forward(m, dest, src, len as nat)[src + len] == m[src + len]);
            }
        },
    }
}

/// The hypotheses of [`lemma_strncpy_copies`]: `ln` is the offset of the
/// first zero byte at `src` (at least `n` when none of the first `n` bytes
/// is zero), the bytes read and written lie in memory and inside the
/// address space, and the source bytes read lie apart from the `n` bytes
/// written.
pub open spec fn bounded_copy_apart(m: Seq<u8>, dest: u32, src: u32, n: int, ln: int) -> bool {
    let read = if ln < n {
        ln + 1
    } else {
        n
    };
    &&& src + read <= addr_space()
    &&& dest + n <= addr_space()
    &&& 0 <= ln
    &&& forall|j: int| 0 <= j < ln && j < n ==> #[trigger] m[src + j] != 0
    &&& ln < n ==> m[src + ln] == 0
    &&& src + read <= m.len()
    &&& dest + n <= m.len()
    &&& (dest + n <= src || src + read <= dest)
}

proof fn lemma_ncopy_apart(m: Seq<u8>, dest: u32, src: u32, n: int, ln: int, k: nat)
    requires
        bounded_copy_apart(m, dest, src, n, ln),
        k <= n,
    ensures
        ncopy(m, dest, src, k).0.len() == m.len(),
        ncopy(m, dest, src, k).1 == (ln < k),
        forall|a: int|
            0 <= a < m.len() ==> #[trigger] ncopy(m, dest, src, k).0[a] == if dest <= a < dest + k {
                if a - dest <= ln {
                    m[src + (a - dest)]
                } else {
                    0
                }
            } else {
                m[a]
            },
        ncopy_ok_before(m, dest, src, k as int),
    decreases k,
{
    if k > 0 {
        let i = k - 1;
        lemma_ncopy_apart(m, dest, src, n, ln, i as nat);
        lemma_small_mod((dest + i) as nat, addr_space() as nat);
        if i <= ln {
            lemma_small_mod((src + i) as nat, addr_space() as nat);
        }
        assert forall|j: int| 0 <= j < k implies !#[trigger] ncopy_fault(m, dest, src, j) by {
            if j < i {
                assert(ncopy_ok_before(m, dest, src, i as int));
            } else {
                if j <= ln {
                    lemma_small_mod((src + j) as nat, addr_space() as nat);
                }
            }
        }
    }
}

/// `strncpy` of `n` bytes from `src`, whose first zero byte is at offset
/// `ln` (or past `n`), to a destination with room that lies apart from the
/// source bytes read succeeds, returns `dest`, writes the source bytes up to
/// and including the terminator and zeros after it, and leaves every other
/// byte alone; with no terminator among the first `n` bytes none is
/// written.
pub proof fn lemma_strncpy_copies(
    m: Seq<u8>,
    dest: u32,
    src: u32,
    n: usize,
    ln: int,
    r: Result<u32, RuntimeError>,
    m2: Seq<u8>,
)
    requires
        bounded_copy_apart(m, dest, src, n as int, ln),
        strncpy_outcome(m, dest, src, n, r, m2),
    ensures
        r == Ok::<u32, RuntimeError>(dest),
        m2.len() == m.len(),
        forall|i: int| 0 <= i < n ==> #[trigger] m2[dest + i] == if i <= ln {
            m[src + i]
        } else {
            0
        },
        forall|a: int| 0 <= a < m.len() && !(dest <= a < dest + n) ==> #[trigger] m2[a] == m[a],
{
    lemma_ncopy_apart(m, dest, src, n as int, ln, n as nat);
}

} // verus!
