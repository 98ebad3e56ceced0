//! Portable memory routines.
//!
//! Offsets are added to base addresses with 32-bit wrap-around, exactly as the
//! routines compute them; [`addr_at`] names that address.

use vstd::prelude::*;
use vstd::arithmetic::div_mod::{lemma_add_mod_noop, lemma_small_mod};

use crate::runtime::{ByteMemory, RuntimeError};

verus! {

/// Size of the 32-bit address space.
pub open spec fn addr_space() -> int {
    0x1_0000_0000
}

/// The address `base + i`, wrapped into the 32-bit address space.
pub open spec fn addr_at(base: u32, i: int) -> int {
    (base as int + i) % addr_space()
}

/// Step `i` of a routine that first reads address `a + i` and then touches
/// address `b + i` faults in a memory of `len` bytes.
pub open spec fn pair_fault(len: nat, a: u32, b: u32, i: int) -> bool {
    addr_at(a, i) >= len || addr_at(b, i) >= len
}

/// The address reported by a faulting step `i` (the first access that fails).
pub open spec fn pair_fault_addr(len: nat, a: u32, b: u32, i: int) -> u32 {
    if addr_at(a, i) >= len {
        addr_at(a, i) as u32
    } else {
        addr_at(b, i) as u32
    }
}

/// No step before `k` faults.
pub open spec fn pair_ok_before(len: nat, a: u32, b: u32, k: int) -> bool {
    forall|i: int| 0 <= i < k ==> !#[trigger] pair_fault(len, a, b, i)
}

/// The out-of-bounds error for an address.
pub open spec fn oob(addr: u32) -> RuntimeError {
    RuntimeError::MemoryOutOfBounds { addr }
}

/// Memory after the first `k` steps of a forward byte copy from `src` to
/// `dest`; step `i` copies the byte then at `src + i` to `dest + i`.
pub open spec fn copy_forward(m: Seq<u8>, dest: u32, src: u32, k: nat) -> Seq<u8>
    decreases k,
{
    if k == 0 {
        m
    } else {
        let prev = copy_forward(m, dest, src, (k - 1) as nat);
        prev.update(addr_at(dest, k - 1), prev[addr_at(src, k - 1)])
    }
}

/// Memory after the first `k` steps of a backward copy of `n` bytes: step `j`
/// copies the byte then at `src + (n - 1 - j)` to `dest + (n - 1 - j)`.
pub open spec fn copy_backward(m: Seq<u8>, dest: u32, src: u32, n: nat, k: nat) -> Seq<u8>
    decreases k,
{
    if k == 0 {
        m
    } else {
        let prev = copy_backward(m, dest, src, n, (k - 1) as nat);
        let i = n - k;
        prev.update(addr_at(dest, i), prev[addr_at(src, i)])
    }
}

/// Memory after the first `k` steps of filling from `dest` with byte `c`.
pub open spec fn fill(m: Seq<u8>, dest: u32, c: u8, k: nat) -> Seq<u8>
    decreases k,
{
    if k == 0 {
        m
    } else {
        fill(m, dest, c, (k - 1) as nat).update(addr_at(dest, k - 1), c)
    }
}

/// The bytes at `s1 + i` and `s2 + i` agree for every `i < k`.
pub open spec fn equal_before(m: Seq<u8>, s1: u32, s2: u32, k: int) -> bool {
    forall|i: int| 0 <= i < k ==> m[#[trigger] addr_at(s1, i)] == m[addr_at(s2, i)]
}

/// The offset counter kept next to a `usize` index stays equal to the index
/// modulo the address space, and adding it to a base gives `addr_at`.
pub proof fn lemma_offset(base: u32, i: int)
    requires
        i >= 0,
    ensures
        base.wrapping_add((i % addr_space()) as u32) == addr_at(base, i),
        0 <= addr_at(base, i) < addr_space(),
{
    lemma_add_mod_noop(base as int, i, addr_space());
    lemma_small_mod(base as nat, addr_space() as nat);
}

/// Advancing the offset counter by one with wrap-around tracks the index.
pub proof fn lemma_offset_step(i: int)
    requires
        i >= 0,
    ensures
        ((i % addr_space()) as u32).wrapping_add(1) == (i + 1) % addr_space(),
{
    lemma_offset(1u32, i);
}

/// The outcome of [`memcpy`]: memory `m` becomes `m2` and the result is `r`.
pub open spec fn copy_outcome(m: Seq<u8>, dest: u32, src: u32, n: usize, r: Result<u32, RuntimeError>, m2: Seq<u8>) -> bool {
    &&& (m2.len() == m.len())
    &&& (pair_ok_before(m.len(), src, dest, n as int) ==> r == Ok::<u32, RuntimeError>(
            dest,
        ) && m2 == copy_forward(m, dest, src, n as nat))
    &&& (!pair_ok_before(m.len(), src, dest, n as int) ==> exists|i: int|
            0 <= i < n && pair_ok_before(m.len(), src, dest, i) && #[trigger] pair_fault(
                m.len(),
                src,
                dest,
                i,
            ) && r == Err::<u32, RuntimeError>(
                oob(pair_fault_addr(m.len(), src, dest, i)),
            ) && m2 == copy_forward(m, dest, src, i as nat))
}

/// Copy `n` bytes from `src` to `dest`, one byte at a time from the lowest
/// offset up. Returns `dest` on success; the first failing access is reported
/// and the bytes copied before it stay written.
pub fn memcpy<M: ByteMemory>(mem: &mut M, dest: u32, src: u32, n: usize) -> (r: Result<
    u32,
    RuntimeError,
>)
    ensures
        copy_outcome(old(mem).bytes(), dest, src, n, r, final(mem).bytes()),

{
    let ghost m0 = mem.bytes();
    let ghost len = m0.len();
    let mut i: usize = 0;
    let mut off: u32 = 0;
    while i < n
        invariant
            0 <= i <= n,
            off == (i as int) % addr_space(),
            m0 == old(mem).bytes(),
            len == m0.len(),
            mem.bytes().len() == len,
            mem.bytes() == copy_forward(m0, dest, src, i as nat),
            pair_ok_before(len, src, dest, i as int),
        decreases n - i,
    {
        proof {
            lemma_offset(src, i as int);
            lemma_offset(dest, i as int);
            lemma_offset_step(i as int);
        }
        let a = src.wrapping_add(off);
        let v = match mem.load_u8(a) {
            Ok(v) => v,
            Err(e) => {
                assert(pair_fault(len, src, dest, i as int));
                return Err(e);
            },
        };
        let b = dest.wrapping_add(off);
        match mem.store_u8(b, v) {
            Ok(()) => {},
            Err(e) => {
                assert(pair_fault(len, src, dest, i as int));
                return Err(e);
            },
        }
        assert(!pair_fault(len, src, dest, i as int));
        i = i + 1;
        off = off.wrapping_add(1);
    }
    Ok(dest)
}

/// The offset of index `i` as a 32-bit wrapped value, computed directly.
fn offset_of(i: usize) -> (off: u32)
    ensures
        off == (i as int) % addr_space(),
{
    ((i as u64) % 0x1_0000_0000u64) as u32
}

/// No step of a backward copy of `n` bytes among the first `k` faults.
pub open spec fn back_ok_before(len: nat, a: u32, b: u32, n: int, k: int) -> bool {
    forall|j: int| 0 <= j < k ==> !#[trigger] pair_fault(len, a, b, n - 1 - j)
}

/// The outcome of [`memmove`]: memory `m` becomes `m2` and the result is `r`.
pub open spec fn move_outcome(m: Seq<u8>, dest: u32, src: u32, n: usize, r: Result<u32, RuntimeError>, m2: Seq<u8>) -> bool {
    &&& (m2.len() == m.len())
    &&& (dest <= src ==> {
            &&& pair_ok_before(m.len(), src, dest, n as int) ==> r == Ok::<
                u32,
                RuntimeError,
            >(dest) && m2 == copy_forward(m, dest, src, n as nat)
            &&& !pair_ok_before(m.len(), src, dest, n as int) ==> exists|i: int|
                0 <= i < n && pair_ok_before(m.len(), src, dest, i)
                    && #[trigger] pair_fault(m.len(), src, dest, i) && r == Err::<
                    u32,
                    RuntimeError,
                >(oob(pair_fault_addr(m.len(), src, dest, i))) && m2
                    == copy_forward(m, dest, src, i as nat)
        })
    &&& (dest > src ==> {
            &&& back_ok_before(m.len(), src, dest, n as int, n as int) ==> r
                == Ok::<u32, RuntimeError>(dest) && m2 == copy_backward(
                m,
                dest,
                src,
                n as nat,
                n as nat,
            )
            &&& !back_ok_before(m.len(), src, dest, n as int, n as int)
                ==> exists|j: int|
                0 <= j < n && back_ok_before(m.len(), src, dest, n as int, j)
                    && #[trigger] pair_fault(m.len(), src, dest, n - 1 - j) && r
                    == Err::<u32, RuntimeError>(
                    oob(pair_fault_addr(m.len(), src, dest, n - 1 - j)),
                ) && m2 == copy_backward(
                    m,
                    dest,
                    src,
                    n as nat,
                    j as nat,
                )
        })
}

/// Copy `n` bytes from `src` to `dest`, correctly handling overlapping
/// regions: the copy runs from the lowest offset up when `dest <= src` and from
/// the highest offset down otherwise. Returns `dest` on success; the first
/// failing access is reported and the bytes copied before it stay written.
pub fn memmove<M: ByteMemory>(mem: &mut M, dest: u32, src: u32, n: usize) -> (r: Result<
    u32,
    RuntimeError,
>)
    ensures
        move_outcome(old(mem).bytes(), dest, src, n, r, final(mem).bytes()),

{
    if dest <= src {
        memcpy(mem, dest, src, n)
    } else {
        copy_down(mem, dest, src, n)
    }
}

/// The backward half of [`memmove`]: copies from the highest offset down.
fn copy_down<M: ByteMemory>(mem: &mut M, dest: u32, src: u32, n: usize) -> (r: Result<
    u32,
    RuntimeError,
>)
    ensures
        final(mem).bytes().len() == old(mem).bytes().len(),
        back_ok_before(old(mem).bytes().len(), src, dest, n as int, n as int) ==> r == Ok::<
            u32,
            RuntimeError,
        >(dest) && final(mem).bytes() == copy_backward(
            old(mem).bytes(),
            dest,
            src,
            n as nat,
            n as nat,
        ),
        !back_ok_before(old(mem).bytes().len(), src, dest, n as int, n as int) ==> exists|j: int|
            0 <= j < n && back_ok_before(old(mem).bytes().len(), src, dest, n as int, j)
                && #[trigger] pair_fault(old(mem).bytes().len(), src, dest, n - 1 - j) && r
                == Err::<u32, RuntimeError>(
                oob(pair_fault_addr(old(mem).bytes().len(), src, dest, n - 1 - j)),
            ) && final(mem).bytes() == copy_backward(
                old(mem).bytes(),
                dest,
                src,
                n as nat,
                j as nat,
            ),
{
    let ghost m0 = mem.bytes();
    let ghost len = m0.len();
    let mut i: usize = n;
    while i > 0
        invariant
            0 <= i <= n,
            m0 == old(mem).bytes(),
            len == m0.len(),
            mem.bytes().len() == len,
            mem.bytes() == copy_backward(m0, dest, src, n as nat, (n - i) as nat),
            back_ok_before(len, src, dest, n as int, (n - i) as int),
        decreases i,
    {
        i = i - 1;
        let ghost j: int = n - 1 - i;
        let off = offset_of(i);
        proof {
            lemma_offset(src, i as int);
            lemma_offset(dest, i as int);
            assert(n - 1 - j == i);
        }
        let v = match mem.load_u8(src.wrapping_add(off)) {
            Ok(v) => v,
            Err(e) => {
                assert(pair_fault(len, src, dest, n - 1 - j));
                return Err(e);
            },
        };
        match mem.store_u8(dest.wrapping_add(off), v) {
            Ok(()) => {},
            Err(e) => {
                assert(pair_fault(len, src, dest, n - 1 - j));
                return Err(e);
            },
        }
        assert(!pair_fault(len, src, dest, n - 1 - j));
        assert(mem.bytes() == copy_backward(m0, dest, src, n as nat, (j + 1) as nat));
    }
    Ok(dest)
}

/// The outcome of [`memset`]: memory `m` becomes `m2` and the result is `r`.
pub open spec fn fill_outcome(m: Seq<u8>, dest: u32, c: u8, n: usize, r: Result<u32, RuntimeError>, m2: Seq<u8>) -> bool {
    &&& m2.len() == m.len()
    &&& pair_ok_before(m.len(), dest, dest, n as int) ==> r == Ok::<u32, RuntimeError>(dest) && m2
        == fill(m, dest, c, n as nat)
    &&& !pair_ok_before(m.len(), dest, dest, n as int) ==> exists|i: int|
        0 <= i < n && pair_ok_before(m.len(), dest, dest, i) && #[trigger] pair_fault(
            m.len(),
            dest,
            dest,
            i,
        ) && r == Err::<u32, RuntimeError>(oob(addr_at(dest, i) as u32)) && m2 == fill(
            m,
            dest,
            c,
            i as nat,
        )
}

/// Set `n` bytes starting at `dest` to `c`, from the lowest offset up. Returns
/// `dest` on success; the first failing store is reported and the bytes set
/// before it stay written.
pub fn memset<M: ByteMemory>(mem: &mut M, dest: u32, c: u8, n: usize) -> (r: Result<
    u32,
    RuntimeError,
>)
    ensures
        fill_outcome(old(mem).bytes(), dest, c, n, r, final(mem).bytes()),

{
    let ghost m0 = mem.bytes();
    let ghost len = m0.len();
    let mut i: usize = 0;
    while i < n
        invariant
            0 <= i <= n,
            m0 == old(mem).bytes(),
            len == m0.len(),
            mem.bytes().len() == len,
            mem.bytes() == fill(m0, dest, c, i as nat),
            pair_ok_before(len, dest, dest, i as int),
        decreases n - i,
    {
        let off = offset_of(i);
        proof {
            lemma_offset(dest, i as int);
        }
        match mem.store_u8(dest.wrapping_add(off), c) {
            Ok(()) => {},
            Err(e) => {
                assert(pair_fault(len, dest, dest, i as int));
                return Err(e);
            },
        }
        assert(!pair_fault(len, dest, dest, i as int));
        i = i + 1;
    }
    Ok(dest)
}

/// The outcome of comparing the first `n` bytes at `s1` and `s2`, reading
/// `s1 + i` and then `s2 + i` for each offset in turn: at the first differing
/// offset the result is the difference of the two bytes, zero when all `n`
/// agree, and the first failing read is reported as out of bounds.
pub open spec fn compare_outcome(m: Seq<u8>, s1: u32, s2: u32, n: usize, r: Result<i32, RuntimeError>) -> bool {
    match r {
        Ok(v) => {
            ||| (exists|i: int|
                0 <= i < n && pair_ok_before(m.len(), s1, s2, i + 1) && equal_before(m, s1, s2, i)
                    && #[trigger] m[addr_at(s1, i)] != m[addr_at(s2, i)] && v == m[addr_at(s1, i)] as int
                    - m[addr_at(s2, i)] as int)
            ||| (pair_ok_before(m.len(), s1, s2, n as int) && equal_before(m, s1, s2, n as int) && v
                == 0)
        },
        Err(e) => exists|i: int|
            0 <= i < n && pair_ok_before(m.len(), s1, s2, i) && equal_before(m, s1, s2, i)
                && #[trigger] pair_fault(m.len(), s1, s2, i) && e == oob(
                pair_fault_addr(m.len(), s1, s2, i),
            ),
    }
}

/// Byte-wise comparison loop behind [`memcmp`].
fn compare_bytes<M: ByteMemory>(mem: &M, s1: u32, s2: u32, n: usize) -> (r: Result<i32, RuntimeError>)
    ensures
        compare_outcome(mem.bytes(), s1, s2, n, r),
{
    let ghost m = mem.bytes();
    let ghost len = m.len();
    let mut i: usize = 0;
    while i < n
        invariant
            0 <= i <= n,
            m == mem.bytes(),
            len == m.len(),
            pair_ok_before(len, s1, s2, i as int),
            equal_before(m, s1, s2, i as int),
        decreases n - i,
    {
        let off = offset_of(i);
        proof {
            lemma_offset(s1, i as int);
            lemma_offset(s2, i as int);
        }
        let a = match mem.load_u8(s1.wrapping_add(off)) {
            Ok(v) => v,
            Err(e) => {
                assert(pair_fault(len, s1, s2, i as int));
                return Err(e);
            },
        };
        let b = match mem.load_u8(s2.wrapping_add(off)) {
            Ok(v) => v,
            Err(e) => {
                assert(pair_fault(len, s1, s2, i as int));
                return Err(e);
            },
        };
        assert(!pair_fault(len, s1, s2, i as int));
        if a != b {
            assert(pair_ok_before(len, s1, s2, i + 1));
            assert(m[addr_at(s1, i as int)] != m[addr_at(s2, i as int)]);
            return Ok(a as i32 - b as i32);
        }
        i = i + 1;
    }
    Ok(0)
}

/// Compare the first `n` bytes at `s1` and `s2` as unsigned bytes: negative
/// if `s1` sorts first, zero if equal, positive otherwise (standard C
/// semantics); see [`compare_outcome`] for the exact result.
pub fn memcmp<M: ByteMemory>(mem: &M, s1: u32, s2: u32, n: usize) -> (r: Result<i32, RuntimeError>)
    ensures
        compare_outcome(mem.bytes(), s1, s2, n, r),
{
    compare_bytes(mem, s1, s2, n)
}

/// `m` with the bytes at `dest + o` replaced by those at `src + o` for every
/// offset `lo <= o < hi`.
pub open spec fn moved_range(m: Seq<u8>, dest: u32, src: u32, lo: int, hi: int) -> Seq<u8> {
    Seq::new(
        m.len(),
        |p: int|
            if dest + lo <= p < dest + hi {
                m[src + (p - dest)]
            } else {
                m[p]
            },
    )
}

/// `m` after `n` bytes at `src` have been moved to `dest`: every byte of the
/// destination range holds the byte the source range held before, and every
/// other byte is unchanged.
pub open spec fn moved(m: Seq<u8>, dest: u32, src: u32, n: nat) -> Seq<u8> {
    moved_range(m, dest, src, 0, n as int)
}

/// Both ranges of `n` bytes lie inside the memory and inside the address
/// space (no wrap-around).
pub open spec fn ranges_in_bounds(len: nat, dest: u32, src: u32, n: nat) -> bool {
    &&& dest + n <= len
    &&& src + n <= len
    &&& dest + n <= addr_space()
    &&& src + n <= addr_space()
}

proof fn lemma_addr_no_wrap(base: u32, i: int)
    requires
        0 <= i,
        base + i < addr_space(),
    ensures
        addr_at(base, i) == base + i,
{
    lemma_small_mod((base + i) as nat, addr_space() as nat);
}

proof fn lemma_forward_prefix(m: Seq<u8>, dest: u32, src: u32, n: nat, k: nat)
    requires
        ranges_in_bounds(m.len(), dest, src, n),
        dest <= src || src + n <= dest,
        k <= n,
    ensures
        copy_forward(m, dest, src, k) == moved_range(m, dest, src, 0, k as int),
        pair_ok_before(m.len(), src, dest, k as int),
    decreases k,
{
    if k > 0 {
        let i = k - 1;
        lemma_forward_prefix(m, dest, src, n, i as nat);
        lemma_addr_no_wrap(src, i);
        lemma_addr_no_wrap(dest, i);
        let prev = moved_range(m, dest, src, 0, i);
        assert(prev[src + i] == m[src + i]);
        assert(copy_forward(m, dest, src, k) =~= moved_range(m, dest, src, 0, k as int));
        assert forall|j: int| 0 <= j < k implies !#[trigger] pair_fault(m.len(), src, dest, j) by {
            if j < i {
            } else {
                assert(j == i);
            }
        }
    }
}

proof fn lemma_backward_suffix(m: Seq<u8>, dest: u32, src: u32, n: nat, k: nat)
    requires
        ranges_in_bounds(m.len(), dest, src, n),
        src < dest,
        k <= n,
    ensures
        copy_backward(m, dest, src, n, k) == moved_range(m, dest, src, n - k, n as int),
        back_ok_before(m.len(), src, dest, n as int, k as int),
    decreases k,
{
    if k > 0 {
        let i = n - k;
        lemma_backward_suffix(m, dest, src, n, (k - 1) as nat);
        lemma_addr_no_wrap(src, i);
        lemma_addr_no_wrap(dest, i);
        let prev = moved_range(m, dest, src, i + 1, n as int);
        assert(prev[src + i] == m[src + i]);
        assert(copy_backward(m, dest, src, n, k) =~= moved_range(m, dest, src, i, n as int));
        assert forall|j: int| 0 <= j < k implies !#[trigger] pair_fault(
            m.len(),
            src,
            dest,
            n - 1 - j,
        ) by {
            if j < k - 1 {
            } else {
                assert(n - 1 - j == i);
            }
        }
    }
}

/// `memmove` moves: when both ranges are in bounds it succeeds, whatever the
/// overlap, and the destination ends up holding what the source held before
/// the call, every other byte unchanged.
pub proof fn lemma_memmove_moves(m: Seq<u8>, dest: u32, src: u32, n: nat)
    requires
        ranges_in_bounds(m.len(), dest, src, n),
    ensures
        dest <= src ==> pair_ok_before(m.len(), src, dest, n as int) && copy_forward(m, dest, src, n)
            == moved(m, dest, src, n),
        dest > src ==> back_ok_before(m.len(), src, dest, n as int, n as int) && copy_backward(
            m,
            dest,
            src,
            n,
            n,
        ) == moved(m, dest, src, n),
{
    if dest <= src {
        lemma_forward_prefix(m, dest, src, n, n);
    } else {
        lemma_backward_suffix(m, dest, src, n, n);
        assert(moved_range(m, dest, src, n - n, n as int) =~= moved(m, dest, src, n));
    }
}

/// `memcpy` copies: when both ranges are in bounds and do not overlap it
/// succeeds and the destination ends up holding the source bytes, every
/// other byte unchanged.
pub proof fn lemma_memcpy_copies(m: Seq<u8>, dest: u32, src: u32, n: nat)
    requires
        ranges_in_bounds(m.len(), dest, src, n),
        dest + n <= src || src + n <= dest,
    ensures
        pair_ok_before(m.len(), src, dest, n as int),
        copy_forward(m, dest, src, n) == moved(m, dest, src, n),
{
    lemma_forward_prefix(m, dest, src, n, n);
}

/// `memset` fills: when the range is in bounds it succeeds and every byte of
/// the range holds `c`, every other byte unchanged.
pub proof fn lemma_memset_fills(m: Seq<u8>, dest: u32, c: u8, n: nat)
    requires
        dest + n <= m.len(),
        dest + n <= addr_space(),
    ensures
        pair_ok_before(m.len(), dest, dest, n as int),
        fill(m, dest, c, n) == Seq::new(
            m.len(),
            |p: int|
                if dest <= p < dest + n {
                    c
                } else {
                    m[p]
                },
        ),
    decreases n,
{
    if n > 0 {
        lemma_memset_fills(m, dest, c, (n - 1) as nat);
        lemma_addr_no_wrap(dest, n - 1);
        assert(fill(m, dest, c, n) =~= Seq::new(
            m.len(),
            |p: int|
                if dest <= p < dest + n {
                    c
                } else {
                    m[p]
                },
        ));
        assert forall|j: int| 0 <= j < n implies !#[trigger] pair_fault(m.len(), dest, dest, j) by {
            if j < n - 1 {
            } else {
                assert(j == n - 1);
            }
        }
    }
}

/// `k` is the first offset at which `a` and `b` differ.
pub open spec fn first_difference(a: Seq<u8>, b: Seq<u8>, k: int) -> bool {
    &&& 0 <= k < a.len()
    &&& k < b.len()
    &&& a[k] != b[k]
    &&& forall|j: int| 0 <= j < k ==> #[trigger] a[j] == b[j]
}

/// Step `i` of a range that ends inside the address space reads address
/// `base + i`.
proof fn lemma_in_range_addr(base: u32, n: int, i: int)
    requires
        base + n <= addr_space(),
        0 <= i < n,
    ensures
        addr_at(base, i) == base + i,
{
    lemma_small_mod((base + i) as nat, addr_space() as nat);
}

/// `memcmp` on two ranges that lie in memory and end inside the address
/// space succeeds; its result is zero exactly when the ranges hold the same
/// bytes, and otherwise the difference of the first bytes that differ.
pub proof fn lemma_memory_compare_in_bounds(m: Seq<u8>, s1: u32, s2: u32, n: usize, r: Result<i32, RuntimeError>)
    requires
        compare_outcome(m, s1, s2, n, r),
        s1 + n <= m.len(),
        s2 + n <= m.len(),
        s1 + n <= addr_space(),
        s2 + n <= addr_space(),
    ensures
        r is Ok,
        r matches Ok(v) ==> (v == 0 <==> m.subrange(s1 as int, s1 + n) == m.subrange(s2 as int, s2 + n)),
        r matches Ok(v) ==> (m.subrange(s1 as int, s1 + n) != m.subrange(s2 as int, s2 + n) ==> exists|k: int|
            #[trigger] first_difference(m.subrange(s1 as int, s1 + n), m.subrange(s2 as int, s2 + n), k) && v
                == m[s1 + k] as int - m[s2 + k] as int),
{
    let a = m.subrange(s1 as int, s1 + n);
    let b = m.subrange(s2 as int, s2 + n);
    assert forall|i: int| 0 <= i < n implies addr_at(s1, i) == s1 + i && addr_at(s2, i) == s2 + i by {
        lemma_in_range_addr(s1, n as int, i);
        lemma_in_range_addr(s2, n as int, i);
    }
    match r {
        Ok(v) => {
            if exists|i: int|
                0 <= i < n && pair_ok_before(m.len(), s1, s2, i + 1) && equal_before(m, s1, s2, i)
                    && #[trigger] m[addr_at(s1, i)] != m[addr_at(s2, i)] && v == m[addr_at(s1, i)] as int
                    - m[addr_at(s2, i)] as int {
                let i = choose|i: int|
                    0 <= i < n && pair_ok_before(m.len(), s1, s2, i + 1) && equal_before(m, s1, s2, i)
                        && #[trigger] m[addr_at(s1, i)] != m[addr_at(s2, i)] && v == m[addr_at(s1, i)] as int
                        - m[addr_at(s2, i)] as int;
                assert(a[i] != b[i]);
                assert forall|j: int| 0 <= j < i implies #[trigger] a[j] == b[j] by {
                    assert(m[addr_at(s1, j)] == m[addr_at(s2, j)]);
                }
                assert(first_difference(a, b, i));
            } else {
                assert forall|j: int| 0 <= j < n implies a[j] == b[j] by {
                    assert(m[addr_at(s1, j)] == m[addr_at(s2, j)]);
                }
                assert(a =~= b);
            }
        },
        Err(e) => {
            let i = choose|i: int|
                0 <= i < n && pair_ok_before(m.len(), s1, s2, i) && equal_before(m, s1, s2, i)
                    && #[trigger] pair_fault(m.len(), s1, s2, i) && e == oob(pair_fault_addr(m.len(), s1, s2, i));
            assert(addr_at(s1, i) == s1 + i);
        },
    }
}

} // verus!
