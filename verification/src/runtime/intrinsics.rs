//! Intrinsic registry and dispatcher.
//!
//! All built-in intrinsic names use the `__scratcharch_` prefix and are
//! independent of any frontend or backend naming convention. A registry maps
//! names to runtime routines ([`IntrinsicFn`]) and, optionally, to the
//! operand-stack signature a load-time backend needs.

use vstd::prelude::*;

use crate::runtime::memory::{
    addr_space, compare_outcome, copy_outcome, fill_outcome, move_outcome,
};
use crate::runtime::string::{
    copy_ends, scan_ends, strcpy_outcome, string_order_outcome, strlen_outcome, strncpy_outcome,
};
use crate::runtime::{
    abort, memcmp, memcpy, memmove, memset, strcmp, strcpy, strlen, strncpy, trap, ByteMemory,
    IntrinsicResult, RuntimeError, Value,
};

verus! {

/// A runtime routine that an intrinsic name can be bound to.
///
/// Every routine receives a mutable view of memory and a list of `u32`
/// arguments; pointers, lengths and integers all arrive as `u32` words.
#[derive(Debug, Clone, Copy, PartialEq, Eq)]
pub enum IntrinsicFn {
    /// `memcpy(dest, src, n)`, returning `dest` as a pointer.
    MemCopy,
    /// `memmove(dest, src, n)`, returning `dest` as a pointer.
    MemMove,
    /// `memset(dest, c, n)` with the low byte of `c`, returning `dest`.
    MemSet,
    /// `memcmp(s1, s2, n)`, returning a signed integer.
    MemCompare,
    /// `strlen(s)`, returning the length as an unsigned word.
    StrLen,
    /// `strcmp(s1, s2)`, returning a signed integer.
    StrCompare,
    /// `strcpy(dest, src)`, returning `dest` as a pointer.
    StrCopy,
    /// `strncpy(dest, src, n)`, returning `dest` as a pointer.
    StrNCopy,
    /// `abort()`.
    Abort,
    /// `panic()`, with the message "panic intrinsic".
    Panic,
    /// `trap()`.
    Trap,
}

/// The operand-stack signature of an intrinsic: `arg_words` is the number of
/// `u32` arguments (one operand-stack cell each), `result_words` the number
/// of cells the result occupies (0 for a void intrinsic, 1 otherwise).
#[derive(Debug, Clone, Copy, PartialEq, Eq)]
pub struct IntrinsicSignature {
    pub arg_words: u8,
    pub result_words: u8,
}

impl IntrinsicSignature {
    fn word_args(n: u8) -> (s: Self)
        ensures
            s == (IntrinsicSignature { arg_words: n, result_words: 1 }),
    {
        IntrinsicSignature { arg_words: n, result_words: 1 }
    }

    /// A void, argument-free intrinsic.
    fn void() -> (s: Self)
        ensures
            s == (IntrinsicSignature { arg_words: 0, result_words: 0 }),
    {
        IntrinsicSignature { arg_words: 0, result_words: 0 }
    }
}

/// Number of argument words a routine takes.
pub open spec fn arity(f: IntrinsicFn) -> nat {
    match f {
        IntrinsicFn::MemCopy | IntrinsicFn::MemMove | IntrinsicFn::MemSet
        | IntrinsicFn::MemCompare | IntrinsicFn::StrNCopy => 3,
        IntrinsicFn::StrCompare | IntrinsicFn::StrCopy => 2,
        IntrinsicFn::StrLen => 1,
        IntrinsicFn::Abort | IntrinsicFn::Panic | IntrinsicFn::Trap => 0,
    }
}

/// The built-in name of a routine.
pub open spec fn builtin_name(f: IntrinsicFn) -> Seq<char> {
    match f {
        IntrinsicFn::MemCopy => "__scratcharch_memcpy"@,
        IntrinsicFn::MemMove => "__scratcharch_memmove"@,
        IntrinsicFn::MemSet => "__scratcharch_memset"@,
        IntrinsicFn::MemCompare => "__scratcharch_memcmp"@,
        IntrinsicFn::StrLen => "__scratcharch_strlen"@,
        IntrinsicFn::StrCompare => "__scratcharch_strcmp"@,
        IntrinsicFn::StrCopy => "__scratcharch_strcpy"@,
        IntrinsicFn::StrNCopy => "__scratcharch_strncpy"@,
        IntrinsicFn::Abort => "__scratcharch_abort"@,
        IntrinsicFn::Panic => "__scratcharch_panic"@,
        IntrinsicFn::Trap => "__scratcharch_trap"@,
    }
}

/// The signature a built-in routine is registered with.
pub open spec fn builtin_signature(f: IntrinsicFn) -> IntrinsicSignature {
    if arity(f) == 0 {
        IntrinsicSignature { arg_words: 0, result_words: 0 }
    } else {
        IntrinsicSignature { arg_words: arity(f) as u8, result_words: 1 }
    }
}

/// The scan of a routine without a length bound ends on memory `m` with
/// arguments `args` (see [`scan_ends`] and [`copy_ends`]); the other
/// routines always end.
pub open spec fn scan_allowed(f: IntrinsicFn, m: Seq<u8>, args: Seq<u32>) -> bool {
    &&& f is StrCompare ==> scan_ends(m)
    &&& (f is StrCopy && args.len() == 2) ==> copy_ends(m, args[0], args[1])
}

/// A routine's pointer result as an intrinsic result.
pub open spec fn pointer_result(r: Result<u32, RuntimeError>) -> Result<IntrinsicResult, RuntimeError> {
    match r {
        Ok(p) => Ok(IntrinsicResult::Value(Value::Pointer(p))),
        Err(e) => Err(e),
    }
}

/// A routine's signed result as an intrinsic result.
pub open spec fn signed_result(r: Result<i32, RuntimeError>) -> Result<IntrinsicResult, RuntimeError> {
    match r {
        Ok(v) => Ok(IntrinsicResult::Value(Value::I32(v))),
        Err(e) => Err(e),
    }
}

/// A routine called with the wrong number of arguments is refused, naming
/// the routine, the expected and the actual count.
pub open spec fn bad_args(f: IntrinsicFn, got: nat, r: Result<IntrinsicResult, RuntimeError>) -> bool {
    match r {
        Err(RuntimeError::BadIntrinsicArgs { name, expected, got: g }) => name@ == builtin_name(f)
            && expected == arity(f) && g == got,
        _ => false,
    }
}

/// The outcome of running routine `f` on memory `m` with arguments `args`:
/// memory becomes `m2` and the result is `r`.
pub open spec fn intrinsic_outcome(
    f: IntrinsicFn,
    m: Seq<u8>,
    args: Seq<u32>,
    r: Result<IntrinsicResult, RuntimeError>,
    m2: Seq<u8>,
) -> bool {
    if args.len() != arity(f) {
        bad_args(f, args.len(), r) && m2 == m
    } else {
        match f {
            IntrinsicFn::MemCopy => exists|raw: Result<u32, RuntimeError>|
                copy_outcome(m, args[0], args[1], args[2] as usize, raw, m2) && r == pointer_result(
                    raw,
                ),
            IntrinsicFn::MemMove => exists|raw: Result<u32, RuntimeError>|
                move_outcome(m, args[0], args[1], args[2] as usize, raw, m2) && r == pointer_result(
                    raw,
                ),
            IntrinsicFn::MemSet => exists|raw: Result<u32, RuntimeError>|
                fill_outcome(m, args[0], (args[1] % 256) as u8, args[2] as usize, raw, m2) && r
                    == pointer_result(raw),
            IntrinsicFn::MemCompare => m2 == m && exists|raw: Result<i32, RuntimeError>|
                compare_outcome(m, args[0], args[1], args[2] as usize, raw) && r == signed_result(
                    raw,
                ),
            IntrinsicFn::StrLen => m2 == m && exists|raw: Result<usize, RuntimeError>|
                strlen_outcome(m, args[0], raw) && r == match raw {
                    Ok(n) => Ok(IntrinsicResult::Value(Value::U32(((n as int) % addr_space()) as u32))),
                    Err(e) => Err(e),
                },
            IntrinsicFn::StrCompare => m2 == m && exists|raw: Result<i32, RuntimeError>|
                string_order_outcome(m, args[0], args[1], raw) && r == signed_result(raw),
            IntrinsicFn::StrCopy => exists|raw: Result<u32, RuntimeError>|
                strcpy_outcome(m, args[0], args[1], raw, m2) && r == pointer_result(raw),
            IntrinsicFn::StrNCopy => exists|raw: Result<u32, RuntimeError>|
                strncpy_outcome(m, args[0], args[1], args[2] as usize, raw, m2) && r
                    == pointer_result(raw),
            IntrinsicFn::Abort => m2 == m && r == Err::<IntrinsicResult, RuntimeError>(
                RuntimeError::Abort,
            ),
            IntrinsicFn::Panic => m2 == m && match r {
                Err(RuntimeError::Panic { msg: Some(s) }) => s@ == "panic intrinsic"@,
                _ => false,
            },
            IntrinsicFn::Trap => m2 == m && r == Err::<IntrinsicResult, RuntimeError>(
                RuntimeError::Trap,
            ),
        }
    }
}

/// A `u32` argument word read as a length.
pub open spec fn word_len(w: u32) -> usize {
    w as usize
}

fn word_to_len(w: u32) -> (n: usize)
    ensures
        n == w,
        n == word_len(w),
{
    w as usize
}

fn low_byte(w: u32) -> (b: u8)
    ensures
        b == w % 256,
{
    assert(w & 0xff == w % 256) by (bit_vector);
    (w & 0xff) as u8
}

fn len_to_word(n: usize) -> (w: u32)
    ensures
        w == (n as int) % addr_space(),
{
    ((n as u64) % 0x1_0000_0000u64) as u32
}

fn wrong_arg_count(f: IntrinsicFn, got: usize) -> (r: Result<IntrinsicResult, RuntimeError>)
    ensures
        bad_args(f, got as nat, r),
{
    let name = match f {
        IntrinsicFn::MemCopy => "__scratcharch_memcpy",
        IntrinsicFn::MemMove => "__scratcharch_memmove",
        IntrinsicFn::MemSet => "__scratcharch_memset",
        IntrinsicFn::MemCompare => "__scratcharch_memcmp",
        IntrinsicFn::StrLen => "__scratcharch_strlen",
        IntrinsicFn::StrCompare => "__scratcharch_strcmp",
        IntrinsicFn::StrCopy => "__scratcharch_strcpy",
        IntrinsicFn::StrNCopy => "__scratcharch_strncpy",
        IntrinsicFn::Abort => "__scratcharch_abort",
        IntrinsicFn::Panic => "__scratcharch_panic",
        IntrinsicFn::Trap => "__scratcharch_trap",
    };
    let expected: usize = match f {
        IntrinsicFn::MemCopy | IntrinsicFn::MemMove | IntrinsicFn::MemSet
        | IntrinsicFn::MemCompare | IntrinsicFn::StrNCopy => 3,
        IntrinsicFn::StrCompare | IntrinsicFn::StrCopy => 2,
        IntrinsicFn::StrLen => 1,
        IntrinsicFn::Abort | IntrinsicFn::Panic | IntrinsicFn::Trap => 0,
    };
    Err(RuntimeError::BadIntrinsicArgs { name: String::from_str(name), expected, got })
}

fn arity_of(f: IntrinsicFn) -> (n: usize)
    ensures
        n == arity(f),
{
    match f {
        IntrinsicFn::MemCopy | IntrinsicFn::MemMove | IntrinsicFn::MemSet
        | IntrinsicFn::MemCompare | IntrinsicFn::StrNCopy => 3,
        IntrinsicFn::StrCompare | IntrinsicFn::StrCopy => 2,
        IntrinsicFn::StrLen => 1,
        IntrinsicFn::Abort | IntrinsicFn::Panic | IntrinsicFn::Trap => 0,
    }
}

fn mem_compare_intrinsic<M: ByteMemory>(mem: &M, args: &[u32]) -> (r: Result<IntrinsicResult, RuntimeError>)
    requires
        args@.len() == 3,
    ensures
        exists|raw: Result<i32, RuntimeError>|
            compare_outcome(mem.bytes(), args@[0], args@[1], word_len(args@[2]), raw) && r
                == signed_result(raw),
{
    let n = word_to_len(args[2]);
    let raw = memcmp(mem, args[0], args[1], n);
    let r = match raw {
        Ok(v) => Ok(IntrinsicResult::Value(Value::I32(v))),
        Err(e) => Err(e),
    };
    assert(r == signed_result(raw));
    r
}

fn str_compare_intrinsic<M: ByteMemory>(mem: &M, args: &[u32]) -> (r: Result<IntrinsicResult, RuntimeError>)
    requires
        args@.len() == 2,
        scan_ends(mem.bytes()),
    ensures
        exists|raw: Result<i32, RuntimeError>|
            string_order_outcome(mem.bytes(), args@[0], args@[1], raw) && r == signed_result(raw),
{
    let raw = strcmp(mem, args[0], args[1]);
    let r = match raw {
        Ok(v) => Ok(IntrinsicResult::Value(Value::I32(v))),
        Err(e) => Err(e),
    };
    assert(r == signed_result(raw));
    r
}

/// Run routine `f` on `mem` with `args`.
pub fn call_intrinsic<M: ByteMemory>(f: IntrinsicFn, mem: &mut M, args: &[u32]) -> (r: Result<
    IntrinsicResult,
    RuntimeError,
>)
    requires
        scan_allowed(f, old(mem).bytes(), args@),
    ensures
        intrinsic_outcome(f, old(mem).bytes(), args@, r, final(mem).bytes()),
{
    if args.len() != arity_of(f) {
        return wrong_arg_count(f, args.len());
    }
    match f {
        IntrinsicFn::MemCopy => {
            let n = word_to_len(args[2]);
            let raw = memcpy(mem, args[0], args[1], n);
            let r = match raw {
                Ok(p) => Ok(IntrinsicResult::Value(Value::Pointer(p))),
                Err(e) => Err(e),
            };
            assert(r == pointer_result(raw));
            r
        },
        IntrinsicFn::MemMove => {
            let n = word_to_len(args[2]);
            let raw = memmove(mem, args[0], args[1], n);
            let r = match raw {
                Ok(p) => Ok(IntrinsicResult::Value(Value::Pointer(p))),
                Err(e) => Err(e),
            };
            assert(r == pointer_result(raw));
            r
        },
        IntrinsicFn::MemSet => {
            let n = word_to_len(args[2]);
            let c = low_byte(args[1]);
            let raw = memset(mem, args[0], c, n);
            let r = match raw {
                Ok(p) => Ok(IntrinsicResult::Value(Value::Pointer(p))),
                Err(e) => Err(e),
            };
            assert(r == pointer_result(raw));
            r
        },
        IntrinsicFn::MemCompare => mem_compare_intrinsic(mem, args),
        IntrinsicFn::StrLen => {
            let raw = strlen(mem, args[0]);
            let r = match raw {
                Ok(n) => Ok(IntrinsicResult::Value(Value::U32(len_to_word(n)))),
                Err(e) => Err(e),
            };
            r
        },
        IntrinsicFn::StrCompare => str_compare_intrinsic(mem, args),
        IntrinsicFn::StrCopy => {
            let raw = strcpy(mem, args[0], args[1]);
            let r = match raw {
                Ok(p) => Ok(IntrinsicResult::Value(Value::Pointer(p))),
                Err(e) => Err(e),
            };
            assert(r == pointer_result(raw));
            r
        },
        IntrinsicFn::StrNCopy => {
            let n = word_to_len(args[2]);
            let raw = strncpy(mem, args[0], args[1], n);
            let r = match raw {
                Ok(p) => Ok(IntrinsicResult::Value(Value::Pointer(p))),
                Err(e) => Err(e),
            };
            assert(r == pointer_result(raw));
            r
        },
        IntrinsicFn::Abort => match abort() {
            Ok(()) => Ok(IntrinsicResult::Void),
            Err(e) => Err(e),
        },
        IntrinsicFn::Panic => match crate::runtime::panic::panic("panic intrinsic") {
            Ok(()) => Ok(IntrinsicResult::Void),
            Err(e) => Err(e),
        },
        IntrinsicFn::Trap => match trap() {
            Ok(()) => Ok(IntrinsicResult::Void),
            Err(e) => Err(e),
        },
    }
}

/// One registered intrinsic: its name, the routine it runs and, when known,
/// its operand-stack signature.
#[derive(Debug, Clone)]
pub struct IntrinsicEntry {
    pub name: String,
    pub routine: IntrinsicFn,
    pub signature: Option<IntrinsicSignature>,
}

/// The map a list of entries with distinct names describes.
pub open spec fn entry_map(s: Seq<IntrinsicEntry>) -> Map<
    Seq<char>,
    (IntrinsicFn, Option<IntrinsicSignature>),
>
    decreases s.len(),
{
    if s.len() == 0 {
        Map::empty()
    } else {
        entry_map(s.drop_last()).insert(s.last().name@, (s.last().routine, s.last().signature))
    }
}

/// No name occurs twice among the entries.
pub open spec fn unique_names(s: Seq<IntrinsicEntry>) -> bool {
    forall|i: int, j: int| 0 <= i < s.len() && 0 <= j < s.len() && i != j ==> s[i].name@ != s[j].name@
}

proof fn lemma_entry_map_lookup(s: Seq<IntrinsicEntry>, i: int)
    requires
        unique_names(s),
        0 <= i < s.len(),
    ensures
        entry_map(s).contains_key(s[i].name@),
        entry_map(s)[s[i].name@] == (s[i].routine, s[i].signature),
    decreases s.len(),
{
    if i < s.len() - 1 {
        assert(unique_names(s.drop_last()));
        lemma_entry_map_lookup(s.drop_last(), i);
        assert(s[i].name@ != s.last().name@);
    }
}

proof fn lemma_entry_map_absent(s: Seq<IntrinsicEntry>, k: Seq<char>)
    requires
        forall|i: int| 0 <= i < s.len() ==> s[i].name@ != k,
    ensures
        !entry_map(s).contains_key(k),
    decreases s.len(),
{
    if s.len() > 0 {
        lemma_entry_map_absent(s.drop_last(), k);
    }
}

proof fn lemma_entry_map_domain(s: Seq<IntrinsicEntry>, k: Seq<char>)
    requires
        entry_map(s).contains_key(k),
    ensures
        exists|i: int| 0 <= i < s.len() && s[i].name@ == k,
    decreases s.len(),
{
    if s.len() > 0 && s.last().name@ != k {
        lemma_entry_map_domain(s.drop_last(), k);
        let i = choose|i: int| 0 <= i < s.drop_last().len() && s.drop_last()[i].name@ == k;
        assert(s[i].name@ == k);
    }
}

proof fn lemma_entry_map_len(s: Seq<IntrinsicEntry>)
    requires
        unique_names(s),
    ensures
        entry_map(s).dom().finite(),
        entry_map(s).dom().len() == s.len(),
    decreases s.len(),
{
    if s.len() > 0 {
        assert(unique_names(s.drop_last()));
        lemma_entry_map_len(s.drop_last());
        assert forall|i: int| 0 <= i < s.drop_last().len() implies s.drop_last()[i].name@ != s.last().name@ by {
            assert(s[i].name@ != s[s.len() - 1].name@);
        }
        lemma_entry_map_absent(s.drop_last(), s.last().name@);
    }
}

proof fn lemma_entry_map_update(s: Seq<IntrinsicEntry>, i: int, e: IntrinsicEntry)
    requires
        unique_names(s),
        0 <= i < s.len(),
        s[i].name@ == e.name@,
    ensures
        unique_names(s.update(i, e)),
        entry_map(s.update(i, e)) == entry_map(s).insert(e.name@, (e.routine, e.signature)),
    decreases s.len(),
{
    let t = s.update(i, e);
    if i == s.len() - 1 {
        assert(t.drop_last() =~= s.drop_last());
    } else {
        assert(unique_names(s.drop_last()));
        lemma_entry_map_update(s.drop_last(), i, e);
        assert(t.drop_last() =~= s.drop_last().update(i, e));
        assert(s.last().name@ != e.name@);
    }
    assert(entry_map(t) =~= entry_map(s).insert(e.name@, (e.routine, e.signature)));
}

/// Registry of available runtime intrinsics.
///
/// Its view maps each registered name to the routine it runs and its
/// optional operand-stack signature.
#[derive(Debug, Clone)]
pub struct IntrinsicRegistry {
    entries: Vec<IntrinsicEntry>,
}

impl View for IntrinsicRegistry {
    type V = Map<Seq<char>, (IntrinsicFn, Option<IntrinsicSignature>)>;

    closed spec fn view(&self) -> Self::V {
        entry_map(self.entries@)
    }
}

/// The registry the standard runtime routines make.
pub open spec fn builtin_view() -> Map<Seq<char>, (IntrinsicFn, Option<IntrinsicSignature>)> {
    Map::new(
        |k: Seq<char>| exists|f: IntrinsicFn| builtin_name(f) == k,
        |k: Seq<char>|
            {
                let f = choose|f: IntrinsicFn| builtin_name(f) == k;
                (f, Some(builtin_signature(f)))
            },
    )
}

impl IntrinsicRegistry {
    /// Well-formedness: no name is registered twice.
    pub closed spec fn wf(&self) -> bool {
        unique_names(self.entries@)
    }

    /// Create an empty registry.
    pub fn empty() -> (r: Self)
        ensures
            r.wf(),
            r@ == Map::<Seq<char>, (IntrinsicFn, Option<IntrinsicSignature>)>::empty(),
    {
        IntrinsicRegistry { entries: Vec::new() }
    }

    fn find(&self, name: &str) -> (r: Option<usize>)
        requires
            self.wf(),
        ensures
            match r {
                Some(i) => i < self.entries@.len() && self.entries@[i as int].name@ == name@,
                None => forall|i: int|
                    0 <= i < self.entries@.len() ==> self.entries@[i].name@ != name@,
            },
    {
        let key = String::from_str(name);
        let mut i: usize = 0;
        while i < self.entries.len()
            invariant
                i <= self.entries@.len(),
                key@ == name@,
                forall|j: int| 0 <= j < i ==> self.entries@[j].name@ != name@,
            decreases self.entries.len() - i,
        {
            if self.entries[i].name == key {
                return Some(i);
            }
            i = i + 1;
        }
        None
    }

    fn insert_entry(&mut self, name: &str, routine: IntrinsicFn, signature: Option<IntrinsicSignature>)
        requires
            old(self).wf(),
        ensures
            final(self).wf(),
            final(self)@ == old(self)@.insert(name@, (routine, signature)),
    {
        let e = IntrinsicEntry { name: String::from_str(name), routine, signature };
        match self.find(name) {
            Some(i) => {
                proof {
                    lemma_entry_map_update(self.entries@, i as int, e);
                }
                self.entries.set(i, e);
            },
            None => {
                let ghost s = self.entries@;
                self.entries.push(e);
                proof {
                    assert(self.entries@.drop_last() =~= s);
                    assert(unique_names(self.entries@));
                }
            },
        }
    }

    /// Register routine `f` under `name`, forgetting any signature the name
    /// had.
    pub fn register(&mut self, name: &str, f: IntrinsicFn)
        requires
            old(self).wf(),
        ensures
            final(self).wf(),
            final(self)@ == old(self)@.insert(name@, (f, None)),
    {
        self.insert_entry(name, f, None);
    }

    /// Register routine `f` under `name` with its operand-stack signature.
    pub fn register_with_signature(&mut self, name: &str, f: IntrinsicFn, signature: IntrinsicSignature)
        requires
            old(self).wf(),
        ensures
            final(self).wf(),
            final(self)@ == old(self)@.insert(name@, (f, Some(signature))),
    {
        self.insert_entry(name, f, Some(signature));
    }

    /// Look up an intrinsic by name.
    pub fn get(&self, name: &str) -> (r: Option<IntrinsicFn>)
        requires
            self.wf(),
        ensures
            r == (if self@.contains_key(name@) {
                Some(self@[name@].0)
            } else {
                None
            }),
    {
        match self.find(name) {
            Some(i) => {
                proof {
                    lemma_entry_map_lookup(self.entries@, i as int);
                }
                Some(self.entries[i].routine)
            },
            None => {
                proof {
                    lemma_entry_map_absent(self.entries@, name@);
                }
                None
            },
        }
    }

    /// Look up the operand-stack signature of a registered intrinsic.
    pub fn signature(&self, name: &str) -> (r: Option<IntrinsicSignature>)
        requires
            self.wf(),
        ensures
            r == (if self@.contains_key(name@) {
                self@[name@].1
            } else {
                None
            }),
    {
        match self.find(name) {
            Some(i) => {
                proof {
                    lemma_entry_map_lookup(self.entries@, i as int);
                }
                self.entries[i].signature
            },
            None => {
                proof {
                    lemma_entry_map_absent(self.entries@, name@);
                }
                None
            },
        }
    }

    /// Return true if `name` is a known intrinsic.
    pub fn contains(&self, name: &str) -> (r: bool)
        requires
            self.wf(),
        ensures
            r == self@.contains_key(name@),
    {
        match self.find(name) {
            Some(i) => {
                proof {
                    lemma_entry_map_lookup(self.entries@, i as int);
                }
                true
            },
            None => {
                proof {
                    lemma_entry_map_absent(self.entries@, name@);
                }
                false
            },
        }
    }

    /// All registered names, each once.
    pub fn names(&self) -> (r: Vec<String>)
        requires
            self.wf(),
        ensures
            r@.len() == self@.dom().len(),
            forall|k: Seq<char>|
                self@.contains_key(k) <==> exists|i: int| 0 <= i < r@.len() && #[trigger] r@[i]@ == k,
            forall|i: int, j: int| 0 <= i < r@.len() && 0 <= j < r@.len() && i != j ==> r@[i]@ != r@[j]@,
    {
        let mut out: Vec<String> = Vec::new();
        let mut i: usize = 0;
        while i < self.entries.len()
            invariant
                i <= self.entries@.len(),
                out@.len() == i,
                forall|j: int| 0 <= j < i ==> #[trigger] out@[j]@ == self.entries@[j].name@,
            decreases self.entries.len() - i,
        {
            out.push(self.entries[i].name.clone());
            i = i + 1;
        }
        proof {
            assert forall|k: Seq<char>| self@.contains_key(k) <==> exists|i: int|
                0 <= i < out@.len() && #[trigger] out@[i]@ == k by {
                if self@.contains_key(k) {
                    lemma_entry_map_domain(self.entries@, k);
                    let i = choose|i: int| 0 <= i < self.entries@.len() && self.entries@[i].name@ == k;
                    assert(out@[i]@ == k);
                }
                if exists|i: int| 0 <= i < out@.len() && #[trigger] out@[i]@ == k {
                    let i = choose|i: int| 0 <= i < out@.len() && #[trigger] out@[i]@ == k;
                    lemma_entry_map_lookup(self.entries@, i);
                }
            }
            lemma_entry_map_len(self.entries@);
        }
        out
    }
}

/// The built-in names are pairwise distinct.
pub proof fn lemma_builtin_names_distinct(f: IntrinsicFn, g: IntrinsicFn)
    ensures
        builtin_name(f) == builtin_name(g) ==> f == g,
{
    reveal_strlit("__scratcharch_memcpy");
    reveal_strlit("__scratcharch_memmove");
    reveal_strlit("__scratcharch_memset");
    reveal_strlit("__scratcharch_memcmp");
    reveal_strlit("__scratcharch_strlen");
    reveal_strlit("__scratcharch_strcmp");
    reveal_strlit("__scratcharch_strcpy");
    reveal_strlit("__scratcharch_strncpy");
    reveal_strlit("__scratcharch_abort");
    reveal_strlit("__scratcharch_panic");
    reveal_strlit("__scratcharch_trap");
    if builtin_name(f) == builtin_name(g) {
        let a = builtin_name(f);
        let b = builtin_name(g);
        assert(a.len() == b.len());
        assert(a[14] == b[14]);
        assert(a[17] == b[17]);
        assert(a[18] == b[18]);
    }
}

/// The outcome of dispatching `name`: an unknown name is refused and leaves
/// memory alone; a known one runs its routine.
pub open spec fn dispatch_outcome(
    reg: Map<Seq<char>, (IntrinsicFn, Option<IntrinsicSignature>)>,
    name: Seq<char>,
    m: Seq<u8>,
    args: Seq<u32>,
    r: Result<IntrinsicResult, RuntimeError>,
    m2: Seq<u8>,
) -> bool {
    if reg.contains_key(name) {
        intrinsic_outcome(reg[name].0, m, args, r, m2)
    } else {
        m2 == m && match r {
            Err(RuntimeError::UnknownIntrinsic(s)) => s@ == name,
            _ => false,
        }
    }
}

/// The scan of the routine `name` is bound to ends on memory `m` with
/// arguments `args` (see [`scan_allowed`]).
pub open spec fn dispatch_allowed(
    reg: Map<Seq<char>, (IntrinsicFn, Option<IntrinsicSignature>)>,
    name: Seq<char>,
    m: Seq<u8>,
    args: Seq<u32>,
) -> bool {
    reg.contains_key(name) ==> scan_allowed(reg[name].0, m, args)
}

impl IntrinsicRegistry {
    /// Create a registry pre-populated with the standard runtime intrinsics,
    /// each with its operand-stack signature.
    pub fn with_builtins() -> (r: Self)
        ensures
            r.wf(),
            r@ == builtin_view(),
    {
        let mut reg = Self::empty();
        reg.register_with_signature("__scratcharch_memcpy", IntrinsicFn::MemCopy, IntrinsicSignature::word_args(3));
        reg.register_with_signature("__scratcharch_memmove", IntrinsicFn::MemMove, IntrinsicSignature::word_args(3));
        reg.register_with_signature("__scratcharch_memset", IntrinsicFn::MemSet, IntrinsicSignature::word_args(3));
        reg.register_with_signature("__scratcharch_memcmp", IntrinsicFn::MemCompare, IntrinsicSignature::word_args(3));
        reg.register_with_signature("__scratcharch_strlen", IntrinsicFn::StrLen, IntrinsicSignature::word_args(1));
        reg.register_with_signature("__scratcharch_strcmp", IntrinsicFn::StrCompare, IntrinsicSignature::word_args(2));
        reg.register_with_signature("__scratcharch_strcpy", IntrinsicFn::StrCopy, IntrinsicSignature::word_args(2));
        reg.register_with_signature("__scratcharch_strncpy", IntrinsicFn::StrNCopy, IntrinsicSignature::word_args(3));
        reg.register_with_signature("__scratcharch_abort", IntrinsicFn::Abort, IntrinsicSignature::void());
        reg.register_with_signature("__scratcharch_panic", IntrinsicFn::Panic, IntrinsicSignature::void());
        reg.register_with_signature("__scratcharch_trap", IntrinsicFn::Trap, IntrinsicSignature::void());
        proof {
            assert forall|k: Seq<char>| #[trigger] reg@.contains_key(k) implies builtin_view().contains_key(k) by {
                    if k == builtin_name(IntrinsicFn::MemCopy) {
                        assert(builtin_name(IntrinsicFn::MemCopy) == k);
                    }
                    else if k == builtin_name(IntrinsicFn::MemMove) {
                        assert(builtin_name(IntrinsicFn::MemMove) == k);
                    }
                    else if k == builtin_name(IntrinsicFn::MemSet) {
                        assert(builtin_name(IntrinsicFn::MemSet) == k);
                    }
                    else if k == builtin_name(IntrinsicFn::MemCompare) {
                        assert(builtin_name(IntrinsicFn::MemCompare) == k);
                    }
                    else if k == builtin_name(IntrinsicFn::StrLen) {
                        assert(builtin_name(IntrinsicFn::StrLen) == k);
                    }
                    else if k == builtin_name(IntrinsicFn::StrCompare) {
                        assert(builtin_name(IntrinsicFn::StrCompare) == k);
                    }
                    else if k == builtin_name(IntrinsicFn::StrCopy) {
                        assert(builtin_name(IntrinsicFn::StrCopy) == k);
                    }
                    else if k == builtin_name(IntrinsicFn::StrNCopy) {
                        assert(builtin_name(IntrinsicFn::StrNCopy) == k);
                    }
                    else if k == builtin_name(IntrinsicFn::Abort) {
                        assert(builtin_name(IntrinsicFn::Abort) == k);
                    }
                    else if k == builtin_name(IntrinsicFn::Panic) {
                        assert(builtin_name(IntrinsicFn::Panic) == k);
                    }
                    else if k == builtin_name(IntrinsicFn::Trap) {
                        assert(builtin_name(IntrinsicFn::Trap) == k);
                    }
            }
            assert forall|k: Seq<char>| #[trigger] builtin_view().contains_key(k) implies reg@.contains_key(k) by {
                let f = choose|f: IntrinsicFn| builtin_name(f) == k;
                match f {
                    IntrinsicFn::MemCopy => {},
                    IntrinsicFn::MemMove => {},
                    IntrinsicFn::MemSet => {},
                    IntrinsicFn::MemCompare => {},
                    IntrinsicFn::StrLen => {},
                    IntrinsicFn::StrCompare => {},
                    IntrinsicFn::StrCopy => {},
                    IntrinsicFn::StrNCopy => {},
                    IntrinsicFn::Abort => {},
                    IntrinsicFn::Panic => {},
                    IntrinsicFn::Trap => {},
                }
            }
            assert forall|k: Seq<char>| #[trigger] reg@.contains_key(k) implies reg@[k] == builtin_view()[k] by {
                let f = choose|f: IntrinsicFn| builtin_name(f) == k;
                lemma_builtin_names_distinct(f, IntrinsicFn::MemCopy);
                lemma_builtin_names_distinct(f, IntrinsicFn::MemMove);
                lemma_builtin_names_distinct(f, IntrinsicFn::MemSet);
                lemma_builtin_names_distinct(f, IntrinsicFn::MemCompare);
                lemma_builtin_names_distinct(f, IntrinsicFn::StrLen);
                lemma_builtin_names_distinct(f, IntrinsicFn::StrCompare);
                lemma_builtin_names_distinct(f, IntrinsicFn::StrCopy);
                lemma_builtin_names_distinct(f, IntrinsicFn::StrNCopy);
                lemma_builtin_names_distinct(f, IntrinsicFn::Abort);
                lemma_builtin_names_distinct(f, IntrinsicFn::Panic);
                lemma_builtin_names_distinct(f, IntrinsicFn::Trap);
            }
            assert(reg@ =~= builtin_view());
        }
        reg
    }

    /// Dispatch a call using this registry.
    pub fn dispatch<M: ByteMemory>(&self, name: &str, mem: &mut M, args: &[u32]) -> (r: Result<
        IntrinsicResult,
        RuntimeError,
    >)
        requires
            self.wf(),
            dispatch_allowed(self@, name@, old(mem).bytes(), args@),
        ensures
            dispatch_outcome(self@, name@, old(mem).bytes(), args@, r, final(mem).bytes()),
    {
        match self.get(name) {
            Some(f) => call_intrinsic(f, mem, args),
            None => Err(RuntimeError::UnknownIntrinsic(String::from_str(name))),
        }
    }
}

/// Dispatch a call to a built-in intrinsic by name.
pub fn dispatch_intrinsic<M: ByteMemory>(name: &str, mem: &mut M, args: &[u32]) -> (r: Result<
    IntrinsicResult,
    RuntimeError,
>)
    requires
        dispatch_allowed(builtin_view(), name@, old(mem).bytes(), args@),
    ensures
        dispatch_outcome(builtin_view(), name@, old(mem).bytes(), args@, r, final(mem).bytes()),
{
    IntrinsicRegistry::with_builtins().dispatch(name, mem, args)
}

} // verus!
