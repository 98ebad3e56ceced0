use scratcharch::runtime::{
    abort, bit_intrinsic_value, dispatch_intrinsic, memcmp, memcpy, memmove, memset, strcmp, strcpy,
    strlen, strncpy, trap, BitIntrinsicKind, ByteMemory, IntrinsicFn, IntrinsicRegistry,
    IntrinsicResult, IntrinsicSignature, RuntimeError, Value,
};

#[test]
fn memcpy_basic() {
    let mut mem = vec![0u8; 16];
    mem[0..4].copy_from_slice(&[1, 2, 3, 4]);
    let r = memcpy(&mut mem, 8, 0, 4).unwrap();
    assert_eq!(r, 8);
    assert_eq!(&mem[8..12], &[1, 2, 3, 4]);
}

#[test]
fn memcpy_zero_length_is_noop() {
    let mut mem = vec![0u8; 8];
    let r = memcpy(&mut mem, 4, 0, 0).unwrap();
    assert_eq!(r, 4);
    assert!(mem.iter().all(|&b| b == 0));
}

#[test]
fn memmove_non_overlapping() {
    let mut mem = vec![0u8; 16];
    mem[0..4].copy_from_slice(&[10, 20, 30, 40]);
    let r = memmove(&mut mem, 8, 0, 4).unwrap();
    assert_eq!(r, 8);
    assert_eq!(&mem[8..12], &[10, 20, 30, 40]);
}

#[test]
fn memmove_overlap_forward() {
    // dest < src, overlapping (copy region backwards in source).
    let mut mem = vec![0u8; 8];
    mem[0..6].copy_from_slice(&[1, 2, 3, 4, 5, 6]);
    memmove(&mut mem, 2, 0, 6).unwrap();
    assert_eq!(&mem[0..8], &[1, 2, 1, 2, 3, 4, 5, 6]);
}

#[test]
fn memmove_overlap_backward() {
    // dest > src, overlapping (copy region forwards in source).
    let mut mem = vec![0u8; 8];
    mem[0..6].copy_from_slice(&[1, 2, 3, 4, 5, 6]);
    memmove(&mut mem, 0, 2, 4).unwrap();
    assert_eq!(&mem[0..6], &[3, 4, 5, 6, 5, 6]);
}

#[test]
fn memmove_exact_overlap() {
    let mut mem = vec![1, 2, 3, 4];
    memmove(&mut mem, 0, 0, 4).unwrap();
    assert_eq!(&mem[..], &[1, 2, 3, 4]);
}

#[test]
fn memset_basic() {
    let mut mem = vec![0u8; 8];
    let r = memset(&mut mem, 2, 0xAB, 4).unwrap();
    assert_eq!(r, 2);
    assert_eq!(&mem[0..2], &[0, 0]);
    assert_eq!(&mem[2..6], &[0xAB; 4]);
    assert_eq!(&mem[6..8], &[0, 0]);
}

#[test]
fn memcmp_equal() {
    let mem = vec![1, 2, 3, 4, 1, 2, 3, 4];
    assert_eq!(memcmp(&mem, 0, 4, 4).unwrap(), 0);
}

#[test]
fn memcmp_less() {
    let mem = vec![1, 2, 3, 4, 1, 2, 5, 4];
    assert!(memcmp(&mem, 0, 4, 4).unwrap() < 0);
}

#[test]
fn memcmp_greater() {
    let mem = vec![1, 2, 5, 4, 1, 2, 3, 4];
    assert!(memcmp(&mem, 0, 4, 4).unwrap() > 0);
}

#[test]
fn strlen_basic() {
    let mut mem = vec![0u8; 16];
    let s = b"hello\0";
    mem[0..s.len()].copy_from_slice(s);
    assert_eq!(strlen(&mem, 0).unwrap(), 5);
}

#[test]
fn strlen_empty() {
    let mut mem = vec![0u8; 4];
    mem[0] = 0;
    assert_eq!(strlen(&mem, 0).unwrap(), 0);
}

#[test]
fn strcmp_equal() {
    let mut mem = vec![0u8; 16];
    mem[0..6].copy_from_slice(b"hello\0");
    mem[8..14].copy_from_slice(b"hello\0");
    assert_eq!(strcmp(&mem, 0, 8).unwrap(), 0);
}

#[test]
fn strcmp_different() {
    let mut mem = vec![0u8; 16];
    mem[0..4].copy_from_slice(b"abc\0");
    mem[8..12].copy_from_slice(b"abd\0");
    assert!(strcmp(&mem, 0, 8).unwrap() < 0);
}

#[test]
fn strcmp_prefix() {
    let mut mem = vec![0u8; 16];
    mem[0..3].copy_from_slice(b"ab\0");
    mem[8..12].copy_from_slice(b"abc\0");
    assert!(strcmp(&mem, 0, 8).unwrap() < 0);
}

#[test]
fn strcpy_basic() {
    let mut mem = vec![0u8; 16];
    mem[0..6].copy_from_slice(b"hello\0");
    let r = strcpy(&mut mem, 8, 0).unwrap();
    assert_eq!(r, 8);
    assert_eq!(&mem[8..13], b"hello");
    assert_eq!(mem[13], 0);
}

#[test]
fn strncpy_basic() {
    let mut mem = vec![0xFFu8; 16];
    mem[0..6].copy_from_slice(b"hello\0");
    let r = strncpy(&mut mem, 8, 0, 8).unwrap();
    assert_eq!(r, 8);
    assert_eq!(&mem[8..13], b"hello");
    assert_eq!(mem[13], 0);
    assert_eq!(&mem[14..16], &[0, 0]);
}

#[test]
fn abort_returns_error() {
    assert!(matches!(abort(), Err(RuntimeError::Abort)));
}

#[test]
fn panic_returns_error_with_message() {
    assert!(matches!(
        scratcharch::runtime::panic::panic("out of memory"),
        Err(RuntimeError::Panic { msg: Some(_) })
    ));
}

#[test]
fn trap_returns_error() {
    assert!(matches!(trap(), Err(RuntimeError::Trap)));
}

#[test]
fn byte_memory_for_slice() {
    let mut backing = [0u8; 4];
    let mut mem: &mut [u8] = &mut backing;
    mem.store_u8(1, 42).unwrap();
    assert_eq!(mem.load_u8(1).unwrap(), 42);
}

// ---- further cases ----

#[test]
fn memcpy_reports_first_out_of_bounds_read() {
    let mut mem = vec![7u8; 4];
    let r = memcpy(&mut mem, 0, 2, 4);
    assert_eq!(r, Err(RuntimeError::MemoryOutOfBounds { addr: 4 }));
    // the two in-bounds steps were performed before the fault
    assert_eq!(&mem[..], &[7, 7, 7, 7]);
}

#[test]
fn memcpy_reports_out_of_bounds_write() {
    let mut mem = vec![1u8, 2, 3, 4];
    let r = memcpy(&mut mem, 3, 0, 2);
    assert_eq!(r, Err(RuntimeError::MemoryOutOfBounds { addr: 4 }));
    assert_eq!(&mem[..], &[1, 2, 3, 1]);
}

#[test]
fn memset_out_of_bounds() {
    let mut mem = vec![0u8; 3];
    assert_eq!(memset(&mut mem, 1, 9, 4), Err(RuntimeError::MemoryOutOfBounds { addr: 3 }));
    assert_eq!(&mem[..], &[0, 9, 9]);
}

#[test]
fn memcmp_exact_difference() {
    let mem = vec![1, 2, 200, 1, 2, 3];
    assert_eq!(memcmp(&mem, 0, 3, 3).unwrap(), 197);
    assert_eq!(memcmp(&mem, 3, 0, 3).unwrap(), -197);
}

#[test]
fn strlen_unterminated_reports_unterminated_string() {
    let mem = vec![1u8, 2, 3];
    assert_eq!(strlen(&mem, 0), Err(RuntimeError::UnterminatedString { addr: 3 }));
}

#[test]
fn strlen_start_out_of_bounds_reports_out_of_bounds() {
    let mem = vec![1u8, 2, 3];
    assert_eq!(strlen(&mem, 7), Err(RuntimeError::MemoryOutOfBounds { addr: 7 }));
}

#[test]
fn strncpy_stops_reading_after_terminator() {
    let mut mem = vec![b'a', 0, 0xEE, 0xEE, 0xEE, 0xEE];
    strncpy(&mut mem, 2, 0, 4).unwrap();
    assert_eq!(&mem[..], &[b'a', 0, b'a', 0, 0, 0]);
}

#[test]
fn bit_intrinsics_values() {
    assert_eq!(bit_intrinsic_value(BitIntrinsicKind::ByteReverse, 32, 0x1122_3344), Some(0x4433_2211));
    assert_eq!(bit_intrinsic_value(BitIntrinsicKind::ByteReverse, 8, 0x1ab), Some(0xab));
    assert_eq!(bit_intrinsic_value(BitIntrinsicKind::PopCount, 16, 0xffff_00f1), Some(5));
    assert_eq!(bit_intrinsic_value(BitIntrinsicKind::CountLeadingZeros, 16, 0x00f0), Some(8));
    assert_eq!(bit_intrinsic_value(BitIntrinsicKind::CountLeadingZeros, 32, 0), Some(32));
    assert_eq!(bit_intrinsic_value(BitIntrinsicKind::CountTrailingZeros, 64, 0x80), Some(7));
    assert_eq!(bit_intrinsic_value(BitIntrinsicKind::CountTrailingZeros, 8, 0x100), Some(8));
    assert_eq!(bit_intrinsic_value(BitIntrinsicKind::PopCount, 12, 1), None);
}

#[test]
fn registry_builtins_and_registration() {
    let mut reg = IntrinsicRegistry::with_builtins();
    assert!(reg.contains("__scratcharch_memcpy"));
    assert_eq!(reg.get("__scratcharch_strlen"), Some(IntrinsicFn::StrLen));
    assert_eq!(
        reg.signature("__scratcharch_trap"),
        Some(IntrinsicSignature { arg_words: 0, result_words: 0 })
    );
    assert_eq!(reg.names().len(), 11);
    reg.register("__scratcharch_trap", IntrinsicFn::Abort);
    assert_eq!(reg.get("__scratcharch_trap"), Some(IntrinsicFn::Abort));
    assert_eq!(reg.signature("__scratcharch_trap"), None);
    assert!(!IntrinsicRegistry::empty().contains("__scratcharch_memcpy"));
}

#[test]
fn dispatch_builtins() {
    let mut mem = vec![0u8; 8];
    mem[0..3].copy_from_slice(b"hi\0");
    assert_eq!(
        dispatch_intrinsic("__scratcharch_strlen", &mut mem, &[0]),
        Ok(IntrinsicResult::Value(Value::U32(2)))
    );
    assert_eq!(
        dispatch_intrinsic("__scratcharch_memset", &mut mem, &[4, 0x1ff, 2]),
        Ok(IntrinsicResult::Value(Value::Pointer(4)))
    );
    assert_eq!(mem[4], 0xff);
    assert!(matches!(
        dispatch_intrinsic("__scratcharch_strlen", &mut mem, &[0, 1]),
        Err(RuntimeError::BadIntrinsicArgs { expected: 1, got: 2, .. })
    ));
    assert!(matches!(
        dispatch_intrinsic("nope", &mut mem, &[]),
        Err(RuntimeError::UnknownIntrinsic(_))
    ));
}
