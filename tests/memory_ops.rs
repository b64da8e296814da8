use verity_memory::error::{ReadMemoryError, WriteMemoryError};
use verity_memory::memory::{
    check_alignment, read_memory, write_memory, Memory, PAGE_EXECUTE_READWRITE, PAGE_READONLY,
};

fn cell(value: i32) -> Memory {
    Memory::new(0x1000, value.to_le_bytes().to_vec(), PAGE_READONLY)
}

#[test]
fn test_read_memory_valid() {
    let mut mem = cell(42);
    let result = read_memory(&mut mem, 0x1000, 4, 4).map(|b| i32::from_le_bytes([b[0], b[1], b[2], b[3]]));
    assert_eq!(result, Ok(42));
}

#[test]
fn test_read_memory_null_pointer() {
    let mut mem = cell(42);
    let result = read_memory(&mut mem, 0, 4, 4);
    assert_eq!(result, Err(ReadMemoryError::NullPointer));
}

#[test]
fn test_read_memory_invalid_alignment() {
    let mut mem = cell(42);
    let result = read_memory(&mut mem, 0x1001, 4, 4);
    assert_eq!(result, Err(ReadMemoryError::InvalidAlignment));
}

#[test]
fn test_write_memory_success() {
    let mut mem = cell(42);
    let result = write_memory(&mut mem, 0x1000, &100_u32.to_le_bytes(), 4);
    assert!(result.is_ok());
    assert_eq!(mem.bytes, 100_u32.to_le_bytes().to_vec());
}

#[test]
fn test_write_memory_null_pointer() {
    let mut mem = cell(42);
    let result = write_memory(&mut mem, 0, &100_u32.to_le_bytes(), 4);
    assert!(matches!(result, Err(WriteMemoryError::NullPointer)));
}

/// The address at which `value` is stored.
fn address_of<T>(value: &T) -> usize {
    format!("{:p}", value).trim_start_matches("0x").chars().fold(0usize, |a, c| a * 16 + c.to_digit(16).unwrap() as usize)
}

#[test]
fn test_check_alignment() {
    let x: u8 = 42;
    assert!(check_alignment(address_of(&x), std::mem::align_of::<u8>()));

    let y: i32 = 42;
    assert!(check_alignment(address_of(&y), std::mem::align_of::<i32>()));
}

#[test]
fn test_check_alignment_unaligned() {
    let x: u8 = 42;
    assert!(check_alignment(address_of(&x), std::mem::align_of::<u8>()));
}

#[test]
fn check_alignment_rejects_odd_and_null() {
    assert!(!check_alignment(0x1001, 4));
    assert!(!check_alignment(0, 4));
    assert!(check_alignment(0x1008, 8));
}

#[test]
fn read_after_write_gives_value() {
    let mut mem = Memory::new(0x2000, vec![0u8; 16], PAGE_READONLY);
    let v = 0x1122_3344_5566_7788_u64.to_le_bytes();
    assert_eq!(write_memory(&mut mem, 0x2008, &v, 8), Ok(()));
    assert_eq!(read_memory(&mut mem, 0x2008, 8, 8), Ok(v.to_vec()));
    assert_eq!(mem.protection, PAGE_READONLY);
}

#[test]
fn null_access_changes_nothing() {
    let mut mem = Memory::new(0x2000, vec![1, 2, 3, 4], 0);
    assert_eq!(read_memory(&mut mem, 0, 1, 1), Err(ReadMemoryError::NullPointer));
    assert_eq!(write_memory(&mut mem, 0, &[9], 1), Err(WriteMemoryError::NullPointer));
    assert_eq!(mem.protection, 0);
    assert_eq!(mem.bytes, vec![1, 2, 3, 4]);
}

#[test]
fn sealed_range_refuses_protection_change() {
    let mut mem = Memory { base: 0x3000, bytes: vec![7, 7], reserved: 2, protection: PAGE_READONLY, sealed: true };
    assert_eq!(read_memory(&mut mem, 0x3000, 2, 1), Err(ReadMemoryError::FailedToChangeProtection));
    assert_eq!(write_memory(&mut mem, 0x3000, &[1, 1], 1), Err(WriteMemoryError::FailedToChangeProtection));
    assert_eq!(mem.bytes, vec![7, 7]);
}

#[test]
fn unreserved_range_refuses_protection_change() {
    let mut mem = Memory::new(0x3000, vec![7, 7], PAGE_READONLY);
    assert_eq!(read_memory(&mut mem, 0x3001, 2, 1), Err(ReadMemoryError::FailedToChangeProtection));
}

#[test]
fn failed_restore_is_reported_after_write() {
    let mut mem = Memory::new(0x3000, vec![7, 7], 0);
    assert_eq!(write_memory(&mut mem, 0x3000, &[1, 2], 1), Err(WriteMemoryError::FailedToRestoreProtection));
    assert_eq!(mem.bytes, vec![1, 2]);
    assert_eq!(mem.protection, PAGE_EXECUTE_READWRITE);
    let mut mem = Memory::new(0x3000, vec![7, 7], 0);
    assert_eq!(read_memory(&mut mem, 0x3000, 2, 1), Err(ReadMemoryError::FailedToRestoreProtection));
}

#[test]
fn unbacked_access_faults() {
    let mut mem = Memory { base: 0x3000, bytes: vec![7, 7], reserved: 8, protection: PAGE_READONLY, sealed: false };
    assert_eq!(read_memory(&mut mem, 0x3004, 2, 1), Err(ReadMemoryError::InvalidAccess));
    assert_eq!(write_memory(&mut mem, 0x3001, &[1, 2], 1), Err(WriteMemoryError::InvalidAccess));
    assert_eq!(mem.bytes, vec![7, 7]);
    assert_eq!(mem.protection, PAGE_READONLY);
}

#[test]
fn misaligned_write_is_refused() {
    let mut mem = cell(42);
    assert_eq!(write_memory(&mut mem, 0x1002, &[1, 2, 3, 4], 4), Err(WriteMemoryError::InvalidAlignment));
    assert_eq!(mem.bytes, 42_i32.to_le_bytes().to_vec());
}

#[test]
fn faulting_write_with_failed_restore_reports_fault() {
    let mut mem = Memory { base: 0x3000, bytes: vec![7, 7], reserved: 8, protection: 0, sealed: false };
    assert_eq!(write_memory(&mut mem, 0x3004, &[1, 2], 1), Err(WriteMemoryError::InvalidAccess));
    assert_eq!(mem.bytes, vec![7, 7]);
    assert_eq!(mem.protection, PAGE_EXECUTE_READWRITE);
}
