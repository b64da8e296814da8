use verity_memory::encode::{float_ret, integer_ret, integral_ret, return_sequence, FloatType, IntegerType, IntegralType, NumberType};
use verity_memory::instruction::{Instruction, InstructionVecExt};
use verity_memory::memory::{Memory, PAGE_EXECUTE_READ};
use verity_memory::patch::{get_instruction, instruction_from_decoded, nop_instructions, replace_return_value};

fn code(bytes: Vec<u8>) -> Memory {
    Memory::new(0x40_0000, bytes, PAGE_EXECUTE_READ)
}

/// `data` at the start of the heap page that holds it: the bytes after it are
/// backed too.
fn heap_buffer(data: Vec<u8>) -> Memory {
    let mut page = data;
    page.resize(64, 0);
    Memory::new(0x40_0000, page, PAGE_EXECUTE_READ)
}

#[test]
fn test_nop_instructions_success() {
    let mut mem = code(vec![0x55, 0x48, 0x8B, 0xEC, 0x90]);
    if let Some(instructions) = nop_instructions(&mut mem, 0x40_0000, 2) {
        assert_eq!(instructions.len(), 2);
    } else {
        panic!("Failed to retrieve instructions");
    }
}

#[test]
fn test_nop_instructions_failure() {
    let mut mem = code(vec![0x55, 0x48, 0x8B, 0xEC, 0x90]);
    let instructions = nop_instructions(&mut mem, 0, 1);
    assert!(instructions.is_none());
}

#[test]
fn test_replace_return_value_integer() {
    let mut mem = heap_buffer(vec![0x55, 0x48, 0x8B, 0xEC]);
    let result = replace_return_value(&mut mem, 0x40_0000, Some(NumberType::Integral(IntegralType::U32(123))));
    assert!(result.is_some());
}

#[test]
fn test_replace_return_value_float() {
    let mut mem = heap_buffer(vec![0x55, 0x48, 0x8B, 0xEC]);
    let bits = 123.45_f32.to_bits();
    let result = replace_return_value(&mut mem, 0x40_0000, Some(NumberType::Float(FloatType::F32(bits))));
    assert!(result.is_some());
}

#[test]
fn test_replace_return_value_none() {
    let mut mem = heap_buffer(vec![0x55, 0x48, 0x8B, 0xEC]);
    let result = replace_return_value(&mut mem, 0x40_0000, None);
    assert!(result.is_some());
}

#[test]
fn decodes_instruction_lengths() {
    let mem = code(vec![0x55, 0x48, 0x8B, 0xEC, 0xC3]);
    let first = get_instruction(&mem, 0x40_0000).unwrap();
    assert_eq!(first.bytes, vec![0x55]);
    assert_eq!(first.size, 1);
    let second = get_instruction(&mem, 0x40_0001).unwrap();
    assert_eq!(second.bytes, vec![0x48, 0x8B, 0xEC]);
    assert_eq!(second.address, 0x40_0001);
    assert!(get_instruction(&mem, 0x50_0000).is_none());
}

#[test]
fn instruction_from_decoded_takes_prefix() {
    let i = instruction_from_decoded(0x10, &[1, 2, 3, 4], Some(3)).unwrap();
    assert_eq!(i.bytes, vec![1, 2, 3]);
    assert_eq!(i.size, 3);
    assert!(instruction_from_decoded(0x10, &[1, 2], Some(3)).is_none());
    assert!(instruction_from_decoded(0x10, &[1, 2], Some(0)).is_none());
    assert!(instruction_from_decoded(0x10, &[1, 2], None).is_none());
}

#[test]
fn nop_then_restore_all_gives_original() {
    let original = vec![0x55, 0x48, 0x8B, 0xEC, 0x31, 0xC0, 0xC3];
    let mut mem = code(original.clone());
    let captured = nop_instructions(&mut mem, 0x40_0000, 3).unwrap();
    assert_eq!(mem.bytes, vec![0x90, 0x90, 0x90, 0x90, 0x90, 0x90, 0xC3]);
    assert_eq!(captured[0].address, 0x40_0000);
    assert_eq!(captured[1].address, 0x40_0001);
    assert_eq!(captured[2].address, 0x40_0004);
    assert_eq!(captured.restore_all(&mut mem), Ok(()));
    assert_eq!(mem.bytes, original);
}

#[test]
fn restore_single_instruction() {
    let original = vec![0x55, 0x48, 0x8B, 0xEC, 0x90, 0x90];
    let mut mem = code(original.clone());
    let captured = nop_instructions(&mut mem, 0x40_0000, 1).unwrap();
    assert_eq!(mem.bytes[0], 0x90);
    let first: Instruction = captured[0].clone();
    assert_eq!(first.restore(&mut mem), Ok(()));
    assert_eq!(mem.bytes, original);
}

#[test]
fn replace_with_none_writes_one_ret() {
    let mut mem = code(vec![0x48, 0x8B, 0xEC, 0x55]);
    let first = replace_return_value(&mut mem, 0x40_0000, None).unwrap();
    assert_eq!(mem.bytes, vec![0xC3, 0x8B, 0xEC, 0x55]);
    assert_eq!(first.bytes, vec![0x48, 0x8B, 0xEC]);
}

#[test]
fn replace_with_value_writes_return_sequence() {
    let mut mem = code(vec![0x90; 8]);
    replace_return_value(&mut mem, 0x40_0000, Some(NumberType::Integer(IntegerType::I32(123)))).unwrap();
    assert_eq!(mem.bytes, vec![0xB8, 123, 0, 0, 0, 0xC3, 0x90, 0x90]);
}

#[test]
fn replace_fails_on_sealed_code() {
    let mut mem = Memory { base: 0x1000, bytes: vec![0x55, 0x90], reserved: 2, protection: PAGE_EXECUTE_READ, sealed: true };
    assert!(replace_return_value(&mut mem, 0x1000, None).is_none());
    assert_eq!(mem.bytes, vec![0x55, 0x90]);
}

#[test]
fn encodes_return_sequences() {
    assert_eq!(integer_ret(IntegerType::I32(-1)), vec![0xB8, 0xFF, 0xFF, 0xFF, 0xFF, 0xC3]);
    assert_eq!(
        integer_ret(IntegerType::I64(0x0102_0304_0506_0708)),
        vec![0x48, 0xB8, 8, 7, 6, 5, 4, 3, 2, 1, 0xC3]
    );
    assert_eq!(integral_ret(IntegralType::U8(7)), vec![0xB8, 7, 0, 0, 0, 0xC3]);
    assert_eq!(integral_ret(IntegralType::U16(0x1234)), vec![0x66, 0xB8, 0x34, 0x12, 0xC3]);
    assert_eq!(integral_ret(IntegralType::U32(0xDEAD_BEEF)), vec![0xB8, 0xEF, 0xBE, 0xAD, 0xDE, 0xC3]);
    assert_eq!(integral_ret(IntegralType::U64(u64::MAX)), vec![0x48, 0xB8, 255, 255, 255, 255, 255, 255, 255, 255, 0xC3]);
    assert_eq!(
        float_ret(FloatType::F32(1.0_f32.to_bits())),
        vec![0xB8, 0x00, 0x00, 0x80, 0x3F, 0x66, 0x0F, 0x6E, 0xC0, 0xC3]
    );
    assert_eq!(
        float_ret(FloatType::F64(1.0_f64.to_bits())),
        vec![0x48, 0xB8, 0, 0, 0, 0, 0, 0, 0xF0, 0x3F, 0x66, 0x48, 0x0F, 0x6E, 0xC0, 0xC3]
    );
}

#[test]
fn return_sequence_dispatches_on_kind() {
    assert_eq!(return_sequence(NumberType::Integral(IntegralType::U16(1))), vec![0x66, 0xB8, 1, 0, 0xC3]);
    assert_eq!(return_sequence(NumberType::Integer(IntegerType::I32(2))), vec![0xB8, 2, 0, 0, 0, 0xC3]);
}
