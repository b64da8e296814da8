use vstd::prelude::*;

verus! {

pub const RET: u8 = 0xC3;

/// A 32-bit or 64-bit float, held as its bit pattern.
#[derive(Debug, Clone, Copy, PartialEq, Eq, Structural)]
pub enum FloatType {
    F32(u32),
    F64(u64),
}

#[derive(Debug, Clone, Copy, PartialEq, Eq, Structural)]
pub enum IntegerType {
    I32(i32),
    I64(i64),
}

#[derive(Debug, Clone, Copy, PartialEq, Eq, Structural)]
pub enum IntegralType {
    U8(u8),
    U16(u16),
    U32(u32),
    U64(u64),
}

/// The numeric kinds whose constant a patched function can return.
#[derive(Debug, Clone, Copy, PartialEq, Eq, Structural)]
pub enum NumberType {
    Float(FloatType),
    Integer(IntegerType),
    Integral(IntegralType),
}

pub open spec fn le16(x: u16) -> Seq<u8> {
    seq![(x & 0xff) as u8, ((x >> 8) & 0xff) as u8]
}

pub open spec fn le32(x: u32) -> Seq<u8> {
    seq![
        (x & 0xff) as u8,
        ((x >> 8) & 0xff) as u8,
        ((x >> 16) & 0xff) as u8,
        ((x >> 24) & 0xff) as u8,
    ]
}

pub open spec fn le64(x: u64) -> Seq<u8> {
    le32((x & 0xffff_ffff) as u32) + le32((x >> 32) as u32)
}

/// `mov eax, imm32`
pub open spec fn mov_eax(x: u32) -> Seq<u8> {
    seq![0xB8u8] + le32(x)
}

/// `mov rax, imm64`
pub open spec fn mov_rax(x: u64) -> Seq<u8> {
    seq![0x48u8, 0xB8u8] + le64(x)
}

/// `mov ax, imm16`
pub open spec fn mov_ax(x: u16) -> Seq<u8> {
    seq![0x66u8, 0xB8u8] + le16(x)
}

/// `movd xmm0, eax`
pub open spec fn movd_xmm0_eax() -> Seq<u8> {
    seq![0x66u8, 0x0Fu8, 0x6Eu8, 0xC0u8]
}

/// `movq xmm0, rax`
pub open spec fn movq_xmm0_rax() -> Seq<u8> {
    seq![0x66u8, 0x48u8, 0x0Fu8, 0x6Eu8, 0xC0u8]
}

/// x86-64 code that returns the constant `v`: integers in the accumulator
/// sized to the value, floats in `xmm0` through their bit pattern.
pub open spec fn return_code(v: NumberType) -> Seq<u8> {
    match v {
        NumberType::Float(FloatType::F32(bits)) => mov_eax(bits) + movd_xmm0_eax() + seq![RET],
        NumberType::Float(FloatType::F64(bits)) => mov_rax(bits) + movq_xmm0_rax() + seq![RET],
        NumberType::Integer(IntegerType::I32(x)) => mov_eax(x as u32) + seq![RET],
        NumberType::Integer(IntegerType::I64(x)) => mov_rax(x as u64) + seq![RET],
        NumberType::Integral(IntegralType::U8(x)) => mov_eax(x as u32) + seq![RET],
        NumberType::Integral(IntegralType::U16(x)) => mov_ax(x) + seq![RET],
        NumberType::Integral(IntegralType::U32(x)) => mov_eax(x) + seq![RET],
        NumberType::Integral(IntegralType::U64(x)) => mov_rax(x) + seq![RET],
    }
}

fn push_le16(out: &mut Vec<u8>, x: u16)
    ensures
        final(out)@ == old(out)@ + le16(x),
{
    out.push((x & 0xff) as u8);
    out.push(((x >> 8) & 0xff) as u8);
    assert(final(out)@ =~= old(out)@ + le16(x));
}

fn push_le32(out: &mut Vec<u8>, x: u32)
    ensures
        final(out)@ == old(out)@ + le32(x),
{
    out.push((x & 0xff) as u8);
    out.push(((x >> 8) & 0xff) as u8);
    out.push(((x >> 16) & 0xff) as u8);
    out.push(((x >> 24) & 0xff) as u8);
    assert(final(out)@ =~= old(out)@ + le32(x));
}

fn push_le64(out: &mut Vec<u8>, x: u64)
    ensures
        final(out)@ == old(out)@ + le64(x),
{
    let ghost start = out@;
    push_le32(out, (x & 0xffff_ffff) as u32);
    push_le32(out, (x >> 32) as u32);
    assert(out@ =~= start + le64(x));
}

fn finish(out: Vec<u8>) -> (r: Vec<u8>)
    ensures
        r@ == out@ + seq![RET],
{
    let mut r = out;
    r.push(RET);
    assert(r@ =~= out@ + seq![RET]);
    r
}

/// Code that returns the signed integer `integer_type`.
pub fn integer_ret(integer_type: IntegerType) -> (r: Vec<u8>)
    ensures
        r@ == return_code(NumberType::Integer(integer_type)),
{
    let mut out: Vec<u8> = Vec::new();
    match integer_type {
        IntegerType::I32(x) => {
            out.push(0xB8u8);
            push_le32(&mut out, x as u32);
        },
        IntegerType::I64(x) => {
            out.push(0x48u8);
            out.push(0xB8u8);
            push_le64(&mut out, x as u64);
        },
    }
    let r = finish(out);
    assert(r@ =~= return_code(NumberType::Integer(integer_type)));
    r
}

/// Code that returns the float whose bit pattern `float_type` holds.
pub fn float_ret(float_type: FloatType) -> (r: Vec<u8>)
    ensures
        r@ == return_code(NumberType::Float(float_type)),
{
    let mut out: Vec<u8> = Vec::new();
    match float_type {
        FloatType::F32(bits) => {
            out.push(0xB8u8);
            push_le32(&mut out, bits);
            out.push(0x66u8);
            out.push(0x0Fu8);
            out.push(0x6Eu8);
            out.push(0xC0u8);
        },
        FloatType::F64(bits) => {
            out.push(0x48u8);
            out.push(0xB8u8);
            push_le64(&mut out, bits);
            out.push(0x66u8);
            out.push(0x48u8);
            out.push(0x0Fu8);
            out.push(0x6Eu8);
            out.push(0xC0u8);
        },
    }
    let r = finish(out);
    assert(r@ =~= return_code(NumberType::Float(float_type)));
    r
}

/// Code that returns the unsigned integer `integral_type`.
pub fn integral_ret(integral_type: IntegralType) -> (r: Vec<u8>)
    ensures
        r@ == return_code(NumberType::Integral(integral_type)),
{
    let mut out: Vec<u8> = Vec::new();
    match integral_type {
        IntegralType::U8(x) => {
            out.push(0xB8u8);
            push_le32(&mut out, x as u32);
        },
        IntegralType::U16(x) => {
            out.push(0x66u8);
            out.push(0xB8u8);
            push_le16(&mut out, x);
        },
        IntegralType::U32(x) => {
            out.push(0xB8u8);
            push_le32(&mut out, x);
        },
        IntegralType::U64(x) => {
            out.push(0x48u8);
            out.push(0xB8u8);
            push_le64(&mut out, x);
        },
    }
    let r = finish(out);
    assert(r@ =~= return_code(NumberType::Integral(integral_type)));
    r
}

/// Code that returns the constant `value`.
pub fn return_sequence(value: NumberType) -> (r: Vec<u8>)
    ensures
        r@ == return_code(value),
{
    match value {
        NumberType::Float(f) => float_ret(f),
        NumberType::Integer(i) => integer_ret(i),
        NumberType::Integral(u) => integral_ret(u),
    }
}

/// Every return sequence is non-empty and ends with the return instruction.
pub proof fn lemma_return_code_ends_with_ret(v: NumberType)
    ensures
        return_code(v).len() > 0,
        return_code(v).last() == RET,
{
}

} // verus!
