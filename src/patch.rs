use vstd::prelude::*;

use capstone::arch::BuildsCapstone;

use crate::encode::{return_code, return_sequence, NumberType, RET};
use crate::error::WriteMemoryError;
use crate::instruction::{captured_of, restore_all_spec, Instruction};
use crate::memory::{is_valid_protection, write_memory, write_spec, Memory, MemoryModel};

verus! {

/// The no-operation opcode.
pub const NOP: u8 = 0x90;

/// The window of bytes handed to the disassembler.
pub const DECODE_WINDOW: usize = 16;

/// The most bytes one x86 instruction can take.
pub const MAX_INSTRUCTION_LEN: usize = 15;

/// The length of the first x86-64 instruction of `code`, as the disassembler
/// decodes it; `None` when it decodes none.
pub uninterp spec fn decoded_length(code: Seq<u8>) -> Option<usize>;

/// Relies on capstone's x86-64 disassembler (`disasm_count` with a count of
/// one): the length of the first instruction it decodes in `code`, which
/// depends on the bytes alone; its decoder refuses instructions longer than
/// 15 bytes.
#[verifier::external_body]
fn decode_length(code: &[u8]) -> (r: Option<usize>)
    ensures
        r == decoded_length(code@),
        r matches Some(n) ==> n <= MAX_INSTRUCTION_LEN,
{
    let cs = capstone::Capstone::new().x86().mode(capstone::arch::x86::ArchMode::Mode64).build().ok()?;
    let insns = cs.disasm_count(code, 0, 1).ok()?;
    insns.iter().next().map(|insn| insn.len())
}

pub open spec fn min(a: int, b: int) -> int {
    if a <= b {
        a
    } else {
        b
    }
}

/// The backed bytes from `a` on, at most `DECODE_WINDOW` of them.
pub open spec fn window_at(m: MemoryModel, a: int) -> Seq<u8> {
    if m.base <= a < m.base + m.bytes.len() {
        m.bytes.subrange(a - m.base, min(a - m.base + DECODE_WINDOW, m.bytes.len() as int))
    } else {
        Seq::empty()
    }
}

/// The instruction bytes that a decoded length selects from `window`.
pub open spec fn decoded_instruction(window: Seq<u8>, decoded: Option<usize>) -> Option<Seq<u8>> {
    match decoded {
        Some(n) => if 1 <= n <= window.len() && n <= MAX_INSTRUCTION_LEN {
            Some(window.take(n as int))
        } else {
            None
        },
        None => None,
    }
}

/// The bytes of the instruction at `a`.
pub open spec fn decode_at(m: MemoryModel, a: int) -> Option<Seq<u8>> {
    if a == 0 || window_at(m, a).len() == 0 {
        None
    } else {
        decoded_instruction(window_at(m, a), decoded_length(window_at(m, a)))
    }
}

/// The bytes of the `n` consecutive instructions from `a` on.
pub open spec fn decode_run(m: MemoryModel, a: int, n: nat) -> Option<Seq<Seq<u8>>>
    decreases n,
{
    if n == 0 {
        Some(Seq::empty())
    } else {
        match decode_at(m, a) {
            None => None,
            Some(b) => match decode_run(m, a + b.len(), (n - 1) as nat) {
                None => None,
                Some(rest) => Some(seq![b] + rest),
            },
        }
    }
}

pub open spec fn concat(run: Seq<Seq<u8>>) -> Seq<u8>
    decreases run.len(),
{
    if run.len() == 0 {
        Seq::empty()
    } else {
        run[0] + concat(run.drop_first())
    }
}

/// Each instruction of `run` at its address, the first at `a`.
pub open spec fn placed(a: int, run: Seq<Seq<u8>>) -> Seq<(int, Seq<u8>)> {
    Seq::new(run.len(), |k: int| (a + concat(run.take(k)).len(), run[k]))
}

pub open spec fn nops(len: int) -> Seq<u8> {
    Seq::new(len as nat, |k: int| NOP)
}

/// What a return patch writes: the constant's return sequence, or a bare
/// return.
pub open spec fn patch_code(value: Option<NumberType>) -> Seq<u8> {
    match value {
        Some(v) => return_code(v),
        None => seq![RET],
    }
}

/// Builds the instruction at `address` from the disassembler's answer on
/// `window`: its first `n` bytes when it decoded `n` of them.
pub fn instruction_from_decoded(address: usize, window: &[u8], decoded: Option<usize>) -> (r: Option<
    Instruction,
>)
    ensures
        match decoded_instruction(window@, decoded) {
            Some(b) => r matches Some(i) && i.address == address && i.bytes@ == b && i.size
                == b.len(),
            None => r is None,
        },
{
    match decoded {
        Some(n) => {
            if n >= 1 && n <= window.len() && n <= MAX_INSTRUCTION_LEN {
                let mut bytes: Vec<u8> = Vec::new();
                let mut k: usize = 0;
                while k < n
                    invariant
                        k <= n <= window@.len(),
                        bytes@ =~= window@.take(k as int),
                    decreases n - k,
                {
                    bytes.push(window[k]);
                    k += 1;
                }
                Some(Instruction::new(address, bytes))
            } else {
                None
            }
        },
        None => None,
    }
}

fn window(mem: &Memory, address: usize) -> (r: Vec<u8>)
    requires
        mem.wf(),
    ensures
        r@ == window_at(mem@, address as int),
{
    let mut out: Vec<u8> = Vec::new();
    if address < mem.base || address - mem.base >= mem.bytes.len() {
        return out;
    }
    let off = address - mem.base;
    let end = if mem.bytes.len() - off < DECODE_WINDOW {
        mem.bytes.len()
    } else {
        off + DECODE_WINDOW
    };
    let mut k: usize = off;
    while k < end
        invariant
            off <= k <= end <= mem.bytes@.len(),
            out@ =~= mem.bytes@.subrange(off as int, k as int),
        decreases end - k,
    {
        out.push(mem.bytes[k]);
        k += 1;
    }
    out
}

/// Decodes the instruction at `address`, reading at most `DECODE_WINDOW`
/// bytes; `None` at the null address or where nothing decodes.
pub fn get_instruction(mem: &Memory, address: usize) -> (r: Option<Instruction>)
    requires
        mem.wf(),
    ensures
        match decode_at(mem@, address as int) {
            Some(b) => r matches Some(i) && i.address == address && i.bytes@ == b && i.size
                == b.len() && 1 <= i.size <= MAX_INSTRUCTION_LEN,
            None => r is None,
        },
{
    if address == 0 {
        return None;
    }
    let code = window(mem, address);
    if code.len() == 0 {
        return None;
    }
    let decoded = decode_length(code.as_slice());
    instruction_from_decoded(address, code.as_slice(), decoded)
}

/// A decoded instruction lies in the backed range and holds its bytes.
pub proof fn lemma_decoded_is_backed(m: MemoryModel, a: int)
    requires
        m.wf(),
        decode_at(m, a) is Some,
    ensures
        m.is_backed(a, decode_at(m, a)->Some_0.len() as int),
        decode_at(m, a)->Some_0 == m.load(a, decode_at(m, a)->Some_0.len() as int),
        1 <= decode_at(m, a)->Some_0.len() <= MAX_INSTRUCTION_LEN,
{
    let b = decode_at(m, a)->Some_0;
    assert(b =~= m.load(a, b.len() as int));
}

pub proof fn lemma_concat_push(run: Seq<Seq<u8>>, b: Seq<u8>)
    ensures
        concat(run.push(b)) == concat(run) + b,
    decreases run.len(),
{
    if run.len() == 0 {
        assert(run.push(b).drop_first() =~= Seq::<Seq<u8>>::empty());
        assert(run.push(b)[0] == b);
        assert(concat(run.push(b).drop_first()) == Seq::<u8>::empty());
        assert(concat(run.push(b)) =~= concat(run) + b);
    } else {
        assert(run.push(b).drop_first() =~= run.drop_first().push(b));
        lemma_concat_push(run.drop_first(), b);
        assert(run.push(b)[0] == run[0]);
        assert(concat(run.push(b)) == run[0] + (concat(run.drop_first()) + b));
        assert(run[0] + (concat(run.drop_first()) + b) =~= (run[0] + concat(run.drop_first())) + b);
    }
}

proof fn lemma_placed_push(a: int, run: Seq<Seq<u8>>, b: Seq<u8>)
    ensures
        placed(a, run.push(b)) == placed(a, run).push((a + concat(run).len(), b)),
{
    assert forall|k: int| 0 <= k < run.len() implies #[trigger] run.push(b).take(k) == run.take(k) by {
        assert(run.push(b).take(k) =~= run.take(k));
    }
    assert(run.push(b).take(run.len() as int) =~= run);
    assert(placed(a, run.push(b)) =~= placed(a, run).push((a + concat(run).len(), b)));
}

/// Replaces `num_instructions` consecutive instructions from `address` on with
/// `NOP` bytes, and returns what they held. Every instruction is decoded
/// before anything is written; the span is then written with one protected
/// write. `None` when an instruction does not decode or the write fails; a
/// write that only failed to restore the flags is not undone.
pub fn nop_instructions(mem: &mut Memory, address: usize, num_instructions: usize) -> (r: Option<
    Vec<Instruction>,
>)
    requires
        old(mem).wf(),
        num_instructions >= 1,
    ensures
        final(mem).wf(),
        match decode_run(old(mem)@, address as int, num_instructions as nat) {
            None => r is None && final(mem)@ == old(mem)@,
            Some(run) => {
                let w = write_spec(old(mem)@, address as int, nops(concat(run).len() as int), 1);
                &&& final(mem)@ == w.0
                &&& (r is Some <==> w.1 is Ok)
                &&& r matches Some(v) ==> v@.len() == num_instructions && captured_of(v@) == placed(
                    address as int,
                    run,
                ) && forall|k: int|
                    0 <= k < v@.len() ==> #[trigger] v@[k].size == v@[k].bytes@.len() && 1
                        <= v@[k].size <= MAX_INSTRUCTION_LEN
            },
        },
{
    let ghost m = mem@;
    let mut instructions: Vec<Instruction> = Vec::new();
    let ghost mut run: Seq<Seq<u8>> = Seq::empty();
    let mut current: usize = address;
    let mut total: usize = 0;
    let mut k: usize = 0;
    while k < num_instructions
        invariant
            mem@ == m,
            mem.wf(),
            k <= num_instructions,
            instructions@.len() == k,
            run.len() == k,
            current == address + total,
            total == concat(run).len(),
            captured_of(instructions@) == placed(address as int, run),
            forall|x: int|
                0 <= x < instructions@.len() ==> #[trigger] instructions@[x].size
                    == instructions@[x].bytes@.len() && 1 <= instructions@[x].size
                    <= MAX_INSTRUCTION_LEN,
            decode_run(m, address as int, num_instructions as nat) == (match decode_run(
                m,
                current as int,
                (num_instructions - k) as nat,
            ) {
                Some(rest) => Some(run + rest),
                None => None::<Seq<Seq<u8>>>,
            }),
        decreases num_instructions - k,
    {
        match get_instruction(mem, current) {
            Some(instr) => {
                let ghost b = instr.bytes@;
                proof {
                    lemma_decoded_is_backed(m, current as int);
                    lemma_concat_push(run, b);
                    lemma_placed_push(address as int, run, b);
                    assert forall|rest: Seq<Seq<u8>>| run + (seq![b] + rest) =~= run.push(b) + rest by {}
                }
                let size = instr.size;
                let ghost before = instructions@;
                instructions.push(instr);
                proof {
                    assert(captured_of(instructions@) =~= captured_of(before).push(
                        (current as int, b),
                    ));
                    run = run.push(b);
                }
                current = current + size;
                total = total + size;
                k += 1;
            },
            None => {
                return None;
            },
        }
    }
    assert(run + Seq::<Seq<u8>>::empty() =~= run);
    let mut fill: Vec<u8> = Vec::new();
    let mut f: usize = 0;
    while f < total
        invariant
            f <= total,
            fill@ =~= nops(f as int),
        decreases total - f,
    {
        fill.push(NOP);
        f += 1;
    }
    match write_memory(mem, address, fill.as_slice(), 1) {
        Ok(()) => Some(instructions),
        Err(_) => None,
    }
}

/// Makes the function at `address` return at once: with the constant `value`
/// when there is one, else with a bare return opcode. Returns the original
/// first instruction; `None` when it does not decode or the write fails. The
/// whole sequence goes out in one protected write.
pub fn replace_return_value(mem: &mut Memory, address: usize, value: Option<NumberType>) -> (r: Option<
    Instruction,
>)
    requires
        old(mem).wf(),
    ensures
        final(mem).wf(),
        match decode_at(old(mem)@, address as int) {
            None => r is None && final(mem)@ == old(mem)@,
            Some(b) => {
                let w = write_spec(old(mem)@, address as int, patch_code(value), 1);
                &&& final(mem)@ == w.0
                &&& (r is Some <==> w.1 is Ok)
                &&& r matches Some(i) ==> i.address == address && i.bytes@ == b && i.size == b.len()
                    && 1 <= i.size <= MAX_INSTRUCTION_LEN
            },
        },
{
    let original = match get_instruction(mem, address) {
        Some(i) => i,
        None => {
            return None;
        },
    };
    let code = match value {
        Some(v) => return_sequence(v),
        None => {
            let mut c: Vec<u8> = Vec::new();
            c.push(RET);
            assert(c@ =~= seq![RET]);
            c
        },
    };
    match write_memory(mem, address, code.as_slice(), 1) {
        Ok(()) => Some(original),
        Err(_) => None,
    }
}

/// The bytes of a decoded run are the bytes that stand at its address.
proof fn lemma_run_bytes(m: MemoryModel, a: int, n: nat)
    requires
        m.wf(),
        decode_run(m, a, n) is Some,
    ensures
        n > 0 ==> m.is_backed(a, concat(decode_run(m, a, n)->Some_0).len() as int) && m.load(
            a,
            concat(decode_run(m, a, n)->Some_0).len() as int,
        ) == concat(decode_run(m, a, n)->Some_0),
    decreases n,
{
    if n > 0 {
        let b = decode_at(m, a)->Some_0;
        let rest = decode_run(m, a + b.len(), (n - 1) as nat)->Some_0;
        let run = decode_run(m, a, n)->Some_0;
        lemma_decoded_is_backed(m, a);
        lemma_run_bytes(m, a + b.len(), (n - 1) as nat);
        assert(run == seq![b] + rest);
        assert(run.drop_first() =~= rest);
        assert(concat(run) == b + concat(rest));
        if n - 1 == 0 {
            assert(concat(rest) =~= Seq::<u8>::empty());
            assert(m.load(a, concat(run).len() as int) =~= concat(run));
        } else {
            assert(m.load(a, concat(run).len() as int) =~= concat(run));
        }
    }
}

proof fn lemma_placed_tail(c: int, run: Seq<Seq<u8>>)
    requires
        run.len() > 0,
    ensures
        placed(c, run)[0] == (c, run[0]),
        placed(c, run).drop_first() == placed(c + run[0].len(), run.drop_first()),
{
    assert(run.take(0) =~= Seq::<Seq<u8>>::empty());
    assert forall|k: int| 0 <= k < run.len() - 1 implies #[trigger] concat(run.take(k + 1)) == run[0]
        + concat(run.drop_first().take(k)) by {
        assert(run.take(k + 1).drop_first() =~= run.drop_first().take(k));
        assert(run.take(k + 1)[0] == run[0]);
    }
    assert(placed(c, run).drop_first() =~= placed(c + run[0].len(), run.drop_first()));
}

/// Writing back each instruction of `run`, the first at `c`, stores their
/// concatenation at `c`.
proof fn lemma_restore_placed(x: MemoryModel, c: int, run: Seq<Seq<u8>>)
    requires
        x.wf(),
        !x.sealed,
        is_valid_protection(x.protection),
        c > 0,
        x.is_backed(c, concat(run).len() as int),
    ensures
        restore_all_spec(x, placed(c, run)) == (x.store(c, concat(run)), Ok::<(), WriteMemoryError>(
            (),
        )),
    decreases run.len(),
{
    if run.len() == 0 {
        assert(placed(c, run) =~= Seq::<(int, Seq<u8>)>::empty());
        assert(x.store(c, concat(run)).bytes =~= x.bytes);
        assert(x.store(c, concat(run)) == x);
    } else {
        let b = run[0];
        let rest = run.drop_first();
        lemma_placed_tail(c, run);
        assert(concat(run) == b + concat(rest));
        let x1 = x.store(c, b);
        assert(write_spec(x, c, b, 1) == (x1, Ok::<(), WriteMemoryError>(())));
        lemma_restore_placed(x1, c + b.len(), rest);
        assert(x1.store(c + b.len(), concat(rest)).bytes =~= x.store(c, concat(run)).bytes);
    }
}

/// Restoring, in order, the instructions that a successful
/// `nop_instructions` captured gives back the range exactly as it was.
pub proof fn lemma_nop_then_restore_all(m: MemoryModel, a: int, n: nat)
    requires
        m.wf(),
        n >= 1,
        decode_run(m, a, n) is Some,
        write_spec(m, a, nops(concat(decode_run(m, a, n)->Some_0).len() as int), 1).1 is Ok,
    ensures
        restore_all_spec(
            write_spec(m, a, nops(concat(decode_run(m, a, n)->Some_0).len() as int), 1).0,
            placed(a, decode_run(m, a, n)->Some_0),
        ) == (m, Ok::<(), WriteMemoryError>(())),
{
    let run = decode_run(m, a, n)->Some_0;
    let total = concat(run).len() as int;
    lemma_run_bytes(m, a, n);
    let x = write_spec(m, a, nops(total), 1).0;
    assert(x == m.store(a, nops(total)));
    lemma_restore_placed(x, a, run);
    assert(x.store(a, concat(run)).bytes =~= m.bytes);
}

/// A successful bare-return patch changes exactly one byte, to the return
/// opcode.
pub proof fn lemma_bare_return_writes_one_byte(m: MemoryModel, a: int)
    requires
        m.wf(),
        write_spec(m, a, patch_code(None), 1).1 is Ok,
    ensures
        write_spec(m, a, patch_code(None), 1).0.bytes == m.bytes.update(a - m.base, RET),
        write_spec(m, a, patch_code(None), 1).0.protection == m.protection,
{
    assert(write_spec(m, a, patch_code(None), 1).0.bytes =~= m.bytes.update(a - m.base, RET));
}

} // verus!
