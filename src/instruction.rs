use vstd::prelude::*;

use crate::error::WriteMemoryError;
use crate::memory::{write_memory, write_spec, Memory, MemoryModel};

verus! {

/// Bytes captured at `address` before they were overwritten.
#[derive(Clone, Debug)]
pub struct Instruction {
    pub address: usize,
    pub bytes: Vec<u8>,
    pub size: usize,
}

impl Instruction {
    pub fn new(address: usize, bytes: Vec<u8>) -> (r: Instruction)
        ensures
            r.address == address,
            r.bytes@ == bytes@,
            r.size == bytes@.len(),
    {
        let size = bytes.len();
        Instruction { address, bytes, size }
    }

    /// Writes the captured bytes back at their address.
    pub fn restore(&self, mem: &mut Memory) -> (r: Result<(), WriteMemoryError>)
        requires
            old(mem).wf(),
        ensures
            final(mem).wf(),
            final(mem)@ == write_spec(old(mem)@, self.address as int, self.bytes@, 1).0,
            r == write_spec(old(mem)@, self.address as int, self.bytes@, 1).1,
    {
        write_memory(mem, self.address, self.bytes.as_slice(), 1)
    }
}

/// Writes back each captured `(address, bytes)` in turn. Every one is
/// attempted; the outcome is the first failure, if any.
pub open spec fn restore_all_spec(m: MemoryModel, captured: Seq<(int, Seq<u8>)>) -> (
    MemoryModel,
    Result<(), WriteMemoryError>,
)
    decreases captured.len(),
{
    if captured.len() == 0 {
        (m, Ok(()))
    } else {
        let first = write_spec(m, captured[0].0, captured[0].1, 1);
        let rest = restore_all_spec(first.0, captured.drop_first());
        (rest.0, if first.1 is Err { first.1 } else { rest.1 })
    }
}

pub open spec fn captured_of(instrs: Seq<Instruction>) -> Seq<(int, Seq<u8>)> {
    Seq::new(instrs.len(), |k: int| (instrs[k].address as int, instrs[k].bytes@))
}

pub trait InstructionVecExt {
    spec fn captured(&self) -> Seq<(int, Seq<u8>)>;

    /// Restores every captured instruction, in order.
    fn restore_all(&self, mem: &mut Memory) -> (r: Result<(), WriteMemoryError>)
        requires
            old(mem).wf(),
        ensures
            final(mem).wf(),
            final(mem)@ == restore_all_spec(old(mem)@, self.captured()).0,
            r == restore_all_spec(old(mem)@, self.captured()).1,
    ;
}

impl InstructionVecExt for Vec<Instruction> {
    open spec fn captured(&self) -> Seq<(int, Seq<u8>)> {
        captured_of(self@)
    }

    fn restore_all(&self, mem: &mut Memory) -> (r: Result<(), WriteMemoryError>) {
        let ghost all = self.captured();
        let ghost start = mem@;
        let mut first_error: Option<WriteMemoryError> = None;
        let mut k: usize = 0;
        assert(all.skip(0) =~= all);
        while k < self.len()
            invariant
                mem.wf(),
                all == captured_of(self@),
                k <= self@.len(),
                restore_all_spec(start, all).0 == restore_all_spec(mem@, all.skip(k as int)).0,
                restore_all_spec(start, all).1 == (match first_error {
                    Some(e) => Err(e),
                    None => restore_all_spec(mem@, all.skip(k as int)).1,
                }),
            decreases self@.len() - k,
        {
            assert(all.skip(k as int).drop_first() =~= all.skip(k + 1));
            let res = self[k].restore(mem);
            if first_error.is_none() {
                if let Err(e) = res {
                    first_error = Some(e);
                }
            }
            k += 1;
        }
        assert(all.skip(k as int) =~= Seq::<(int, Seq<u8>)>::empty());
        assert(restore_all_spec(mem@, all.skip(k as int)).1 == Ok::<(), WriteMemoryError>(()));
        match first_error {
            Some(e) => Err(e),
            None => Ok(()),
        }
    }
}

} // verus!
