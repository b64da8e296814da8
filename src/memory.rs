use vstd::prelude::*;

use crate::error::{ReadMemoryError, WriteMemoryError};

verus! {

pub const PAGE_NOACCESS: u32 = 0x01;
pub const PAGE_READONLY: u32 = 0x02;
pub const PAGE_READWRITE: u32 = 0x04;
pub const PAGE_WRITECOPY: u32 = 0x08;
pub const PAGE_EXECUTE: u32 = 0x10;
pub const PAGE_EXECUTE_READ: u32 = 0x20;
pub const PAGE_EXECUTE_READWRITE: u32 = 0x40;
pub const PAGE_EXECUTE_WRITECOPY: u32 = 0x80;

/// The protection values that can be set on a range.
pub open spec fn is_valid_protection(p: u32) -> bool {
    p == PAGE_NOACCESS || p == PAGE_READONLY || p == PAGE_READWRITE || p == PAGE_WRITECOPY
        || p == PAGE_EXECUTE || p == PAGE_EXECUTE_READ || p == PAGE_EXECUTE_READWRITE
        || p == PAGE_EXECUTE_WRITECOPY
}

/// A reserved range of an address space, with access flags.
///
/// The range `[base, base + reserved)` is reserved: its protection can be
/// changed. Only its first `bytes.len()` bytes are backed: an access beyond
/// them faults. A sealed range refuses every protection change.
pub struct Memory {
    pub base: usize,
    pub bytes: Vec<u8>,
    pub reserved: usize,
    pub protection: u32,
    pub sealed: bool,
}

pub ghost struct MemoryModel {
    pub base: int,
    pub bytes: Seq<u8>,
    pub reserved: int,
    pub protection: u32,
    pub sealed: bool,
}

impl View for Memory {
    type V = MemoryModel;

    open spec fn view(&self) -> MemoryModel {
        MemoryModel {
            base: self.base as int,
            bytes: self.bytes@,
            reserved: self.reserved as int,
            protection: self.protection,
            sealed: self.sealed,
        }
    }
}

impl MemoryModel {
    pub open spec fn wf(self) -> bool {
        &&& 0 <= self.base
        &&& self.bytes.len() <= self.reserved
        &&& self.base + self.reserved <= usize::MAX
    }

    /// `[a, a + len)` lies in the reserved range.
    pub open spec fn is_reserved(self, a: int, len: int) -> bool {
        self.base <= a && 0 <= len && a + len <= self.base + self.reserved
    }

    /// `[a, a + len)` lies in the backed range.
    pub open spec fn is_backed(self, a: int, len: int) -> bool {
        self.base <= a && 0 <= len && a + len <= self.base + self.bytes.len()
    }

    pub open spec fn with_protection(self, p: u32) -> MemoryModel {
        MemoryModel { protection: p, ..self }
    }

    /// The model with `v` stored at address `a`.
    pub open spec fn store(self, a: int, v: Seq<u8>) -> MemoryModel {
        MemoryModel {
            bytes: Seq::new(
                self.bytes.len(),
                |k: int|
                    if a - self.base <= k < a - self.base + v.len() {
                        v[k - (a - self.base)]
                    } else {
                        self.bytes[k]
                    },
            ),
            ..self
        }
    }

    /// The `len` bytes at address `a`.
    pub open spec fn load(self, a: int, len: int) -> Seq<u8> {
        self.bytes.subrange(a - self.base, a - self.base + len)
    }
}

/// The state after, and the outcome of, a protected read of `len` bytes at
/// `a` that must be aligned to `align`.
pub open spec fn read_spec(m: MemoryModel, a: int, len: int, align: int) -> (MemoryModel, Result<
    Seq<u8>,
    ReadMemoryError,
>) {
    if a == 0 {
        (m, Err(ReadMemoryError::NullPointer))
    } else if a % align != 0 {
        (m, Err(ReadMemoryError::InvalidAlignment))
    } else if m.sealed || !m.is_reserved(a, len) {
        (m, Err(ReadMemoryError::FailedToChangeProtection))
    } else if !is_valid_protection(m.protection) {
        (m.with_protection(PAGE_EXECUTE_READWRITE), Err(ReadMemoryError::FailedToRestoreProtection))
    } else if !m.is_backed(a, len) {
        (m, Err(ReadMemoryError::InvalidAccess))
    } else {
        (m, Ok(m.load(a, len)))
    }
}

/// The state after, and the outcome of, a protected write of `v` at `a` that
/// must be aligned to `align`. A faulting write is reported as such, with the
/// flags left read/write/execute when their restore failed too; a
/// `FailedToRestoreProtection` means that the value has been written.
pub open spec fn write_spec(m: MemoryModel, a: int, v: Seq<u8>, align: int) -> (MemoryModel, Result<
    (),
    WriteMemoryError,
>) {
    let written = if m.is_backed(a, v.len() as int) {
        m.store(a, v)
    } else {
        m
    };
    if a == 0 {
        (m, Err(WriteMemoryError::NullPointer))
    } else if a % align != 0 {
        (m, Err(WriteMemoryError::InvalidAlignment))
    } else if m.sealed || !m.is_reserved(a, v.len() as int) {
        (m, Err(WriteMemoryError::FailedToChangeProtection))
    } else if !m.is_backed(a, v.len() as int) {
        (
            if is_valid_protection(m.protection) {
                m
            } else {
                m.with_protection(PAGE_EXECUTE_READWRITE)
            },
            Err(WriteMemoryError::InvalidAccess),
        )
    } else if !is_valid_protection(m.protection) {
        (
            written.with_protection(PAGE_EXECUTE_READWRITE),
            Err(WriteMemoryError::FailedToRestoreProtection),
        )
    } else {
        (written, Ok(()))
    }
}

/// Whether `address` is non-null and a multiple of `align`.
pub fn check_alignment(address: usize, align: usize) -> (r: bool)
    requires
        align > 0,
    ensures
        r == (address != 0 && address % align == 0),
{
    if address == 0 {
        return false;
    }
    address % align == 0
}

impl Memory {
    pub open spec fn wf(&self) -> bool {
        self@.wf()
    }

    /// A backed, unsealed range with the given flags.
    pub fn new(base: usize, bytes: Vec<u8>, protection: u32) -> (r: Memory)
        requires
            base + bytes@.len() <= usize::MAX,
        ensures
            r.wf(),
            r@ == (MemoryModel {
                base: base as int,
                bytes: bytes@,
                reserved: bytes@.len() as int,
                protection,
                sealed: false,
            }),
    {
        let reserved = bytes.len();
        Memory { base, bytes, reserved, protection, sealed: false }
    }

    fn is_reserved(&self, a: usize, len: usize) -> (r: bool)
        requires
            self.wf(),
        ensures
            r == self@.is_reserved(a as int, len as int),
    {
        a >= self.base && a - self.base <= self.reserved && len <= self.reserved - (a - self.base)
    }

    fn is_backed(&self, a: usize, len: usize) -> (r: bool)
        requires
            self.wf(),
        ensures
            r == self@.is_backed(a as int, len as int),
    {
        a >= self.base && a - self.base <= self.bytes.len() && len <= self.bytes.len() - (a
            - self.base)
    }

    /// Sets the flags of `[a, a + len)` and returns the previous ones; `None`,
    /// with nothing changed, when the range is sealed or not reserved.
    fn change_protection(&mut self, a: usize, len: usize, p: u32) -> (r: Option<u32>)
        requires
            old(self).wf(),
        ensures
            final(self).wf(),
            !old(self).sealed && old(self)@.is_reserved(a as int, len as int) ==> r == Some(
                old(self).protection,
            ) && final(self)@ == old(self)@.with_protection(p),
            old(self).sealed || !old(self)@.is_reserved(a as int, len as int) ==> r is None
                && final(self)@ == old(self)@,
    {
        if self.sealed || !self.is_reserved(a, len) {
            return None;
        }
        let previous = self.protection;
        self.protection = p;
        Some(previous)
    }

    /// Puts back flags returned by `change_protection`; refused for a value
    /// that is no protection.
    fn restore_protection(&mut self, p: u32) -> (r: bool)
        requires
            old(self).wf(),
        ensures
            r == is_valid_protection(p),
            r ==> final(self)@ == old(self)@.with_protection(p),
            !r ==> final(self)@ == old(self)@,
    {
        if p == PAGE_NOACCESS || p == PAGE_READONLY || p == PAGE_READWRITE || p == PAGE_WRITECOPY
            || p == PAGE_EXECUTE || p == PAGE_EXECUTE_READ || p == PAGE_EXECUTE_READWRITE || p
            == PAGE_EXECUTE_WRITECOPY {
            self.protection = p;
            true
        } else {
            false
        }
    }

    fn load(&self, a: usize, len: usize) -> (r: Vec<u8>)
        requires
            self.wf(),
            self@.is_backed(a as int, len as int),
        ensures
            r@ == self@.load(a as int, len as int),
    {
        let off = a - self.base;
        let mut out: Vec<u8> = Vec::new();
        let mut k: usize = 0;
        while k < len
            invariant
                self.wf(),
                self@.is_backed(a as int, len as int),
                off == a - self.base,
                k <= len,
                out@ =~= self.bytes@.subrange(off as int, off + k),
            decreases len - k,
        {
            out.push(self.bytes[off + k]);
            k += 1;
        }
        out
    }

    fn store(&mut self, a: usize, v: &[u8])
        requires
            old(self).wf(),
            old(self)@.is_backed(a as int, v@.len() as int),
        ensures
            final(self)@ == old(self)@.store(a as int, v@),
    {
        let off = a - self.base;
        let ghost start = self@;
        let mut k: usize = 0;
        while k < v.len()
            invariant
                start.wf(),
                start.is_backed(a as int, v@.len() as int),
                off == a - start.base,
                k <= v@.len(),
                self@.base == start.base && self@.reserved == start.reserved
                    && self@.protection == start.protection && self@.sealed == start.sealed,
                self@.bytes.len() == start.bytes.len(),
                forall|x: int|
                    0 <= x < start.bytes.len() ==> #[trigger] self@.bytes[x] == if off <= x < off
                        + k {
                        v@[x - off]
                    } else {
                        start.bytes[x]
                    },
            decreases v@.len() - k,
        {
            self.bytes.set(off + k, v[k]);
            k += 1;
        }
        assert(self@.bytes =~= start.store(a as int, v@).bytes);
    }
}

/// Reads `len` bytes at `address`, which must be aligned to `align`, with the
/// range's flags set to read/write/execute for the access and put back after
/// it.
pub fn read_memory(mem: &mut Memory, address: usize, len: usize, align: usize) -> (r: Result<
    Vec<u8>,
    ReadMemoryError,
>)
    requires
        old(mem).wf(),
        align > 0,
    ensures
        final(mem).wf(),
        final(mem)@ == read_spec(old(mem)@, address as int, len as int, align as int).0,
        match r {
            Ok(v) => read_spec(old(mem)@, address as int, len as int, align as int).1 == Ok::<
                Seq<u8>,
                ReadMemoryError,
            >(v@),
            Err(e) => read_spec(old(mem)@, address as int, len as int, align as int).1 == Err::<
                Seq<u8>,
                ReadMemoryError,
            >(e),
        },
{
    if address == 0 {
        return Err(ReadMemoryError::NullPointer);
    }
    if !check_alignment(address, align) {
        return Err(ReadMemoryError::InvalidAlignment);
    }
    let previous = match mem.change_protection(address, len, PAGE_EXECUTE_READWRITE) {
        Some(p) => p,
        None => {
            return Err(ReadMemoryError::FailedToChangeProtection);
        },
    };
    let result = if mem.is_backed(address, len) {
        Ok(mem.load(address, len))
    } else {
        Err(ReadMemoryError::InvalidAccess)
    };
    if !mem.restore_protection(previous) {
        return Err(ReadMemoryError::FailedToRestoreProtection);
    }
    result
}

/// Writes `value` at `address`, which must be aligned to `align`, with the
/// range's flags set to read/write/execute for the access and put back after
/// it. A failed restore is reported even though the value was written.
pub fn write_memory(mem: &mut Memory, address: usize, value: &[u8], align: usize) -> (r: Result<
    (),
    WriteMemoryError,
>)
    requires
        old(mem).wf(),
        align > 0,
    ensures
        final(mem).wf(),
        final(mem)@ == write_spec(old(mem)@, address as int, value@, align as int).0,
        r == write_spec(old(mem)@, address as int, value@, align as int).1,
{
    if address == 0 {
        return Err(WriteMemoryError::NullPointer);
    }
    if !check_alignment(address, align) {
        return Err(WriteMemoryError::InvalidAlignment);
    }
    let previous = match mem.change_protection(address, value.len(), PAGE_EXECUTE_READWRITE) {
        Some(p) => p,
        None => {
            return Err(WriteMemoryError::FailedToChangeProtection);
        },
    };
    let backed = mem.is_backed(address, value.len());
    if backed {
        mem.store(address, value);
    }
    let restored = mem.restore_protection(previous);
    if !backed {
        return Err(WriteMemoryError::InvalidAccess);
    }
    if !restored {
        return Err(WriteMemoryError::FailedToRestoreProtection);
    }
    Ok(())
}

/// Reading back, at the same address and alignment, what a successful write
/// stored gives the written value.
pub proof fn lemma_read_after_write(m: MemoryModel, a: int, v: Seq<u8>, align: int)
    requires
        m.wf(),
        align > 0,
        write_spec(m, a, v, align).1 is Ok,
    ensures
        read_spec(write_spec(m, a, v, align).0, a, v.len() as int, align).1 == Ok::<
            Seq<u8>,
            ReadMemoryError,
        >(v),
{
    let after = write_spec(m, a, v, align).0;
    assert(after.load(a, v.len() as int) =~= v);
}

/// A read or a write at the null address fails with `NullPointer` and leaves
/// the range, its flags included, as it was.
pub proof fn lemma_null_address_untouched(m: MemoryModel, len: int, v: Seq<u8>, align: int)
    ensures
        read_spec(m, 0, len, align) == (m, Err::<Seq<u8>, ReadMemoryError>(
            ReadMemoryError::NullPointer,
        )),
        write_spec(m, 0, v, align) == (m, Err::<(), WriteMemoryError>(
            WriteMemoryError::NullPointer,
        )),
{
}

} // verus!
