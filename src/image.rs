use vstd::prelude::*;

verus! {

pub const DOS_MAGIC: u16 = 0x5A4D;
pub const NT_SIGNATURE: u32 = 0x4550;
/// Where the DOS header holds the offset of the NT headers.
pub const LFANEW_OFFSET: usize = 0x3C;
/// Where the NT headers hold the number of sections.
pub const SECTION_COUNT_OFFSET: usize = 6;
/// The size of the 64-bit NT headers; the section table follows them.
pub const NT_HEADERS_SIZE: usize = 264;
pub const SECTION_HEADER_SIZE: usize = 40;
pub const SECTION_RVA_OFFSET: usize = 12;
pub const SECTION_RAW_SIZE_OFFSET: usize = 16;

/// Failure to locate the code section of a loaded image.
#[derive(Debug, Clone, Copy, PartialEq, Eq, Structural)]
pub enum ImageError {
    InvalidDosSignature,
    InvalidNtSignature,
    TextSectionNotFound,
    /// A header or the section lies beyond the end of the image.
    Truncated,
}

/// A snapshot of an image's code section: `bytes[i]` was at `base + i`.
pub struct TextRegion {
    pub bytes: Vec<u8>,
    pub base: usize,
}

impl TextRegion {
    pub open spec fn wf(&self) -> bool {
        self.base + self.bytes@.len() <= usize::MAX
    }
}

pub open spec fn u16_at(s: Seq<u8>, off: int) -> int {
    s[off] + s[off + 1] * 256
}

pub open spec fn u32_at(s: Seq<u8>, off: int) -> int {
    u16_at(s, off) + u16_at(s, off + 2) * 65536
}

pub open spec fn fits(s: Seq<u8>, off: int, len: int) -> bool {
    0 <= off && off + len <= s.len()
}

/// The name of a section starts with `.text`.
pub open spec fn is_text_name(s: Seq<u8>, off: int) -> bool {
    s[off] == 0x2eu8 && s[off + 1] == 0x74u8 && s[off + 2] == 0x65u8 && s[off + 3] == 0x78u8
        && s[off + 4] == 0x74u8
}

/// The offset of the first header with a `.text` name among the headers
/// `k..count` of the table at `table`.
pub open spec fn find_text(s: Seq<u8>, table: int, k: int, count: int) -> Result<int, ImageError>
    decreases count - k,
{
    if k >= count {
        Err(ImageError::TextSectionNotFound)
    } else {
        let h = table + k * SECTION_HEADER_SIZE;
        if !fits(s, h, SECTION_HEADER_SIZE as int) {
            Err(ImageError::Truncated)
        } else if is_text_name(s, h) {
            Ok(h)
        } else {
            find_text(s, table, k + 1, count)
        }
    }
}

/// The offset and length of the code section of the image `s`, as its
/// headers declare it.
pub open spec fn text_section(s: Seq<u8>) -> Result<(int, int), ImageError> {
    if !fits(s, 0, LFANEW_OFFSET + 4) {
        Err(ImageError::Truncated)
    } else if u16_at(s, 0) != DOS_MAGIC {
        Err(ImageError::InvalidDosSignature)
    } else {
        let nt = u32_at(s, LFANEW_OFFSET as int);
        if !fits(s, nt, NT_HEADERS_SIZE as int) {
            Err(ImageError::Truncated)
        } else if u32_at(s, nt) != NT_SIGNATURE {
            Err(ImageError::InvalidNtSignature)
        } else {
            let count = u16_at(s, nt + SECTION_COUNT_OFFSET);
            match find_text(s, nt + NT_HEADERS_SIZE, 0, count) {
                Err(e) => Err(e),
                Ok(h) => {
                    let rva = u32_at(s, h + SECTION_RVA_OFFSET);
                    let size = u32_at(s, h + SECTION_RAW_SIZE_OFFSET);
                    if fits(s, rva, size) {
                        Ok((rva, size))
                    } else {
                        Err(ImageError::Truncated)
                    }
                },
            }
        }
    }
}

fn read_u16(s: &[u8], off: usize) -> (r: u32)
    requires
        fits(s@, off as int, 2),
    ensures
        r == u16_at(s@, off as int),
{
    s[off] as u32 + s[off + 1] as u32 * 256
}

fn read_u32(s: &[u8], off: usize) -> (r: usize)
    requires
        fits(s@, off as int, 4),
    ensures
        r == u32_at(s@, off as int),
{
    let lo = s[off] as u64 + s[off + 1] as u64 * 256;
    let hi = s[off + 2] as u64 + s[off + 3] as u64 * 256;
    (lo + hi * 65536) as usize
}

fn fits_exec(s: &[u8], off: usize, len: usize) -> (r: bool)
    ensures
        r == fits(s@, off as int, len as int),
{
    off <= s.len() && len <= s.len() - off
}

/// Copies out the section whose header stands at `h`.
fn copy_section(image: &[u8], h: usize, base: usize) -> (r: Result<TextRegion, ImageError>)
    requires
        fits(image@, h as int, SECTION_HEADER_SIZE as int),
        base + image@.len() <= usize::MAX,
    ensures
        ({
            let rva = u32_at(image@, h + SECTION_RVA_OFFSET);
            let size = u32_at(image@, h + SECTION_RAW_SIZE_OFFSET);
            if fits(image@, rva, size) {
                r matches Ok(t) && t.base == base + rva && t.bytes@ == image@.subrange(
                    rva,
                    rva + size,
                ) && t.wf()
            } else {
                r == Err::<TextRegion, ImageError>(ImageError::Truncated)
            }
        }),
{
    let n = image.len();
    let rva = read_u32(image, h + SECTION_RVA_OFFSET);
    let size = read_u32(image, h + SECTION_RAW_SIZE_OFFSET);
    if !fits_exec(image, rva, size) {
        return Err(ImageError::Truncated);
    }
    let mut bytes: Vec<u8> = Vec::new();
    let mut i: usize = rva;
    while i < rva + size
        invariant
            n == image@.len(),
            rva <= i <= rva + size <= n,
            bytes@ =~= image@.subrange(rva as int, i as int),
        decreases rva + size - i,
    {
        bytes.push(image[i]);
        i += 1;
    }
    Ok(TextRegion { bytes, base: base + rva })
}

/// Locates the code section of the loaded image whose bytes, from its base
/// address `base` on, are `image`, and copies it out.
pub fn get_text_section(image: &[u8], base: usize) -> (r: Result<TextRegion, ImageError>)
    requires
        base + image@.len() <= usize::MAX,
    ensures
        match text_section(image@) {
            Ok((rva, size)) => r matches Ok(t) && t.base == base + rva && t.bytes@ == image@.subrange(
                rva,
                rva + size,
            ) && t.wf(),
            Err(e) => r == Err::<TextRegion, ImageError>(e),
        },
{
    let n = image.len();
    if !fits_exec(image, 0, LFANEW_OFFSET + 4) {
        return Err(ImageError::Truncated);
    }
    if read_u16(image, 0) != DOS_MAGIC as u32 {
        return Err(ImageError::InvalidDosSignature);
    }
    let nt = read_u32(image, LFANEW_OFFSET);
    if !fits_exec(image, nt, NT_HEADERS_SIZE) {
        return Err(ImageError::Truncated);
    }
    if read_u32(image, nt) != NT_SIGNATURE as usize {
        return Err(ImageError::InvalidNtSignature);
    }
    let count = read_u16(image, nt + SECTION_COUNT_OFFSET) as usize;
    let table = nt + NT_HEADERS_SIZE;
    let mut k: usize = 0;
    while k < count
        invariant
            n == image@.len(),
            base + n <= usize::MAX,
            table == nt + NT_HEADERS_SIZE,
            table <= n,
            count == u16_at(image@, nt + SECTION_COUNT_OFFSET),
            count <= 65535,
            k <= count,
            text_section(image@) == (match find_text(image@, table as int, k as int, count as int) {
                Err(e) => Err(e),
                Ok(h) => {
                    let rva = u32_at(image@, h + SECTION_RVA_OFFSET);
                    let size = u32_at(image@, h + SECTION_RAW_SIZE_OFFSET);
                    if fits(image@, rva, size) {
                        Ok((rva, size))
                    } else {
                        Err(ImageError::Truncated)
                    }
                },
            }),
        decreases count - k,
    {
        let off = k * SECTION_HEADER_SIZE;
        if off > n - table || n - table - off < SECTION_HEADER_SIZE {
            return Err(ImageError::Truncated);
        }
        let h = table + off;
        if image[h] == 0x2eu8 && image[h + 1] == 0x74u8 && image[h + 2] == 0x65u8 && image[h + 3]
            == 0x78u8 && image[h + 4] == 0x74u8 {
            return copy_section(image, h, base);
        }
        k += 1;
    }
    Err(ImageError::TextSectionNotFound)
}

} // verus!
