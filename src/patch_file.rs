use vstd::prelude::*;
use vstd::slice::slice_subrange;

use crate::error::CryptError;

verus! {

/// Length of the fixed part of a header: magic, declared size and subkey length.
pub const FIXED_HEADER_LEN: usize = 10;

/// Length of the verify block that follows the subkey.
pub const VERIFY_BLOCK_LEN: usize = 16;

/// The header of a container.
pub struct CryptFileMetadata {
    pub magic: [u8; 2],
    pub file_size: u32,
    pub subkey_size: u32,
    pub subkey: Vec<u8>,
    pub verify_block: [u8; 16],
}

/// The little-endian value of the four bytes of `b` starting at `pos`.
pub open spec fn u32_le_at(b: Seq<u8>, pos: int) -> int {
    b[pos] as int + 256 * b[pos + 1] as int + 65536 * b[pos + 2] as int + 16777216 * b[pos + 3] as int
}

/// The subkey length recorded in a header that holds at least the fixed part.
pub open spec fn subkey_len_of(data: Seq<u8>) -> int {
    u32_le_at(data, 6)
}

/// Whether `data` holds every field of a header.
pub open spec fn header_complete(data: Seq<u8>) -> bool {
    data.len() >= 10 && data.len() >= 26 + subkey_len_of(data)
}

impl CryptFileMetadata {
    /// The subkey holds as many bytes as the header says.
    pub open spec fn wf(&self) -> bool {
        self.subkey@.len() == self.subkey_size as int
    }

    /// The number of bytes the header occupies in the container.
    pub open spec fn spec_header_len(&self) -> int {
        26 + self.subkey_size as int
    }

    /// Whether this header is the one that `data` starts with.
    pub open spec fn parsed_from(&self, data: Seq<u8>) -> bool {
        &&& self.magic@ == data.subrange(0, 2)
        &&& self.file_size as int == u32_le_at(data, 2)
        &&& self.subkey_size as int == u32_le_at(data, 6)
        &&& self.subkey@ == data.subrange(10, 10 + self.subkey_size as int)
        &&& self.verify_block@ == data.subrange(
            10 + self.subkey_size as int,
            26 + self.subkey_size as int,
        )
    }

    /// An empty header: zero magic and sizes, no subkey, zero verify block.
    pub fn new() -> (r: CryptFileMetadata)
        ensures
            r.wf(),
            r.magic@ == seq![0u8, 0u8],
            r.file_size == 0,
            r.subkey_size == 0,
            r.subkey@.len() == 0,
            forall|i: int| 0 <= i < 16 ==> r.verify_block@[i] == 0u8,
    {
        CryptFileMetadata {
            magic: [0u8, 0u8],
            file_size: 0,
            subkey_size: 0,
            subkey: Vec::new(),
            verify_block: [0u8; 16],
        }
    }

    /// The number of bytes the header occupies: everything before the payload.
    pub fn header_len(&self) -> (r: u64)
        ensures
            r as int == self.spec_header_len(),
    {
        26 + self.subkey_size as u64
    }
}

/// Reads a little-endian `u32` from the first four bytes of `bytes`.
pub fn read_u32_le(bytes: &[u8]) -> (r: Result<u32, CryptError>)
    ensures
        bytes@.len() < 4 <==> r is Err,
        r matches Err(e) ==> e == CryptError::TruncatedHeader,
        r matches Ok(v) ==> v as int == u32_le_at(bytes@, 0),
{
    if bytes.len() < 4 {
        return Err(CryptError::TruncatedHeader);
    }
    let b0 = bytes[0] as u32;
    let b1 = bytes[1] as u32;
    let b2 = bytes[2] as u32;
    let b3 = bytes[3] as u32;
    Ok(b0 + 256 * b1 + 65536 * b2 + 16777216 * b3)
}

/// Copies `data[start..start + len]` into a new vector.
fn copy_range(data: &[u8], start: usize, len: usize) -> (r: Vec<u8>)
    requires
        start + len <= data@.len(),
    ensures
        r@ == data@.subrange(start as int, start + len),
{
    let mut r: Vec<u8> = Vec::with_capacity(len);
    let mut i: usize = 0;
    while i < len
        invariant
            start + len <= data.len(),
            i <= len,
            r@ == data@.subrange(start as int, start + i),
        decreases len - i,
    {
        r.push(data[start + i]);
        i = i + 1;
    }
    r
}

/// Parses the header at the start of `data`, checking each field in turn
/// for the bytes it needs.
pub fn extract_metadata(data: &[u8]) -> (r: Result<CryptFileMetadata, CryptError>)
    ensures
        header_complete(data@) <==> r is Ok,
        r matches Err(e) ==> e == CryptError::TruncatedHeader,
        r matches Ok(m) ==> m.wf() && m.parsed_from(data@),
{
    if data.len() < 2 {
        return Err(CryptError::TruncatedHeader);
    }
    let magic: [u8; 2] = [data[0], data[1]];
    let file_size = read_u32_le(slice_subrange(data, 2, data.len()))?;
    let subkey_size = read_u32_le(slice_subrange(data, 6, data.len()))?;
    let rest = data.len() - FIXED_HEADER_LEN;
    if (subkey_size as u64) > (rest as u64) {
        return Err(CryptError::TruncatedHeader);
    }
    let n = subkey_size as usize;
    let subkey = copy_range(data, FIXED_HEADER_LEN, n);
    if rest - n < VERIFY_BLOCK_LEN {
        return Err(CryptError::TruncatedHeader);
    }
    let start = FIXED_HEADER_LEN + n;
    let mut verify_block = [0u8; 16];
    let mut i: usize = 0;
    while i < VERIFY_BLOCK_LEN
        invariant
            start + 16 <= data@.len(),
            data@.len() <= usize::MAX,
            i <= 16,
            forall|j: int| 0 <= j < i ==> verify_block@[j] == data@[start + j],
        decreases 16 - i,
    {
        verify_block[i] = data[start + i];
        i = i + 1;
    }
    assert(magic@ == data@.subrange(0, 2));
    assert(verify_block@ == data@.subrange(start as int, start + 16));
    Ok(CryptFileMetadata { magic, file_size, subkey_size, subkey, verify_block })
}

} // verus!
