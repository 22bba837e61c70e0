//! Checks on the headers of a mapped PE image, read out of the target as
//! fixed byte windows and interpreted by offset.
use vstd::prelude::*;

verus! {

/// `MZ`, the DOS header's magic, as a little-endian word.
pub const IMAGE_DOS_SIGNATURE: u16 = 0x5A4D;

/// `PE\0\0`, the NT headers' signature, as a little-endian double word.
pub const IMAGE_NT_SIGNATURE: u32 = 0x00004550;

/// Offset of `e_lfanew` in the DOS header.
pub const E_LFANEW_OFFSET: usize = 0x3c;

/// Size of the DOS header.
pub const DOS_HEADER_SIZE: usize = 64;

pub open spec fn u16_le(b: Seq<u8>, off: int) -> int {
    b[off] + 256 * b[off + 1]
}

pub open spec fn u32_le(b: Seq<u8>, off: int) -> int {
    b[off] + 256 * b[off + 1] + 65536 * b[off + 2] + 16777216 * b[off + 3]
}

/// The signed value of a 32-bit two's complement word.
pub open spec fn i32_of(w: int) -> int {
    if w < 0x8000_0000 {
        w
    } else {
        w - 0x1_0000_0000
    }
}

pub(crate) fn read_u16_le(b: &[u8], off: usize) -> (r: u16)
    requires
        off + 2 <= b@.len(),
    ensures
        r == u16_le(b@, off as int),
{
    b[off] as u16 + 256 * (b[off + 1] as u16)
}

pub(crate) fn read_u32_le(b: &[u8], off: usize) -> (r: u32)
    requires
        off + 4 <= b@.len(),
    ensures
        r == u32_le(b@, off as int),
{
    b[off] as u32 + 256 * (b[off + 1] as u32) + 65536 * (b[off + 2] as u32) + 16777216 * (b[off
        + 3] as u32)
}

/// The address of the NT headers of the image at `module_base`, given the
/// bytes of its DOS header: `None` where the window is short, the magic is
/// not `MZ`, or `e_lfanew` is negative or leads past the last address.
pub fn nt_header_address(module_base: usize, dos: &[u8]) -> (r: Option<usize>)
    ensures
        r is Some <==> dos@.len() >= DOS_HEADER_SIZE && u16_le(dos@, 0) == IMAGE_DOS_SIGNATURE
            && 0 <= i32_of(u32_le(dos@, E_LFANEW_OFFSET as int)) && module_base + i32_of(
            u32_le(dos@, E_LFANEW_OFFSET as int),
        ) <= usize::MAX,
        r matches Some(a) ==> a == module_base + u32_le(dos@, E_LFANEW_OFFSET as int),
{
    if dos.len() < DOS_HEADER_SIZE {
        return None;
    }
    if read_u16_le(dos, 0) != IMAGE_DOS_SIGNATURE {
        return None;
    }
    let lfanew = read_u32_le(dos, E_LFANEW_OFFSET);
    if lfanew >= 0x8000_0000 {
        return None;
    }
    if lfanew as usize > usize::MAX - module_base {
        return None;
    }
    Some(module_base + lfanew as usize)
}

/// The window starts with the NT headers' signature.
pub fn nt_signature_ok(nt: &[u8]) -> (r: bool)
    ensures
        r == (nt@.len() >= 4 && u32_le(nt@, 0) == IMAGE_NT_SIGNATURE),
{
    nt.len() >= 4 && read_u32_le(nt, 0) == IMAGE_NT_SIGNATURE
}

} // verus!
