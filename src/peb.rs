//! Decoding of the process environment block's fields out of fixed byte
//! windows, by offset, for either pointer width.
use vstd::prelude::*;
use crate::pe::{read_u16_le, read_u32_le, u16_le, u32_le};

verus! {

/// Offset of `PEB.ProcessParameters` with 8-byte pointers.
pub const PEB_PARAMETERS_OFFSET_64: usize = 0x20;

/// Offset of `PEB.ProcessParameters` with 4-byte pointers.
pub const PEB_PARAMETERS_OFFSET_32: usize = 0x10;

/// Offset of `RTL_USER_PROCESS_PARAMETERS.CommandLine` with 8-byte pointers.
pub const PARAMETERS_COMMAND_LINE_OFFSET_64: usize = 0x70;

/// Offset of `RTL_USER_PROCESS_PARAMETERS.CommandLine` with 4-byte pointers.
pub const PARAMETERS_COMMAND_LINE_OFFSET_32: usize = 0x40;

/// The pointer width is one that Windows uses.
pub open spec fn width_ok(pointer_size: usize) -> bool {
    pointer_size == 4 || pointer_size == 8
}

/// The little-endian pointer of `pointer_size` bytes at `off`.
pub open spec fn pointer_le(b: Seq<u8>, off: int, pointer_size: usize) -> int {
    if pointer_size == 4 {
        u32_le(b, off)
    } else {
        u32_le(b, off) + 0x1_0000_0000 * u32_le(b, off + 4)
    }
}

/// Offset of the process parameters pointer in the PEB.
pub fn parameters_offset(pointer_size: usize) -> (r: usize)
    requires
        width_ok(pointer_size),
    ensures
        r == (if pointer_size == 8 { PEB_PARAMETERS_OFFSET_64 } else { PEB_PARAMETERS_OFFSET_32 }),
{
    if pointer_size == 8 {
        PEB_PARAMETERS_OFFSET_64
    } else {
        PEB_PARAMETERS_OFFSET_32
    }
}

/// Offset of the command-line descriptor in the process parameters.
pub fn command_line_offset(pointer_size: usize) -> (r: usize)
    requires
        width_ok(pointer_size),
    ensures
        r == (if pointer_size == 8 {
            PARAMETERS_COMMAND_LINE_OFFSET_64
        } else {
            PARAMETERS_COMMAND_LINE_OFFSET_32
        }),
{
    if pointer_size == 8 {
        PARAMETERS_COMMAND_LINE_OFFSET_64
    } else {
        PARAMETERS_COMMAND_LINE_OFFSET_32
    }
}

/// The pointer at the start of `window`; `None` where the window is shorter
/// than a pointer or the value does not fit in a `usize`.
pub fn pointer_of(window: &[u8], pointer_size: usize) -> (r: Option<usize>)
    requires
        width_ok(pointer_size),
    ensures
        r is Some <==> window@.len() >= pointer_size && pointer_le(window@, 0, pointer_size)
            <= usize::MAX,
        r matches Some(p) ==> p == pointer_le(window@, 0, pointer_size),
{
    if window.len() < pointer_size {
        return None;
    }
    let lo = read_u32_le(window, 0) as u64;
    if pointer_size == 4 {
        return Some(lo as usize);
    }
    let hi = read_u32_le(window, 4) as u64;
    let v: u64 = lo + 0x1_0000_0000 * hi;
    if v > usize::MAX as u64 {
        return None;
    }
    Some(v as usize)
}

/// The size of a `UNICODE_STRING` descriptor.
pub open spec fn descriptor_size(pointer_size: usize) -> int {
    2 * pointer_size
}

/// A `UNICODE_STRING` descriptor at the start of `window`, as the address of
/// its text and its length in UTF-16 code units (half its byte `Length`);
/// `None` where the window is short or the address does not fit.
pub fn unicode_string_of(window: &[u8], pointer_size: usize) -> (r: Option<(usize, usize)>)
    requires
        width_ok(pointer_size),
    ensures
        r is Some <==> window@.len() >= descriptor_size(pointer_size) && pointer_le(
            window@,
            pointer_size as int,
            pointer_size,
        ) <= usize::MAX,
        r matches Some((addr, count)) ==> addr == pointer_le(window@, pointer_size as int, pointer_size)
            && count == u16_le(window@, 0) / 2,
{
    if window.len() < 2 * pointer_size {
        return None;
    }
    let length = read_u16_le(window, 0);
    let lo = read_u32_le(window, pointer_size) as u64;
    let addr: u64 = if pointer_size == 4 {
        lo
    } else {
        let hi = read_u32_le(window, pointer_size + 4) as u64;
        lo + 0x1_0000_0000 * hi
    };
    if addr > usize::MAX as u64 {
        return None;
    }
    Some((addr as usize, (length / 2) as usize))
}

} // verus!
