//! NUL-terminated strings read out of a target's memory.
use vstd::prelude::*;
use crate::maps::{find_byte, skip_until};
use vstd::utf8::{decode_utf8, valid_utf8};

verus! {

/// The bytes of `b` before its first NUL, or all of them where it has none.
pub open spec fn c_string(b: Seq<u8>) -> Seq<u8> {
    b.subrange(0, skip_until(b, 0, 0))
}

proof fn lemma_skip_le_len(s: Seq<u8>, i: int, b: u8)
    requires
        0 <= i,
    ensures
        skip_until(s, i, b) <= s.len() || i > s.len(),
        i <= s.len() ==> i <= skip_until(s, i, b),
    decreases s.len() - i,
{
    if 0 <= i < s.len() && s[i] != b {
        lemma_skip_le_len(s, i + 1, b);
    }
}

/// The bytes of a buffer up to its first NUL.
pub fn c_string_prefix(b: &[u8]) -> (r: Vec<u8>)
    ensures
        r@ == c_string(b@),
{
    let end = find_byte(b, 0, 0);
    proof {
        lemma_skip_le_len(b@, 0, 0);
    }
    let mut out: Vec<u8> = Vec::new();
    let mut i: usize = 0;
    while i < end
        invariant
            end == skip_until(b@, 0, 0) <= b@.len(),
            i <= end,
            out@ == b@.subrange(0, i as int),
        decreases end - i,
    {
        out.push(b[i]);
        proof {
            assert(out@ =~= b@.subrange(0, i as int + 1));
        }
        i += 1;
    }
    out
}

/// Relies on `String::from_utf8`: succeeds exactly on valid UTF-8, whose
/// text it returns.
#[verifier::external_body]
fn utf8_text(b: &[u8]) -> (r: Option<String>)
    ensures
        r is Some <==> valid_utf8(b@),
        r matches Some(s) ==> s@ == decode_utf8(b@),
{
    String::from_utf8(b.to_vec()).ok()
}

/// The text of the NUL-terminated string at the start of `b`, where it is
/// valid UTF-8.
pub fn c_string_text(b: &[u8]) -> (r: Option<String>)
    ensures
        r is Some <==> valid_utf8(c_string(b@)),
        r matches Some(s) ==> s@ == decode_utf8(c_string(b@)),
{
    let bytes = c_string_prefix(b);
    utf8_text(bytes.as_slice())
}

} // verus!
