//! Parsing of `/proc/<pid>/maps` records into memory regions.
use vstd::prelude::*;

verus! {

pub const DASH: u8 = 0x2d;

pub const SPACE: u8 = 0x20;

/// The region is committed (backed by memory the process may touch).
pub const MEM_COMMIT: u32 = 0x1000;

/// Protection bits of a mapped region.
pub const PROT_READ: u32 = 1;

pub const PROT_WRITE: u32 = 2;

pub const PROT_EXEC: u32 = 4;

/// Sharing kind of a mapped region.
pub const MAP_SHARED: u32 = 1;

pub const MAP_PRIVATE: u32 = 2;

/// First index at or after `i` that holds `b`, or the length.
pub open spec fn skip_until(s: Seq<u8>, i: int, b: u8) -> int
    decreases s.len() - i,
{
    if 0 <= i < s.len() {
        if s[i] == b {
            i
        } else {
            skip_until(s, i + 1, b)
        }
    } else {
        s.len() as int
    }
}

/// First index at or after `i` that does not hold `b`, or the length.
pub open spec fn skip_while(s: Seq<u8>, i: int, b: u8) -> int
    decreases s.len() - i,
{
    if 0 <= i < s.len() {
        if s[i] != b {
            i
        } else {
            skip_while(s, i + 1, b)
        }
    } else {
        s.len() as int
    }
}

pub open spec fn is_hex(c: u8) -> bool {
    (0x30 <= c <= 0x39) || (0x41 <= c <= 0x46) || (0x61 <= c <= 0x66)
}

pub open spec fn hex_digit(c: u8) -> int {
    if 0x30 <= c <= 0x39 {
        c - 0x30
    } else if 0x41 <= c <= 0x46 {
        c - 0x41 + 10
    } else {
        c - 0x61 + 10
    }
}

/// `s[a..b]` holds hexadecimal digits only.
pub open spec fn all_hex(s: Seq<u8>, a: int, b: int) -> bool {
    forall|j: int| a <= j < b ==> is_hex(#[trigger] s[j])
}

/// The number that the digits `s[a..b]` spell in base sixteen.
pub open spec fn hex_val(s: Seq<u8>, a: int, b: int) -> int
    decreases b - a,
{
    if b <= a {
        0
    } else {
        hex_val(s, a, b - 1) * 16 + hex_digit(s[b - 1])
    }
}

/// `s[a..b]` is a non-empty hexadecimal number that fits in a `usize`.
pub open spec fn hex_ok(s: Seq<u8>, a: int, b: int) -> bool {
    a < b && all_hex(s, a, b) && hex_val(s, a, b) <= usize::MAX
}

pub open spec fn dash_at(l: Seq<u8>) -> int {
    skip_until(l, 0, DASH)
}

pub open spec fn range_stop(l: Seq<u8>) -> int {
    skip_until(l, dash_at(l) + 1, SPACE)
}

pub open spec fn perms_stop(l: Seq<u8>) -> int {
    skip_until(l, range_stop(l) + 1, SPACE)
}

pub open spec fn offset_stop(l: Seq<u8>) -> int {
    skip_until(l, perms_stop(l) + 1, SPACE)
}

pub open spec fn dev_stop(l: Seq<u8>) -> int {
    skip_until(l, offset_stop(l) + 1, SPACE)
}

pub open spec fn inode_stop(l: Seq<u8>) -> int {
    skip_until(l, dev_stop(l) + 1, SPACE)
}

pub open spec fn path_start(l: Seq<u8>) -> int {
    skip_while(l, inode_stop(l), SPACE)
}

/// A record of the form `start-end perms offset dev inode [path]`, with the
/// addresses and offset in hexadecimal, four permission letters, and a start
/// that does not exceed the end.
pub open spec fn line_ok(l: Seq<u8>) -> bool {
    &&& dash_at(l) < l.len()
    &&& hex_ok(l, 0, dash_at(l))
    &&& range_stop(l) < l.len()
    &&& hex_ok(l, dash_at(l) + 1, range_stop(l))
    &&& perms_stop(l) == range_stop(l) + 5
    &&& perms_stop(l) < l.len()
    &&& offset_stop(l) < l.len()
    &&& hex_ok(l, perms_stop(l) + 1, offset_stop(l))
    &&& dev_stop(l) < l.len()
    &&& hex_val(l, 0, dash_at(l)) <= hex_val(l, dash_at(l) + 1, range_stop(l))
}

/// One parsed record.
#[derive(Debug, Clone)]
pub struct MapRecord {
    pub start: usize,
    pub end: usize,
    pub read: bool,
    pub write: bool,
    pub execute: bool,
    pub shared: bool,
    pub offset: usize,
    pub path: Vec<u8>,
}

/// What a well-formed record line says, field by field.
pub open spec fn describes(l: Seq<u8>, m: MapRecord) -> bool {
    &&& m.start == hex_val(l, 0, dash_at(l))
    &&& m.end == hex_val(l, dash_at(l) + 1, range_stop(l))
    &&& m.read == (l[range_stop(l) + 1] == 0x72)
    &&& m.write == (l[range_stop(l) + 2] == 0x77)
    &&& m.execute == (l[range_stop(l) + 3] == 0x78)
    &&& m.shared == (l[range_stop(l) + 4] == 0x73)
    &&& m.offset == hex_val(l, perms_stop(l) + 1, offset_stop(l))
    &&& m.path@ == l.subrange(path_start(l), l.len() as int)
}

proof fn lemma_skip_until_bounds(s: Seq<u8>, i: int, b: u8)
    requires
        0 <= i,
    ensures
        i <= skip_until(s, i, b) || skip_until(s, i, b) == s.len(),
        skip_until(s, i, b) <= s.len() || i > s.len(),
        skip_until(s, i, b) < s.len() ==> s[skip_until(s, i, b)] == b,
    decreases s.len() - i,
{
    if 0 <= i < s.len() && s[i] != b {
        lemma_skip_until_bounds(s, i + 1, b);
    }
}

/// Index of the first `b` at or after `i`, or the length.
pub(crate) fn find_byte(s: &[u8], i: usize, b: u8) -> (r: usize)
    ensures
        r == skip_until(s@, i as int, b),
{
    if i >= s.len() {
        return s.len();
    }
    let mut j = i;
    while j < s.len() && s[j] != b
        invariant
            i <= j <= s@.len(),
            skip_until(s@, i as int, b) == skip_until(s@, j as int, b),
        decreases s@.len() - j,
    {
        j += 1;
    }
    j
}

/// Index of the first byte other than `b` at or after `i`, or the length.
fn skip_byte(s: &[u8], i: usize, b: u8) -> (r: usize)
    ensures
        r == skip_while(s@, i as int, b),
{
    if i >= s.len() {
        return s.len();
    }
    let mut j = i;
    while j < s.len() && s[j] == b
        invariant
            i <= j <= s@.len(),
            skip_while(s@, i as int, b) == skip_while(s@, j as int, b),
        decreases s@.len() - j,
    {
        j += 1;
    }
    j
}

proof fn lemma_hex_mono(s: Seq<u8>, a: int, j: int, b: int)
    requires
        a <= j <= b,
        all_hex(s, a, b),
    ensures
        0 <= hex_val(s, a, j) <= hex_val(s, a, b),
    decreases b - a,
{
    if j < b {
        assert(all_hex(s, a, b - 1));
        lemma_hex_mono(s, a, j, b - 1);
        assert(is_hex(s[b - 1]));
    } else if a < j {
        assert(all_hex(s, a, j - 1));
        lemma_hex_mono(s, a, j - 1, j - 1);
        assert(is_hex(s[j - 1]));
    }
}

/// The hexadecimal number `s[a..b]`, or `None` where it is empty, holds a
/// byte that is no hexadecimal digit, or does not fit in a `usize`.
pub fn parse_hex(s: &[u8], a: usize, b: usize) -> (r: Option<usize>)
    requires
        a <= b <= s@.len(),
    ensures
        r is Some <==> hex_ok(s@, a as int, b as int),
        r matches Some(v) ==> v == hex_val(s@, a as int, b as int),
{
    if a == b {
        return None;
    }
    let mut acc: usize = 0;
    let mut j = a;
    while j < b
        invariant
            a <= j <= b <= s@.len(),
            all_hex(s@, a as int, j as int),
            acc == hex_val(s@, a as int, j as int),
        decreases b - j,
    {
        let c = s[j];
        let d: usize = if 0x30 <= c && c <= 0x39 {
            (c - 0x30) as usize
        } else if 0x41 <= c && c <= 0x46 {
            (c - 0x41 + 10) as usize
        } else if 0x61 <= c && c <= 0x66 {
            (c - 0x61 + 10) as usize
        } else {
            return None;
        };
        if acc > (usize::MAX - d) / 16 {
            proof {
                assert(hex_val(s@, a as int, j as int + 1) > usize::MAX);
                if all_hex(s@, a as int, b as int) {
                    lemma_hex_mono(s@, a as int, j as int + 1, b as int);
                }
            }
            return None;
        }
        acc = acc * 16 + d;
        j += 1;
    }
    Some(acc)
}

/// Parses one record line; `None` where the line is malformed.
pub fn parse_maps_line(line: &[u8]) -> (r: Option<MapRecord>)
    ensures
        r is Some <==> line_ok(line@),
        r matches Some(m) ==> describes(line@, m),
{
    let l = line;
    let dash = find_byte(l, 0, DASH);
    if dash >= l.len() {
        return None;
    }
    let start = match parse_hex(l, 0, dash) {
        Some(v) => v,
        None => return None,
    };
    let rstop = find_byte(l, dash + 1, SPACE);
    proof {
        lemma_skip_until_bounds(l@, dash as int + 1, SPACE);
    }
    if rstop >= l.len() {
        return None;
    }
    let end = match parse_hex(l, dash + 1, rstop) {
        Some(v) => v,
        None => return None,
    };
    let pstop = find_byte(l, rstop + 1, SPACE);
    proof {
        lemma_skip_until_bounds(l@, rstop as int + 1, SPACE);
    }
    if pstop >= l.len() || pstop - rstop != 5 {
        return None;
    }
    let ostop = find_byte(l, pstop + 1, SPACE);
    proof {
        lemma_skip_until_bounds(l@, pstop as int + 1, SPACE);
    }
    if ostop >= l.len() {
        return None;
    }
    let offset = match parse_hex(l, pstop + 1, ostop) {
        Some(v) => v,
        None => return None,
    };
    let dstop = find_byte(l, ostop + 1, SPACE);
    if dstop >= l.len() {
        return None;
    }
    if start > end {
        return None;
    }
    let istop = find_byte(l, dstop + 1, SPACE);
    proof {
        lemma_skip_until_bounds(l@, dstop as int + 1, SPACE);
    }
    let pstart = skip_byte(l, istop, SPACE);
    proof {
        lemma_skip_while_bounds(l@, istop as int, SPACE);
    }
    let mut path: Vec<u8> = Vec::new();
    let mut k = pstart;
    while k < l.len()
        invariant
            pstart <= k <= l@.len(),
            path@ == l@.subrange(pstart as int, k as int),
        decreases l@.len() - k,
    {
        path.push(l[k]);
        proof {
            assert(path@ =~= l@.subrange(pstart as int, k as int + 1));
        }
        k += 1;
    }
    Some(
        MapRecord {
            start,
            end,
            read: l[rstop + 1] == 0x72,
            write: l[rstop + 2] == 0x77,
            execute: l[rstop + 3] == 0x78,
            shared: l[rstop + 4] == 0x73,
            offset,
            path,
        },
    )
}

proof fn lemma_skip_while_bounds(s: Seq<u8>, i: int, b: u8)
    requires
        0 <= i <= s.len(),
    ensures
        i <= skip_while(s, i, b) <= s.len(),
    decreases s.len() - i,
{
    if 0 <= i < s.len() && s[i] == b {
        lemma_skip_while_bounds(s, i + 1, b);
    }
}

} // verus!
