//! Rewriting of kernel device paths (`\Device\HarddiskVolume3\...`) into
//! drive-letter paths (`C:\...`), in UTF-16 code units.
use vstd::prelude::*;

verus! {

pub const BACKSLASH: u16 = 0x5c;

/// One drive as the system names it: its drive prefix (`C:`) and the device
/// it stands for (`\Device\HarddiskVolume3`).
pub struct DriveMapping {
    pub drive: Vec<u16>,
    pub device: Vec<u16>,
}

/// `path` lies below `device`: it starts with the device name, followed by a
/// backslash.
pub open spec fn below_device(path: Seq<u16>, device: Seq<u16>) -> bool {
    0 < device.len() < path.len() && path.subrange(0, device.len() as int) == device && path[device.len() as int]
        == BACKSLASH
}

/// The drive path of `path` under `m`.
pub open spec fn rewritten(path: Seq<u16>, m: DriveMapping) -> Seq<u16> {
    m.drive@ + path.subrange(m.device@.len() as int, path.len() as int)
}

/// Index of the first mapping whose device `path` lies below, or the number
/// of mappings.
pub open spec fn first_mapping(path: Seq<u16>, ms: Seq<DriveMapping>, i: int) -> int
    decreases ms.len() - i,
{
    if 0 <= i < ms.len() {
        if below_device(path, ms[i].device@) {
            i
        } else {
            first_mapping(path, ms, i + 1)
        }
    } else {
        ms.len() as int
    }
}

fn lies_below(path: &Vec<u16>, device: &Vec<u16>) -> (r: bool)
    ensures
        r == below_device(path@, device@),
{
    if device.len() == 0 || device.len() >= path.len() {
        return false;
    }
    let mut i: usize = 0;
    while i < device.len()
        invariant
            i <= device@.len() < path@.len(),
            path@.subrange(0, i as int) == device@.subrange(0, i as int),
        decreases device@.len() - i,
    {
        if path[i] != device[i] {
            proof {
                assert(path@.subrange(0, device@.len() as int)[i as int] == path@[i as int]);
            }
            return false;
        }
        proof {
            assert(path@.subrange(0, i as int + 1) =~= path@.subrange(0, i as int).push(path@[i as int]));
            assert(device@.subrange(0, i as int + 1) =~= device@.subrange(0, i as int).push(
                device@[i as int],
            ));
        }
        i += 1;
    }
    proof {
        assert(device@.subrange(0, device@.len() as int) =~= device@);
    }
    path[device.len()] == BACKSLASH
}

/// The drive path of `path` under the first mapping whose device it lies
/// below, or `None` where there is none.
pub fn to_dos_path(path: &Vec<u16>, mappings: &Vec<DriveMapping>) -> (r: Option<Vec<u16>>)
    ensures
        first_mapping(path@, mappings@, 0) == mappings@.len() ==> r is None,
        first_mapping(path@, mappings@, 0) < mappings@.len() ==> (r matches Some(v) && v@
            == rewritten(path@, mappings@[first_mapping(path@, mappings@, 0)])),
{
    let mut i: usize = 0;
    while i < mappings.len()
        invariant
            i <= mappings@.len(),
            first_mapping(path@, mappings@, 0) == first_mapping(path@, mappings@, i as int),
        decreases mappings@.len() - i,
    {
        let m = &mappings[i];
        if lies_below(path, &m.device) {
            let mut out: Vec<u16> = Vec::new();
            let mut j: usize = 0;
            while j < m.drive.len()
                invariant
                    j <= m.drive@.len(),
                    out@ == m.drive@.subrange(0, j as int),
                decreases m.drive@.len() - j,
            {
                out.push(m.drive[j]);
                proof {
                    assert(out@ =~= m.drive@.subrange(0, j as int + 1));
                }
                j += 1;
            }
            let mut k = m.device.len();
            while k < path.len()
                invariant
                    m.device@.len() <= k <= path@.len(),
                    out@ == m.drive@ + path@.subrange(m.device@.len() as int, k as int),
                decreases path@.len() - k,
            {
                out.push(path[k]);
                proof {
                    assert(out@ =~= m.drive@ + path@.subrange(m.device@.len() as int, k as int + 1));
                }
                k += 1;
            }
            return Some(out);
        }
        i += 1;
    }
    None
}

/// The name of a mapped file as shown to users: the drive path where a
/// mapping applies, else the device path as it is.
pub fn mapped_file_name(path: &Vec<u16>, mappings: &Vec<DriveMapping>) -> (r: Vec<u16>)
    ensures
        first_mapping(path@, mappings@, 0) == mappings@.len() ==> r@ == path@,
        first_mapping(path@, mappings@, 0) < mappings@.len() ==> r@ == rewritten(
            path@,
            mappings@[first_mapping(path@, mappings@, 0)],
        ),
{
    match to_dos_path(path, mappings) {
        Some(v) => v,
        None => path.clone(),
    }
}

} // verus!
