//! Snapshots of memory regions and the walk over an address space.
use vstd::prelude::*;
use crate::maps::{
    describes, line_ok, parse_maps_line, MapRecord, MAP_PRIVATE, MAP_SHARED, MEM_COMMIT,
    PROT_EXEC, PROT_READ, PROT_WRITE,
};
use crate::procfs::{lossy_text, text_of};

verus! {

/// One region of a process's address space as observed at one moment.
#[derive(Debug, Clone)]
pub struct MemoryPage {
    pub base: usize,
    pub alloc_base: usize,
    pub size: usize,
    pub type_: u32,
    pub state: u32,
    pub protect: u32,
    pub alloc_protect: u32,
    pub usage: String,
}

/// Protection bits for a record's permission letters (the bits are
/// distinct, so their sum is their union).
pub open spec fn record_protect(m: MapRecord) -> u32 {
    ((if m.read { PROT_READ } else { 0u32 }) + (if m.write { PROT_WRITE } else { 0u32 }) + (if m.execute {
        PROT_EXEC
    } else {
        0u32
    })) as u32
}

impl MemoryPage {
    /// The region that a parsed maps record describes: committed, with the
    /// record's permissions and sharing, and its backing path as usage.
    pub fn from_map_record(m: &MapRecord) -> (r: MemoryPage)
        requires
            m.start <= m.end,
        ensures
            r.base == m.start,
            r.alloc_base == m.start,
            r.size == m.end - m.start,
            r.state == MEM_COMMIT,
            r.type_ == (if m.shared { MAP_SHARED } else { MAP_PRIVATE }),
            r.protect == record_protect(*m),
            r.alloc_protect == r.protect,
            r.usage@ == lossy_text(m.path@),
    {
        let mut protect: u32 = 0;
        if m.read {
            protect = protect + PROT_READ;
        }
        if m.write {
            protect = protect + PROT_WRITE;
        }
        if m.execute {
            protect = protect + PROT_EXEC;
        }
        MemoryPage {
            base: m.start,
            alloc_base: m.start,
            size: m.end - m.start,
            type_: if m.shared {
                MAP_SHARED
            } else {
                MAP_PRIVATE
            },
            state: MEM_COMMIT,
            protect,
            alloc_protect: protect,
            usage: text_of(m.path.as_slice()),
        }
    }

    /// The region that one line of a maps listing describes, or `None` where
    /// the line is malformed.
    pub fn from_maps_line(line: &[u8]) -> (r: Option<MemoryPage>)
        ensures
            r is Some <==> line_ok(line@),
            r matches Some(p) ==> exists|m: MapRecord|
                describes(line@, m) && p.base == m.start && p.size == m.end - m.start
                    && p.alloc_base == m.start && p.state == MEM_COMMIT && p.type_ == (if m.shared {
                    MAP_SHARED
                } else {
                    MAP_PRIVATE
                }) && p.protect == record_protect(m) && p.alloc_protect == p.protect && p.usage@
                    == lossy_text(m.path@),
    {
        match parse_maps_line(line) {
            Some(m) => Some(MemoryPage::from_map_record(&m)),
            None => None,
        }
    }

    /// A region as the system's query reports it, field by field.
    pub fn from_basic_info(
        base: usize,
        alloc_base: usize,
        size: usize,
        type_: u32,
        state: u32,
        protect: u32,
        alloc_protect: u32,
    ) -> (r: MemoryPage)
        ensures
            r.base == base && r.alloc_base == alloc_base && r.size == size,
            r.type_ == type_ && r.state == state,
            r.protect == protect && r.alloc_protect == alloc_protect,
            r.usage@.len() == 0,
    {
        MemoryPage { base, alloc_base, size, type_, state, protect, alloc_protect, usage: String::new() }
    }

    /// The region is committed.
    pub fn is_commit(&self) -> (r: bool)
        ensures
            r == (self.state == MEM_COMMIT),
    {
        self.state == MEM_COMMIT
    }
}

/// The state of a walk over an address space that asks the system for the
/// region at a probe address, then moves the probe past that region.
pub struct MemoryWalk {
    pub address: usize,
    pub finished: bool,
}

impl MemoryWalk {
    /// A walk whose first probe is `address`.
    pub fn new(address: usize) -> (r: MemoryWalk)
        ensures
            r.address == address && !r.finished,
    {
        MemoryWalk { address, finished: false }
    }

    /// Takes the system's answer for the current probe. A region is handed
    /// back and the probe moves past it; the walk ends where there is no
    /// region, where the region is empty, or where its end is past the last
    /// address.
    pub fn advance(&mut self, queried: Option<MemoryPage>) -> (r: Option<MemoryPage>)
        ensures
            r == queried,
            match queried {
                None => final(self).finished && final(self).address == old(self).address,
                Some(p) => if p.size > 0 && old(self).address + p.size <= usize::MAX {
                    final(self).address == old(self).address + p.size && final(self).finished
                        == old(self).finished
                } else {
                    final(self).finished && final(self).address == old(self).address
                },
            },
    {
        match &queried {
            None => {
                self.finished = true;
            },
            Some(p) => {
                if p.size > 0 && p.size <= usize::MAX - self.address {
                    self.address = self.address + p.size;
                } else {
                    self.finished = true;
                }
            },
        }
        queried
    }

    /// Takes the system's answer for the current probe as `advance` does,
    /// but hands the region back only where it is committed, so that a
    /// caller looking for committed regions asks again.
    pub fn advance_commit(&mut self, queried: Option<MemoryPage>) -> (r: Option<MemoryPage>)
        ensures
            r == (match queried {
                Some(p) => if p.state == MEM_COMMIT {
                    Some(p)
                } else {
                    None
                },
                None => None,
            }),
            match queried {
                None => final(self).finished && final(self).address == old(self).address,
                Some(p) => if p.size > 0 && old(self).address + p.size <= usize::MAX {
                    final(self).address == old(self).address + p.size && final(self).finished
                        == old(self).finished
                } else {
                    final(self).finished && final(self).address == old(self).address
                },
            },
    {
        match self.advance(queried) {
            Some(p) => if p.is_commit() {
                Some(p)
            } else {
                None
            },
            None => None,
        }
    }
}

} // verus!
