//! The payload of a debug exception event.
use vstd::prelude::*;

verus! {

/// How many parameters an exception carries at most.
pub const EXCEPTION_MAXIMUM_PARAMETERS: usize = 15;

/// An exception as the system reports it, with its fields as plain values.
#[derive(Debug, Clone, Copy)]
pub struct RawException {
    pub code: u32,
    pub flags: u32,
    pub record: u64,
    pub address: u64,
    pub number_parameters: u32,
    pub information: [u64; 15],
}

/// An exception taken from a debug event.
#[derive(Debug, Clone, Copy)]
pub struct ExceptionRecord {
    pub code: u32,
    pub flags: u32,
    pub record: u64,
    pub address: u64,
    pub param_num: u32,
    pub params: [u64; 15],
}

impl Default for ExceptionRecord {
    fn default() -> (r: ExceptionRecord)
        ensures
            r.code == 0 && r.flags == 0 && r.record == 0 && r.address == 0 && r.param_num == 0,
            forall|i: int| 0 <= i < 15 ==> r.params@[i] == 0,
    {
        ExceptionRecord { code: 0, flags: 0, record: 0, address: 0, param_num: 0, params: [0u64; 15] }
    }
}

impl ExceptionRecord {
    /// Takes over the fields of `r` and its first `number_parameters`
    /// parameters; the parameters past those keep their values.
    pub fn copy(&mut self, r: &RawException)
        requires
            r.number_parameters as usize <= EXCEPTION_MAXIMUM_PARAMETERS,
        ensures
            final(self).code == r.code,
            final(self).flags == r.flags,
            final(self).record == r.record,
            final(self).address == r.address,
            final(self).param_num == r.number_parameters,
            forall|i: int|
                0 <= i < r.number_parameters ==> final(self).params@[i] == r.information@[i],
            forall|i: int|
                r.number_parameters <= i < 15 ==> final(self).params@[i] == old(self).params@[i],
    {
        self.code = r.code;
        self.flags = r.flags;
        self.record = r.record;
        self.address = r.address;
        self.param_num = r.number_parameters;
        let n = r.number_parameters as usize;
        let mut i: usize = 0;
        while i < n
            invariant
                n == r.number_parameters <= 15,
                i <= n,
                self.code == r.code && self.flags == r.flags && self.record == r.record,
                self.address == r.address && self.param_num == r.number_parameters,
                forall|j: int| 0 <= j < i ==> self.params@[j] == r.information@[j],
                forall|j: int| i <= j < 15 ==> self.params@[j] == old(self).params@[j],
            decreases n - i,
        {
            self.params.set(i, r.information[i]);
            i += 1;
        }
    }
}

} // verus!
