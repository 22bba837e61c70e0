//! The snapshot record that process enumeration yields.
use vstd::prelude::*;

verus! {

/// One live process as seen by an enumeration.
#[derive(Debug, Clone)]
pub struct ProcessInfo {
    pub pid: u32,
    pub name: String,
    pub path: String,
    pub cmdline: String,
    pub wow64: bool,
}

impl ProcessInfo {
    /// The record of process `pid` named `name`, with what could be learned
    /// by opening it; each detail that could not be had stays empty (or
    /// false).
    pub fn from_snapshot(
        pid: u32,
        name: String,
        wow64: Option<bool>,
        path: Option<String>,
        cmdline: Option<String>,
    ) -> (r: ProcessInfo)
        ensures
            r.pid == pid,
            r.name@ == name@,
            r.wow64 == (wow64 == Some(true)),
            r.path@ == (match path {
                Some(p) => p@,
                None => Seq::empty(),
            }),
            r.cmdline@ == (match cmdline {
                Some(c) => c@,
                None => Seq::empty(),
            }),
    {
        let wow64 = match wow64 {
            Some(w) => w,
            None => false,
        };
        let path = match path {
            Some(p) => p,
            None => String::new(),
        };
        let cmdline = match cmdline {
            Some(c) => c,
            None => String::new(),
        };
        ProcessInfo { pid, name, path, cmdline, wow64 }
    }
}

} // verus!
