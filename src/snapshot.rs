use vstd::prelude::*;

verus! {

/// What the library reads of a process: its id and the id of its parent.
pub trait ProcessInfo {
    spec fn spec_pid(&self) -> u32;

    spec fn spec_parent_pid(&self) -> u32;

    fn pid(&self) -> (r: u32)
        ensures
            r == self.spec_pid(),
    ;

    fn parent_pid(&self) -> (r: u32)
        ensures
            r == self.spec_parent_pid(),
    ;
}

/// One record of a process snapshot.
///
/// Ids are unique within one snapshot only; a parent id of zero, or one that
/// the snapshot does not hold, marks a process with no further ancestry.
#[derive(Clone, Debug)]
pub struct Process {
    pub process_id: u32,
    pub process_parent_id: u32,
    pub process_name: String,
}

impl Process {
    /// A record of process `process_id`, child of `process_parent_id`.
    pub fn new(process_id: u32, process_parent_id: u32, process_name: String) -> (r: Process)
        ensures
            r.process_id == process_id,
            r.process_parent_id == process_parent_id,
            r.process_name@ == process_name@,
    {
        Process { process_id, process_parent_id, process_name }
    }
}

impl ProcessInfo for Process {
    open spec fn spec_pid(&self) -> u32 {
        self.process_id
    }

    open spec fn spec_parent_pid(&self) -> u32 {
        self.process_parent_id
    }

    fn pid(&self) -> (r: u32) {
        self.process_id
    }

    fn parent_pid(&self) -> (r: u32) {
        self.process_parent_id
    }
}

} // verus!
