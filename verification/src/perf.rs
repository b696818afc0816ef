//! What the kernel reports when a watchpoint is hit.

use vstd::prelude::*;

verus! {

/// The thread that hit a watchpoint, its registers, and the return addresses
/// on its stack if they were asked for.
#[derive(Debug)]
pub struct SampleData {
    pub pid: u32,
    pub tid: u32,
    pub regs: Vec<u64>,
    pub backtrace: Option<Vec<u64>>,
}

} // verus!
