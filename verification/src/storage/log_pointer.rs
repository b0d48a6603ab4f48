//! Where an instruction stands in the log file.

use vstd::prelude::*;

verus! {

#[derive(Debug, Clone, Copy)]
pub struct LogPointer {
    /// The starting position of the instruction in the log file.
    pub pos: u64,
    /// The length of the instruction.
    pub len: usize,
}

impl LogPointer {
    pub fn new(pos: u64, len: usize) -> (result: LogPointer)
        ensures
            result.pos == pos,
            result.len == len,
    {
        LogPointer { pos, len }
    }
}

} // verus!
