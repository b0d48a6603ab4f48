//! Reads the instructions that follow one another in a buffer of their bytes.

use vstd::prelude::*;
use crate::storage::instruction::{spec_parse_instruction, Instruction, InstructionView};
use crate::utils::bytes::tail_bytes;

verus! {

/// Reads instructions one after another from `buffer`, starting at `index`.
pub struct InstructionBufferParser<'a> {
    buffer: &'a [u8],
    index: usize,
}

impl<'a> InstructionBufferParser<'a> {
    /// The position of the next read.
    pub closed spec fn position(&self) -> nat {
        self.index as nat
    }

    /// The bytes being read.
    pub closed spec fn bytes(&self) -> Seq<u8> {
        self.buffer@
    }

    /// The position lies within the bytes.
    pub closed spec fn wf(&self) -> bool {
        self.index <= self.buffer@.len()
    }

    pub fn new(buffer: &'a [u8], index: usize) -> (result: InstructionBufferParser<'a>)
        requires
            index <= buffer@.len(),
        ensures
            result.wf(),
            result.bytes() == buffer@,
            result.position() == index,
    {
        InstructionBufferParser { buffer, index }
    }

    /// The instruction at the position, with its width, moving past it; `None`, staying put,
    /// where the bytes there are not a whole instruction.
    pub fn next(&mut self) -> (result: Option<(Instruction, usize)>)
        requires
            old(self).wf(),
        ensures
            final(self).wf(),
            final(self).bytes() == old(self).bytes(),
            match spec_parse_instruction(old(self).bytes().subrange(old(self).position() as int, old(self).bytes().len() as int)) {
                Some(Ok((v, n))) => result matches Some((i, m)) && i@ == v && m == n
                    && final(self).position() == old(self).position() + n,
                _ => result is None && final(self).position() == old(self).position(),
            },
    {
        let len = self.buffer.len();
        let rest = tail_bytes(self.buffer, self.index);
        match Instruction::parse_checked(rest) {
            Some(Ok((instruction, instruction_length))) => {
                assert(rest@.len() == len - self.index);
                self.index = self.index + instruction_length;
                Some((instruction, instruction_length))
            },
            _ => None,
        }
    }
}

} // verus!
