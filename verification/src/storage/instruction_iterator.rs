//! Reads the instruction packs that follow one another in the bytes of a log.

use vstd::prelude::*;
use crate::storage::instruction::{spec_unpack, unpack_checked, Instruction, InstructionView};
use crate::utils::bytes::tail_bytes;

verus! {

/// The instructions in the packs at the start of `bytes`, each with its pack's width, up to the
/// first place where no whole pack stands.
pub open spec fn spec_log_packs(bytes: Seq<u8>) -> Seq<(InstructionView, nat)>
    decreases bytes.len(),
{
    if bytes.len() == 0 {
        Seq::empty()
    } else {
        match spec_unpack(bytes) {
            Some(Ok((v, n))) => {
                if 0 < n <= bytes.len() {
                    seq![(v, n)] + spec_log_packs(bytes.subrange(n as int, bytes.len() as int))
                } else {
                    Seq::empty()
                }
            },
            _ => Seq::empty(),
        }
    }
}

/// Reads the instruction packs of a log one after another.
pub struct InstructionLogIterator {
    log_bytes: Vec<u8>,
    index: usize,
}

impl InstructionLogIterator {
    /// The bytes not read yet.
    pub closed spec fn remaining(&self) -> Seq<u8> {
        self.log_bytes@.subrange(self.index as int, self.log_bytes@.len() as int)
    }

    /// The position lies within the bytes.
    pub closed spec fn wf(&self) -> bool {
        self.index <= self.log_bytes@.len()
    }

    /// The instruction in the next pack, with the pack's width, moving past it; `None`,
    /// staying put, at the end and where no whole pack stands.
    pub fn next(&mut self) -> (result: Option<(Instruction, usize)>)
        requires
            old(self).wf(),
        ensures
            final(self).wf(),
            match result {
                Some((i, n)) => spec_log_packs(old(self).remaining()) == seq![(i@, n as nat)] + spec_log_packs(final(self).remaining())
                    && 0 < n && final(self).remaining().len() + n == old(self).remaining().len(),
                None => spec_log_packs(old(self).remaining()) == Seq::<(InstructionView, nat)>::empty() && final(self).remaining() == old(self).remaining(),
            },
    {
        let index = self.index;
        if index >= self.log_bytes.len() {
            return None;
        }
        let rest = tail_bytes(self.log_bytes.as_slice(), index);
        match unpack_checked(rest) {
            Some(Ok((instruction, bytes_consumed))) => {
                if bytes_consumed == 0 {
                    return None;
                }
                self.index = index + bytes_consumed;
                proof {
                    assert(self.remaining() =~= rest@.subrange(bytes_consumed as int, rest@.len() as int));
                }
                Some((instruction, bytes_consumed))
            },
            _ => None,
        }
    }

    /// The instructions of every pack up to the first place where no whole pack stands.
    pub fn read_all(&mut self) -> (result: Vec<Instruction>)
        requires
            old(self).wf(),
        ensures
            final(self).wf(),
            result@.map_values(|i: Instruction| i@) == spec_log_packs(old(self).remaining()).map_values(
                |p: (InstructionView, nat)| p.0,
            ),
    {
        let ghost all = spec_log_packs(self.remaining());
        let mut result: Vec<Instruction> = Vec::new();
        loop
            invariant
                self.wf(),
                all == spec_log_packs(old(self).remaining()),
                all.map_values(|p: (InstructionView, nat)| p.0) == result@.map_values(|i: Instruction| i@) + spec_log_packs(self.remaining()).map_values(|p: (InstructionView, nat)| p.0),
            decreases self.remaining().len(),
        {
            let ghost before = self.remaining();
            match self.next() {
                Some((instruction, _)) => {
                    let ghost r = result@.map_values(|i: Instruction| i@);
                    result.push(instruction);
                    proof {
                        assert(result@.map_values(|i: Instruction| i@) =~= r.push(instruction@));
                    }
                },
                None => {
                    proof {
                        assert(all.map_values(|p: (InstructionView, nat)| p.0) =~= result@.map_values(|i: Instruction| i@));
                    }
                    return result;
                },
            }
        }
    }
}

impl From<Vec<u8>> for InstructionLogIterator {
    fn from(buffer: Vec<u8>) -> (result: InstructionLogIterator)
        ensures
            result.wf(),
            result.remaining() == buffer@,
    {
        let result = InstructionLogIterator { log_bytes: buffer, index: 0 };
        assert(result.remaining() =~= result.log_bytes@);
        result
    }
}

impl vstd::std_specs::convert::FromSpecImpl<Vec<u8>> for InstructionLogIterator {
    open spec fn obeys_from_spec() -> bool {
        false
    }

    open spec fn from_spec(v: Vec<u8>) -> InstructionLogIterator {
        arbitrary()
    }
}

} // verus!
