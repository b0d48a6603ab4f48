//! Chain height: the position of an instruction in the log.

use vstd::prelude::*;
use crate::utils::varint::{spec_varint_encode, varint_encode};

verus! {

#[derive(Debug, Clone, Copy, PartialEq, Eq, Structural, PartialOrd)]
pub struct ChainHeight(u64);

#[derive(Debug, Clone, Copy, PartialEq, Eq, Structural)]
pub enum ChainHeightError {
    NegativeChainHeight,
    ChainHeightOutOfRange,
    ParseChainHeightErrorError,
}

impl ChainHeightError {
    pub open spec fn spec_marshal(self) -> Seq<u8> {
        match self {
            ChainHeightError::NegativeChainHeight => seq![0x01u8],
            ChainHeightError::ChainHeightOutOfRange => seq![0x02u8],
            ChainHeightError::ParseChainHeightErrorError => seq![0x03u8],
        }
    }

    /// What `parse` gives for `data`: the error whose prefix the first byte is; any other
    /// byte reads as `ParseChainHeightErrorError`.
    pub open spec fn spec_parse(data: Seq<u8>) -> Option<(ChainHeightError, nat)> {
        if data.len() == 0 {
            None
        } else if data[0] == 0x01 {
            Some((ChainHeightError::NegativeChainHeight, 1))
        } else if data[0] == 0x02 {
            Some((ChainHeightError::ChainHeightOutOfRange, 1))
        } else {
            Some((ChainHeightError::ParseChainHeightErrorError, 1))
        }
    }

    pub fn marshal(&self) -> (result: Vec<u8>)
        ensures
            result@ == self.spec_marshal(),
    {
        let result = match self {
            ChainHeightError::NegativeChainHeight => vec![0x01u8],
            ChainHeightError::ChainHeightOutOfRange => vec![0x02u8],
            ChainHeightError::ParseChainHeightErrorError => vec![0x03u8],
        };
        assert(result@ =~= self.spec_marshal());
        result
    }

    pub fn parse(data: &[u8]) -> (result: Result<(ChainHeightError, usize), ChainHeightError>)
        requires
            Self::spec_parse(data@) is Some,
        ensures
            result matches Ok((e, n)) && Self::spec_parse(data@) == Some((e, n as nat)),
    {
        let prefix = data[0];
        if prefix == 0x01 {
            Ok((ChainHeightError::NegativeChainHeight, 1))
        } else if prefix == 0x02 {
            Ok((ChainHeightError::ChainHeightOutOfRange, 1))
        } else {
            Ok((ChainHeightError::ParseChainHeightErrorError, 1))
        }
    }

    /// Parsing the byte form of an error gives the error back, whatever follows it.
    pub proof fn lemma_roundtrip(self, rest: Seq<u8>)
        ensures
            Self::spec_parse(self.spec_marshal() + rest) == Some((self, 1nat)),
    {
    }
}

impl View for ChainHeight {
    type V = u64;

    closed spec fn view(&self) -> u64 {
        self.0
    }
}

impl ChainHeight {
    pub fn new(data: u64) -> (result: Self)
        ensures
            result@ == data,
    {
        ChainHeight(data)
    }

    /// Lowers the height by one and returns the new height; at zero it fails and the height
    /// stays.
    pub fn decrement(&mut self) -> (result: Result<Self, ChainHeightError>)
        ensures
            old(self)@ == 0 ==> result == Err::<ChainHeight, ChainHeightError>(
                ChainHeightError::NegativeChainHeight,
            ) && final(self)@ == 0,
            old(self)@ > 0 ==> final(self)@ == old(self)@ - 1 && result == Ok::<
                ChainHeight,
                ChainHeightError,
            >(*final(self)),
    {
        if self.0 == 0 {
            return Err(ChainHeightError::NegativeChainHeight);
        }
        self.0 = self.0 - 1;
        Ok(ChainHeight(self.0))
    }

    /// Raises the height by one and returns the new height; at the largest height it fails and
    /// the height stays.
    pub fn increment(&mut self) -> (result: Result<Self, ChainHeightError>)
        ensures
            old(self)@ == u64::MAX ==> result == Err::<ChainHeight, ChainHeightError>(
                ChainHeightError::ChainHeightOutOfRange,
            ) && final(self)@ == u64::MAX,
            old(self)@ < u64::MAX ==> final(self)@ == old(self)@ + 1 && result == Ok::<
                ChainHeight,
                ChainHeightError,
            >(*final(self)),
    {
        if self.0 == u64::MAX {
            return Err(ChainHeightError::ChainHeightOutOfRange);
        }
        self.0 = self.0 + 1;
        Ok(ChainHeight(self.0))
    }

    pub fn as_u64(&self) -> (result: u64)
        ensures
            result == self@,
    {
        self.0
    }

    pub fn serialize(&self) -> (result: Vec<u8>)
        ensures
            result@ == spec_varint_encode(self@),
    {
        varint_encode(self.0)
    }

    /// Two heights are the same exactly when their numbers are.
    pub proof fn lemma_height_is_its_view(a: ChainHeight, b: ChainHeight)
        ensures
            a@ == b@ <==> a == b,
    {
    }
}

} // verus!
