use vstd::prelude::*;
use crate::storage::executor::grouping_label::GroupingLabel;
use crate::storage::executor::unit_key::UnitKey;
use crate::utils::bytes::{append_bytes, bytes_to_vec, sub_bytes, tail_bytes};
use crate::utils::serialize::{
    lemma_length_prefixed_roundtrip, read_length_prefixed, spec_length_prefixed,
    spec_prepend_varint_width,
};
use crate::utils::varint::{varint_encode, VarIntError};

verus! {

#[derive(Debug, Clone, PartialEq, Eq, Structural)]
pub enum KVKeyError {
    VarIntError(VarIntError),
    ParseKVKeyErrorError,
}

impl KVKeyError {
    pub open spec fn spec_marshal(self) -> Seq<u8> {
        match self {
            KVKeyError::VarIntError(e) => seq![0x01u8] + e.spec_marshal(),
            KVKeyError::ParseKVKeyErrorError => seq![0x02u8],
        }
    }

    /// What `parse` gives for `data`; `None` where it would index past the end.
    pub open spec fn spec_parse(data: Seq<u8>) -> Option<(KVKeyError, nat)> {
        if data.len() == 0 {
            None
        } else if data[0] == 0x01 {
            match VarIntError::spec_parse(data.subrange(1, data.len() as int)) {
                None => None,
                Some((e, n)) => Some((KVKeyError::VarIntError(e), 1 + n)),
            }
        } else {
            Some((KVKeyError::ParseKVKeyErrorError, 1))
        }
    }

    pub fn marshal(&self) -> (result: Vec<u8>)
        ensures
            result@ == self.spec_marshal(),
    {
        match self {
            KVKeyError::VarIntError(error) => {
                let mut result = vec![0x01u8];
                let error_bytes = error.marshal();
                append_bytes(&mut result, &error_bytes);
                result
            },
            KVKeyError::ParseKVKeyErrorError => {
                let result = vec![0x02u8];
                assert(result@ =~= self.spec_marshal());
                result
            },
        }
    }

    pub fn parse(data: &[u8]) -> (result: Result<(KVKeyError, usize), KVKeyError>)
        requires
            Self::spec_parse(data@) is Some,
        ensures
            result matches Ok((e, n)) && Self::spec_parse(data@) == Some((e, n as nat)),
    {
        if data[0] == 0x01 {
            let rest = sub_bytes(data, 1, data.len());
            let (error, offset) = match VarIntError::parse(rest) {
                Ok(r) => r,
                Err(e) => return Err(KVKeyError::VarIntError(e)),
            };
            Ok((KVKeyError::VarIntError(error), 1 + offset))
        } else {
            Ok((KVKeyError::ParseKVKeyErrorError, 1))
        }
    }

    /// Parsing the marshalled error gives it back, whatever follows it.
    pub proof fn lemma_roundtrip(self, rest: Seq<u8>)
        ensures
            Self::spec_parse(self.spec_marshal() + rest) == Some((self, self.spec_marshal().len())),
    {
        let d = self.spec_marshal() + rest;
        match self {
            KVKeyError::VarIntError(e) => {
                e.lemma_roundtrip(rest);
                assert(d.subrange(1, d.len() as int) =~= e.spec_marshal() + rest);
            },
            KVKeyError::ParseKVKeyErrorError => {},
        }
    }
}

/// The raw key of the storage engine.
#[derive(Debug, Clone, PartialEq, Eq, Hash)]
pub struct KVKey(Vec<u8>);

impl View for KVKey {
    type V = Seq<u8>;

    closed spec fn view(&self) -> Seq<u8> {
        self.0@
    }
}

/// The raw key under which a unit is stored: the marshalled grouping, then the unit key.
pub open spec fn spec_kvkey_bytes(grouping: Seq<u8>, unit_key: Seq<u8>) -> Seq<u8> {
    GroupingLabel::spec_marshal(grouping) + unit_key
}

impl KVKey {
    /// What `parse` gives for `data`: the grouping's bytes and the unit key's bytes, or the
    /// width's error. `None` where the grouping's width overruns `data`.
    pub open spec fn spec_parse(data: Seq<u8>) -> Option<Result<(Seq<u8>, Seq<u8>), KVKeyError>> {
        match spec_length_prefixed(data) {
            None => None,
            Some(Err(e)) => Some(Err(KVKeyError::VarIntError(e))),
            Some(Ok((g, n))) => Some(Ok((g, data.subrange(n as int, data.len() as int)))),
        }
    }

    pub fn new(data: &[u8]) -> (result: Self)
        ensures
            result@ == data@,
    {
        KVKey(bytes_to_vec(data))
    }

    pub fn as_bytes(&self) -> (result: &[u8])
        ensures
            result@ == self@,
    {
        self.0.as_slice()
    }

    /// The key with its width in front.
    pub fn serialize(&self) -> (result: Vec<u8>)
        ensures
            result@ == spec_prepend_varint_width(self@),
    {
        let mut serialized = varint_encode(self.0.len() as u64);
        append_bytes(&mut serialized, self.0.as_slice());
        serialized
    }

    pub fn from_grouping_and_unit_key(grouping: &GroupingLabel, unit_key: &UnitKey) -> (result: Self)
        ensures
            result@ == spec_kvkey_bytes(grouping@, unit_key@),
    {
        let mut kvkey_bytes = grouping.marshal();
        append_bytes(&mut kvkey_bytes, unit_key.as_bytes());
        KVKey(kvkey_bytes)
    }

    pub fn parse(data: &[u8]) -> (result: Result<(GroupingLabel, UnitKey), KVKeyError>)
        requires
            Self::spec_parse(data@) is Some,
        ensures
            match result {
                Ok((g, u)) => Self::spec_parse(data@) == Some(
                    Ok::<(Seq<u8>, Seq<u8>), KVKeyError>((g@, u@)),
                ),
                Err(e) => Self::spec_parse(data@) == Some(Err::<(Seq<u8>, Seq<u8>), KVKeyError>(e)),
            },
    {
        match read_length_prefixed(data) {
            None => {
                assert(false);
                Err(KVKeyError::ParseKVKeyErrorError)
            },
            Some(Err(e)) => Err(KVKeyError::VarIntError(e)),
            Some(Ok((bytes, offset))) => {
                let grouping = GroupingLabel::new(bytes);
                let unit_key = UnitKey::new(tail_bytes(data, offset));
                Ok((grouping, unit_key))
            },
        }
    }

    /// Like `parse`, with `None` where the grouping's width overruns `data`.
    pub fn parse_checked(data: &[u8]) -> (result: Option<Result<(GroupingLabel, UnitKey), KVKeyError>>)
        ensures
            match result {
                None => Self::spec_parse(data@) is None,
                Some(Ok((g, u))) => Self::spec_parse(data@) == Some(
                    Ok::<(Seq<u8>, Seq<u8>), KVKeyError>((g@, u@)),
                ),
                Some(Err(e)) => Self::spec_parse(data@) == Some(Err::<(Seq<u8>, Seq<u8>), KVKeyError>(e)),
            },
    {
        match read_length_prefixed(data) {
            None => None,
            Some(Err(e)) => Some(Err(KVKeyError::VarIntError(e))),
            Some(Ok((bytes, offset))) => {
                let grouping = GroupingLabel::new(bytes);
                let unit_key = UnitKey::new(tail_bytes(data, offset));
                Some(Ok((grouping, unit_key)))
            },
        }
    }

    /// The grouping and unit key that make a raw key are read back from it.
    pub proof fn lemma_grouping_and_unit_key_roundtrip(grouping: Seq<u8>, unit_key: Seq<u8>)
        requires
            grouping.len() <= u64::MAX,
        ensures
            Self::spec_parse(spec_kvkey_bytes(grouping, unit_key)) == Some(
                Ok::<(Seq<u8>, Seq<u8>), KVKeyError>((grouping, unit_key)),
            ),
    {
        lemma_length_prefixed_roundtrip(grouping, unit_key);
        let d = spec_kvkey_bytes(grouping, unit_key);
        let n = spec_prepend_varint_width(grouping).len();
        assert(d.subrange(n as int, d.len() as int) =~= unit_key);
    }
}

impl From<Vec<u8>> for KVKey {
    fn from(data: Vec<u8>) -> (result: KVKey)
        ensures
            result@ == data@,
    {
        KVKey(data)
    }
}

impl vstd::std_specs::convert::FromSpecImpl<Vec<u8>> for KVKey {
    open spec fn obeys_from_spec() -> bool {
        true
    }

    closed spec fn from_spec(v: Vec<u8>) -> KVKey {
        KVKey(v)
    }
}

impl From<&[u8]> for KVKey {
    fn from(data: &[u8]) -> (result: KVKey)
        ensures
            result@ == data@,
    {
        KVKey::new(data)
    }
}

/// The conversion from a slice copies its bytes; its contract is on `from` itself.
impl vstd::std_specs::convert::FromSpecImpl<&[u8]> for KVKey {
    open spec fn obeys_from_spec() -> bool {
        false
    }

    open spec fn from_spec(v: &[u8]) -> KVKey {
        arbitrary()
    }
}

impl From<&str> for KVKey {
    fn from(data: &str) -> (result: KVKey)
        ensures
            result@ == vstd::utf8::encode_utf8(data@),
    {
        KVKey::new(data.as_bytes())
    }
}

/// The conversion from text takes its UTF-8 bytes; its contract is on `from` itself.
impl vstd::std_specs::convert::FromSpecImpl<&str> for KVKey {
    open spec fn obeys_from_spec() -> bool {
        false
    }

    open spec fn from_spec(v: &str) -> KVKey {
        arbitrary()
    }
}

impl From<KVKey> for Vec<u8> {
    fn from(key: KVKey) -> (result: Vec<u8>)
        ensures
            result@ == key@,
    {
        key.0
    }
}

impl vstd::std_specs::convert::FromSpecImpl<KVKey> for Vec<u8> {
    open spec fn obeys_from_spec() -> bool {
        true
    }

    closed spec fn from_spec(v: KVKey) -> Vec<u8> {
        v.0
    }
}

} // verus!
