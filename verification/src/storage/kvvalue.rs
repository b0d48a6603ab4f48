use vstd::prelude::*;
use crate::storage::executor::unit_content::{spec_content_bytes, UnitContent};
use crate::utils::bytes::{append_bytes, bytes_to_vec};
use crate::utils::serialize::spec_prepend_varint_width;
use crate::utils::varint::varint_encode;

verus! {

/// The raw value of the storage engine.
#[derive(Debug, Clone, PartialEq, Eq)]
pub struct KVValue(Vec<u8>);

impl View for KVValue {
    type V = Seq<u8>;

    closed spec fn view(&self) -> Seq<u8> {
        self.0@
    }
}

impl KVValue {
    pub fn new(data: &[u8]) -> (result: Self)
        ensures
            result@ == data@,
    {
        KVValue(bytes_to_vec(data))
    }

    pub fn as_bytes(&self) -> (result: &[u8])
        ensures
            result@ == self@,
    {
        self.0.as_slice()
    }

    /// The value with its width in front.
    pub fn serialize(&self) -> (result: Vec<u8>)
        ensures
            result@ == spec_prepend_varint_width(self@),
    {
        let mut serialized = varint_encode(self.0.len() as u64);
        append_bytes(&mut serialized, self.0.as_slice());
        serialized
    }
}

impl From<Vec<u8>> for KVValue {
    fn from(data: Vec<u8>) -> (result: KVValue)
        ensures
            result@ == data@,
    {
        KVValue(data)
    }
}

impl vstd::std_specs::convert::FromSpecImpl<Vec<u8>> for KVValue {
    open spec fn obeys_from_spec() -> bool {
        true
    }

    closed spec fn from_spec(v: Vec<u8>) -> KVValue {
        KVValue(v)
    }
}

impl From<&[u8]> for KVValue {
    fn from(data: &[u8]) -> (result: KVValue)
        ensures
            result@ == data@,
    {
        KVValue::new(data)
    }
}

/// The conversion from a slice copies its bytes; its contract is on `from` itself.
impl vstd::std_specs::convert::FromSpecImpl<&[u8]> for KVValue {
    open spec fn obeys_from_spec() -> bool {
        false
    }

    open spec fn from_spec(v: &[u8]) -> KVValue {
        arbitrary()
    }
}

impl From<&str> for KVValue {
    fn from(data: &str) -> (result: KVValue)
        ensures
            result@ == vstd::utf8::encode_utf8(data@),
    {
        KVValue::new(data.as_bytes())
    }
}

/// The conversion from text takes its UTF-8 bytes; its contract is on `from` itself.
impl vstd::std_specs::convert::FromSpecImpl<&str> for KVValue {
    open spec fn obeys_from_spec() -> bool {
        false
    }

    open spec fn from_spec(v: &str) -> KVValue {
        arbitrary()
    }
}

impl From<KVValue> for Vec<u8> {
    fn from(value: KVValue) -> (result: Vec<u8>)
        ensures
            result@ == value@,
    {
        value.0
    }
}

impl vstd::std_specs::convert::FromSpecImpl<KVValue> for Vec<u8> {
    open spec fn obeys_from_spec() -> bool {
        true
    }

    closed spec fn from_spec(v: KVValue) -> Vec<u8> {
        v.0
    }
}

impl From<&UnitContent> for KVValue {
    fn from(unit_content: &UnitContent) -> (result: KVValue)
        ensures
            result@ == spec_content_bytes(unit_content@),
    {
        KVValue(unit_content.marshal())
    }
}

/// The conversion from a unit takes its byte form; its contract is on `from` itself.
impl vstd::std_specs::convert::FromSpecImpl<&UnitContent> for KVValue {
    open spec fn obeys_from_spec() -> bool {
        false
    }

    open spec fn from_spec(v: &UnitContent) -> KVValue {
        arbitrary()
    }
}

} // verus!
