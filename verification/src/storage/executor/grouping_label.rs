use vstd::prelude::*;
use crate::utils::bytes::{append_bytes, bytes_to_vec, sub_bytes};
use crate::utils::serialize::{
    lemma_length_prefixed_consumed, lemma_length_prefixed_roundtrip, read_length_prefixed, spec_length_prefixed,
    spec_prepend_varint_width,
};
use crate::utils::text::string_from_utf8;
use crate::utils::varint::{varint_encode, VarIntError};

verus! {

#[derive(Debug, Clone, PartialEq, Eq, Structural)]
pub enum GroupingLabelError {
    VarIntError(VarIntError),
    ParseGroupingLabelErrorError,
}

impl GroupingLabelError {
    pub open spec fn spec_marshal(self) -> Seq<u8> {
        match self {
            GroupingLabelError::VarIntError(e) => seq![0x01u8] + e.spec_marshal(),
            GroupingLabelError::ParseGroupingLabelErrorError => seq![0x02u8],
        }
    }

    /// What `parse` gives for `data`; `None` where it would index past the end.
    pub open spec fn spec_parse(data: Seq<u8>) -> Option<(GroupingLabelError, nat)> {
        if data.len() == 0 {
            None
        } else if data[0] == 0x01 {
            match VarIntError::spec_parse(data.subrange(1, data.len() as int)) {
                None => None,
                Some((e, n)) => Some((GroupingLabelError::VarIntError(e), 1 + n)),
            }
        } else {
            Some((GroupingLabelError::ParseGroupingLabelErrorError, 1))
        }
    }

    pub fn marshal(&self) -> (result: Vec<u8>)
        ensures
            result@ == self.spec_marshal(),
    {
        match self {
            GroupingLabelError::VarIntError(error) => {
                let mut result = vec![0x01u8];
                let error_bytes = error.marshal();
                append_bytes(&mut result, &error_bytes);
                result
            },
            GroupingLabelError::ParseGroupingLabelErrorError => {
                let result = vec![0x02u8];
                assert(result@ =~= self.spec_marshal());
                result
            },
        }
    }

    pub fn parse(data: &[u8]) -> (result: Result<(GroupingLabelError, usize), GroupingLabelError>)
        requires
            Self::spec_parse(data@) is Some,
        ensures
            result matches Ok((e, n)) && Self::spec_parse(data@) == Some((e, n as nat)),
    {
        if data[0] == 0x01 {
            let rest = sub_bytes(data, 1, data.len());
            let (error, offset) = match VarIntError::parse(rest) {
                Ok(r) => r,
                Err(e) => return Err(GroupingLabelError::VarIntError(e)),
            };
            Ok((GroupingLabelError::VarIntError(error), 1 + offset))
        } else {
            Ok((GroupingLabelError::ParseGroupingLabelErrorError, 1))
        }
    }

    /// Parsing the marshalled error gives it back, whatever follows it.
    pub proof fn lemma_roundtrip(self, rest: Seq<u8>)
        ensures
            Self::spec_parse(self.spec_marshal() + rest) == Some((self, self.spec_marshal().len())),
    {
        let d = self.spec_marshal() + rest;
        match self {
            GroupingLabelError::VarIntError(e) => {
                e.lemma_roundtrip(rest);
                assert(d.subrange(1, d.len() as int) =~= e.spec_marshal() + rest);
            },
            GroupingLabelError::ParseGroupingLabelErrorError => {},
        }
    }
}

/// The name of a grouping: an arbitrary byte string.
#[derive(Debug, Clone, PartialEq, Eq, Hash)]
pub struct GroupingLabel(Vec<u8>);

impl View for GroupingLabel {
    type V = Seq<u8>;

    closed spec fn view(&self) -> Seq<u8> {
        self.0@
    }
}

impl GroupingLabel {
    /// The bytes of a marshalled label: its width, then its bytes.
    pub open spec fn spec_marshal(bytes: Seq<u8>) -> Seq<u8> {
        spec_prepend_varint_width(bytes)
    }

    /// What `parse` gives for `data`: the label's bytes and the width consumed, or the width's
    /// error. `None` where the announced width overruns `data`.
    pub open spec fn spec_parse(data: Seq<u8>) -> Option<Result<(Seq<u8>, nat), GroupingLabelError>> {
        match spec_length_prefixed(data) {
            None => None,
            Some(Err(e)) => Some(Err(GroupingLabelError::VarIntError(e))),
            Some(Ok((b, n))) => Some(Ok((b, n))),
        }
    }

    pub fn new(data: &[u8]) -> (result: Self)
        ensures
            result@ == data@,
    {
        GroupingLabel(bytes_to_vec(data))
    }

    pub fn marshal(&self) -> (result: Vec<u8>)
        ensures
            result@ == Self::spec_marshal(self@),
    {
        let mut result = varint_encode(self.0.len() as u64);
        append_bytes(&mut result, self.0.as_slice());
        result
    }

    pub fn parse(data: &[u8]) -> (result: Result<(Self, usize), GroupingLabelError>)
        requires
            Self::spec_parse(data@) is Some,
        ensures
            match result {
                Ok((g, n)) => Self::spec_parse(data@) == Some(
                    Ok::<(Seq<u8>, nat), GroupingLabelError>((g@, n as nat)),
                ),
                Err(e) => Self::spec_parse(data@) == Some(Err::<(Seq<u8>, nat), GroupingLabelError>(e)),
            },
    {
        match read_length_prefixed(data) {
            None => {
                assert(false);
                Err(GroupingLabelError::ParseGroupingLabelErrorError)
            },
            Some(Err(e)) => Err(GroupingLabelError::VarIntError(e)),
            Some(Ok((bytes, offset))) => Ok((GroupingLabel::new(bytes), offset)),
        }
    }

    /// Like `parse`, with `None` where the announced width overruns `data`.
    pub fn parse_checked(data: &[u8]) -> (result: Option<Result<(Self, usize), GroupingLabelError>>)
        ensures
            match result {
                None => Self::spec_parse(data@) is None,
                Some(Ok((g, n))) => Self::spec_parse(data@) == Some(
                    Ok::<(Seq<u8>, nat), GroupingLabelError>((g@, n as nat)),
                ) && 1 <= n <= data@.len(),
                Some(Err(e)) => Self::spec_parse(data@) == Some(Err::<(Seq<u8>, nat), GroupingLabelError>(e)),
            },
    {
        proof {
            lemma_length_prefixed_consumed(data@);
        }
        match read_length_prefixed(data) {
            None => None,
            Some(Err(e)) => Some(Err(GroupingLabelError::VarIntError(e))),
            Some(Ok((bytes, offset))) => Some(Ok((GroupingLabel::new(bytes), offset))),
        }
    }

    pub fn as_bytes(&self) -> (result: &[u8])
        ensures
            result@ == self@,
    {
        self.0.as_slice()
    }

    /// The label as text, or the empty string where its bytes are not valid UTF-8.
    pub fn to_text(&self) -> (result: String)
        ensures
            vstd::utf8::valid_utf8(self@) ==> result@ == vstd::utf8::decode_utf8(self@),
            !vstd::utf8::valid_utf8(self@) ==> result@ == Seq::<char>::empty(),
    {
        match string_from_utf8(bytes_to_vec(self.0.as_slice())) {
            Some(s) => s,
            None => String::new(),
        }
    }

    /// A marshalled label parses back as itself, whatever follows it.
    pub proof fn lemma_roundtrip(bytes: Seq<u8>, rest: Seq<u8>)
        requires
            bytes.len() <= u64::MAX,
        ensures
            Self::spec_parse(Self::spec_marshal(bytes) + rest) == Some(
                Ok::<(Seq<u8>, nat), GroupingLabelError>((bytes, Self::spec_marshal(bytes).len())),
            ),
    {
        lemma_length_prefixed_roundtrip(bytes, rest);
    }
}

impl From<Vec<u8>> for GroupingLabel {
    fn from(data: Vec<u8>) -> (result: GroupingLabel)
        ensures
            result@ == data@,
    {
        GroupingLabel(data)
    }
}

impl vstd::std_specs::convert::FromSpecImpl<Vec<u8>> for GroupingLabel {
    open spec fn obeys_from_spec() -> bool {
        true
    }

    closed spec fn from_spec(v: Vec<u8>) -> GroupingLabel {
        GroupingLabel(v)
    }
}

impl From<&[u8]> for GroupingLabel {
    fn from(data: &[u8]) -> (result: GroupingLabel)
        ensures
            result@ == data@,
    {
        GroupingLabel::new(data)
    }
}

/// The conversion from a slice copies its bytes; its contract is on `from` itself.
impl vstd::std_specs::convert::FromSpecImpl<&[u8]> for GroupingLabel {
    open spec fn obeys_from_spec() -> bool {
        false
    }

    open spec fn from_spec(v: &[u8]) -> GroupingLabel {
        arbitrary()
    }
}

impl From<&str> for GroupingLabel {
    fn from(data: &str) -> (result: GroupingLabel)
        ensures
            result@ == vstd::utf8::encode_utf8(data@),
    {
        GroupingLabel::new(data.as_bytes())
    }
}

/// The conversion from text takes its UTF-8 bytes; its contract is on `from` itself.
impl vstd::std_specs::convert::FromSpecImpl<&str> for GroupingLabel {
    open spec fn obeys_from_spec() -> bool {
        false
    }

    open spec fn from_spec(v: &str) -> GroupingLabel {
        arbitrary()
    }
}

impl From<GroupingLabel> for Vec<u8> {
    fn from(label: GroupingLabel) -> (result: Vec<u8>)
        ensures
            result@ == label@,
    {
        label.0
    }
}

impl vstd::std_specs::convert::FromSpecImpl<GroupingLabel> for Vec<u8> {
    open spec fn obeys_from_spec() -> bool {
        true
    }

    closed spec fn from_spec(v: GroupingLabel) -> Vec<u8> {
        v.0
    }
}

} // verus!
