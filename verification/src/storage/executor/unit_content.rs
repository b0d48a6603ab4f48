//! Units of content: nil, text, booleans, 64-bit floating-point numbers (held as their IEEE 754
//! bit patterns), arrays and maps, with their byte form.

use vstd::prelude::*;
use vstd::utf8::{encode_utf8, valid_utf8};
use vstd::std_specs::cmp::PartialEqSpecImpl;
use crate::utils::bytes::append_bytes;
use crate::utils::ints::{spec_u64_le, spec_u64_from_le, u64_to_u8_array, read_u64_le};
use crate::utils::serialize::{read_length_prefixed, spec_length_prefixed, spec_prepend_varint_width};
use crate::utils::text::{spec_lenient_text, string_from_utf8_lossy};
use crate::utils::varint::{spec_varint_decode, spec_varint_encode, varint_decode, varint_encode};
use crate::utils::bytes::{sub_bytes, tail_bytes};

verus! {

/// A unit of content as the contracts see it; a map is a list of (key, content) entries.
pub enum ContentView {
    Nil,
    String(Seq<char>),
    Bool(bool),
    Float64(u64),
    Array(Seq<ContentView>),
    Mapping(Seq<(Seq<char>, ContentView)>),
}

/// A unit of content. A floating-point number is held as its IEEE 754 bit pattern; a map keeps
/// its entries in order, each key once.
#[derive(Debug)]
pub enum UnitContent {
    Nil,
    String(String),
    Bool(bool),
    Float64(u64),
    Array(Vec<UnitContent>),
    Mapping(Vec<(String, UnitContent)>),
}

/// The view of a unit of content.
pub open spec fn content_view(c: UnitContent) -> ContentView
    decreases c,
{
    match c {
        UnitContent::Nil => ContentView::Nil,
        UnitContent::String(s) => ContentView::String(s@),
        UnitContent::Bool(b) => ContentView::Bool(b),
        UnitContent::Float64(x) => ContentView::Float64(x),
        UnitContent::Array(items) => ContentView::Array(contents_view(items@)),
        UnitContent::Mapping(entries) => ContentView::Mapping(entries_view(entries@)),
    }
}

/// The views of a sequence of units.
pub open spec fn contents_view(items: Seq<UnitContent>) -> Seq<ContentView>
    decreases items,
{
    if items.len() == 0 {
        Seq::empty()
    } else {
        contents_view(items.drop_last()).push(content_view(items.last()))
    }
}

/// The views of a sequence of map entries.
pub open spec fn entries_view(entries: Seq<(String, UnitContent)>) -> Seq<(Seq<char>, ContentView)>
    decreases entries,
{
    if entries.len() == 0 {
        Seq::empty()
    } else {
        entries_view(entries.drop_last()).push((entries.last().0@, content_view(entries.last().1)))
    }
}

impl View for UnitContent {
    type V = ContentView;

    open spec fn view(&self) -> ContentView {
        content_view(*self)
    }
}

/// The prefix byte of each kind of content.
pub enum ContentTypePrefix {
    Nil,
    String,
    Boolean,
    Float64,
    Array,
    Mapping,
}

impl ContentTypePrefix {
    pub open spec fn spec_byte(self) -> u8 {
        match self {
            ContentTypePrefix::Nil => 0x00,
            ContentTypePrefix::String => 0x10,
            ContentTypePrefix::Boolean => 0x11,
            ContentTypePrefix::Float64 => 0x12,
            ContentTypePrefix::Array => 0x20,
            ContentTypePrefix::Mapping => 0x21,
        }
    }

    /// The prefix byte.
    pub fn byte(&self) -> (result: u8)
        ensures
            result == self.spec_byte(),
    {
        match self {
            ContentTypePrefix::Nil => 0x00,
            ContentTypePrefix::String => 0x10,
            ContentTypePrefix::Boolean => 0x11,
            ContentTypePrefix::Float64 => 0x12,
            ContentTypePrefix::Array => 0x20,
            ContentTypePrefix::Mapping => 0x21,
        }
    }

    /// The kind whose prefix is `byte`; an error for any other byte.
    pub fn try_from(byte: u8) -> (result: Result<ContentTypePrefix, UnitContentError>)
        ensures
            match result {
                Ok(p) => p.spec_byte() == byte,
                Err(e) => e == UnitContentError::UnexpectedTypePrefix(byte) && byte != 0x00 && byte != 0x10
                    && byte != 0x11 && byte != 0x12 && byte != 0x20 && byte != 0x21,
            },
    {
        if byte == 0x00 {
            Ok(ContentTypePrefix::Nil)
        } else if byte == 0x10 {
            Ok(ContentTypePrefix::String)
        } else if byte == 0x11 {
            Ok(ContentTypePrefix::Boolean)
        } else if byte == 0x12 {
            Ok(ContentTypePrefix::Float64)
        } else if byte == 0x20 {
            Ok(ContentTypePrefix::Array)
        } else if byte == 0x21 {
            Ok(ContentTypePrefix::Mapping)
        } else {
            Err(UnitContentError::UnexpectedTypePrefix(byte))
        }
    }
}

#[derive(Debug, Clone, Copy, PartialEq, Eq, Structural)]
pub enum UnitContentError {
    UnexpectedTypePrefix(u8),
    EmptyInput,
    MissingDataBytes,
    UnexpectedLengthBytes,
    ParseUnitContentErrorError,
}

impl UnitContentError {
    pub open spec fn spec_marshal(self) -> Seq<u8> {
        match self {
            UnitContentError::UnexpectedTypePrefix(b) => seq![0x01u8, b],
            UnitContentError::EmptyInput => seq![0x02u8],
            UnitContentError::MissingDataBytes => seq![0x03u8],
            UnitContentError::UnexpectedLengthBytes => seq![0x04u8],
            UnitContentError::ParseUnitContentErrorError => seq![0x05u8],
        }
    }

    /// What `parse` gives for `data`; `None` where it would read past the end.
    pub open spec fn spec_parse(data: Seq<u8>) -> Option<(UnitContentError, nat)> {
        if data.len() == 0 {
            None
        } else if data[0] == 0x01 {
            if data.len() < 2 {
                None
            } else {
                Some((UnitContentError::UnexpectedTypePrefix(data[1]), 2))
            }
        } else if data[0] == 0x02 {
            Some((UnitContentError::EmptyInput, 1))
        } else if data[0] == 0x03 {
            Some((UnitContentError::MissingDataBytes, 1))
        } else if data[0] == 0x04 {
            Some((UnitContentError::UnexpectedLengthBytes, 1))
        } else {
            Some((UnitContentError::ParseUnitContentErrorError, 1))
        }
    }

    pub fn marshal(&self) -> (result: Vec<u8>)
        ensures
            result@ == self.spec_marshal(),
    {
        let result = match self {
            UnitContentError::UnexpectedTypePrefix(b) => vec![0x01u8, *b],
            UnitContentError::EmptyInput => vec![0x02u8],
            UnitContentError::MissingDataBytes => vec![0x03u8],
            UnitContentError::UnexpectedLengthBytes => vec![0x04u8],
            UnitContentError::ParseUnitContentErrorError => vec![0x05u8],
        };
        assert(result@ =~= self.spec_marshal());
        result
    }

    pub fn parse(data: &[u8]) -> (result: Result<(UnitContentError, usize), UnitContentError>)
        requires
            Self::spec_parse(data@) is Some,
        ensures
            result matches Ok((e, n)) && Self::spec_parse(data@) == Some((e, n as nat)),
    {
        if data[0] == 0x01 {
            Ok((UnitContentError::UnexpectedTypePrefix(data[1]), 2))
        } else if data[0] == 0x02 {
            Ok((UnitContentError::EmptyInput, 1))
        } else if data[0] == 0x03 {
            Ok((UnitContentError::MissingDataBytes, 1))
        } else if data[0] == 0x04 {
            Ok((UnitContentError::UnexpectedLengthBytes, 1))
        } else {
            Ok((UnitContentError::ParseUnitContentErrorError, 1))
        }
    }

    /// Parsing what `marshal` wrote gives the error back.
    pub proof fn lemma_roundtrip(self, rest: Seq<u8>)
        ensures
            Self::spec_parse(self.spec_marshal() + rest) == Some((self, self.spec_marshal().len())),
    {
        let d = self.spec_marshal() + rest;
        assert(d[0] == self.spec_marshal()[0]);
        if let UnitContentError::UnexpectedTypePrefix(b) = self {
            assert(d[1] == b);
        }
    }
}

/// The byte form of a unit: its prefix, then nothing for nil, one byte for a boolean, eight
/// little-endian bytes for a number, the width-prefixed UTF-8 bytes for text, and for an array
/// or a map the width-prefixed concatenation of its items, or of its entries (each a
/// width-prefixed key followed by its content).
pub open spec fn spec_content_bytes(c: ContentView) -> Seq<u8>
    decreases c,
{
    match c {
        ContentView::Nil => seq![0x00u8],
        ContentView::Bool(b) => seq![0x11u8, if b { 0x01u8 } else { 0x00u8 }],
        ContentView::Float64(x) => seq![0x12u8] + spec_u64_le(x),
        ContentView::String(s) => seq![0x10u8] + spec_prepend_varint_width(encode_utf8(s)),
        ContentView::Array(items) => seq![0x20u8] + spec_prepend_varint_width(spec_items_bytes(items)),
        ContentView::Mapping(entries) => seq![0x21u8] + spec_prepend_varint_width(spec_entries_bytes(entries)),
    }
}

/// The concatenated byte forms of `items`.
pub open spec fn spec_items_bytes(items: Seq<ContentView>) -> Seq<u8>
    decreases items,
{
    if items.len() == 0 {
        Seq::empty()
    } else {
        spec_items_bytes(items.drop_last()) + spec_content_bytes(items.last())
    }
}

/// The concatenated byte forms of `entries`, each a width-prefixed key and its content.
pub open spec fn spec_entries_bytes(entries: Seq<(Seq<char>, ContentView)>) -> Seq<u8>
    decreases entries,
{
    if entries.len() == 0 {
        Seq::empty()
    } else {
        spec_entries_bytes(entries.drop_last()) + spec_prepend_varint_width(encode_utf8(entries.last().0))
            + spec_content_bytes(entries.last().1)
    }
}

impl UnitContent {
    /// The byte form of the unit; see `spec_content_bytes`.
    pub fn marshal(&self) -> (result: Vec<u8>)
        ensures
            result@ == spec_content_bytes(self@),
        decreases self,
    {
        let mut result: Vec<u8> = Vec::new();
        match self {
            UnitContent::Nil => {
                result.push(0x00u8);
            },
            UnitContent::Bool(b) => {
                result.push(0x11u8);
                result.push(if *b { 0x01u8 } else { 0x00u8 });
            },
            UnitContent::Float64(x) => {
                result.push(0x12u8);
                append_bytes(&mut result, &u64_to_u8_array(*x));
            },
            UnitContent::String(s) => {
                let bytes = s.as_str().as_bytes();
                result.push(0x10u8);
                append_bytes(&mut result, &varint_encode(bytes.len() as u64));
                append_bytes(&mut result, bytes);
            },
            UnitContent::Array(items) => {
                result.push(0x20u8);
                let mut data: Vec<u8> = Vec::new();
                let mut i: usize = 0;
                while i < items.len()
                    invariant
                        *self == UnitContent::Array(*items),
                        i <= items@.len(),
                        data@ == spec_items_bytes(contents_view(items@.subrange(0, i as int))),
                    decreases items@.len() - i,
                {
                    let ghost prefix = contents_view(items@.subrange(0, i as int));
                    proof {
                        assert(items@.subrange(0, i + 1).drop_last() =~= items@.subrange(0, i as int));
                        assert(decreases_to!(*self => (*self)->Array_0));
                        assert(decreases_to!(*items => items@));
                        assert(decreases_to!(items@ => items@[i as int]));
                        assert(decreases_to!(*self => items@[i as int]));
                    }
                    let bytes = items[i].marshal();
                    append_bytes(&mut data, &bytes);
                    proof {
                        let next = contents_view(items@.subrange(0, i + 1));
                        assert(next == prefix.push(items@[i as int]@));
                        assert(next.drop_last() =~= prefix);
                    }
                    i = i + 1;
                }
                proof {
                    assert(items@.subrange(0, i as int) =~= items@);
                }
                append_bytes(&mut result, &varint_encode(data.len() as u64));
                append_bytes(&mut result, &data);
            },
            UnitContent::Mapping(entries) => {
                result.push(0x21u8);
                let mut data: Vec<u8> = Vec::new();
                let mut i: usize = 0;
                while i < entries.len()
                    invariant
                        *self == UnitContent::Mapping(*entries),
                        i <= entries@.len(),
                        data@ == spec_entries_bytes(entries_view(entries@.subrange(0, i as int))),
                    decreases entries@.len() - i,
                {
                    let ghost prefix = entries_view(entries@.subrange(0, i as int));
                    proof {
                        assert(entries@.subrange(0, i + 1).drop_last() =~= entries@.subrange(0, i as int));
                        assert(decreases_to!(*self => (*self)->Mapping_0));
                        assert(decreases_to!(*entries => entries@));
                        assert(decreases_to!(entries@ => entries@[i as int]));
                        assert(decreases_to!(entries@[i as int] => entries@[i as int].1));
                        assert(decreases_to!(*self => entries@[i as int].1));
                    }
                    let key_bytes = entries[i].0.as_str().as_bytes();
                    append_bytes(&mut data, &varint_encode(key_bytes.len() as u64));
                    append_bytes(&mut data, key_bytes);
                    let value_bytes = entries[i].1.marshal();
                    append_bytes(&mut data, &value_bytes);
                    proof {
                        let next = entries_view(entries@.subrange(0, i + 1));
                        assert(next == prefix.push((entries@[i as int].0@, entries@[i as int].1@)));
                        assert(next.drop_last() =~= prefix);
                    }
                    i = i + 1;
                }
                proof {
                    assert(entries@.subrange(0, i as int) =~= entries@);
                }
                append_bytes(&mut result, &varint_encode(data.len() as u64));
                append_bytes(&mut result, &data);
            },
        }
        assert(result@ =~= spec_content_bytes(self@));
        result
    }
}

/// The first place of `key` among the keys of `m`, if any.
pub open spec fn spec_key_position(m: Seq<(Seq<char>, ContentView)>, key: Seq<char>) -> Option<int> {
    if exists|i: int| 0 <= i < m.len() && m[i].0 == key && forall|j: int| 0 <= j < i ==> m[j].0 != key {
        Some(choose|i: int| 0 <= i < m.len() && m[i].0 == key && forall|j: int| 0 <= j < i ==> m[j].0 != key)
    } else {
        None
    }
}

/// `m` with `key` holding `value`: in place of the first entry with that key, or at the end.
pub open spec fn spec_insert_entry(m: Seq<(Seq<char>, ContentView)>, key: Seq<char>, value: ContentView) -> Seq<(Seq<char>, ContentView)> {
    match spec_key_position(m, key) {
        Some(i) => m.update(i, (key, value)),
        None => m.push((key, value)),
    }
}

/// `m` with each of `entries` inserted in turn.
pub open spec fn spec_insert_all(m: Seq<(Seq<char>, ContentView)>, entries: Seq<(Seq<char>, ContentView)>) -> Seq<(Seq<char>, ContentView)>
    decreases entries.len(),
{
    if entries.len() == 0 {
        m
    } else {
        spec_insert_all(spec_insert_entry(m, entries[0].0, entries[0].1), entries.subrange(1, entries.len() as int))
    }
}

/// What parsing the bytes of a unit gives, with the number of bytes it takes; `None` where a
/// width overruns the bytes. Text is decoded leniently (`spec_lenient_text`); a later map entry with
/// the key of an earlier one replaces its content.
pub open spec fn spec_parse_content(data: Seq<u8>) -> Option<Result<(ContentView, nat), UnitContentError>>
    decreases data.len(), 0nat,
{
    if data.len() == 0 {
        Some(Err(UnitContentError::EmptyInput))
    } else {
        let p = data[0];
        let rest = data.subrange(1, data.len() as int);
        if p == 0x00 {
            Some(Ok((ContentView::Nil, 1)))
        } else if p == 0x11 {
            if rest.len() == 0 {
                Some(Err(UnitContentError::MissingDataBytes))
            } else {
                Some(Ok((ContentView::Bool(rest[0] != 0), 2)))
            }
        } else if p == 0x12 {
            if rest.len() < 8 {
                Some(Err(UnitContentError::MissingDataBytes))
            } else {
                Some(Ok((ContentView::Float64(spec_u64_from_le(rest)), 9)))
            }
        } else if p == 0x10 || p == 0x20 || p == 0x21 {
            match spec_length_prefixed(rest) {
                None => None,
                Some(Err(_)) => Some(Err(UnitContentError::UnexpectedLengthBytes)),
                Some(Ok((body, n))) => {
                    if body.len() >= data.len() {
                        None
                    } else if p == 0x10 {
                        Some(Ok((ContentView::String(spec_lenient_text(body)), 1 + n)))
                    } else if p == 0x20 {
                        match spec_parse_items(body) {
                            None => None,
                            Some(Err(e)) => Some(Err(e)),
                            Some(Ok(items)) => Some(Ok((ContentView::Array(items), 1 + n))),
                        }
                    } else {
                        match spec_parse_entries(body) {
                            None => None,
                            Some(Err(e)) => Some(Err(e)),
                            Some(Ok(entries)) => Some(
                                Ok((ContentView::Mapping(spec_insert_all(Seq::empty(), entries)), 1 + n)),
                            ),
                        }
                    }
                },
            }
        } else {
            Some(Err(UnitContentError::UnexpectedTypePrefix(p)))
        }
    }
}

/// The units that follow one another in `data`, to its end.
pub open spec fn spec_parse_items(data: Seq<u8>) -> Option<Result<Seq<ContentView>, UnitContentError>>
    decreases data.len(), 1nat,
{
    if data.len() == 0 {
        Some(Ok(Seq::empty()))
    } else {
        match spec_parse_content(data) {
            None => None,
            Some(Err(e)) => Some(Err(e)),
            Some(Ok((c, n))) => {
                if n == 0 || n > data.len() {
                    None
                } else {
                    match spec_parse_items(data.subrange(n as int, data.len() as int)) {
                        None => None,
                        Some(Err(e)) => Some(Err(e)),
                        Some(Ok(rest)) => Some(Ok(seq![c] + rest)),
                    }
                }
            },
        }
    }
}

/// The map entries that follow one another in `data`, to its end, each a width-prefixed key and
/// a unit.
pub open spec fn spec_parse_entries(data: Seq<u8>) -> Option<Result<Seq<(Seq<char>, ContentView)>, UnitContentError>>
    decreases data.len(), 1nat,
{
    if data.len() == 0 {
        Some(Ok(Seq::empty()))
    } else {
        match spec_length_prefixed(data) {
            None => None,
            Some(Err(_)) => Some(Err(UnitContentError::UnexpectedLengthBytes)),
            Some(Ok((key_bytes, p))) => {
                if p == 0 || p > data.len() {
                    None
                } else {
                    match spec_parse_content(data.subrange(p as int, data.len() as int)) {
                        None => None,
                        Some(Err(e)) => Some(Err(e)),
                        Some(Ok((c, n))) => {
                            if n == 0 || p + n > data.len() {
                                None
                            } else {
                                match spec_parse_entries(data.subrange((p + n) as int, data.len() as int)) {
                                    None => None,
                                    Some(Err(e)) => Some(Err(e)),
                                    Some(Ok(rest)) => Some(Ok(seq![(spec_lenient_text(key_bytes), c)] + rest)),
                                }
                            }
                        },
                    }
                }
            },
        }
    }
}

/// `r` with `prefix` in front of the units it gives.
pub open spec fn prefixed_items(prefix: Seq<ContentView>, r: Option<Result<Seq<ContentView>, UnitContentError>>) -> Option<Result<Seq<ContentView>, UnitContentError>> {
    match r {
        Some(Ok(rest)) => Some(Ok(prefix + rest)),
        other => other,
    }
}

/// `r` with `prefix` in front of the entries it gives.
pub open spec fn prefixed_entries(prefix: Seq<(Seq<char>, ContentView)>, r: Option<Result<Seq<(Seq<char>, ContentView)>, UnitContentError>>) -> Option<Result<Seq<(Seq<char>, ContentView)>, UnitContentError>> {
    match r {
        Some(Ok(rest)) => Some(Ok(prefix + rest)),
        other => other,
    }
}

/// The view of an entry sequence has its length, and its entries are the views of the
/// entries.
pub proof fn lemma_entries_view_at(entries: Seq<(String, UnitContent)>, i: int)
    requires
        0 <= i < entries.len(),
    ensures
        entries_view(entries).len() == entries.len(),
        entries_view(entries)[i] == (entries[i].0@, entries[i].1@),
    decreases entries.len(),
{
    lemma_entries_view_len(entries);
    if i < entries.len() - 1 {
        lemma_entries_view_at(entries.drop_last(), i);
    }
}

/// The view of an entry sequence has its length.
pub proof fn lemma_entries_view_len(entries: Seq<(String, UnitContent)>)
    ensures
        entries_view(entries).len() == entries.len(),
    decreases entries.len(),
{
    if entries.len() > 0 {
        lemma_entries_view_len(entries.drop_last());
    }
}

/// The view of an entry sequence is that of its entries, one by one.
pub proof fn lemma_entries_view_all(entries: Seq<(String, UnitContent)>)
    ensures
        entries_view(entries).len() == entries.len(),
        forall|i: int| 0 <= i < entries.len() ==> #[trigger] entries_view(entries)[i] == (entries[i].0@, entries[i].1@),
{
    lemma_entries_view_len(entries);
    assert forall|i: int| 0 <= i < entries.len() implies #[trigger] entries_view(entries)[i] == (entries[i].0@, entries[i].1@) by {
        lemma_entries_view_at(entries, i);
    }
}

/// The view of a unit sequence has its length, and its items are the views of the units.
pub proof fn lemma_contents_view_all(items: Seq<UnitContent>)
    ensures
        contents_view(items).len() == items.len(),
        forall|i: int| 0 <= i < items.len() ==> #[trigger] contents_view(items)[i] == items[i]@,
    decreases items.len(),
{
    if items.len() > 0 {
        lemma_contents_view_all(items.drop_last());
        assert forall|i: int| 0 <= i < items.len() implies #[trigger] contents_view(items)[i] == items[i]@ by {
            if i < items.len() - 1 {
                assert(contents_view(items.drop_last())[i] == items.drop_last()[i]@);
            }
        }
    }
}

/// Puts `key` with `value` in the map's entries: in place of the first entry with that key, or
/// at the end.
fn insert_entry(entries: &mut Vec<(String, UnitContent)>, key: String, value: UnitContent)
    ensures
        entries_view(final(entries)@) == spec_insert_entry(entries_view(old(entries)@), key@, value@),
{
    let ghost before = entries_view(entries@);
    proof {
        lemma_entries_view_all(entries@);
    }
    let mut i: usize = 0;
    while i < entries.len()
        invariant
            i <= entries@.len(),
            *entries == *old(entries),
            before == entries_view(entries@),
            before.len() == entries@.len(),
            forall|j: int| 0 <= j < entries@.len() ==> #[trigger] before[j] == (entries@[j].0@, entries@[j].1@),
            forall|j: int| 0 <= j < i ==> before[j].0 != key@,
        decreases entries@.len() - i,
    {
        if entries[i].0 == key {
            proof {
                assert(before[i as int].0 == key@);
                let c = choose|c: int| 0 <= c < before.len() && before[c].0 == key@ && forall|j: int| 0 <= j < c ==> before[j].0 != key@;
                if c != i {
                    if c < i {
                        assert(before[c].0 != key@);
                    } else {
                        assert(before[i as int].0 != key@);
                    }
                }
                assert(spec_key_position(before, key@) == Some(i as int));
            }
            entries.set(i, (key, value));
            proof {
                lemma_entries_view_all(entries@);
                assert(entries_view(entries@) =~= before.update(i as int, (key@, value@)));
            }
            return;
        }
        i = i + 1;
    }
    proof {
        assert(spec_key_position(before, key@) is None);
    }
    entries.push((key, value));
    proof {
        lemma_entries_view_all(entries@);
        assert(entries_view(entries@) =~= before.push((key@, value@)));
    }
}

/// Inserting one more entry at the end of the list inserts it last.
pub proof fn lemma_insert_all_push(m: Seq<(Seq<char>, ContentView)>, entries: Seq<(Seq<char>, ContentView)>, e: (Seq<char>, ContentView))
    ensures
        spec_insert_all(m, entries.push(e)) == spec_insert_entry(spec_insert_all(m, entries), e.0, e.1),
    decreases entries.len(),
{
    if entries.len() == 0 {
        assert(entries.push(e)[0] == e);
        assert(entries.push(e).subrange(1, 1) =~= Seq::<(Seq<char>, ContentView)>::empty());
        let x = spec_insert_entry(m, e.0, e.1);
        assert(spec_insert_all(x, Seq::<(Seq<char>, ContentView)>::empty()) == x);
        assert(spec_insert_all(m, entries.push(e)) == spec_insert_all(x, entries.push(e).subrange(1, 1)));
    } else {
        assert(entries.push(e)[0] == entries[0]);
        let m2 = spec_insert_entry(m, entries[0].0, entries[0].1);
        assert(entries.push(e).subrange(1, (entries.len() + 1) as int) =~= entries.subrange(1, entries.len() as int).push(e));
        lemma_insert_all_push(m2, entries.subrange(1, entries.len() as int), e);
    }
}

impl UnitContent {
    /// Reads the unit at the start of `data`, with the number of bytes it takes; see
    /// `spec_parse_content`.
    pub fn parse(data: &[u8]) -> (result: Result<(UnitContent, usize), UnitContentError>)
        requires
            spec_parse_content(data@) is Some,
        ensures
            match result {
                Ok((c, n)) => spec_parse_content(data@) == Some(Ok::<(ContentView, nat), UnitContentError>((c@, n as nat)))
                    && crate::storage::executor::unit_content_laws::maps_unique(c@),
                Err(e) => spec_parse_content(data@) == Some(Err::<(ContentView, nat), UnitContentError>(e)),
            },
    {
        proof {
            crate::storage::executor::unit_content_laws::lemma_parsed_content_unique(data@);
        }
        match Self::parse_checked(data) {
            Some(r) => r,
            None => {
                assert(false);
                Err(UnitContentError::EmptyInput)
            },
        }
    }

    /// Like `parse`, with `None` where a width overruns the bytes.
    pub fn parse_checked(data: &[u8]) -> (result: Option<Result<(UnitContent, usize), UnitContentError>>)
        ensures
            match result {
                None => spec_parse_content(data@) is None,
                Some(Ok((c, n))) => spec_parse_content(data@) == Some(Ok::<(ContentView, nat), UnitContentError>((c@, n as nat)))
                    && 0 < n <= data@.len(),
                Some(Err(e)) => spec_parse_content(data@) == Some(Err::<(ContentView, nat), UnitContentError>(e)),
            },
        decreases data@.len(), 0nat,
    {
        if data.len() == 0 {
            return Some(Err(UnitContentError::EmptyInput));
        }
        let p = data[0];
        let rest = tail_bytes(data, 1);
        if p == 0x00 {
            Some(Ok((UnitContent::Nil, 1)))
        } else if p == 0x11 {
            if rest.len() == 0 {
                Some(Err(UnitContentError::MissingDataBytes))
            } else {
                Some(Ok((UnitContent::Bool(rest[0] != 0), 2)))
            }
        } else if p == 0x12 {
            if rest.len() < 8 {
                Some(Err(UnitContentError::MissingDataBytes))
            } else {
                let x = read_u64_le(rest, 0);
                assert(rest@.subrange(0, 8)[0] == rest@[0] && rest@.subrange(0, 8)[7] == rest@[7]);
                assert(rest@.subrange(0, 8)[1] == rest@[1] && rest@.subrange(0, 8)[2] == rest@[2]);
                assert(rest@.subrange(0, 8)[3] == rest@[3] && rest@.subrange(0, 8)[4] == rest@[4]);
                assert(rest@.subrange(0, 8)[5] == rest@[5] && rest@.subrange(0, 8)[6] == rest@[6]);
                Some(Ok((UnitContent::Float64(x), 9)))
            }
        } else if p == 0x10 || p == 0x20 || p == 0x21 {
            match read_length_prefixed(rest) {
                None => None,
                Some(Err(_)) => Some(Err(UnitContentError::UnexpectedLengthBytes)),
                Some(Ok((body, n))) => {
                    if body.len() >= data.len() {
                        return None;
                    }
                    if p == 0x10 {
                        Some(Ok((UnitContent::String(string_from_utf8_lossy(body)), 1 + n)))
                    } else if p == 0x20 {
                        match parse_items_checked(body) {
                            None => None,
                            Some(Err(e)) => Some(Err(e)),
                            Some(Ok(items)) => Some(Ok((UnitContent::Array(items), 1 + n))),
                        }
                    } else {
                        match parse_entries_checked(body) {
                            None => None,
                            Some(Err(e)) => Some(Err(e)),
                            Some(Ok(entries)) => Some(Ok((UnitContent::Mapping(entries), 1 + n))),
                        }
                    }
                },
            }
        } else {
            Some(Err(UnitContentError::UnexpectedTypePrefix(p)))
        }
    }
}

/// The units that follow one another in `data`, to its end; see `spec_parse_items`.
fn parse_items_checked(data: &[u8]) -> (result: Option<Result<Vec<UnitContent>, UnitContentError>>)
    ensures
        match result {
            None => spec_parse_items(data@) is None,
            Some(Ok(items)) => spec_parse_items(data@) == Some(Ok::<Seq<ContentView>, UnitContentError>(contents_view(items@))),
            Some(Err(e)) => spec_parse_items(data@) == Some(Err::<Seq<ContentView>, UnitContentError>(e)),
        },
    decreases data@.len(), 1nat,
{
    let mut items: Vec<UnitContent> = Vec::new();
    let mut pos: usize = 0;
    proof {
        assert(data@.subrange(0, data@.len() as int) =~= data@);
        match spec_parse_items(data@) {
            Some(Ok(r)) => {
                assert(Seq::<ContentView>::empty() + r =~= r);
            },
            _ => {},
        }
    }
    while pos < data.len()
        invariant
            pos <= data@.len(),
            spec_parse_items(data@) == prefixed_items(contents_view(items@), spec_parse_items(data@.subrange(pos as int, data@.len() as int))),
        decreases data@.len() - pos,
    {
        let rest = tail_bytes(data, pos);
        let ghost before = contents_view(items@);
        match UnitContent::parse_checked(rest) {
            None => {
                return None;
            },
            Some(Err(e)) => {
                return Some(Err(e));
            },
            Some(Ok((c, n))) => {
                let ghost cv = c@;
                let ghost tail = spec_parse_items(rest@.subrange(n as int, rest@.len() as int));
                proof {
                    assert(rest@.subrange(n as int, rest@.len() as int) =~= data@.subrange(pos + n, data@.len() as int));
                }
                let ghost old_items = items@;
                items.push(c);
                proof {
                    assert(items@.drop_last() =~= old_items);
                    assert(contents_view(items@) == before.push(cv));
                    match tail {
                        Some(Ok(r)) => {
                            assert(before + (seq![cv] + r) =~= before.push(cv) + r);
                        },
                        _ => {},
                    }
                }
                pos = pos + n;
            },
        }
    }
    proof {
        assert(data@.subrange(pos as int, data@.len() as int) =~= Seq::<u8>::empty());
        assert(contents_view(items@) + Seq::<ContentView>::empty() =~= contents_view(items@));
    }
    Some(Ok(items))
}

/// The map entries that follow one another in `data`, to its end, put in a map in turn; see
/// `spec_parse_entries` and `spec_insert_all`.
fn parse_entries_checked(data: &[u8]) -> (result: Option<Result<Vec<(String, UnitContent)>, UnitContentError>>)
    ensures
        match result {
            None => spec_parse_entries(data@) is None,
            Some(Ok(entries)) => spec_parse_entries(data@) matches Some(Ok(raw))
                && entries_view(entries@) == spec_insert_all(Seq::empty(), raw),
            Some(Err(e)) => spec_parse_entries(data@) == Some(Err::<Seq<(Seq<char>, ContentView)>, UnitContentError>(e)),
        },
    decreases data@.len(), 1nat,
{
    let mut entries: Vec<(String, UnitContent)> = Vec::new();
    let ghost mut raw: Seq<(Seq<char>, ContentView)> = Seq::empty();
    let mut pos: usize = 0;
    proof {
        assert(data@.subrange(0, data@.len() as int) =~= data@);
        match spec_parse_entries(data@) {
            Some(Ok(r)) => {
                assert(Seq::<(Seq<char>, ContentView)>::empty() + r =~= r);
            },
            _ => {},
        }
        assert(entries_view(entries@) =~= Seq::<(Seq<char>, ContentView)>::empty());
    }
    while pos < data.len()
        invariant
            pos <= data@.len(),
            spec_parse_entries(data@) == prefixed_entries(raw, spec_parse_entries(data@.subrange(pos as int, data@.len() as int))),
            entries_view(entries@) == spec_insert_all(Seq::empty(), raw),
        decreases data@.len() - pos,
    {
        let rest = tail_bytes(data, pos);
        match read_length_prefixed(rest) {
            None => {
                return None;
            },
            Some(Err(_)) => {
                return Some(Err(UnitContentError::UnexpectedLengthBytes));
            },
            Some(Ok((key_bytes, p))) => {
                if p == 0 {
                    return None;
                }
                let after_key = tail_bytes(rest, p);
                match UnitContent::parse_checked(after_key) {
                    None => {
                        return None;
                    },
                    Some(Err(e)) => {
                        return Some(Err(e));
                    },
                    Some(Ok((c, n))) => {
                        let key = string_from_utf8_lossy(key_bytes);
                        let ghost e = (key@, c@);
                        let ghost tail = spec_parse_entries(rest@.subrange((p + n) as int, rest@.len() as int));
                        proof {
                            assert(after_key@ =~= rest@.subrange(p as int, rest@.len() as int));
                            assert(rest@.subrange((p + n) as int, rest@.len() as int) =~= data@.subrange(pos + p + n, data@.len() as int));
                            lemma_insert_all_push(Seq::empty(), raw, e);
                            match tail {
                                Some(Ok(r)) => {
                                    assert(raw + (seq![e] + r) =~= raw.push(e) + r);
                                },
                                _ => {},
                            }
                        }
                        insert_entry(&mut entries, key, c);
                        proof {
                            raw = raw.push(e);
                        }
                        pos = pos + p + n;
                    },
                }
            },
        }
    }
    proof {
        assert(data@.subrange(pos as int, data@.len() as int) =~= Seq::<u8>::empty());
        assert(raw + Seq::<(Seq<char>, ContentView)>::empty() =~= raw);
    }
    Some(Ok(entries))
}

/// Every key of `entries` occurs once.
pub open spec fn keys_unique(entries: Seq<(Seq<char>, ContentView)>) -> bool {
    forall|i: int, j: int| 0 <= i < j < entries.len() ==> entries[i].0 != entries[j].0
}

/// A unit whose byte form reads back as itself: every map has each key once, and every width
/// fits a varint.
pub open spec fn content_wf(c: ContentView) -> bool
    decreases c,
{
    match c {
        ContentView::String(s) => encode_utf8(s).len() <= u64::MAX,
        ContentView::Array(items) => spec_items_bytes(items).len() <= u64::MAX && forall|i: int|
            0 <= i < items.len() ==> content_wf(#[trigger] items[i]),
        ContentView::Mapping(entries) => spec_entries_bytes(entries).len() <= u64::MAX && keys_unique(entries)
            && forall|i: int| 0 <= i < entries.len() ==> encode_utf8(#[trigger] entries[i].0).len() <= u64::MAX
            && content_wf(entries[i].1),
        _ => true,
    }
}

/// The byte form of a list of units starts with that of its first unit.
pub proof fn lemma_items_bytes_first(items: Seq<ContentView>)
    requires
        items.len() > 0,
    ensures
        spec_items_bytes(items) == spec_content_bytes(items[0]) + spec_items_bytes(items.subrange(1, items.len() as int)),
    decreases items.len(),
{
    if items.len() == 1 {
        assert(items.drop_last() =~= Seq::<ContentView>::empty());
        assert(items.subrange(1, 1) =~= Seq::<ContentView>::empty());
        assert(spec_items_bytes(items.drop_last()) == Seq::<u8>::empty());
        assert(spec_content_bytes(items[0]) + Seq::<u8>::empty() =~= spec_content_bytes(items[0]));
    } else {
        let init = items.drop_last();
        lemma_items_bytes_first(init);
        assert(init.subrange(1, init.len() as int) =~= items.subrange(1, items.len() as int).drop_last());
        assert(items.subrange(1, items.len() as int).last() == items.last());
        assert(init[0] == items[0]);
        assert(spec_items_bytes(items) =~= spec_content_bytes(items[0]) + spec_items_bytes(items.subrange(1, items.len() as int)));
    }
}

/// The byte form of a list of entries starts with that of its first entry.
proof fn lemma_entries_bytes_first(entries: Seq<(Seq<char>, ContentView)>)
    requires
        entries.len() > 0,
    ensures
        spec_entries_bytes(entries) == spec_prepend_varint_width(encode_utf8(entries[0].0)) + spec_content_bytes(entries[0].1)
            + spec_entries_bytes(entries.subrange(1, entries.len() as int)),
    decreases entries.len(),
{
    if entries.len() == 1 {
        assert(entries.drop_last() =~= Seq::<(Seq<char>, ContentView)>::empty());
        assert(entries.subrange(1, 1) =~= Seq::<(Seq<char>, ContentView)>::empty());
        assert(spec_entries_bytes(entries.drop_last()) == Seq::<u8>::empty());
        assert(spec_entries_bytes(entries) =~= spec_prepend_varint_width(encode_utf8(entries[0].0)) + spec_content_bytes(entries[0].1)
            + Seq::<u8>::empty());
    } else {
        let init = entries.drop_last();
        lemma_entries_bytes_first(init);
        assert(init.subrange(1, init.len() as int) =~= entries.subrange(1, entries.len() as int).drop_last());
        assert(entries.subrange(1, entries.len() as int).last() == entries.last());
        assert(init[0] == entries[0]);
        assert(spec_entries_bytes(entries) =~= spec_prepend_varint_width(encode_utf8(entries[0].0)) + spec_content_bytes(entries[0].1)
            + spec_entries_bytes(entries.subrange(1, entries.len() as int)));
    }
}

/// Inserting entries whose keys are new, each once, appends them.
proof fn lemma_insert_all_fresh(m: Seq<(Seq<char>, ContentView)>, entries: Seq<(Seq<char>, ContentView)>)
    requires
        keys_unique(m + entries),
    ensures
        spec_insert_all(m, entries) == m + entries,
    decreases entries.len(),
{
    if entries.len() == 0 {
        assert(m + entries =~= m);
    } else {
        let e = entries[0];
        assert(spec_key_position(m, e.0) is None) by {
            if exists|i: int| 0 <= i < m.len() && m[i].0 == e.0 && forall|j: int| 0 <= j < i ==> m[j].0 != e.0 {
                let i = choose|i: int| 0 <= i < m.len() && m[i].0 == e.0 && forall|j: int| 0 <= j < i ==> m[j].0 != e.0;
                assert((m + entries)[i].0 == (m + entries)[m.len() as int].0);
            }
        }
        let m2 = m.push(e);
        let rest = entries.subrange(1, entries.len() as int);
        assert(m2 + rest =~= m + entries);
        lemma_insert_all_fresh(m2, rest);
    }
}

/// Parsing the byte form of a well-formed unit gives the unit back, with the width of its byte
/// form, whatever follows it.
pub proof fn lemma_content_roundtrip(c: ContentView, rest: Seq<u8>)
    requires
        content_wf(c),
    ensures
        spec_parse_content(spec_content_bytes(c) + rest) == Some(
            Ok::<(ContentView, nat), UnitContentError>((c, spec_content_bytes(c).len())),
        ),
    decreases c,
{
    broadcast use vstd::utf8::encode_utf8_valid_utf8, vstd::utf8::encode_utf8_decode_utf8;

    let b = spec_content_bytes(c);
    let d = b + rest;
    assert(d[0] == b[0]);
    let tail = d.subrange(1, d.len() as int);
    match c {
        ContentView::Nil => {},
        ContentView::Bool(x) => {
            assert(tail[0] == b[1]);
        },
        ContentView::Float64(x) => {
            crate::utils::ints::lemma_u64_le_roundtrip(x);
            let le = spec_u64_le(x);
            assert(tail.subrange(0, 8) =~= le);
            assert(tail[0] == le[0] && tail[1] == le[1] && tail[2] == le[2] && tail[3] == le[3]);
            assert(tail[4] == le[4] && tail[5] == le[5] && tail[6] == le[6] && tail[7] == le[7]);
        },
        ContentView::String(s) => {
            let bytes = encode_utf8(s);
            assert(tail =~= spec_prepend_varint_width(bytes) + rest);
            crate::utils::serialize::lemma_length_prefixed_roundtrip(bytes, rest);
        },
        ContentView::Array(items) => {
            let body = spec_items_bytes(items);
            assert(tail =~= spec_prepend_varint_width(body) + rest);
            crate::utils::serialize::lemma_length_prefixed_roundtrip(body, rest);
            lemma_items_roundtrip(items);
        },
        ContentView::Mapping(entries) => {
            let body = spec_entries_bytes(entries);
            assert(tail =~= spec_prepend_varint_width(body) + rest);
            crate::utils::serialize::lemma_length_prefixed_roundtrip(body, rest);
            lemma_entries_roundtrip(entries);
            assert(Seq::<(Seq<char>, ContentView)>::empty() + entries =~= entries);
            lemma_insert_all_fresh(Seq::empty(), entries);
        },
    }
}

/// Parsing the byte form of well-formed units gives them back.
proof fn lemma_items_roundtrip(items: Seq<ContentView>)
    requires
        forall|i: int| 0 <= i < items.len() ==> content_wf(#[trigger] items[i]),
    ensures
        spec_parse_items(spec_items_bytes(items)) == Some(Ok::<Seq<ContentView>, UnitContentError>(items)),
    decreases items,
{
    if items.len() == 0 {
        assert(items =~= Seq::<ContentView>::empty());
    } else {
        let first = items[0];
        let others = items.subrange(1, items.len() as int);
        lemma_items_bytes_first(items);
        let fb = spec_content_bytes(first);
        let ob = spec_items_bytes(others);
        assert(content_wf(first));
        lemma_content_roundtrip(first, ob);
        assert(forall|i: int| 0 <= i < others.len() ==> others[i] == items[i + 1]);
        lemma_items_roundtrip(others);
        let d = fb + ob;
        assert(spec_items_bytes(items) == d);
        assert(d.subrange(fb.len() as int, d.len() as int) =~= ob);
        assert(seq![first] + others =~= items);
        assert(fb.len() > 0);
        assert(spec_parse_content(d) == Some(Ok::<(ContentView, nat), UnitContentError>((first, fb.len()))));
        assert(spec_parse_items(d) == Some(Ok::<Seq<ContentView>, UnitContentError>(seq![first] + others)));
    }
}

/// One step of parsing entries: a width-prefixed key, a unit that parses, then entries that
/// parse.
#[verifier::rlimit(40)]
proof fn lemma_entries_step(key: Seq<char>, c: ContentView, cb: Seq<u8>, ob: Seq<u8>, others: Seq<(Seq<char>, ContentView)>)
    requires
        encode_utf8(key).len() <= u64::MAX,
        cb.len() > 0,
        spec_parse_content(cb + ob) == Some(Ok::<(ContentView, nat), UnitContentError>((c, cb.len()))),
        spec_parse_entries(ob) == Some(Ok::<Seq<(Seq<char>, ContentView)>, UnitContentError>(others)),
    ensures
        spec_parse_entries(spec_prepend_varint_width(encode_utf8(key)) + cb + ob) == Some(
            Ok::<Seq<(Seq<char>, ContentView)>, UnitContentError>(seq![(key, c)] + others),
        ),
{
    let kb = spec_prepend_varint_width(encode_utf8(key));
    let d = kb + cb + ob;
    crate::utils::serialize::lemma_length_prefixed_roundtrip(encode_utf8(key), cb + ob);
    assert(d =~= kb + (cb + ob));
    assert(d.subrange(kb.len() as int, d.len() as int) =~= cb + ob);
    assert(d.subrange((kb.len() + cb.len()) as int, d.len() as int) =~= ob);
    vstd::utf8::encode_utf8_valid_utf8(key);
    vstd::utf8::encode_utf8_decode_utf8(key);
    assert(spec_lenient_text(encode_utf8(key)) == key);
}

/// Parsing the byte form of well-formed entries gives them back.
#[verifier::rlimit(60)]
proof fn lemma_entries_roundtrip(entries: Seq<(Seq<char>, ContentView)>)
    requires
        forall|i: int| 0 <= i < entries.len() ==> encode_utf8(#[trigger] entries[i].0).len() <= u64::MAX
            && content_wf(entries[i].1),
    ensures
        spec_parse_entries(spec_entries_bytes(entries)) == Some(
            Ok::<Seq<(Seq<char>, ContentView)>, UnitContentError>(entries),
        ),
    decreases entries,
{
    if entries.len() == 0 {
        assert(entries =~= Seq::<(Seq<char>, ContentView)>::empty());
    } else {
        let first = entries[0];
        let others = entries.subrange(1, entries.len() as int);
        lemma_entries_bytes_first(entries);
        let cb = spec_content_bytes(first.1);
        let ob = spec_entries_bytes(others);
        assert(encode_utf8(first.0).len() <= u64::MAX && content_wf(first.1));
        assert(decreases_to!(entries => entries[0]));
        assert(decreases_to!(entries[0] => entries[0].1));
        lemma_content_roundtrip(first.1, ob);
        assert forall|i: int| 0 <= i < others.len() implies encode_utf8(#[trigger] others[i].0).len() <= u64::MAX
            && content_wf(others[i].1) by {
            assert(others[i] == entries[i + 1]);
        }
        lemma_entries_roundtrip(others);
        lemma_entries_step(first.0, first.1, cb, ob, others);
        assert(seq![(first.0, first.1)] + others =~= entries);
    }
}

/// Whether the bit pattern is that of a NaN.
pub open spec fn float_is_nan(x: u64) -> bool {
    (x & 0x7ff0_0000_0000_0000u64) == 0x7ff0_0000_0000_0000u64 && (x & 0x000f_ffff_ffff_ffffu64) != 0
}

/// Where the number with bit pattern `x` stands among numbers that are not NaN: its sign
/// applied to the rest of its bits, so that both zeros stand at zero.
pub open spec fn float_rank(x: u64) -> int {
    if (x & 0x8000_0000_0000_0000u64) != 0 {
        -((x & 0x7fff_ffff_ffff_ffffu64) as int)
    } else {
        (x & 0x7fff_ffff_ffff_ffffu64) as int
    }
}

/// How two numbers compare, by their bit patterns, as IEEE 754 compares them: unordered when
/// either is NaN, and the two zeros equal.
pub open spec fn spec_float_order(x: u64, y: u64) -> Option<ContentOrdering> {
    if float_is_nan(x) || float_is_nan(y) {
        None
    } else if float_rank(x) < float_rank(y) {
        Some(ContentOrdering::Less)
    } else if float_rank(x) == float_rank(y) {
        Some(ContentOrdering::Equal)
    } else {
        Some(ContentOrdering::Greater)
    }
}

/// The outcome of comparing two units.
#[derive(Debug, Clone, Copy, PartialEq, Eq, Structural)]
pub enum ContentOrdering {
    Less,
    Equal,
    Greater,
}

/// How two numbers compare by their bit patterns; see `spec_float_order`.
pub fn float_compare(x: u64, y: u64) -> (result: Option<ContentOrdering>)
    ensures
        result == spec_float_order(x, y),
{
    let x_nan = (x & 0x7ff0_0000_0000_0000u64) == 0x7ff0_0000_0000_0000u64 && (x & 0x000f_ffff_ffff_ffffu64) != 0;
    let y_nan = (y & 0x7ff0_0000_0000_0000u64) == 0x7ff0_0000_0000_0000u64 && (y & 0x000f_ffff_ffff_ffffu64) != 0;
    if x_nan || y_nan {
        return None;
    }
    let x_negative = (x & 0x8000_0000_0000_0000u64) != 0;
    let y_negative = (y & 0x8000_0000_0000_0000u64) != 0;
    let x_magnitude = x & 0x7fff_ffff_ffff_ffffu64;
    let y_magnitude = y & 0x7fff_ffff_ffff_ffffu64;
    let result = if !x_negative && !y_negative {
        if x_magnitude < y_magnitude {
            ContentOrdering::Less
        } else if x_magnitude == y_magnitude {
            ContentOrdering::Equal
        } else {
            ContentOrdering::Greater
        }
    } else if x_negative && y_negative {
        if x_magnitude > y_magnitude {
            ContentOrdering::Less
        } else if x_magnitude == y_magnitude {
            ContentOrdering::Equal
        } else {
            ContentOrdering::Greater
        }
    } else if x_negative {
        if x_magnitude == 0 && y_magnitude == 0 {
            ContentOrdering::Equal
        } else {
            ContentOrdering::Less
        }
    } else {
        if x_magnitude == 0 && y_magnitude == 0 {
            ContentOrdering::Equal
        } else {
            ContentOrdering::Greater
        }
    };
    Some(result)
}

/// How two units compare: numbers as IEEE 754 compares them; any other pair is unordered.
pub open spec fn spec_content_order(a: ContentView, b: ContentView) -> Option<ContentOrdering> {
    match (a, b) {
        (ContentView::Float64(x), ContentView::Float64(y)) => spec_float_order(x, y),
        _ => None,
    }
}

/// Whether two units are equal: numbers as IEEE 754 compares them, arrays item by item, maps
/// with the same number of entries where each key of the first holds, in the second, a unit
/// equal to its own.
pub open spec fn content_eq(a: ContentView, b: ContentView) -> bool
    decreases a,
{
    match (a, b) {
        (ContentView::Nil, ContentView::Nil) => true,
        (ContentView::String(x), ContentView::String(y)) => x == y,
        (ContentView::Bool(x), ContentView::Bool(y)) => x == y,
        (ContentView::Float64(x), ContentView::Float64(y)) => spec_float_order(x, y) == Some(ContentOrdering::Equal),
        (ContentView::Array(x), ContentView::Array(y)) => x.len() == y.len() && forall|i: int|
            0 <= i < x.len() ==> content_eq(#[trigger] x[i], y[i]),
        (ContentView::Mapping(x), ContentView::Mapping(y)) => x.len() == y.len() && forall|i: int|
            0 <= i < x.len() ==> (#[trigger] spec_key_position(y, x[i].0) matches Some(j) && content_eq(
                x[i].1,
                y[j].1,
            )),
        _ => false,
    }
}

/// The first place of `key` among the keys of `entries`; see `spec_key_position`.
pub fn key_position(entries: &Vec<(String, UnitContent)>, key: &String) -> (result: Option<usize>)
    ensures
        match result {
            Some(i) => spec_key_position(entries_view(entries@), key@) == Some(i as int) && i < entries@.len(),
            None => spec_key_position(entries_view(entries@), key@) is None,
        },
{
    let ghost view = entries_view(entries@);
    proof {
        lemma_entries_view_all(entries@);
    }
    let mut i: usize = 0;
    while i < entries.len()
        invariant
            i <= entries@.len(),
            view == entries_view(entries@),
            view.len() == entries@.len(),
            forall|j: int| 0 <= j < entries@.len() ==> #[trigger] view[j] == (entries@[j].0@, entries@[j].1@),
            forall|j: int| 0 <= j < i ==> view[j].0 != key@,
        decreases entries@.len() - i,
    {
        if entries[i].0 == *key {
            proof {
                assert(view[i as int].0 == key@);
                assert(exists|c: int| 0 <= c < view.len() && view[c].0 == key@ && forall|j: int| 0 <= j < c ==> view[j].0 != key@) by {
                    assert(0 <= i < view.len() && view[i as int].0 == key@ && forall|j: int| 0 <= j < i ==> view[j].0 != key@);
                }
                let c = choose|c: int| 0 <= c < view.len() && view[c].0 == key@ && forall|j: int| 0 <= j < c ==> view[j].0 != key@;
                if c != i {
                    if c < i {
                        assert(view[c].0 != key@);
                    } else {
                        assert(view[i as int].0 != key@);
                    }
                }
            }
            return Some(i);
        }
        i = i + 1;
    }
    None
}

/// Whether two units are equal; see `content_eq`.
pub fn content_equals(a: &UnitContent, b: &UnitContent) -> (result: bool)
    ensures
        result == content_eq(a@, b@),
    decreases a,
{
    match (a, b) {
        (UnitContent::Nil, UnitContent::Nil) => true,
        (UnitContent::String(x), UnitContent::String(y)) => *x == *y,
        (UnitContent::Bool(x), UnitContent::Bool(y)) => *x == *y,
        (UnitContent::Float64(x), UnitContent::Float64(y)) => {
            match float_compare(*x, *y) {
                Some(ContentOrdering::Equal) => true,
                _ => false,
            }
        },
        (UnitContent::Array(x), UnitContent::Array(y)) => {
            proof {
                lemma_contents_view_all(x@);
                lemma_contents_view_all(y@);
            }
            if x.len() != y.len() {
                return false;
            }
            let mut i: usize = 0;
            while i < x.len()
                invariant
                    *a == UnitContent::Array(*x),
                    *b == UnitContent::Array(*y),
                    i <= x@.len(),
                    x@.len() == y@.len(),
                    contents_view(x@).len() == x@.len(),
                    contents_view(y@).len() == y@.len(),
                    forall|k: int| 0 <= k < x@.len() ==> #[trigger] contents_view(x@)[k] == x@[k]@,
                    forall|k: int| 0 <= k < y@.len() ==> #[trigger] contents_view(y@)[k] == y@[k]@,
                    forall|k: int| 0 <= k < i ==> content_eq(#[trigger] contents_view(x@)[k], contents_view(y@)[k]),
                decreases x@.len() - i,
            {
                proof {
                    assert(decreases_to!(*a => (*a)->Array_0));
                    assert(decreases_to!(*x => x@));
                    assert(decreases_to!(x@ => x@[i as int]));
                }
                if !content_equals(&x[i], &y[i]) {
                    assert(!content_eq(contents_view(x@)[i as int], contents_view(y@)[i as int]));
                    return false;
                }
                i = i + 1;
            }
            true
        },
        (UnitContent::Mapping(x), UnitContent::Mapping(y)) => {
            proof {
                lemma_entries_view_all(x@);
                lemma_entries_view_all(y@);
            }
            if x.len() != y.len() {
                return false;
            }
            let ghost xv = entries_view(x@);
            let ghost yv = entries_view(y@);
            let mut i: usize = 0;
            while i < x.len()
                invariant
                    *a == UnitContent::Mapping(*x),
                    *b == UnitContent::Mapping(*y),
                    i <= x@.len(),
                    x@.len() == y@.len(),
                    xv == entries_view(x@),
                    yv == entries_view(y@),
                    xv.len() == x@.len(),
                    yv.len() == y@.len(),
                    forall|k: int| 0 <= k < x@.len() ==> #[trigger] xv[k] == (x@[k].0@, x@[k].1@),
                    forall|k: int| 0 <= k < y@.len() ==> #[trigger] yv[k] == (y@[k].0@, y@[k].1@),
                    forall|k: int| 0 <= k < i ==> (#[trigger] spec_key_position(yv, xv[k].0) matches Some(j) && content_eq(xv[k].1, yv[j].1)),
                decreases x@.len() - i,
            {
                proof {
                    assert(decreases_to!(*a => (*a)->Mapping_0));
                    assert(decreases_to!(*x => x@));
                    assert(decreases_to!(x@ => x@[i as int]));
                    assert(decreases_to!(x@[i as int] => x@[i as int].1));
                }
                assert(xv[i as int] == (x@[i as int].0@, x@[i as int].1@));
                match key_position(y, &x[i].0) {
                    None => {
                        assert(spec_key_position(yv, xv[i as int].0) is None);
                        return false;
                    },
                    Some(j) => {
                        assert(yv[j as int] == (y@[j as int].0@, y@[j as int].1@));
                        if !content_equals(&x[i].1, &y[j].1) {
                            assert(spec_key_position(yv, xv[i as int].0) == Some(j as int));
                            assert(!content_eq(xv[i as int].1, yv[j as int].1));
                            return false;
                        }
                    },
                }
                i = i + 1;
            }
            true
        },
        _ => false,
    }
}

impl PartialEq for UnitContent {
    fn eq(&self, other: &Self) -> (result: bool) {
        content_equals(self, other)
    }
}

impl PartialEqSpecImpl for UnitContent {
    open spec fn obeys_eq_spec() -> bool {
        true
    }

    open spec fn eq_spec(&self, other: &Self) -> bool {
        content_eq(self@, other@)
    }
}

impl UnitContent {
    /// A copy of the unit.
    pub fn duplicate(&self) -> (result: UnitContent)
        ensures
            result@ == self@,
        decreases self,
    {
        match self {
            UnitContent::Nil => UnitContent::Nil,
            UnitContent::String(s) => UnitContent::String(s.clone()),
            UnitContent::Bool(b) => UnitContent::Bool(*b),
            UnitContent::Float64(x) => UnitContent::Float64(*x),
            UnitContent::Array(items) => {
                let mut copy: Vec<UnitContent> = Vec::new();
                let mut i: usize = 0;
                while i < items.len()
                    invariant
                        *self == UnitContent::Array(*items),
                        i <= items@.len(),
                        copy@.len() == i,
                        forall|k: int| 0 <= k < i ==> (#[trigger] copy@[k])@ == items@[k]@,
                    decreases items@.len() - i,
                {
                    proof {
                        assert(decreases_to!(*self => (*self)->Array_0));
                        assert(decreases_to!(*items => items@));
                        assert(decreases_to!(items@ => items@[i as int]));
                    }
                    copy.push(items[i].duplicate());
                    i = i + 1;
                }
                proof {
                    lemma_contents_view_all(copy@);
                    lemma_contents_view_all(items@);
                    assert(contents_view(copy@) =~= contents_view(items@));
                }
                UnitContent::Array(copy)
            },
            UnitContent::Mapping(entries) => {
                let mut copy: Vec<(String, UnitContent)> = Vec::new();
                let mut i: usize = 0;
                while i < entries.len()
                    invariant
                        *self == UnitContent::Mapping(*entries),
                        i <= entries@.len(),
                        copy@.len() == i,
                        forall|k: int| 0 <= k < i ==> (#[trigger] copy@[k]).0@ == entries@[k].0@ && copy@[k].1@ == entries@[k].1@,
                    decreases entries@.len() - i,
                {
                    proof {
                        assert(decreases_to!(*self => (*self)->Mapping_0));
                        assert(decreases_to!(*entries => entries@));
                        assert(decreases_to!(entries@ => entries@[i as int]));
                        assert(decreases_to!(entries@[i as int] => entries@[i as int].1));
                    }
                    copy.push((entries[i].0.clone(), entries[i].1.duplicate()));
                    i = i + 1;
                }
                proof {
                    lemma_entries_view_all(copy@);
                    lemma_entries_view_all(entries@);
                    assert(entries_view(copy@) =~= entries_view(entries@));
                }
                UnitContent::Mapping(copy)
            },
        }
    }
}

} // verus!
