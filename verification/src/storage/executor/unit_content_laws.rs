//! What every unit read from bytes keeps: each of its maps, at any depth, holds each key once.

use vstd::prelude::*;
use crate::utils::serialize::spec_prepend_varint_width;
use vstd::utf8::encode_utf8;
use crate::storage::executor::unit_content::{
    content_wf, lemma_content_roundtrip, spec_content_bytes, spec_entries_bytes, spec_items_bytes, UnitContentError,
    keys_unique, spec_insert_all, spec_insert_entry, spec_key_position, spec_parse_content, spec_parse_entries,
    spec_parse_items, ContentView,
};

verus! {

/// Every map inside the unit, at any depth, holds each key once.
pub open spec fn maps_unique(c: ContentView) -> bool
    decreases c,
{
    match c {
        ContentView::Array(items) => forall|i: int| 0 <= i < items.len() ==> maps_unique(#[trigger] items[i]),
        ContentView::Mapping(entries) => keys_unique(entries) && forall|i: int|
            0 <= i < entries.len() ==> maps_unique(#[trigger] entries[i].1),
        _ => true,
    }
}

/// Every unit of a list of entries keeps `maps_unique`.
pub open spec fn values_unique(entries: Seq<(Seq<char>, ContentView)>) -> bool {
    forall|i: int| 0 <= i < entries.len() ==> maps_unique(#[trigger] entries[i].1)
}

/// Inserting an entry keeps keys unique, and keeps every unit's maps unique.
proof fn lemma_insert_entry_unique(m: Seq<(Seq<char>, ContentView)>, key: Seq<char>, value: ContentView)
    requires
        keys_unique(m),
        values_unique(m),
        maps_unique(value),
    ensures
        keys_unique(spec_insert_entry(m, key, value)),
        values_unique(spec_insert_entry(m, key, value)),
{
    match spec_key_position(m, key) {
        Some(i) => {
            assert(0 <= i < m.len() && m[i].0 == key);
            let r = m.update(i, (key, value));
            assert forall|a: int, b: int| 0 <= a < b < r.len() implies r[a].0 != r[b].0 by {
                assert(r[a].0 == m[a].0 && r[b].0 == m[b].0);
            }
            assert forall|a: int| 0 <= a < r.len() implies maps_unique(#[trigger] r[a].1) by {
                if a != i {
                    assert(r[a] == m[a]);
                }
            }
        },
        None => {
            assert forall|a: int| 0 <= a < m.len() implies m[a].0 != key by {
                if m[a].0 == key {
                    assert(forall|j: int| 0 <= j < a ==> m[j].0 != key);
                    assert(exists|i: int| 0 <= i < m.len() && m[i].0 == key && forall|j: int| 0 <= j < i ==> m[j].0 != key);
                }
            }
            let r = m.push((key, value));
            assert forall|a: int, b: int| 0 <= a < b < r.len() implies r[a].0 != r[b].0 by {
                if b == m.len() {
                    assert(r[a] == m[a]);
                } else {
                    assert(r[a] == m[a] && r[b] == m[b]);
                }
            }
            assert forall|a: int| 0 <= a < r.len() implies maps_unique(#[trigger] r[a].1) by {
                if a < m.len() {
                    assert(r[a] == m[a]);
                }
            }
        },
    }
}

/// Inserting entries in turn keeps keys unique, and keeps every unit's maps unique.
proof fn lemma_insert_all_unique(m: Seq<(Seq<char>, ContentView)>, entries: Seq<(Seq<char>, ContentView)>)
    requires
        keys_unique(m),
        values_unique(m),
        values_unique(entries),
    ensures
        keys_unique(spec_insert_all(m, entries)),
        values_unique(spec_insert_all(m, entries)),
    decreases entries.len(),
{
    if entries.len() > 0 {
        assert(maps_unique(entries[0].1));
        lemma_insert_entry_unique(m, entries[0].0, entries[0].1);
        let tail = entries.subrange(1, entries.len() as int);
        assert forall|i: int| 0 <= i < tail.len() implies maps_unique(#[trigger] tail[i].1) by {
            assert(tail[i] == entries[i + 1]);
        }
        lemma_insert_all_unique(spec_insert_entry(m, entries[0].0, entries[0].1), tail);
    }
}

/// A unit read from bytes holds each key once in every map inside it.
pub proof fn lemma_parsed_content_unique(data: Seq<u8>)
    ensures
        spec_parse_content(data) matches Some(Ok((c, _))) ==> maps_unique(c),
    decreases data.len(), 0nat,
{
    if data.len() > 0 {
        let p = data[0];
        let rest = data.subrange(1, data.len() as int);
        if p == 0x20 || p == 0x21 {
            match crate::utils::serialize::spec_length_prefixed(rest) {
                Some(Ok((body, n))) => {
                    if body.len() < data.len() {
                        if p == 0x20 {
                            lemma_parsed_items_unique(body);
                        } else {
                            lemma_parsed_entries_unique(body);
                            match spec_parse_entries(body) {
                                Some(Ok(entries)) => {
                                    lemma_insert_all_unique(Seq::empty(), entries);
                                },
                                _ => {},
                            }
                        }
                    }
                },
                _ => {},
            }
        }
    }
}

/// Units read one after another from bytes each hold each key once in every map inside them.
pub proof fn lemma_parsed_items_unique(data: Seq<u8>)
    ensures
        spec_parse_items(data) matches Some(Ok(items)) ==> forall|i: int|
            0 <= i < items.len() ==> maps_unique(#[trigger] items[i]),
    decreases data.len(), 1nat,
{
    if data.len() > 0 {
        lemma_parsed_content_unique(data);
        match spec_parse_content(data) {
            Some(Ok((c, n))) => {
                if n > 0 && n <= data.len() {
                    let rest = data.subrange(n as int, data.len() as int);
                    lemma_parsed_items_unique(rest);
                    match spec_parse_items(rest) {
                        Some(Ok(others)) => {
                            let items = seq![c] + others;
                            assert forall|i: int| 0 <= i < items.len() implies maps_unique(#[trigger] items[i]) by {
                                if i > 0 {
                                    assert(items[i] == others[i - 1]);
                                }
                            }
                        },
                        _ => {},
                    }
                }
            },
            _ => {},
        }
    }
}

/// Map entries read one after another from bytes each hold a unit whose maps hold each key once.
pub proof fn lemma_parsed_entries_unique(data: Seq<u8>)
    ensures
        spec_parse_entries(data) matches Some(Ok(entries)) ==> values_unique(entries),
    decreases data.len(), 1nat,
{
    if data.len() > 0 {
        match crate::utils::serialize::spec_length_prefixed(data) {
            Some(Ok((key_bytes, p))) => {
                if p > 0 && p <= data.len() {
                    let after_key = data.subrange(p as int, data.len() as int);
                    lemma_parsed_content_unique(after_key);
                    match spec_parse_content(after_key) {
                        Some(Ok((c, n))) => {
                            if n > 0 && p + n <= data.len() {
                                let rest = data.subrange((p + n) as int, data.len() as int);
                                lemma_parsed_entries_unique(rest);
                                match spec_parse_entries(rest) {
                                    Some(Ok(others)) => {
                                        let entries = seq![(crate::utils::text::spec_lenient_text(key_bytes), c)] + others;
                                        assert forall|i: int| 0 <= i < entries.len() implies maps_unique(#[trigger] entries[i].1) by {
                                            if i > 0 {
                                                assert(entries[i] == others[i - 1]);
                                            }
                                        }
                                    },
                                    _ => {},
                                }
                            }
                        },
                        _ => {},
                    }
                }
            },
            _ => {},
        }
    }
}

/// The byte form of each unit of a list lies within that of the list.
proof fn lemma_item_within(items: Seq<ContentView>, i: int)
    requires
        0 <= i < items.len(),
    ensures
        spec_content_bytes(items[i]).len() <= spec_items_bytes(items).len(),
    decreases items.len(),
{
    if i < items.len() - 1 {
        lemma_item_within(items.drop_last(), i);
        assert(items.drop_last()[i] == items[i]);
    }
}

/// The key and the unit of each entry lie within the byte form of the entries.
proof fn lemma_entry_within(entries: Seq<(Seq<char>, ContentView)>, i: int)
    requires
        0 <= i < entries.len(),
    ensures
        encode_utf8(entries[i].0).len() <= spec_entries_bytes(entries).len(),
        spec_content_bytes(entries[i].1).len() <= spec_entries_bytes(entries).len(),
    decreases entries.len(),
{
    if i < entries.len() - 1 {
        lemma_entry_within(entries.drop_last(), i);
        assert(entries.drop_last()[i] == entries[i]);
    } else {
        assert(spec_prepend_varint_width(encode_utf8(entries[i].0)).len() >= encode_utf8(entries[i].0).len());
    }
}

/// A unit whose maps hold each key once, and whose byte form's width fits a varint, is well
/// formed: every inner width fits too.
pub proof fn lemma_unique_is_wf(c: ContentView)
    requires
        maps_unique(c),
        spec_content_bytes(c).len() <= u64::MAX,
    ensures
        content_wf(c),
    decreases c,
{
    match c {
        ContentView::String(s) => {},
        ContentView::Array(items) => {
            assert forall|i: int| 0 <= i < items.len() implies content_wf(#[trigger] items[i]) by {
                assert(decreases_to!(c => items));
                assert(decreases_to!(items => items[i]));
                lemma_item_within(items, i);
                assert(maps_unique(items[i]));
                lemma_unique_is_wf(items[i]);
            }
        },
        ContentView::Mapping(entries) => {
            assert forall|i: int| 0 <= i < entries.len() implies encode_utf8(#[trigger] entries[i].0).len() <= u64::MAX
                && content_wf(entries[i].1) by {
                assert(decreases_to!(c => entries));
                assert(decreases_to!(entries => entries[i]));
                assert(decreases_to!(entries[i] => entries[i].1));
                lemma_entry_within(entries, i);
                assert(maps_unique(entries[i].1));
                lemma_unique_is_wf(entries[i].1);
            }
        },
        _ => {},
    }
}

/// The byte form of a unit whose maps hold each key once reads back as the unit, with the width
/// of its byte form, whatever follows it (where that width fits a varint).
pub proof fn law_content_roundtrip(c: ContentView, rest: Seq<u8>)
    requires
        maps_unique(c),
        spec_content_bytes(c).len() <= u64::MAX,
    ensures
        spec_parse_content(spec_content_bytes(c) + rest) == Some(
            Ok::<(ContentView, nat), UnitContentError>((c, spec_content_bytes(c).len())),
        ),
{
    lemma_unique_is_wf(c);
    lemma_content_roundtrip(c, rest);
}

} // verus!
