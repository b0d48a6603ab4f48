//! The byte form of an outcome reads back as the outcome.

use vstd::prelude::*;
use crate::storage::executor::command::{spec_command_bytes, spec_u64_at, CommandView};
use crate::storage::executor::command_laws::{command_runs_to_end, command_wf, lemma_command_roundtrip};
use crate::storage::executor::grouping_label::GroupingLabel;
use crate::storage::executor::outcome::{
    command_part, spec_history_bytes, spec_labels_bytes, spec_outcome_bytes, spec_parse_history,
    spec_parse_labels, spec_parse_list_outcome, spec_parse_outcome, spec_parse_units, unit_part,
    OutcomeError, OutcomeView,
};
use crate::storage::executor::unit_content::{
    content_wf, lemma_content_roundtrip, lemma_items_bytes_first, spec_content_bytes,
    spec_items_bytes, ContentView,
};
use crate::utils::ints::{lemma_u64_le_roundtrip, spec_u64_le};
use crate::utils::varint::{lemma_varint_roundtrip, spec_varint_encode};

verus! {

/// Whether a command of a history reads back followed by its height.
pub open spec fn history_entry_wf(e: (CommandView, u64)) -> bool {
    command_wf(e.0) && !command_runs_to_end(e.0)
}

/// Whether the byte form of an outcome can be read back: every unit, command and label is
/// well formed, no command of a history runs to the end of the bytes, and every count fits a
/// varint.
pub open spec fn outcome_wf(o: OutcomeView) -> bool {
    match o {
        OutcomeView::Select(us) => us.len() <= u64::MAX && forall|i: int| 0 <= i < us.len() ==> content_wf(#[trigger] us[i]),
        OutcomeView::InspectOne(es) => es.len() <= u64::MAX && forall|i: int|
            0 <= i < es.len() ==> history_entry_wf(#[trigger] es[i]),
        OutcomeView::InspectAll(es) => es.len() <= u64::MAX && forall|i: int|
            0 <= i < es.len() ==> history_entry_wf(#[trigger] es[i]),
        OutcomeView::GetAllGroupingsSuccess(gs) => gs.len() <= u64::MAX && forall|i: int|
            0 <= i < gs.len() ==> (#[trigger] gs[i]).len() <= u64::MAX,
        _ => true,
    }
}

/// The bytes of a history start with the first command and its height.
proof fn lemma_history_bytes_first(es: Seq<(CommandView, u64)>)
    requires
        es.len() > 0,
    ensures
        spec_history_bytes(es) == spec_command_bytes(es[0].0) + spec_u64_le(es[0].1) + spec_history_bytes(
            es.subrange(1, es.len() as int),
        ),
    decreases es.len(),
{
    if es.len() == 1 {
        assert(es.drop_last() =~= Seq::<(CommandView, u64)>::empty());
        assert(es.subrange(1, 1) =~= Seq::<(CommandView, u64)>::empty());
        assert(spec_history_bytes(es.drop_last()) == Seq::<u8>::empty());
        assert(spec_history_bytes(es.subrange(1, 1)) == Seq::<u8>::empty());
        assert(spec_history_bytes(es) =~= spec_command_bytes(es[0].0) + spec_u64_le(es[0].1) + spec_history_bytes(
            es.subrange(1, es.len() as int),
        ));
    } else {
        let init = es.drop_last();
        lemma_history_bytes_first(init);
        assert(init.subrange(1, init.len() as int) =~= es.subrange(1, es.len() as int).drop_last());
        assert(es.subrange(1, es.len() as int).last() == es.last());
        assert(spec_history_bytes(es) =~= spec_command_bytes(es[0].0) + spec_u64_le(es[0].1) + spec_history_bytes(
            es.subrange(1, es.len() as int),
        ));
    }
}

/// The bytes of labels start with the first label.
proof fn lemma_labels_bytes_first(gs: Seq<Seq<u8>>)
    requires
        gs.len() > 0,
    ensures
        spec_labels_bytes(gs) == GroupingLabel::spec_marshal(gs[0]) + spec_labels_bytes(gs.subrange(1, gs.len() as int)),
    decreases gs.len(),
{
    if gs.len() == 1 {
        assert(gs.drop_last() =~= Seq::<Seq<u8>>::empty());
        assert(gs.subrange(1, 1) =~= Seq::<Seq<u8>>::empty());
        assert(spec_labels_bytes(gs.drop_last()) == Seq::<u8>::empty());
        assert(spec_labels_bytes(gs.subrange(1, 1)) == Seq::<u8>::empty());
        assert(spec_labels_bytes(gs) =~= GroupingLabel::spec_marshal(gs[0]) + spec_labels_bytes(
            gs.subrange(1, gs.len() as int),
        ));
    } else {
        let init = gs.drop_last();
        lemma_labels_bytes_first(init);
        assert(init.subrange(1, init.len() as int) =~= gs.subrange(1, gs.len() as int).drop_last());
        assert(gs.subrange(1, gs.len() as int).last() == gs.last());
        assert(spec_labels_bytes(gs) =~= GroupingLabel::spec_marshal(gs[0]) + spec_labels_bytes(
            gs.subrange(1, gs.len() as int),
        ));
    }
}

/// Well-formed units read back, one after another.
proof fn lemma_units_roundtrip(us: Seq<ContentView>, rest: Seq<u8>)
    requires
        forall|i: int| 0 <= i < us.len() ==> content_wf(#[trigger] us[i]),
    ensures
        spec_parse_units(spec_items_bytes(us) + rest, us.len()) == Some(
            Ok::<(Seq<ContentView>, nat), OutcomeError>((us, spec_items_bytes(us).len())),
        ),
    decreases us.len(),
{
    if us.len() == 0 {
        assert(us =~= Seq::<ContentView>::empty());
        assert(spec_items_bytes(us) == Seq::<u8>::empty());
    } else {
        let tail = us.subrange(1, us.len() as int);
        let ub = spec_content_bytes(us[0]);
        let tb = spec_items_bytes(tail);
        lemma_items_bytes_first(us);
        let d = spec_items_bytes(us) + rest;
        assert(d =~= ub + (tb + rest));
        lemma_content_roundtrip(us[0], tb + rest);
        reveal(unit_part);
        assert(d.subrange(ub.len() as int, d.len() as int) =~= tb + rest);
        assert forall|i: int| 0 <= i < tail.len() implies content_wf(#[trigger] tail[i]) by {
            assert(tail[i] == us[i + 1]);
        }
        lemma_units_roundtrip(tail, rest);
        assert(seq![us[0]] + tail =~= us);
    }
}

/// Well-formed commands read back, each followed by its height.
#[verifier::rlimit(40)]
proof fn lemma_history_roundtrip(es: Seq<(CommandView, u64)>, rest: Seq<u8>)
    requires
        forall|i: int| 0 <= i < es.len() ==> history_entry_wf(#[trigger] es[i]),
    ensures
        spec_parse_history(spec_history_bytes(es) + rest, es.len()) == Some(
            Ok::<(Seq<(CommandView, u64)>, nat), OutcomeError>((es, spec_history_bytes(es).len())),
        ),
    decreases es.len(),
{
    if es.len() == 0 {
        assert(es =~= Seq::<(CommandView, u64)>::empty());
        assert(spec_history_bytes(es) == Seq::<u8>::empty());
    } else {
        let tail = es.subrange(1, es.len() as int);
        let cb = spec_command_bytes(es[0].0);
        let le = spec_u64_le(es[0].1);
        let tb = spec_history_bytes(tail);
        lemma_history_bytes_first(es);
        let d = spec_history_bytes(es) + rest;
        assert(history_entry_wf(es[0]));
        assert(d =~= cb + (le + tb + rest));
        lemma_command_roundtrip(es[0].0, le + tb + rest);
        reveal(command_part);
        lemma_u64_le_roundtrip(es[0].1);
        assert(d.subrange(cb.len() as int, cb.len() + 8int) =~= le);
        assert(spec_u64_at(d, cb.len() as int) == Some(es[0].1));
        assert(d.subrange(cb.len() + 8int, d.len() as int) =~= tb + rest);
        assert forall|i: int| 0 <= i < tail.len() implies history_entry_wf(#[trigger] tail[i]) by {
            assert(tail[i] == es[i + 1]);
        }
        lemma_history_roundtrip(tail, rest);
        assert(seq![es[0]] + tail =~= es);
    }
}

/// Labels that fit a varint width read back, one after another.
proof fn lemma_labels_roundtrip(gs: Seq<Seq<u8>>, rest: Seq<u8>)
    requires
        forall|i: int| 0 <= i < gs.len() ==> (#[trigger] gs[i]).len() <= u64::MAX,
    ensures
        spec_parse_labels(spec_labels_bytes(gs) + rest, gs.len()) == Some(
            Ok::<(Seq<Seq<u8>>, nat), OutcomeError>((gs, spec_labels_bytes(gs).len())),
        ),
    decreases gs.len(),
{
    if gs.len() == 0 {
        assert(gs =~= Seq::<Seq<u8>>::empty());
        assert(spec_labels_bytes(gs) == Seq::<u8>::empty());
    } else {
        let tail = gs.subrange(1, gs.len() as int);
        let gm = GroupingLabel::spec_marshal(gs[0]);
        let tb = spec_labels_bytes(tail);
        lemma_labels_bytes_first(gs);
        let d = spec_labels_bytes(gs) + rest;
        assert(d =~= gm + (tb + rest));
        GroupingLabel::lemma_roundtrip(gs[0], tb + rest);
        assert(d.subrange(gm.len() as int, d.len() as int) =~= tb + rest);
        assert forall|i: int| 0 <= i < tail.len() implies (#[trigger] tail[i]).len() <= u64::MAX by {
            assert(tail[i] == gs[i + 1]);
        }
        lemma_labels_roundtrip(tail, rest);
        assert(seq![gs[0]] + tail =~= gs);
    }
}

/// A list outcome: the count as a varint, then `body`, read back by `parse_body`'s result.
proof fn lemma_list_frame(p: u8, n: nat, body: Seq<u8>, rest: Seq<u8>)
    requires
        n <= u64::MAX,
    ensures
        ({
            let w = spec_varint_encode(n as u64);
            let d = seq![p] + w + body + rest;
            &&& d.subrange(1 + w.len() as int, d.len() as int) == body + rest
            &&& crate::utils::varint::spec_varint_decode(d.subrange(1, d.len() as int)) == Ok::<(u64, nat), crate::utils::varint::VarIntError>((n as u64, w.len()))
        }),
{
    let w = spec_varint_encode(n as u64);
    let d = seq![p] + w + body + rest;
    assert(d.subrange(1, d.len() as int) =~= w + (body + rest));
    lemma_varint_roundtrip(n as u64, body + rest);
    assert(d.subrange(1 + w.len() as int, d.len() as int) =~= body + rest);
}

/// A well-formed list outcome reads back, whatever follows it.
#[verifier::rlimit(40)]
proof fn lemma_list_outcome_roundtrip(o: OutcomeView, rest: Seq<u8>)
    requires
        outcome_wf(o),
        o is Select || o is InspectOne || o is InspectAll || o is GetAllGroupingsSuccess,
    ensures
        ({
            let d = spec_outcome_bytes(o) + rest;
            spec_parse_list_outcome(d[0], d) == Some(Ok::<(OutcomeView, nat), OutcomeError>((o, spec_outcome_bytes(o).len())))
        }),
{
    let b = spec_outcome_bytes(o);
    let d = b + rest;
    reveal(spec_parse_list_outcome);
    match o {
        OutcomeView::Select(us) => {
            assert(d =~= seq![0x11u8] + spec_varint_encode(us.len() as u64) + spec_items_bytes(us) + rest);
            lemma_list_frame(0x11u8, us.len(), spec_items_bytes(us), rest);
            lemma_units_roundtrip(us, rest);
        },
        OutcomeView::InspectOne(es) => {
            assert(d =~= seq![0x12u8] + spec_varint_encode(es.len() as u64) + spec_history_bytes(es) + rest);
            lemma_list_frame(0x12u8, es.len(), spec_history_bytes(es), rest);
            lemma_history_roundtrip(es, rest);
        },
        OutcomeView::InspectAll(es) => {
            assert(d =~= seq![0x13u8] + spec_varint_encode(es.len() as u64) + spec_history_bytes(es) + rest);
            lemma_list_frame(0x13u8, es.len(), spec_history_bytes(es), rest);
            lemma_history_roundtrip(es, rest);
        },
        OutcomeView::GetAllGroupingsSuccess(gs) => {
            assert(d =~= seq![0x19u8] + spec_varint_encode(gs.len() as u64) + spec_labels_bytes(gs) + rest);
            lemma_list_frame(0x19u8, gs.len(), spec_labels_bytes(gs), rest);
            lemma_labels_roundtrip(gs, rest);
        },
        _ => {},
    }
}

/// The byte form of a well-formed outcome reads back as the outcome, with the width of its
/// byte form, whatever follows it.
pub proof fn lemma_outcome_roundtrip(o: OutcomeView, rest: Seq<u8>)
    requires
        outcome_wf(o),
    ensures
        spec_parse_outcome(spec_outcome_bytes(o) + rest) == Some(
            Ok::<(OutcomeView, nat), OutcomeError>((o, spec_outcome_bytes(o).len())),
        ),
{
    let b = spec_outcome_bytes(o);
    let d = b + rest;
    assert(d[0] == b[0]);
    match o {
        OutcomeView::Select(_) => lemma_list_outcome_roundtrip(o, rest),
        OutcomeView::InspectOne(_) => lemma_list_outcome_roundtrip(o, rest),
        OutcomeView::InspectAll(_) => lemma_list_outcome_roundtrip(o, rest),
        OutcomeView::GetAllGroupingsSuccess(_) => lemma_list_outcome_roundtrip(o, rest),
        OutcomeView::CreateTransaction(t) => {
            lemma_u64_le_roundtrip(t);
            assert(d.subrange(1, 9) =~= spec_u64_le(t));
        },
        _ => {},
    }
}

} // verus!
