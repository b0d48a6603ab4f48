//! The byte forms of select conditions and of commands read back as what was written.

use vstd::prelude::*;
use crate::storage::executor::command::{
    content_part, predicate_part, spec_command_bytes, spec_condition_bytes, spec_groupings_bytes, spec_parse_command,
    spec_parse_command_rest, spec_parse_condition, spec_parse_remove_groupings, spec_parse_targeted, spec_parse_groupings, spec_parse_target, spec_target_bytes, spec_u64_at,
    CommandView, ConditionView,
};
use crate::storage::executor::command_error::{CommandError, SelectConditionError};
use crate::storage::executor::grouping_label::{GroupingLabel, GroupingLabelError};
use crate::storage::executor::predicate::{spec_predicate_bytes, PredicateView};
use crate::storage::executor::predicate_laws::{lemma_predicate_roundtrip, predicate_wf};
use crate::storage::executor::unit_content::{content_wf, lemma_content_roundtrip, spec_content_bytes, ContentView};
use crate::storage::executor::unit_key::UnitKey;
use crate::utils::ints::{lemma_u64_le_roundtrip, spec_u64_le};
use crate::utils::varint::{lemma_varint_encode_len, lemma_varint_roundtrip, spec_varint_encode};

verus! {

/// Whether the byte form of a condition can be read back: labels and keys fit a varint width
/// and a predicate is well formed.
pub open spec fn condition_wf(c: ConditionView) -> bool {
    match c {
        ConditionView::Key(g, k, _) => g.len() <= u64::MAX && k.len() <= u64::MAX,
        ConditionView::UnconditionalMatch(g) => g.len() <= u64::MAX,
        ConditionView::Predicate(g, p) => g.len() <= u64::MAX && predicate_wf(p),
        ConditionView::AllGrouping => true,
    }
}

/// Whether the byte form of a condition runs to the end of the bytes: that of a disjunction or
/// a conjunction does.
pub open spec fn condition_runs_to_end(c: ConditionView) -> bool {
    c matches ConditionView::Predicate(_, p) && (p is Or || p is And)
}

/// Whether the byte form of a command can be read back: labels and keys fit a varint width,
/// units and predicates are well formed, and a list of groupings fits a varint width.
pub open spec fn command_wf(c: CommandView) -> bool {
    match c {
        CommandView::Select(cond) => condition_wf(cond),
        CommandView::InspectOne(g, k) => g.len() <= u64::MAX && k.len() <= u64::MAX,
        CommandView::Insert(g, k, u) => g.len() <= u64::MAX && k.len() <= u64::MAX && content_wf(u),
        CommandView::RevertOne(g, k, _) => g.len() <= u64::MAX && k.len() <= u64::MAX,
        CommandView::RemoveOne(g, k) => g.len() <= u64::MAX && k.len() <= u64::MAX,
        CommandView::RemoveGroupings(gs) => spec_groupings_bytes(gs).len() <= u64::MAX && forall|i: int|
            0 <= i < gs.len() ==> (#[trigger] gs[i]).len() <= u64::MAX,
        CommandView::TransactionalInsert(g, k, u, _) => g.len() <= u64::MAX && k.len() <= u64::MAX
            && content_wf(u),
        CommandView::TransactionalRevertOne(g, k, _, _) => g.len() <= u64::MAX && k.len() <= u64::MAX,
        CommandView::TransactionalRemoveOne(g, k, _) => g.len() <= u64::MAX && k.len() <= u64::MAX,
        _ => true,
    }
}

/// Whether the byte form of a command runs to the end of the bytes: that of a select command
/// whose condition does.
pub open spec fn command_runs_to_end(c: CommandView) -> bool {
    c matches CommandView::Select(cond) && condition_runs_to_end(cond)
}

/// Eight little-endian bytes read back as their number.
proof fn lemma_u64_at(prefix: Seq<u8>, v: u64, more: Seq<u8>)
    ensures
        spec_u64_at(prefix + spec_u64_le(v) + more, prefix.len() as int) == Some(v),
{
    lemma_u64_le_roundtrip(v);
    let d = prefix + spec_u64_le(v) + more;
    assert(d.subrange(prefix.len() as int, prefix.len() + 8int) =~= spec_u64_le(v));
}

/// A marshalled grouping and key read back from where they start.
proof fn lemma_target_roundtrip(g: Seq<u8>, k: Seq<u8>, prefix: Seq<u8>, more: Seq<u8>)
    requires
        g.len() <= u64::MAX,
        k.len() <= u64::MAX,
    ensures
        spec_parse_target(prefix + spec_target_bytes(g, k) + more, prefix.len() as int) == Some(
            Ok::<(Seq<u8>, Seq<u8>, int), CommandError>((g, k, prefix.len() + spec_target_bytes(g, k).len() as int)),
        ),
{
    let gm = GroupingLabel::spec_marshal(g);
    let km = UnitKey::spec_marshal(k);
    let d = prefix + spec_target_bytes(g, k) + more;
    assert(d.subrange(prefix.len() as int, d.len() as int) =~= gm + (km + more));
    GroupingLabel::lemma_roundtrip(g, km + more);
    assert(d.subrange((prefix.len() + gm.len()) as int, d.len() as int) =~= km + more);
    UnitKey::lemma_roundtrip(k, more);
}

/// Marshalled groupings read back when as many bytes as they take are asked for.
#[verifier::rlimit(80)]
pub proof fn lemma_groupings_roundtrip(gs: Seq<Seq<u8>>, more: Seq<u8>)
    requires
        forall|i: int| 0 <= i < gs.len() ==> (#[trigger] gs[i]).len() <= u64::MAX,
    ensures
        spec_parse_groupings(spec_groupings_bytes(gs) + more, spec_groupings_bytes(gs).len() as int) == Some(
            Ok::<(Seq<Seq<u8>>, nat), GroupingLabelError>((gs, spec_groupings_bytes(gs).len())),
        ),
    decreases gs.len(),
{
    let b = spec_groupings_bytes(gs);
    let d = b + more;
    if gs.len() == 0 {
        assert(gs =~= Seq::<Seq<u8>>::empty());
        assert(b == Seq::<u8>::empty());
    } else {
        let tail = gs.drop_first();
        let gm = GroupingLabel::spec_marshal(gs[0]);
        let tb = spec_groupings_bytes(tail);
        assert(b == gm + tb);
        lemma_varint_encode_len(gs[0].len() as u64);
        assert(gm.len() >= 1);
        assert(d =~= gm + (tb + more));
        GroupingLabel::lemma_roundtrip(gs[0], tb + more);
        let parsed = GroupingLabel::spec_parse(d);
        assert(parsed == Some(Ok::<(Seq<u8>, nat), GroupingLabelError>((gs[0], gm.len()))));
        assert(d.subrange(gm.len() as int, d.len() as int) =~= tb + more);
        assert forall|i: int| 0 <= i < tail.len() implies (#[trigger] tail[i]).len() <= u64::MAX by {
            assert(tail[i] == gs[i + 1]);
        }
        lemma_groupings_roundtrip(tail, more);
        assert(seq![gs[0]] + tail =~= gs);
        assert(b.len() as int - gm.len() == tb.len());
    }
}

/// A key condition reads back, whatever follows it.
#[verifier::rlimit(40)]
proof fn lemma_key_condition_roundtrip(g: Seq<u8>, k: Seq<u8>, t: Option<u64>, rest: Seq<u8>)
    requires
        g.len() <= u64::MAX,
        k.len() <= u64::MAX,
    ensures
        ({
            let c = ConditionView::Key(g, k, t);
            spec_parse_condition(spec_condition_bytes(c) + rest) == Some(
                Ok::<(ConditionView, nat), SelectConditionError>((c, spec_condition_bytes(c).len())),
            )
        }),
{
    reveal(spec_parse_condition);
    let c = ConditionView::Key(g, k, t);
    let b = spec_condition_bytes(c);
    let d = b + rest;
    let gm = GroupingLabel::spec_marshal(g);
    let km = UnitKey::spec_marshal(k);
    UnitKey::lemma_roundtrip(k, rest);
    match t {
        Some(v) => {
            let le = spec_u64_le(v);
            assert(d =~= seq![0x00u8] + gm + le + (km + rest));
            assert(d.subrange(1, d.len() as int) =~= gm + (le + km + rest));
            GroupingLabel::lemma_roundtrip(g, le + km + rest);
            lemma_u64_at(seq![0x00u8] + gm, v, km + rest);
            lemma_u64_le_roundtrip(v);
            assert(d.subrange(1 + gm.len() + 8int, d.len() as int) =~= km + rest);
        },
        None => {
            assert(d =~= seq![0x01u8] + gm + (km + rest));
            assert(d.subrange(1, d.len() as int) =~= gm + (km + rest));
            GroupingLabel::lemma_roundtrip(g, km + rest);
            assert(d.subrange(1 + gm.len() as int, d.len() as int) =~= km + rest);
        },
    }
}

/// A predicate condition reads back; after a disjunction or a conjunction nothing may follow.
#[verifier::rlimit(40)]
proof fn lemma_predicate_condition_roundtrip(g: Seq<u8>, p: PredicateView, rest: Seq<u8>)
    requires
        g.len() <= u64::MAX,
        predicate_wf(p),
        (p is Or || p is And) ==> rest.len() == 0,
    ensures
        ({
            let c = ConditionView::Predicate(g, p);
            spec_parse_condition(spec_condition_bytes(c) + rest) == Some(
                Ok::<(ConditionView, nat), SelectConditionError>((c, spec_condition_bytes(c).len())),
            )
        }),
{
    reveal(spec_parse_condition);
    let c = ConditionView::Predicate(g, p);
    let d = spec_condition_bytes(c) + rest;
    let gm = GroupingLabel::spec_marshal(g);
    let pb = spec_predicate_bytes(p);
    assert(d =~= seq![0x03u8] + gm + (pb + rest));
    assert(d.subrange(1, d.len() as int) =~= gm + (pb + rest));
    GroupingLabel::lemma_roundtrip(g, pb + rest);
    assert(d.subrange(1 + gm.len() as int, d.len() as int) =~= pb + rest);
    lemma_predicate_roundtrip(p, rest);
    reveal(predicate_part);
}

/// The byte form of a well-formed select condition reads back as the condition, with the
/// width of its byte form; anything may follow it, except after a disjunction or a
/// conjunction, which runs to the end of the bytes.
pub proof fn lemma_condition_roundtrip(c: ConditionView, rest: Seq<u8>)
    requires
        condition_wf(c),
        condition_runs_to_end(c) ==> rest.len() == 0,
    ensures
        spec_parse_condition(spec_condition_bytes(c) + rest) == Some(
            Ok::<(ConditionView, nat), SelectConditionError>((c, spec_condition_bytes(c).len())),
        ),
{
    match c {
        ConditionView::Key(g, k, t) => {
            lemma_key_condition_roundtrip(g, k, t, rest);
        },
        ConditionView::UnconditionalMatch(g) => {
            reveal(spec_parse_condition);
            let d = spec_condition_bytes(c) + rest;
            let gm = GroupingLabel::spec_marshal(g);
            assert(d =~= seq![0x02u8] + (gm + rest));
            assert(d.subrange(1, d.len() as int) =~= gm + rest);
            GroupingLabel::lemma_roundtrip(g, rest);
        },
        ConditionView::Predicate(g, p) => {
            lemma_predicate_condition_roundtrip(g, p, rest);
        },
        ConditionView::AllGrouping => {
            reveal(spec_parse_condition);
            let d = spec_condition_bytes(c) + rest;
            assert(d[0] == 0x04u8);
        },
    }
}

/// The grouping and the key of a command that names one.
pub open spec fn command_target(c: CommandView) -> (Seq<u8>, Seq<u8>) {
    match c {
        CommandView::InspectOne(g, k) => (g, k),
        CommandView::Insert(g, k, _) => (g, k),
        CommandView::RevertOne(g, k, _) => (g, k),
        CommandView::RemoveOne(g, k) => (g, k),
        CommandView::TransactionalInsert(g, k, _, _) => (g, k),
        CommandView::TransactionalRevertOne(g, k, _, _) => (g, k),
        CommandView::TransactionalRemoveOne(g, k, _) => (g, k),
        _ => (Seq::empty(), Seq::empty()),
    }
}

/// The fields after a grouping and a key read back.
#[verifier::rlimit(40)]
proof fn lemma_command_rest_roundtrip(c: CommandView, rest: Seq<u8>)
    requires
        command_wf(c),
        c is InspectOne || c is Insert || c is RevertOne || c is RemoveOne || c is TransactionalInsert
            || c is TransactionalRevertOne || c is TransactionalRemoveOne,
    ensures
        ({
            let d = spec_command_bytes(c) + rest;
            let (g, k) = command_target(c);
            spec_parse_command_rest(d[0], g, k, d, 1 + spec_target_bytes(g, k).len() as int)
                == Some(Ok::<(CommandView, nat), CommandError>((c, spec_command_bytes(c).len())))
        }),
{
    reveal(spec_parse_command_rest);
    let b = spec_command_bytes(c);
    let d = b + rest;
    assert(d[0] == b[0]);
    match c {
        CommandView::InspectOne(g, k) => {},
        CommandView::RemoveOne(g, k) => {},
        CommandView::Insert(g, k, u) => {
            let tb = spec_target_bytes(g, k);
            let ub = spec_content_bytes(u);
            assert(d =~= seq![0x04u8] + tb + (ub + rest));
            assert(d.subrange(1 + tb.len() as int, d.len() as int) =~= ub + rest);
            lemma_content_roundtrip(u, rest);
            reveal(content_part);
        },
        CommandView::TransactionalInsert(g, k, u, t) => {
            let tb = spec_target_bytes(g, k);
            let ub = spec_content_bytes(u);
            assert(d.subrange(1 + tb.len() as int, d.len() as int) =~= ub + (spec_u64_le(t) + rest));
            lemma_content_roundtrip(u, spec_u64_le(t) + rest);
            reveal(content_part);
            assert(d =~= (seq![0x54u8] + tb + ub) + spec_u64_le(t) + rest);
            lemma_u64_at(seq![0x54u8] + tb + ub, t, rest);
            lemma_u64_le_roundtrip(t);
        },
        CommandView::RevertOne(g, k, h) => {
            let tb = spec_target_bytes(g, k);
            assert(d =~= (seq![0x05u8] + tb) + spec_u64_le(h) + rest);
            lemma_u64_at(seq![0x05u8] + tb, h, rest);
            lemma_u64_le_roundtrip(h);
        },
        CommandView::TransactionalRemoveOne(g, k, t) => {
            let tb = spec_target_bytes(g, k);
            assert(d =~= (seq![0x57u8] + tb) + spec_u64_le(t) + rest);
            lemma_u64_at(seq![0x57u8] + tb, t, rest);
            lemma_u64_le_roundtrip(t);
        },
        CommandView::TransactionalRevertOne(g, k, h, t) => {
            let tb = spec_target_bytes(g, k);
            assert(d =~= (seq![0x55u8] + tb) + spec_u64_le(h) + (spec_u64_le(t) + rest));
            lemma_u64_at(seq![0x55u8] + tb, h, spec_u64_le(t) + rest);
            assert(d =~= (seq![0x55u8] + tb + spec_u64_le(h)) + spec_u64_le(t) + rest);
            lemma_u64_at(seq![0x55u8] + tb + spec_u64_le(h), t, rest);
            lemma_u64_le_roundtrip(h);
            lemma_u64_le_roundtrip(t);
        },
        _ => {},
    }
}

/// A command with a grouping and a key reads them, then the fields that follow.
proof fn lemma_parse_targeted(p: u8, g: Seq<u8>, k: Seq<u8>, more: Seq<u8>)
    requires
        g.len() <= u64::MAX,
        k.len() <= u64::MAX,
    ensures
        ({
            let d = seq![p] + spec_target_bytes(g, k) + more;
            spec_parse_targeted(p, d) == spec_parse_command_rest(p, g, k, d, 1 + spec_target_bytes(g, k).len() as int)
        }),
{
    reveal(spec_parse_targeted);
    lemma_target_roundtrip(g, k, seq![p], more);
}

/// A command whose fields are a grouping, a key and what follows them reads back.
#[verifier::rlimit(40)]
proof fn lemma_targeted_command_roundtrip(c: CommandView, rest: Seq<u8>)
    requires
        command_wf(c),
        c is InspectOne || c is Insert || c is RevertOne || c is RemoveOne || c is TransactionalInsert
            || c is TransactionalRevertOne || c is TransactionalRemoveOne,
    ensures
        spec_parse_command(spec_command_bytes(c) + rest) == Some(
            Ok::<(CommandView, nat), CommandError>((c, spec_command_bytes(c).len())),
        ),
{
    let b = spec_command_bytes(c);
    let d = b + rest;
    assert(d[0] == b[0]);
    lemma_command_rest_roundtrip(c, rest);
    let (g, k) = command_target(c);
    let more = d.subrange(1 + spec_target_bytes(g, k).len() as int, d.len() as int);
    match c {
        CommandView::InspectOne(_, _) => {
            assert(d =~= seq![d[0]] + spec_target_bytes(g, k) + rest);
        },
        CommandView::RemoveOne(_, _) => {
            assert(d =~= seq![d[0]] + spec_target_bytes(g, k) + rest);
        },
        CommandView::Insert(_, _, u) => {
            assert(d =~= seq![d[0]] + spec_target_bytes(g, k) + (spec_content_bytes(u) + rest));
        },
        CommandView::TransactionalInsert(_, _, u, t) => {
            assert(d =~= seq![d[0]] + spec_target_bytes(g, k) + (spec_content_bytes(u) + spec_u64_le(t) + rest));
        },
        CommandView::RevertOne(_, _, h) => {
            assert(d =~= seq![d[0]] + spec_target_bytes(g, k) + (spec_u64_le(h) + rest));
        },
        CommandView::TransactionalRemoveOne(_, _, t) => {
            assert(d =~= seq![d[0]] + spec_target_bytes(g, k) + (spec_u64_le(t) + rest));
        },
        CommandView::TransactionalRevertOne(_, _, h, t) => {
            assert(d =~= seq![d[0]] + spec_target_bytes(g, k) + (spec_u64_le(h) + spec_u64_le(t) + rest));
        },
        _ => {},
    }
    assert(d =~= seq![d[0]] + spec_target_bytes(g, k) + more);
    lemma_parse_targeted(d[0], g, k, more);
}

/// The byte form of a well-formed command reads back as the command, with the width of its
/// byte form; anything may follow it, except after a select command by a disjunction or a
/// conjunction, which runs to the end of the bytes.
pub proof fn lemma_command_roundtrip(c: CommandView, rest: Seq<u8>)
    requires
        command_wf(c),
        command_runs_to_end(c) ==> rest.len() == 0,
    ensures
        spec_parse_command(spec_command_bytes(c) + rest) == Some(
            Ok::<(CommandView, nat), CommandError>((c, spec_command_bytes(c).len())),
        ),
{
    let b = spec_command_bytes(c);
    let d = b + rest;
    assert(d[0] == b[0]);
    match c {
        CommandView::Select(cond) => {
            assert(d.subrange(1, d.len() as int) =~= spec_condition_bytes(cond) + rest);
            lemma_condition_roundtrip(cond, rest);
        },
        CommandView::RevertAll(h) => {
            assert(d =~= seq![0x06u8] + spec_u64_le(h) + rest);
            lemma_u64_at(seq![0x06u8], h, rest);
            lemma_u64_le_roundtrip(h);
        },
        CommandView::TransactionCommit(t) => {
            assert(d =~= seq![0xc1u8] + spec_u64_le(t) + rest);
            lemma_u64_at(seq![0xc1u8], t, rest);
            lemma_u64_le_roundtrip(t);
        },
        CommandView::TransactionAbort(t) => {
            assert(d =~= seq![0xc2u8] + spec_u64_le(t) + rest);
            lemma_u64_at(seq![0xc2u8], t, rest);
            lemma_u64_le_roundtrip(t);
        },
        CommandView::RemoveGroupings(gs) => {
            let gb = spec_groupings_bytes(gs);
            let w = spec_varint_encode(gb.len() as u64);
            assert(d.subrange(1, d.len() as int) =~= w + (gb + rest));
            lemma_varint_roundtrip(gb.len() as u64, gb + rest);
            reveal(spec_parse_remove_groupings);
            assert(d.subrange(1 + w.len() as int, d.len() as int) =~= gb + rest);
            lemma_groupings_roundtrip(gs, rest);
        },
        CommandView::InspectAll => {},
        CommandView::RemoveAll => {},
        CommandView::CreateTransaction => {},
        _ => {
            lemma_targeted_command_roundtrip(c, rest);
        },
    }
}

} // verus!
