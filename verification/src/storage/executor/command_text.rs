//! The text of a command, as it is printed: the command's name and what it names, with the
//! text of the unit or the predicate it carries given by the caller.

use vstd::prelude::*;
use vstd::utf8::{decode_utf8, valid_utf8};
use crate::storage::chain_height::ChainHeight;
use crate::storage::executor::command::{Command, CommandView, ConditionView, SelectCondition};
use crate::storage::executor::grouping_label::GroupingLabel;
use crate::storage::executor::unit_key::UnitKey;
use crate::storage::transaction_manager::TransactionId;
use crate::utils::bytes::bytes_to_vec;
use crate::utils::text::{str_chars, string_from_chars, string_from_utf8, string_from_utf8_lossy, utf8_lossy};

verus! {

/// The numeral of a digit.
pub open spec fn spec_digit(d: u64) -> char {
    if d == 0 { '0' } else if d == 1 { '1' } else if d == 2 { '2' } else if d == 3 { '3' } else if d == 4 {
        '4'
    } else if d == 5 { '5' } else if d == 6 { '6' } else if d == 7 { '7' } else if d == 8 { '8' } else { '9' }
}

/// The decimal numeral of a number, without leading zeros.
pub open spec fn spec_decimal(n: u64) -> Seq<char>
    decreases n,
{
    if n < 10 {
        seq![spec_digit(n)]
    } else {
        spec_decimal(n / 10).push(spec_digit(n % 10))
    }
}

/// The text of a grouping: its bytes decoded where they are valid UTF-8, else nothing.
pub open spec fn spec_grouping_text(g: Seq<u8>) -> Seq<char> {
    if valid_utf8(g) {
        decode_utf8(g)
    } else {
        Seq::empty()
    }
}

/// The text of a height.
pub open spec fn spec_height_text(h: u64) -> Seq<char> {
    "ChainHeight : "@ + spec_decimal(h)
}

/// The texts of groupings, one per line.
pub open spec fn spec_groupings_text(gs: Seq<Seq<u8>>) -> Seq<char>
    decreases gs.len(),
{
    if gs.len() == 0 {
        Seq::empty()
    } else if gs.len() == 1 {
        spec_grouping_text(gs[0])
    } else {
        spec_groupings_text(gs.drop_last()) + "\r\n"@ + spec_grouping_text(gs.last())
    }
}

/// `name`, the grouping's text, `, key: ` and the key's text.
pub open spec fn spec_target_text(name: Seq<char>, g: Seq<u8>, k: Seq<u8>) -> Seq<char> {
    name + spec_grouping_text(g) + ", key: "@ + utf8_lossy(k)
}

/// The text of a command; `detail` stands for the text of the unit or the predicate it carries.
pub open spec fn spec_command_text(c: CommandView, detail: Seq<char>) -> Seq<char> {
    match c {
        CommandView::Select(ConditionView::Key(g, k, Some(t))) => spec_target_text("Command Select, grouping: "@, g, k)
            + ", transaction_id: "@ + spec_decimal(t),
        CommandView::Select(ConditionView::Key(g, k, None)) => spec_target_text("Command Select, grouping: "@, g, k)
            + ", transaction_id: None"@,
        CommandView::Select(ConditionView::UnconditionalMatch(g)) => "Command Select, UnconditionalMatch on grouping "@
            + spec_grouping_text(g),
        CommandView::Select(ConditionView::Predicate(g, _)) => "grouping "@ + spec_grouping_text(g) + ", predicate "@ + detail,
        CommandView::Select(ConditionView::AllGrouping) => "List all grouping"@,
        CommandView::InspectOne(g, k) => spec_target_text("Command InspectOne, grouping: "@, g, k),
        CommandView::InspectAll => "Command InspectAll"@,
        CommandView::Insert(g, k, _) => spec_target_text("Command Insert, grouping: "@, g, k) + ", content: "@ + detail,
        CommandView::RevertOne(g, k, h) => spec_target_text("Command RevertOne, grouping: "@, g, k) + ", height: "@
            + spec_height_text(h),
        CommandView::RevertAll(h) => "Command RevertAll, height: "@ + spec_height_text(h),
        CommandView::RemoveOne(g, k) => spec_target_text("Command RemoveOne, grouping: "@, g, k),
        CommandView::RemoveAll => "Command RemoveAll"@,
        CommandView::RemoveGroupings(gs) => "Command RemoveGroupings "@ + spec_groupings_text(gs),
        CommandView::CreateTransaction => "Command CreateTransaction"@,
        CommandView::TransactionalInsert(g, k, _, t) => spec_target_text("Command TransactionalInsert, grouping: "@, g, k)
            + ", content: "@ + detail + ", transaction_id: "@ + spec_decimal(t),
        CommandView::TransactionalRevertOne(g, k, h, t) => spec_target_text(
            "Command TransactionalRevertOne, grouping: "@,
            g,
            k,
        ) + ", height: "@ + spec_height_text(h) + ", transaction_id: "@ + spec_decimal(t),
        CommandView::TransactionalRemoveOne(g, k, t) => spec_target_text("Command TransactionalRemoveOne, grouping: "@, g, k)
            + ", transaction_id: "@ + spec_decimal(t),
        CommandView::TransactionCommit(t) => "Command TransactionCommit, transaction_id "@ + spec_decimal(t),
        CommandView::TransactionAbort(t) => "Command TransactionAbort, transaction_id "@ + spec_decimal(t),
    }
}

/// Appends characters.
fn push_chars(out: &mut Vec<char>, s: &[char])
    ensures
        final(out)@ == old(out)@ + s@,
{
    let mut i: usize = 0;
    while i < s.len()
        invariant
            i <= s@.len(),
            out@ == old(out)@ + s@.take(i as int),
        decreases s@.len() - i,
    {
        out.push(s[i]);
        i = i + 1;
        assert(out@ =~= old(out)@ + s@.take(i as int));
    }
    assert(s@.take(s@.len() as int) =~= s@);
}

/// Appends the characters of a text.
fn push_text(out: &mut Vec<char>, s: &str)
    ensures
        final(out)@ == old(out)@ + s@,
{
    let chars = str_chars(s);
    push_chars(out, chars.as_slice());
}

/// The numeral of a digit.
fn digit(d: u64) -> (result: char)
    requires
        d < 10,
    ensures
        result == spec_digit(d),
{
    if d == 0 { '0' } else if d == 1 { '1' } else if d == 2 { '2' } else if d == 3 { '3' } else if d == 4 {
        '4'
    } else if d == 5 { '5' } else if d == 6 { '6' } else if d == 7 { '7' } else if d == 8 { '8' } else { '9' }
}

/// Appends the decimal numeral of `n`.
fn push_decimal(out: &mut Vec<char>, n: u64)
    ensures
        final(out)@ == old(out)@ + spec_decimal(n),
    decreases n,
{
    if n < 10 {
        out.push(digit(n));
        assert(out@ =~= old(out)@ + spec_decimal(n));
    } else {
        push_decimal(out, n / 10);
        out.push(digit(n % 10));
        assert(out@ =~= old(out)@ + spec_decimal(n));
    }
}

/// Appends the text of a grouping; see `spec_grouping_text`.
fn push_grouping(out: &mut Vec<char>, g: &GroupingLabel)
    ensures
        final(out)@ == old(out)@ + spec_grouping_text(g@),
{
    match string_from_utf8(bytes_to_vec(g.as_bytes())) {
        Some(s) => push_text(out, s.as_str()),
        None => {
            assert(old(out)@ + Seq::<char>::empty() =~= old(out)@);
        },
    }
}

/// Appends `name`, the grouping's text, `, key: ` and the key's text.
fn push_target(out: &mut Vec<char>, name: &str, g: &GroupingLabel, k: &UnitKey)
    ensures
        final(out)@ == old(out)@ + spec_target_text(name@, g@, k@),
{
    push_text(out, name);
    push_grouping(out, g);
    push_text(out, ", key: ");
    let key = string_from_utf8_lossy(k.as_bytes());
    push_text(out, key.as_str());
    assert(out@ =~= old(out)@ + spec_target_text(name@, g@, k@));
}

/// Appends the text of a height.
fn push_height(out: &mut Vec<char>, h: &ChainHeight)
    ensures
        final(out)@ == old(out)@ + spec_height_text(h@),
{
    push_text(out, "ChainHeight : ");
    push_decimal(out, h.as_u64());
    assert(out@ =~= old(out)@ + spec_height_text(h@));
}

/// Appends `, transaction_id: ` and the id.
fn push_id(out: &mut Vec<char>, label: &str, t: &TransactionId)
    ensures
        final(out)@ == old(out)@ + label@ + spec_decimal(t@),
{
    push_text(out, label);
    push_decimal(out, t.as_u64());
    assert(out@ =~= old(out)@ + label@ + spec_decimal(t@));
}

/// Appends the texts of groupings, one per line.
fn push_groupings(out: &mut Vec<char>, gs: &[GroupingLabel])
    ensures
        final(out)@ == old(out)@ + spec_groupings_text(gs@.map_values(|g: GroupingLabel| g@)),
{
    let ghost views = gs@.map_values(|g: GroupingLabel| g@);
    let mut i: usize = 0;
    while i < gs.len()
        invariant
            i <= gs@.len(),
            views == gs@.map_values(|g: GroupingLabel| g@),
            out@ == old(out)@ + spec_groupings_text(views.take(i as int)),
        decreases gs@.len() - i,
    {
        let ghost before = out@;
        assert(views.take(i + 1).drop_last() =~= views.take(i as int));
        assert(views.take(i + 1).last() == gs@[i as int]@);
        if i > 0 {
            push_text(out, "\r\n");
        }
        push_grouping(out, &gs[i]);
        proof {
            if i == 0 {
                assert(views.take(1) =~= seq![gs@[0]@]);
                assert(spec_groupings_text(views.take(0)) =~= Seq::<char>::empty());
            }
        }
        assert(out@ =~= old(out)@ + spec_groupings_text(views.take(i + 1)));
        i = i + 1;
    }
    assert(views.take(gs@.len() as int) =~= views);
}

impl Command {
    /// The text of the command; `detail` is the text of the unit or the predicate it carries,
    /// which the caller prints. See `spec_command_text`.
    pub fn text(&self, detail: &str) -> (result: String)
        ensures
            result@ == spec_command_text(self@, detail@),
    {
        let mut out: Vec<char> = Vec::new();
        match self {
            Command::Select { condition } => match condition {
                SelectCondition::Key(g, k, Some(t)) => {
                    push_target(&mut out, "Command Select, grouping: ", g, k);
                    push_id(&mut out, ", transaction_id: ", t);
                },
                SelectCondition::Key(g, k, None) => {
                    push_target(&mut out, "Command Select, grouping: ", g, k);
                    push_text(&mut out, ", transaction_id: None");
                },
                SelectCondition::UnconditionalMatch(g) => {
                    push_text(&mut out, "Command Select, UnconditionalMatch on grouping ");
                    push_grouping(&mut out, g);
                },
                SelectCondition::Predicate(g, _) => {
                    push_text(&mut out, "grouping ");
                    push_grouping(&mut out, g);
                    push_text(&mut out, ", predicate ");
                    push_text(&mut out, detail);
                },
                SelectCondition::AllGrouping => push_text(&mut out, "List all grouping"),
            },
            Command::InspectOne { grouping, key } => push_target(&mut out, "Command InspectOne, grouping: ", grouping, key),
            Command::InspectAll => push_text(&mut out, "Command InspectAll"),
            Command::Insert { grouping, key, .. } => {
                push_target(&mut out, "Command Insert, grouping: ", grouping, key);
                push_text(&mut out, ", content: ");
                push_text(&mut out, detail);
            },
            Command::RevertOne { grouping, key, height } => {
                push_target(&mut out, "Command RevertOne, grouping: ", grouping, key);
                push_text(&mut out, ", height: ");
                push_height(&mut out, height);
            },
            Command::RevertAll { height } => {
                push_text(&mut out, "Command RevertAll, height: ");
                push_height(&mut out, height);
            },
            Command::RemoveOne { grouping, key } => push_target(&mut out, "Command RemoveOne, grouping: ", grouping, key),
            Command::RemoveAll => push_text(&mut out, "Command RemoveAll"),
            Command::RemoveGroupings { groupings } => {
                push_text(&mut out, "Command RemoveGroupings ");
                push_groupings(&mut out, groupings.as_slice());
            },
            Command::CreateTransaction => push_text(&mut out, "Command CreateTransaction"),
            Command::TransactionalInsert { grouping, key, transaction_id, .. } => {
                push_target(&mut out, "Command TransactionalInsert, grouping: ", grouping, key);
                push_text(&mut out, ", content: ");
                push_text(&mut out, detail);
                push_id(&mut out, ", transaction_id: ", transaction_id);
            },
            Command::TransactionalRevertOne { grouping, key, height, transaction_id } => {
                push_target(&mut out, "Command TransactionalRevertOne, grouping: ", grouping, key);
                push_text(&mut out, ", height: ");
                push_height(&mut out, height);
                push_id(&mut out, ", transaction_id: ", transaction_id);
            },
            Command::TransactionalRemoveOne { grouping, key, transaction_id } => {
                push_target(&mut out, "Command TransactionalRemoveOne, grouping: ", grouping, key);
                push_id(&mut out, ", transaction_id: ", transaction_id);
            },
            Command::TransactionCommit { transaction_id } => push_id(
                &mut out,
                "Command TransactionCommit, transaction_id ",
                transaction_id,
            ),
            Command::TransactionAbort { transaction_id } => push_id(
                &mut out,
                "Command TransactionAbort, transaction_id ",
                transaction_id,
            ),
        }
        assert(out@ =~= spec_command_text(self@, detail@));
        string_from_chars(out.as_slice())
    }
}

} // verus!
