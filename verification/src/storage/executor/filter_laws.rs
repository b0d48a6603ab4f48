//! What a filter unit admits: a field equal to the filter's unit satisfies `=`, `<=` and `>=`
//! and neither `<` nor `>`; numbers stand in exactly one order; and on numbers a filter unit
//! agrees with the primitive predicate of the same comparison.

use vstd::prelude::*;
use crate::storage::executor::check_laws::compare_with;
use crate::storage::executor::filter::{
    spec_filter_from, spec_filter_satisfied, spec_text_order, spec_unit_satisfied, FilterOperator, FilterUnitView, FilterView,
    LogicalOperator,
};
use crate::storage::executor::predicate::{spec_check, spec_value_at_path, Relation};
use crate::storage::executor::unit_content::{float_is_nan, spec_key_position, ContentOrdering, ContentView};

verus! {

/// The filter unit comparing field `f` with `v` by `op`.
pub open spec fn filter_unit(f: Seq<char>, op: FilterOperator, v: ContentView) -> FilterUnitView {
    FilterUnitView { map_key: f, unit_content: v, operator: op }
}

/// Whether the unit is a map whose field `f` holds `v`.
pub open spec fn field_holds(c: ContentView, f: Seq<char>, v: ContentView) -> bool {
    c matches ContentView::Mapping(entries) && (spec_key_position(entries, f) matches Some(j) && entries[j].1 == v)
}

/// A text compares equal to itself.
pub proof fn lemma_text_order_reflexive(s: Seq<char>)
    ensures
        spec_text_order(s, s) == ContentOrdering::Equal,
    decreases s.len(),
{
    if s.len() > 0 {
        lemma_text_order_reflexive(s.drop_first());
    }
}

/// A text is below another exactly when the other is above it.
pub proof fn lemma_text_order_converse(a: Seq<char>, b: Seq<char>)
    ensures
        (spec_text_order(a, b) == ContentOrdering::Less) == (spec_text_order(b, a) == ContentOrdering::Greater),
        (spec_text_order(a, b) == ContentOrdering::Equal) == (spec_text_order(b, a) == ContentOrdering::Equal),
    decreases a.len(),
{
    if a.len() > 0 && b.len() > 0 && a[0] == b[0] {
        lemma_text_order_converse(a.drop_first(), b.drop_first());
    }
}

/// A field holding a number that is not NaN, compared with that same number: `=`, `<=` and
/// `>=` are satisfied, `<`, `>` and `!=` are not.
pub proof fn law_filter_number_against_itself(c: ContentView, f: Seq<char>, x: u64)
    requires
        field_holds(c, f, ContentView::Float64(x)),
        !float_is_nan(x),
    ensures
        spec_unit_satisfied(c, filter_unit(f, FilterOperator::Equal, ContentView::Float64(x))),
        spec_unit_satisfied(c, filter_unit(f, FilterOperator::LessEqual, ContentView::Float64(x))),
        spec_unit_satisfied(c, filter_unit(f, FilterOperator::GreaterEqual, ContentView::Float64(x))),
        !spec_unit_satisfied(c, filter_unit(f, FilterOperator::Less, ContentView::Float64(x))),
        !spec_unit_satisfied(c, filter_unit(f, FilterOperator::Greater, ContentView::Float64(x))),
        !spec_unit_satisfied(c, filter_unit(f, FilterOperator::NotEqual, ContentView::Float64(x))),
{
}

/// A field holding a text, compared with that same text: `=`, `<=` and `>=` are satisfied,
/// `<`, `>` and `!=` are not.
pub proof fn law_filter_text_against_itself(c: ContentView, f: Seq<char>, s: Seq<char>)
    requires
        field_holds(c, f, ContentView::String(s)),
    ensures
        spec_unit_satisfied(c, filter_unit(f, FilterOperator::Equal, ContentView::String(s))),
        spec_unit_satisfied(c, filter_unit(f, FilterOperator::LessEqual, ContentView::String(s))),
        spec_unit_satisfied(c, filter_unit(f, FilterOperator::GreaterEqual, ContentView::String(s))),
        !spec_unit_satisfied(c, filter_unit(f, FilterOperator::Less, ContentView::String(s))),
        !spec_unit_satisfied(c, filter_unit(f, FilterOperator::Greater, ContentView::String(s))),
        !spec_unit_satisfied(c, filter_unit(f, FilterOperator::NotEqual, ContentView::String(s))),
{
    lemma_text_order_reflexive(s);
}

/// A field holding a number, against a number, both not NaN: exactly one of `<`, `=` and `>`
/// is satisfied; `<=` is `<` or `=`, `>=` is `>` or `=`, and `!=` is not `=`.
pub proof fn law_filter_number_trichotomy(c: ContentView, f: Seq<char>, x: u64, y: u64)
    requires
        field_holds(c, f, ContentView::Float64(x)),
        !float_is_nan(x),
        !float_is_nan(y),
    ensures
        ({
            let v = ContentView::Float64(y);
            let lt = spec_unit_satisfied(c, filter_unit(f, FilterOperator::Less, v));
            let eq = spec_unit_satisfied(c, filter_unit(f, FilterOperator::Equal, v));
            let gt = spec_unit_satisfied(c, filter_unit(f, FilterOperator::Greater, v));
            &&& lt || eq || gt
            &&& !(lt && eq) && !(lt && gt) && !(eq && gt)
            &&& spec_unit_satisfied(c, filter_unit(f, FilterOperator::LessEqual, v)) == (lt || eq)
            &&& spec_unit_satisfied(c, filter_unit(f, FilterOperator::GreaterEqual, v)) == (gt || eq)
            &&& spec_unit_satisfied(c, filter_unit(f, FilterOperator::NotEqual, v)) == !eq
        }),
{
}

/// A field holding a text, against a text: `<` and `>` are each other's converse, and `<=`
/// holds exactly when `>` does not.
pub proof fn law_filter_text_converse(c: ContentView, d: ContentView, f: Seq<char>, s: Seq<char>, t: Seq<char>)
    requires
        field_holds(c, f, ContentView::String(s)),
        field_holds(d, f, ContentView::String(t)),
    ensures
        spec_unit_satisfied(c, filter_unit(f, FilterOperator::Less, ContentView::String(t))) == spec_unit_satisfied(
            d,
            filter_unit(f, FilterOperator::Greater, ContentView::String(s)),
        ),
        spec_unit_satisfied(c, filter_unit(f, FilterOperator::LessEqual, ContentView::String(t))) == !spec_unit_satisfied(
            c,
            filter_unit(f, FilterOperator::Greater, ContentView::String(t)),
        ),
{
    lemma_text_order_converse(s, t);
}

/// On numbers, a filter unit agrees with the primitive predicate of the same comparison on the
/// same field: `<` with below, `<=` with at most, `>` with above, `>=` with at least, `=` with
/// equal, and `!=` with not equal.
pub proof fn law_filter_agrees_with_predicate(c: ContentView, f: Seq<char>, x: u64, y: u64)
    requires
        field_holds(c, f, ContentView::Float64(x)),
    ensures
        ({
            let v = ContentView::Float64(y);
            let path = seq![f];
            &&& spec_unit_satisfied(c, filter_unit(f, FilterOperator::Less, v)) == spec_check(compare_with(Relation::LessThan, path, y), c)
            &&& spec_unit_satisfied(c, filter_unit(f, FilterOperator::LessEqual, v)) == spec_check(
                compare_with(Relation::LessThanOrEqual, path, y),
                c,
            )
            &&& spec_unit_satisfied(c, filter_unit(f, FilterOperator::Greater, v)) == spec_check(compare_with(Relation::GreaterThan, path, y), c)
            &&& spec_unit_satisfied(c, filter_unit(f, FilterOperator::GreaterEqual, v)) == spec_check(
                compare_with(Relation::GreaterThanOrEqual, path, y),
                c,
            )
            &&& spec_unit_satisfied(c, filter_unit(f, FilterOperator::Equal, v)) == spec_check(compare_with(Relation::Equal, path, y), c)
            &&& spec_unit_satisfied(c, filter_unit(f, FilterOperator::NotEqual, v)) == !spec_check(compare_with(Relation::Equal, path, y), c)
        }),
{
    let path = seq![f];
    reveal_with_fuel(spec_value_at_path, 2);
    assert(path[0] == f);
    assert(path.subrange(1, path.len() as int) =~= Seq::<Seq<char>>::empty());
    assert(spec_value_at_path(c, path) == ContentView::Float64(x));
}

/// A filter of one unit is satisfied exactly where that unit is; two units joined by `&&` where
/// both are, and joined by `||` where either is.
pub proof fn law_filter_chains(c: ContentView, u: FilterUnitView, w: FilterUnitView)
    ensures
        spec_filter_satisfied(c, FilterView { units: seq![u], operators: Seq::empty() }) == spec_unit_satisfied(c, u),
        spec_filter_satisfied(c, FilterView { units: seq![u, w], operators: seq![LogicalOperator::And] }) == (
        spec_unit_satisfied(c, u) && spec_unit_satisfied(c, w)),
        spec_filter_satisfied(c, FilterView { units: seq![u, w], operators: seq![LogicalOperator::Or] }) == (
        spec_unit_satisfied(c, u) || spec_unit_satisfied(c, w)),
{
    reveal_with_fuel(spec_filter_from, 4);
    let one = crate::storage::executor::filter::spec_unit_results(c, seq![u]);
    assert(one.len() == 1 && one[0] == spec_unit_satisfied(c, u));
    let two = crate::storage::executor::filter::spec_unit_results(c, seq![u, w]);
    assert(two.len() == 2 && two[0] == spec_unit_satisfied(c, u) && two[1] == spec_unit_satisfied(c, w));
}

} // verus!
