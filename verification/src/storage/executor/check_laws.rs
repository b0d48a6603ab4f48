//! What checking a unit against a primitive predicate means for numbers, and what reading a
//! primitive predicate from its tokens gives.

use vstd::prelude::*;
use crate::storage::executor::predicate::{
    spec_check, spec_parse_tokens, spec_scan, spec_value_at_path, PredicateView, Relation, TokenView,
};
use crate::storage::executor::unit_content::{float_is_nan, ContentView};

verus! {

/// The primitive predicate comparing the part at `path` with the number `y`.
pub open spec fn compare_with(r: Relation, path: Seq<Seq<char>>, y: u64) -> PredicateView {
    PredicateView::Primitive(r, path, ContentView::Float64(y))
}

/// A number compared with itself: it is equal, at most and at least itself, and neither below
/// nor above itself.
pub proof fn law_number_against_itself(c: ContentView, path: Seq<Seq<char>>, x: u64)
    requires
        spec_value_at_path(c, path) == ContentView::Float64(x),
        !float_is_nan(x),
    ensures
        spec_check(compare_with(Relation::Equal, path, x), c),
        spec_check(compare_with(Relation::LessThanOrEqual, path, x), c),
        spec_check(compare_with(Relation::GreaterThanOrEqual, path, x), c),
        !spec_check(compare_with(Relation::LessThan, path, x), c),
        !spec_check(compare_with(Relation::GreaterThan, path, x), c),
{
}

/// Two numbers that are not NaN stand in exactly one of below, equal and above; at most is
/// below or equal, at least is above or equal, and not below is at least.
pub proof fn law_number_trichotomy(c: ContentView, path: Seq<Seq<char>>, x: u64, y: u64)
    requires
        spec_value_at_path(c, path) == ContentView::Float64(x),
        !float_is_nan(x),
        !float_is_nan(y),
    ensures
        ({
            let lt = spec_check(compare_with(Relation::LessThan, path, y), c);
            let eq = spec_check(compare_with(Relation::Equal, path, y), c);
            let gt = spec_check(compare_with(Relation::GreaterThan, path, y), c);
            &&& lt || eq || gt
            &&& !(lt && eq) && !(lt && gt) && !(eq && gt)
            &&& spec_check(compare_with(Relation::LessThanOrEqual, path, y), c) == (lt || eq)
            &&& spec_check(compare_with(Relation::GreaterThanOrEqual, path, y), c) == (gt || eq)
            &&& !lt == spec_check(compare_with(Relation::GreaterThanOrEqual, path, y), c)
            &&& !gt == spec_check(compare_with(Relation::LessThanOrEqual, path, y), c)
        }),
{
}

/// Below is the converse of above: `x` is below `y` exactly when `y` is above `x`, and at most
/// exactly when the other is at least.
pub proof fn law_comparison_converse(c: ContentView, d: ContentView, path: Seq<Seq<char>>, x: u64, y: u64)
    requires
        spec_value_at_path(c, path) == ContentView::Float64(x),
        spec_value_at_path(d, path) == ContentView::Float64(y),
    ensures
        spec_check(compare_with(Relation::LessThan, path, y), c) == spec_check(compare_with(Relation::GreaterThan, path, x), d),
        spec_check(compare_with(Relation::LessThanOrEqual, path, y), c) == spec_check(
            compare_with(Relation::GreaterThanOrEqual, path, x),
            d,
        ),
        spec_check(compare_with(Relation::Equal, path, y), c) == spec_check(compare_with(Relation::Equal, path, x), d),
{
}

/// Numbers without a sign bit compare as their bit patterns do, as IEEE 754 lays out
/// non-negative numbers: `x` is below `y` exactly when its bits are.
pub proof fn law_non_negative_numbers_compare_by_bits(c: ContentView, path: Seq<Seq<char>>, x: u64, y: u64)
    requires
        spec_value_at_path(c, path) == ContentView::Float64(x),
        x < 0x8000_0000_0000_0000u64,
        y < 0x8000_0000_0000_0000u64,
        !float_is_nan(x),
        !float_is_nan(y),
    ensures
        spec_check(compare_with(Relation::LessThan, path, y), c) == (x < y),
        spec_check(compare_with(Relation::LessThanOrEqual, path, y), c) == (x <= y),
        spec_check(compare_with(Relation::GreaterThan, path, y), c) == (x > y),
        spec_check(compare_with(Relation::Equal, path, y), c) == (x == y),
{
    assert((x & 0x8000_0000_0000_0000u64) == 0 && (x & 0x7fff_ffff_ffff_ffffu64) == x) by (bit_vector)
        requires
            x < 0x8000_0000_0000_0000u64,
    ;
    assert((y & 0x8000_0000_0000_0000u64) == 0 && (y & 0x7fff_ffff_ffff_ffffu64) == y) by (bit_vector)
        requires
            y < 0x8000_0000_0000_0000u64,
    ;
}

/// No order holds where the part at the path is not a number.
pub proof fn law_order_needs_a_number(c: ContentView, path: Seq<Seq<char>>, r: Relation, y: u64)
    requires
        !(spec_value_at_path(c, path) is Float64),
        r != Relation::Equal,
    ensures
        !spec_check(compare_with(r, path, y), c),
{
}

/// The tokens `this`, `.`, a field name, a comparison and a value.
pub open spec fn primitive_tokens(field: Seq<char>, comparison: TokenView, value: Seq<char>) -> Seq<TokenView> {
    seq![TokenView::This, TokenView::Dot, TokenView::Identifier(field), comparison, TokenView::ContentString(value)]
}

/// The tokens of `this.<field> <comparison> <value>` read as the primitive predicate that
/// compares the field with the value by the relation of the same name.
pub proof fn law_parse_primitive_comparison(field: Seq<char>, value: Seq<char>, contents: Seq<ContentView>)
    requires
        contents.len() == 5,
    ensures
        spec_parse_tokens(primitive_tokens(field, TokenView::LessThan, value), contents) == Ok::<
            PredicateView,
            crate::storage::executor::predicate::PredicateError,
        >(PredicateView::Primitive(Relation::LessThan, seq![field], contents[4])),
        spec_parse_tokens(primitive_tokens(field, TokenView::LessThanOrEqual, value), contents) == Ok::<
            PredicateView,
            crate::storage::executor::predicate::PredicateError,
        >(PredicateView::Primitive(Relation::LessThanOrEqual, seq![field], contents[4])),
        spec_parse_tokens(primitive_tokens(field, TokenView::GreaterThan, value), contents) == Ok::<
            PredicateView,
            crate::storage::executor::predicate::PredicateError,
        >(PredicateView::Primitive(Relation::GreaterThan, seq![field], contents[4])),
        spec_parse_tokens(primitive_tokens(field, TokenView::GreaterThanOrEqual, value), contents) == Ok::<
            PredicateView,
            crate::storage::executor::predicate::PredicateError,
        >(PredicateView::Primitive(Relation::GreaterThanOrEqual, seq![field], contents[4])),
        spec_parse_tokens(primitive_tokens(field, TokenView::Equal, value), contents) == Ok::<
            PredicateView,
            crate::storage::executor::predicate::PredicateError,
        >(PredicateView::Primitive(Relation::Equal, seq![field], contents[4])),
{
    lemma_parse_primitive(field, TokenView::LessThan, value, contents);
    lemma_parse_primitive(field, TokenView::LessThanOrEqual, value, contents);
    lemma_parse_primitive(field, TokenView::GreaterThan, value, contents);
    lemma_parse_primitive(field, TokenView::GreaterThanOrEqual, value, contents);
    lemma_parse_primitive(field, TokenView::Equal, value, contents);
}

/// The relation a comparison token names.
pub open spec fn relation_of(comparison: TokenView) -> Relation {
    match comparison {
        TokenView::LessThan => Relation::LessThan,
        TokenView::LessThanOrEqual => Relation::LessThanOrEqual,
        TokenView::GreaterThan => Relation::GreaterThan,
        TokenView::GreaterThanOrEqual => Relation::GreaterThanOrEqual,
        _ => Relation::Equal,
    }
}

/// Tokens without `||` or `&&` are not split.
#[verifier::spinoff_prover]
proof fn lemma_no_split(tokens: Seq<TokenView>, target: TokenView)
    requires
        forall|i: int| 0 <= i < tokens.len() ==> #[trigger] tokens[i] != target,
    ensures
        crate::storage::executor::predicate::first_token_index(tokens, target) is None,
{
    reveal(crate::storage::executor::predicate::first_token_index);
    if let Some(i) = crate::storage::executor::predicate::first_token_index(tokens, target) {
        assert(0 <= i < tokens.len() && tokens[i] == target);
        assert(tokens[i] != target);
    }
}

/// Scanning `this.<field> <comparison> <value>` reads the field, the value and the comparison.
proof fn lemma_scan_primitive(field: Seq<char>, comparison: TokenView, value: Seq<char>, contents: Seq<ContentView>)
    requires
        contents.len() == 5,
        comparison is LessThan || comparison is LessThanOrEqual || comparison is GreaterThan || comparison is GreaterThanOrEqual
            || comparison is Equal,
    ensures
        spec_scan(primitive_tokens(field, comparison, value), contents, 5) == Some(
            (seq![field], Some(contents[4]), Some(relation_of(comparison))),
        ),
{
    let tokens = primitive_tokens(field, comparison, value);
    reveal_with_fuel(spec_scan, 6);
    assert(tokens[0] == TokenView::This);
    assert(tokens[1] == TokenView::Dot);
    assert(tokens[2] == TokenView::Identifier(field));
    assert(tokens[3] == comparison);
    assert(tokens[4] == TokenView::ContentString(value));
    assert(Seq::<Seq<char>>::empty().push(field) =~= seq![field]);
}

/// Reading `this.<field> <comparison> <value>`: a primitive predicate on the field and the
/// value, with the relation the comparison names.
proof fn lemma_parse_primitive(field: Seq<char>, comparison: TokenView, value: Seq<char>, contents: Seq<ContentView>)
    requires
        contents.len() == 5,
        comparison is LessThan || comparison is LessThanOrEqual || comparison is GreaterThan || comparison is GreaterThanOrEqual
            || comparison is Equal,
    ensures
        spec_parse_tokens(primitive_tokens(field, comparison, value), contents) == Ok::<
            PredicateView,
            crate::storage::executor::predicate::PredicateError,
        >(PredicateView::Primitive(relation_of(comparison), seq![field], contents[4])),
{
    let tokens = primitive_tokens(field, comparison, value);
    assert forall|i: int| 0 <= i < tokens.len() implies tokens[i] != TokenView::Or && tokens[i] != TokenView::And by {
        assert(i == 0 || i == 1 || i == 2 || i == 3 || i == 4);
    }
    lemma_no_split(tokens, TokenView::Or);
    lemma_no_split(tokens, TokenView::And);
    lemma_scan_primitive(field, comparison, value, contents);
}

/// A negation holds exactly where its predicate does not; a disjunction of two where either
/// holds; a conjunction of two where both hold.
pub proof fn law_logical_connectives(p: PredicateView, q: PredicateView, c: ContentView)
    ensures
        spec_check(PredicateView::Not(Box::new(p)), c) == !spec_check(p, c),
        spec_check(PredicateView::Or(seq![p, q]), c) == (spec_check(p, c) || spec_check(q, c)),
        spec_check(PredicateView::And(seq![p, q]), c) == (spec_check(p, c) && spec_check(q, c)),
{
    let ps = seq![p, q];
    reveal_with_fuel(spec_check, 2);
    assert(ps[0] == p && ps[1] == q);
    if spec_check(PredicateView::Or(ps), c) {
        let i = choose|i: int| 0 <= i < ps.len() && spec_check(#[trigger] ps[i], c);
        assert(i == 0 || i == 1);
    }
    if spec_check(p, c) || spec_check(q, c) {
        if spec_check(p, c) {
            assert(spec_check(ps[0], c));
        } else {
            assert(spec_check(ps[1], c));
        }
    }
    if spec_check(p, c) && spec_check(q, c) {
        assert forall|i: int| 0 <= i < ps.len() implies spec_check(#[trigger] ps[i], c) by {
            assert(i == 0 || i == 1);
        }
    }
    if spec_check(PredicateView::And(ps), c) {
        let whole = PredicateView::And(ps);
        assert(decreases_to!(whole => whole->And_0));
        assert(decreases_to!(ps => ps[0]));
        assert(decreases_to!(ps => ps[1]));
        assert(spec_check(ps[0], c));
        assert(spec_check(ps[1], c));
    }
}

/// The tokens of two primitive predicates joined by `||` (or by `&&`) read as their disjunction
/// (or conjunction), each side read as the primitive predicate of its own comparison.
pub proof fn law_parse_joined_primitives(
    f: Seq<char>,
    cf: TokenView,
    vf: Seq<char>,
    g: Seq<char>,
    cg: TokenView,
    vg: Seq<char>,
    join: TokenView,
    contents: Seq<ContentView>,
)
    requires
        contents.len() == 11,
        cf is LessThan || cf is LessThanOrEqual || cf is GreaterThan || cf is GreaterThanOrEqual || cf is Equal,
        cg is LessThan || cg is LessThanOrEqual || cg is GreaterThan || cg is GreaterThanOrEqual || cg is Equal,
        join == TokenView::Or || join == TokenView::And,
    ensures
        ({
            let left = PredicateView::Primitive(relation_of(cf), seq![f], contents[4]);
            let right = PredicateView::Primitive(relation_of(cg), seq![g], contents[10]);
            spec_parse_tokens(primitive_tokens(f, cf, vf).push(join) + primitive_tokens(g, cg, vg), contents) == Ok::<
                PredicateView,
                crate::storage::executor::predicate::PredicateError,
            >(if join == TokenView::Or { PredicateView::Or(seq![left, right]) } else { PredicateView::And(seq![left, right]) })
        }),
{
    let a = primitive_tokens(f, cf, vf);
    let b = primitive_tokens(g, cg, vg);
    let tokens = a.push(join) + b;
    assert(tokens.subrange(0, 5) =~= a);
    assert(tokens.subrange(6, 11) =~= b);
    assert(tokens[5] == join);
    assert forall|i: int| 0 <= i < a.len() implies a[i] != TokenView::Or && a[i] != TokenView::And by {
        assert(i == 0 || i == 1 || i == 2 || i == 3 || i == 4);
    }
    assert forall|i: int| 0 <= i < b.len() implies b[i] != TokenView::Or && b[i] != TokenView::And by {
        assert(i == 0 || i == 1 || i == 2 || i == 3 || i == 4);
    }
    assert forall|i: int| 0 <= i < 5 implies tokens[i] != TokenView::Or && tokens[i] != TokenView::And by {
        assert(tokens[i] == a[i]);
    }
    lemma_first_at(tokens, join, 5);
    if join == TokenView::And {
        assert forall|i: int| 0 <= i < tokens.len() implies tokens[i] != TokenView::Or by {
            if i < 5 {
                assert(tokens[i] == a[i]);
            } else if i > 5 {
                assert(tokens[i] == b[i - 6]);
            }
        }
        lemma_no_split(tokens, TokenView::Or);
    }
    lemma_parse_primitive(f, cf, vf, contents.subrange(0, 5));
    lemma_parse_primitive(g, cg, vg, contents.subrange(6, 11));
}

/// The first place of `target` is `k` where it stands at `k` and nowhere before.
proof fn lemma_first_at(tokens: Seq<TokenView>, target: TokenView, k: int)
    requires
        0 <= k < tokens.len(),
        tokens[k] == target,
        forall|i: int| 0 <= i < k ==> #[trigger] tokens[i] != target,
    ensures
        crate::storage::executor::predicate::first_token_index(tokens, target) == Some(k),
{
    reveal(crate::storage::executor::predicate::first_token_index);
    assert(0 <= k < tokens.len() && tokens[k] == target && forall|j: int| 0 <= j < k ==> tokens[j] != target);
    let c = choose|c: int| 0 <= c < tokens.len() && tokens[c] == target && forall|j: int| 0 <= j < c ==> tokens[j] != target;
    if c < k {
        assert(tokens[c] != target);
    } else if c > k {
        assert(tokens[k] != target);
    }
}

} // verus!
