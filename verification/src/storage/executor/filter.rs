//! Filters: conditions on the fields of a map, chained left to right with `&&` and `||`.

use vstd::prelude::*;
use crate::storage::executor::unit_content::{
    content_eq, content_equals, entries_view, key_position, lemma_entries_view_all, spec_float_order,
    float_compare, spec_key_position, ContentOrdering, ContentView, UnitContent,
};
use crate::utils::bytes::sub_bytes;
use crate::utils::text::{str_chars, string_from_utf8_lossy, utf8_lossy};

verus! {

/// The error of the regex engine, carried through as an opaque value.
#[verifier::external_type_specification]
#[verifier::external_body]
pub struct ExRegexError(regex::Error);

/// Why a filter text is refused: a pattern the regex engine does not take, or a piece that is
/// not an operator.
#[derive(Debug)]
pub enum FilterError {
    RegexError(regex::Error),
    ParseFilterError,
}

impl From<regex::Error> for FilterError {
    fn from(err: regex::Error) -> (result: FilterError)
        ensures
            result == FilterError::RegexError(err),
    {
        FilterError::RegexError(err)
    }
}

impl vstd::std_specs::convert::FromSpecImpl<regex::Error> for FilterError {
    open spec fn obeys_from_spec() -> bool {
        true
    }

    open spec fn from_spec(v: regex::Error) -> FilterError {
        FilterError::RegexError(v)
    }
}

/// What kind of refusal a filter error is.
#[derive(PartialEq, Eq, Structural)]
pub enum FilterErrorKind {
    Regex,
    Parse,
}

impl FilterError {
    pub open spec fn kind(self) -> FilterErrorKind {
        match self {
            FilterError::RegexError(_) => FilterErrorKind::Regex,
            FilterError::ParseFilterError => FilterErrorKind::Parse,
        }
    }
}

/// The pattern that finds the logical operators of a filter text.
pub const LOGICAL_OPERATOR_PATTERN: &'static str = "&&|\\|\\|";

/// The pattern that finds the comparison of a filter unit.
pub const FILTER_OPERATOR_PATTERN: &'static str = ">=|<=|!=|>|=|<";

/// How a field is compared with the filter's unit.
#[derive(Debug, Clone, Copy, PartialEq, Eq, Structural)]
pub enum FilterOperator {
    Equal,
    Greater,
    GreaterEqual,
    Less,
    LessEqual,
    NotEqual,
}

/// How the result of a filter unit is combined with what came before it.
#[derive(Debug, Clone, Copy, PartialEq, Eq, Structural)]
pub enum LogicalOperator {
    Or,
    And,
}

impl FilterOperator {
    pub open spec fn spec_symbol(self) -> Seq<char> {
        match self {
            FilterOperator::Equal => seq!['='],
            FilterOperator::Greater => seq!['>'],
            FilterOperator::GreaterEqual => seq!['>', '='],
            FilterOperator::Less => seq!['<'],
            FilterOperator::LessEqual => seq!['<', '='],
            FilterOperator::NotEqual => seq!['!', '='],
        }
    }

    /// The symbol of the operator.
    pub fn symbol(&self) -> (result: String)
        ensures
            result@ == self.spec_symbol(),
    {
        let text = match self {
            FilterOperator::Equal => "=",
            FilterOperator::Greater => ">",
            FilterOperator::GreaterEqual => ">=",
            FilterOperator::Less => "<",
            FilterOperator::LessEqual => "<=",
            FilterOperator::NotEqual => "!=",
        };
        proof {
            reveal_strlit("=");
            reveal_strlit(">");
            reveal_strlit(">=");
            reveal_strlit("<");
            reveal_strlit("<=");
            reveal_strlit("!=");
        }
        let result = text.to_owned();
        assert(result@ =~= self.spec_symbol());
        result
    }

    /// Whether the operator holds of a field that compares to the filter's unit as `o` says.
    pub open spec fn admits(self, o: ContentOrdering) -> bool {
        match self {
            FilterOperator::Less => o == ContentOrdering::Less,
            FilterOperator::LessEqual => o != ContentOrdering::Greater,
            FilterOperator::Greater => o == ContentOrdering::Greater,
            FilterOperator::GreaterEqual => o != ContentOrdering::Less,
            FilterOperator::Equal => o == ContentOrdering::Equal,
            FilterOperator::NotEqual => o != ContentOrdering::Equal,
        }
    }
}

impl LogicalOperator {
    pub open spec fn spec_symbol(self) -> Seq<char> {
        match self {
            LogicalOperator::Or => seq!['|', '|'],
            LogicalOperator::And => seq!['&', '&'],
        }
    }

    /// The symbol of the operator.
    pub fn symbol(&self) -> (result: String)
        ensures
            result@ == self.spec_symbol(),
    {
        let text = match self {
            LogicalOperator::Or => "||",
            LogicalOperator::And => "&&",
        };
        proof {
            reveal_strlit("||");
            reveal_strlit("&&");
        }
        let result = text.to_owned();
        assert(result@ =~= self.spec_symbol());
        result
    }
}

/// The field a filter unit reads and the unit it compares the field with.
pub struct FilterOperands {
    pub map_key: String,
    pub unit_content: UnitContent,
}

/// One comparison of a filter.
pub struct FilterUnit {
    pub operands: FilterOperands,
    pub operator: FilterOperator,
}

/// Comparisons joined, left to right, by logical operators.
pub struct Filter {
    pub filter_units: Vec<FilterUnit>,
    pub logical_operators: Vec<LogicalOperator>,
}

/// A filter unit as plain values.
pub struct FilterUnitView {
    pub map_key: Seq<char>,
    pub unit_content: ContentView,
    pub operator: FilterOperator,
}

impl View for FilterUnit {
    type V = FilterUnitView;

    open spec fn view(&self) -> FilterUnitView {
        FilterUnitView {
            map_key: self.operands.map_key@,
            unit_content: self.operands.unit_content@,
            operator: self.operator,
        }
    }
}

/// Filter units as plain values.
pub open spec fn units_view(units: Seq<FilterUnit>) -> Seq<FilterUnitView> {
    units.map_values(|u: FilterUnit| u@)
}

/// How two texts compare, character by character, a prefix coming first.
pub open spec fn spec_text_order(a: Seq<char>, b: Seq<char>) -> ContentOrdering
    decreases a.len(),
{
    if a.len() == 0 {
        if b.len() == 0 {
            ContentOrdering::Equal
        } else {
            ContentOrdering::Less
        }
    } else if b.len() == 0 {
        ContentOrdering::Greater
    } else if a[0] < b[0] {
        ContentOrdering::Less
    } else if a[0] > b[0] {
        ContentOrdering::Greater
    } else {
        spec_text_order(a.drop_first(), b.drop_first())
    }
}

/// Compares two texts; see `spec_text_order`.
pub fn text_compare(a: &String, b: &String) -> (result: ContentOrdering)
    ensures
        result == spec_text_order(a@, b@),
{
    let x = str_chars(a.as_str());
    let y = str_chars(b.as_str());
    let mut i: usize = 0;
    assert(x@.skip(0) =~= x@ && y@.skip(0) =~= y@);
    while i < x.len() && i < y.len()
        invariant
            i <= x@.len(),
            i <= y@.len(),
            x@ == a@,
            y@ == b@,
            spec_text_order(a@, b@) == spec_text_order(x@.skip(i as int), y@.skip(i as int)),
        decreases x@.len() - i,
    {
        if x[i] < y[i] {
            return ContentOrdering::Less;
        }
        if x[i] > y[i] {
            return ContentOrdering::Greater;
        }
        proof {
            assert(x@.skip(i as int).drop_first() =~= x@.skip(i + 1));
            assert(y@.skip(i as int).drop_first() =~= y@.skip(i + 1));
        }
        i = i + 1;
    }
    if x.len() == y.len() {
        ContentOrdering::Equal
    } else if i == x.len() {
        ContentOrdering::Less
    } else {
        ContentOrdering::Greater
    }
}

/// Whether a field's unit stands, to the filter's unit, as the operator asks: numbers by
/// their order (never where one is not a number), texts by `spec_text_order`; units of other
/// kinds never.
pub open spec fn spec_ordered(v: ContentView, f: ContentView, op: FilterOperator) -> bool {
    match (v, f) {
        (ContentView::Float64(x), ContentView::Float64(y)) => match spec_float_order(x, y) {
            None => false,
            Some(o) => op.admits(o),
        },
        (ContentView::String(s), ContentView::String(t)) => op.admits(spec_text_order(s, t)),
        _ => false,
    }
}

/// Whether a unit satisfies a filter unit: it is a map whose field holds a unit that is equal
/// (or not equal) to the filter's unit, or ordered to it as the operator asks.
pub open spec fn spec_unit_satisfied(c: ContentView, u: FilterUnitView) -> bool {
    match c {
        ContentView::Mapping(entries) => match spec_key_position(entries, u.map_key) {
            None => false,
            Some(j) => {
                let v = entries[j].1;
                match u.operator {
                    FilterOperator::Equal => content_eq(v, u.unit_content),
                    FilterOperator::NotEqual => !content_eq(v, u.unit_content),
                    _ => spec_ordered(v, u.unit_content, u.operator),
                }
            },
        },
        _ => false,
    }
}

/// Whether a unit satisfies a filter unit; see `spec_unit_satisfied`.
pub fn content_satisfied_filter_unit(content: &UnitContent, filter_unit: &FilterUnit) -> (result: bool)
    ensures
        result == spec_unit_satisfied(content@, filter_unit@),
{
    let key = &filter_unit.operands.map_key;
    let filter_content = &filter_unit.operands.unit_content;
    match content {
        UnitContent::Mapping(entries) => {
            proof {
                lemma_entries_view_all(entries@);
            }
            match key_position(entries, key) {
                None => false,
                Some(j) => {
                    let field = &entries[j].1;
                    assert(entries_view(entries@)[j as int].1 == field@);
                    match filter_unit.operator {
                        FilterOperator::Equal => content_equals(field, filter_content),
                        FilterOperator::NotEqual => !content_equals(field, filter_content),
                        _ => match (field, filter_content) {
                            (UnitContent::Float64(x), UnitContent::Float64(y)) => match float_compare(*x, *y) {
                                None => false,
                                Some(o) => operator_admits(filter_unit.operator, o),
                            },
                            (UnitContent::String(s), UnitContent::String(t)) => operator_admits(
                                filter_unit.operator,
                                text_compare(s, t),
                            ),
                            _ => false,
                        },
                    }
                },
            }
        },
        _ => false,
    }
}

/// Whether the operator holds of the ordering; see `FilterOperator::admits`.
fn operator_admits(op: FilterOperator, o: ContentOrdering) -> (result: bool)
    ensures
        result == op.admits(o),
{
    match op {
        FilterOperator::Less => o == ContentOrdering::Less,
        FilterOperator::LessEqual => o != ContentOrdering::Greater,
        FilterOperator::Greater => o == ContentOrdering::Greater,
        FilterOperator::GreaterEqual => o != ContentOrdering::Less,
        FilterOperator::Equal => o == ContentOrdering::Equal,
        FilterOperator::NotEqual => o != ContentOrdering::Equal,
    }
}

/// A filter as plain values.
pub struct FilterView {
    pub units: Seq<FilterUnitView>,
    pub operators: Seq<LogicalOperator>,
}

impl View for Filter {
    type V = FilterView;

    open spec fn view(&self) -> FilterView {
        FilterView { units: units_view(self.filter_units@), operators: self.logical_operators@ }
    }
}

/// The left-to-right reading of a filter from its unit `i` on, where `sats` says which units
/// hold, `current` is the result so far and `op` the operator that joins unit `i` to what came
/// before (`None` before the first operator). A false result stops the reading unless an `||`
/// follows; an `&&` or `||` whose two sides do not give true ends it with false, else the
/// result goes on as true. Each unit takes the next operator, while there is one, for the unit
/// after it.
pub open spec fn spec_filter_from(
    sats: Seq<bool>,
    ops: Seq<LogicalOperator>,
    i: nat,
    current: bool,
    op: Option<LogicalOperator>,
) -> bool
    decreases sats.len() - i,
{
    if i >= sats.len() {
        current
    } else if !current && op != Some(LogicalOperator::Or) {
        current
    } else {
        let c = sats[i as int];
        let next_op = if i < ops.len() {
            Some(ops[i as int])
        } else {
            op
        };
        match op {
            Some(LogicalOperator::Or) => if !(current || c) {
                false
            } else {
                spec_filter_from(sats, ops, i + 1, true, next_op)
            },
            Some(LogicalOperator::And) => if !(current && c) {
                false
            } else {
                spec_filter_from(sats, ops, i + 1, true, next_op)
            },
            None => spec_filter_from(sats, ops, i + 1, c, next_op),
        }
    }
}

/// Which units of a filter a unit of content satisfies.
pub open spec fn spec_unit_results(c: ContentView, units: Seq<FilterUnitView>) -> Seq<bool> {
    Seq::new(units.len(), |k: int| spec_unit_satisfied(c, units[k]))
}

/// Whether a unit satisfies a filter: its units read left to right; see `spec_filter_from`.
pub open spec fn spec_filter_satisfied(c: ContentView, f: FilterView) -> bool {
    spec_filter_from(spec_unit_results(c, f.units), f.operators, 0, true, None)
}

/// Whether a unit satisfies a filter; see `spec_filter_satisfied`.
pub fn content_satisfied_filter(content: &UnitContent, filter: &Filter) -> (result: bool)
    ensures
        result == spec_filter_satisfied(content@, filter@),
{
    let logical_operators = &filter.logical_operators;
    let filter_units = &filter.filter_units;
    let ghost sats = spec_unit_results(content@, filter@.units);
    let ghost ops = logical_operators@;
    let mut logical_operators_index: usize = 0;
    let mut current_operator: Option<LogicalOperator> = None;
    let mut current_result = true;
    let mut i: usize = 0;
    while i < filter_units.len()
        invariant
            i <= filter_units@.len(),
            sats == spec_unit_results(content@, filter@.units),
            sats.len() == filter_units@.len(),
            ops == logical_operators@,
            filter@.units == units_view(filter_units@),
            logical_operators_index == if i <= ops.len() { i } else { ops.len() as usize },
            spec_filter_satisfied(content@, filter@) == spec_filter_from(sats, ops, i as nat, current_result, current_operator),
        decreases filter_units@.len() - i,
    {
        if !current_result && current_operator != Some(LogicalOperator::Or) {
            return current_result;
        }
        let last_result = current_result;
        assert(filter@.units[i as int] == filter_units@[i as int]@);
        current_result = content_satisfied_filter_unit(content, &filter_units[i]);
        let ghost before_op = current_operator;
        match current_operator {
            Some(LogicalOperator::Or) => {
                if !(last_result || current_result) {
                    return false;
                } else {
                    current_result = true;
                }
            },
            Some(LogicalOperator::And) => {
                if !(last_result && current_result) {
                    return false;
                } else {
                    current_result = true;
                }
            },
            None => {},
        }
        if logical_operators_index < logical_operators.len() {
            current_operator = Some(logical_operators[logical_operators_index]);
            logical_operators_index = logical_operators_index + 1;
        }
        i = i + 1;
    }
    current_result
}

/// The byte ranges of the successive matches of `pattern` in `text`, as the regex engine finds
/// them; `None` where the engine does not take the pattern.
pub uninterp spec fn regex_matches(pattern: Seq<char>, text: Seq<char>) -> Option<Seq<(nat, nat)>>;

/// Ranges in order, each within `len` bytes, none overlapping the next.
pub open spec fn spans_ordered(spans: Seq<(nat, nat)>, len: nat) -> bool {
    &&& forall|k: int| 0 <= k < spans.len() ==> #[trigger] spans[k].0 <= spans[k].1 && spans[k].1 <= len
    &&& forall|k: int| 0 <= k < spans.len() - 1 ==> #[trigger] spans[k].1 <= spans[k + 1].0
}

/// Match ranges as numbers.
pub open spec fn spans_view(spans: Seq<(usize, usize)>) -> Seq<(nat, nat)> {
    spans.map_values(|s: (usize, usize)| (s.0 as nat, s.1 as nat))
}

/// Calls `regex::Regex::new` on the pattern and, where the engine takes it, `find_iter` on
/// the text, each match taken as its `start` and `end`. The matches are named as a function of
/// the pattern and the text; what the documentation promises of them is stated: they come in
/// order, do not overlap, and lie within the text's bytes. Which ranges match is not stated.
#[verifier::external_body]
fn find_matches(pattern: &str, text: &str) -> (result: Result<Vec<(usize, usize)>, regex::Error>)
    ensures
        match result {
            Err(_) => regex_matches(pattern@, text@) is None,
            Ok(spans) => regex_matches(pattern@, text@) == Some(spans_view(spans@)) && spans_ordered(
                spans_view(spans@),
                vstd::utf8::encode_utf8(text@).len(),
            ),
        },
{
    match regex::Regex::new(pattern) {
        Err(e) => Err(e),
        Ok(re) => Ok(re.find_iter(text).map(|m| (m.start(), m.end())).collect()),
    }
}

/// The text of the bytes between two offsets.
pub open spec fn spec_piece(b: Seq<u8>, start: nat, end: nat) -> Seq<char> {
    utf8_lossy(b.subrange(start as int, end as int))
}

/// The pieces of `b` between the matches: before the first, between each two, after the last.
pub open spec fn spec_operands(b: Seq<u8>, spans: Seq<(nat, nat)>) -> Seq<Seq<char>> {
    Seq::new(
        spans.len() + 1,
        |k: int|
            spec_piece(
                b,
                if k == 0 {
                    0
                } else {
                    spans[k - 1].1
                },
                if k < spans.len() {
                    spans[k].0
                } else {
                    b.len()
                },
            ),
    )
}

/// The matched pieces of `b`.
pub open spec fn spec_operators(b: Seq<u8>, spans: Seq<(nat, nat)>) -> Seq<Seq<char>> {
    Seq::new(spans.len(), |k: int| spec_piece(b, spans[k].0, spans[k].1))
}

/// Splits text at the matches: the pieces between them and the matched pieces; see
/// `spec_operands` and `spec_operators`.
fn get_operands_and_operators(b: &[u8], spans: &Vec<(usize, usize)>) -> (result: (Vec<String>, Vec<String>))
    requires
        spans_ordered(spans_view(spans@), b@.len()),
    ensures
        strings_view(result.0@) == spec_operands(b@, spans_view(spans@)),
        strings_view(result.1@) == spec_operators(b@, spans_view(spans@)),
{
    let ghost sv = spans_view(spans@);
    let mut operands: Vec<String> = Vec::new();
    let mut operators: Vec<String> = Vec::new();
    let mut current_pos: usize = 0;
    let mut i: usize = 0;
    while i < spans.len()
        invariant
            i <= spans@.len(),
            sv == spans_view(spans@),
            spans_ordered(sv, b@.len()),
            current_pos == if i == 0 { 0 } else { sv[i - 1].1 },
            current_pos <= b@.len(),
            i < spans@.len() ==> current_pos <= sv[i as int].0,
            operands@.len() == i,
            operators@.len() == i,
            forall|k: int| 0 <= k < i ==> (#[trigger] operands@[k])@ == spec_operands(b@, sv)[k],
            forall|k: int| 0 <= k < i ==> (#[trigger] operators@[k])@ == spec_operators(b@, sv)[k],
        decreases spans@.len() - i,
    {
        let (start, end) = spans[i];
        assert(sv[i as int] == (start as nat, end as nat));
        operands.push(string_from_utf8_lossy(sub_bytes(b, current_pos, start)));
        operators.push(string_from_utf8_lossy(sub_bytes(b, start, end)));
        current_pos = end;
        i = i + 1;
        proof {
            if i < spans@.len() {
                assert(sv[i - 1].1 <= sv[i as int].0);
            }
        }
    }
    operands.push(string_from_utf8_lossy(tail_of(b, current_pos)));
    assert(strings_view(operands@) =~= spec_operands(b@, sv));
    assert(strings_view(operators@) =~= spec_operators(b@, sv));
    (operands, operators)
}

/// The bytes from `start` on.
fn tail_of(b: &[u8], start: usize) -> (result: &[u8])
    requires
        start <= b@.len(),
    ensures
        result@ == b@.subrange(start as int, b@.len() as int),
{
    sub_bytes(b, start, b.len())
}

/// Texts as their characters.
pub open spec fn strings_view(strings: Seq<String>) -> Seq<Seq<char>> {
    strings.map_values(|s: String| s@)
}

/// The comparison that a matched piece names.
pub open spec fn spec_operator_of(s: Seq<char>) -> Option<FilterOperator> {
    if s == FilterOperator::GreaterEqual.spec_symbol() {
        Some(FilterOperator::GreaterEqual)
    } else if s == FilterOperator::LessEqual.spec_symbol() {
        Some(FilterOperator::LessEqual)
    } else if s == FilterOperator::NotEqual.spec_symbol() {
        Some(FilterOperator::NotEqual)
    } else if s == FilterOperator::Greater.spec_symbol() {
        Some(FilterOperator::Greater)
    } else if s == FilterOperator::Less.spec_symbol() {
        Some(FilterOperator::Less)
    } else if s == FilterOperator::Equal.spec_symbol() {
        Some(FilterOperator::Equal)
    } else {
        None
    }
}

/// The logical operator that a matched piece names.
pub open spec fn spec_logical_of(s: Seq<char>) -> Option<LogicalOperator> {
    if s == LogicalOperator::And.spec_symbol() {
        Some(LogicalOperator::And)
    } else if s == LogicalOperator::Or.spec_symbol() {
        Some(LogicalOperator::Or)
    } else {
        None
    }
}

/// Reads a comparison; see `spec_operator_of`.
fn operator_of(s: &String) -> (result: Option<FilterOperator>)
    ensures
        result == spec_operator_of(s@),
{
    let ops = [
        FilterOperator::GreaterEqual,
        FilterOperator::LessEqual,
        FilterOperator::NotEqual,
        FilterOperator::Greater,
        FilterOperator::Less,
        FilterOperator::Equal,
    ];
    if *s == ops[0].symbol() {
        Some(FilterOperator::GreaterEqual)
    } else if *s == ops[1].symbol() {
        Some(FilterOperator::LessEqual)
    } else if *s == ops[2].symbol() {
        Some(FilterOperator::NotEqual)
    } else if *s == ops[3].symbol() {
        Some(FilterOperator::Greater)
    } else if *s == ops[4].symbol() {
        Some(FilterOperator::Less)
    } else if *s == ops[5].symbol() {
        Some(FilterOperator::Equal)
    } else {
        None
    }
}

/// Reads a logical operator; see `spec_logical_of`.
fn logical_of(s: &String) -> (result: Option<LogicalOperator>)
    ensures
        result == spec_logical_of(s@),
{
    if *s == LogicalOperator::And.symbol() {
        Some(LogicalOperator::And)
    } else if *s == LogicalOperator::Or.symbol() {
        Some(LogicalOperator::Or)
    } else {
        None
    }
}

/// The filter unit that a piece of a filter text reads as: its field before the comparison,
/// the comparison, and, after it, the number the caller read there or else the text itself.
/// `None` where the piece holds no comparison.
pub open spec fn spec_unit_of(u: Seq<char>, number: Option<u64>) -> Option<Result<FilterUnitView, FilterErrorKind>> {
    match regex_matches(FILTER_OPERATOR_PATTERN@, u) {
        None => Some(Err(FilterErrorKind::Regex)),
        Some(sp) => {
            if sp.len() == 0 {
                None
            } else {
                let b = vstd::utf8::encode_utf8(u);
                let operands = spec_operands(b, sp);
                match spec_operator_of(spec_operators(b, sp)[0]) {
                    None => Some(Err(FilterErrorKind::Parse)),
                    Some(op) => Some(
                        Ok(
                            FilterUnitView {
                                map_key: operands[0],
                                unit_content: match number {
                                    Some(x) => ContentView::Float64(x),
                                    None => ContentView::String(operands[1]),
                                },
                                operator: op,
                            },
                        ),
                    ),
                }
            }
        },
    }
}

/// Reads a piece of a filter text as a filter unit; see `spec_unit_of`.
fn unit_of(u: &String, number: Option<u64>) -> (result: Option<Result<FilterUnit, FilterError>>)
    ensures
        match result {
            None => spec_unit_of(u@, number) is None,
            Some(Ok(f)) => spec_unit_of(u@, number) == Some(Ok::<FilterUnitView, FilterErrorKind>(f@)),
            Some(Err(e)) => spec_unit_of(u@, number) == Some(Err::<FilterUnitView, FilterErrorKind>(e.kind())),
        },
{
    let text = u.as_str();
    let spans = match find_matches(FILTER_OPERATOR_PATTERN, text) {
        Err(e) => {
            return Some(Err(FilterError::RegexError(e)));
        },
        Ok(spans) => spans,
    };
    if spans.len() == 0 {
        return None;
    }
    let bytes = text.as_bytes();
    let (operands, operators) = get_operands_and_operators(bytes, &spans);
    let ghost sv = spans_view(spans@);
    let ghost b = vstd::utf8::encode_utf8(u@);
    assert(bytes@ == b);
    assert(sv.len() == spans@.len());
    assert(strings_view(operands@).len() == operands@.len());
    assert(strings_view(operators@).len() == operators@.len());
    assert(strings_view(operands@)[0] == operands@[0]@);
    assert(strings_view(operands@)[1] == operands@[1]@);
    assert(strings_view(operators@)[0] == operators@[0]@);
    assert(operands@[0]@ == spec_operands(b, sv)[0]);
    assert(operands@[1]@ == spec_operands(b, sv)[1]);
    assert(operators@[0]@ == spec_operators(b, sv)[0]);
    let unit_content = match number {
        Some(x) => UnitContent::Float64(x),
        None => UnitContent::String(operands[1].clone()),
    };
    match operator_of(&operators[0]) {
        None => Some(Err(FilterError::ParseFilterError)),
        Some(operator) => Some(
            Ok(
                FilterUnit {
                    operands: FilterOperands { map_key: operands[0].clone(), unit_content },
                    operator,
                },
            ),
        ),
    }
}

/// The number the caller read in the `k`th unit, if any.
pub open spec fn number_at(numbers: Seq<Option<u64>>, k: int) -> Option<u64> {
    if 0 <= k < numbers.len() {
        numbers[k]
    } else {
        None
    }
}

/// The units of the pieces from the `k`th on, read in order: the first refusal stops the
/// reading; `None` where a piece read before any refusal holds no comparison.
pub open spec fn spec_units_from(units: Seq<Seq<char>>, numbers: Seq<Option<u64>>, k: nat) -> Option<Result<Seq<FilterUnitView>, FilterErrorKind>>
    decreases units.len() - k,
{
    if k >= units.len() {
        Some(Ok(Seq::empty()))
    } else {
        match spec_unit_of(units[k as int], number_at(numbers, k as int)) {
            None => None,
            Some(Err(e)) => Some(Err(e)),
            Some(Ok(u)) => match spec_units_from(units, numbers, k + 1) {
                None => None,
                Some(Err(e)) => Some(Err(e)),
                Some(Ok(rest)) => Some(Ok(seq![u] + rest)),
            },
        }
    }
}

/// The logical operators that the matched pieces name; refused where one names none.
pub open spec fn spec_logicals(pieces: Seq<Seq<char>>) -> Result<Seq<LogicalOperator>, FilterErrorKind> {
    if forall|k: int| 0 <= k < pieces.len() ==> #[trigger] spec_logical_of(pieces[k]) is Some {
        Ok(Seq::new(pieces.len(), |k: int| spec_logical_of(pieces[k]).unwrap()))
    } else {
        Err(FilterErrorKind::Parse)
    }
}

/// The filter a text reads as: the text is split at its logical operators, each piece read as
/// a unit (the `k`th with the number the caller read in it, if any), and each operator
/// named; `None` where a piece read holds no comparison.
pub open spec fn spec_parse_filter(text: Seq<char>, numbers: Seq<Option<u64>>) -> Option<Result<FilterView, FilterErrorKind>> {
    match regex_matches(LOGICAL_OPERATOR_PATTERN@, text) {
        None => Some(Err(FilterErrorKind::Regex)),
        Some(sp) => {
            let b = vstd::utf8::encode_utf8(text);
            match spec_units_from(spec_operands(b, sp), numbers, 0) {
                None => None,
                Some(Err(e)) => Some(Err(e)),
                Some(Ok(units)) => match spec_logicals(spec_operators(b, sp)) {
                    Err(e) => Some(Err(e)),
                    Ok(operators) => Some(Ok(FilterView { units, operators })),
                },
            }
        },
    }
}

/// A reading of units put after ones already read.
pub open spec fn after_units(done: Seq<FilterUnitView>, r: Option<Result<Seq<FilterUnitView>, FilterErrorKind>>) -> Option<Result<Seq<FilterUnitView>, FilterErrorKind>> {
    match r {
        None => None,
        Some(Err(e)) => Some(Err(e)),
        Some(Ok(rest)) => Some(Ok(done + rest)),
    }
}

/// Reads a filter text, with the numbers the caller read in its units; see
/// `spec_parse_filter`. `None` where a unit holds no comparison.
pub fn parse_filter_string_checked(filter_string: String, numbers: &[Option<u64>]) -> (result: Option<Result<Filter, FilterError>>)
    ensures
        match result {
            None => spec_parse_filter(filter_string@, numbers@) is None,
            Some(Ok(f)) => spec_parse_filter(filter_string@, numbers@) == Some(Ok::<FilterView, FilterErrorKind>(f@)),
            Some(Err(e)) => spec_parse_filter(filter_string@, numbers@) == Some(Err::<FilterView, FilterErrorKind>(e.kind())),
        },
{
    let text = filter_string.as_str();
    let spans = match find_matches(LOGICAL_OPERATOR_PATTERN, text) {
        Err(e) => {
            return Some(Err(FilterError::RegexError(e)));
        },
        Ok(spans) => spans,
    };
    let bytes = text.as_bytes();
    let (unit_texts, logical_texts) = get_operands_and_operators(bytes, &spans);
    let ghost b = vstd::utf8::encode_utf8(filter_string@);
    let ghost sv = spans_view(spans@);
    let ghost all = spec_operands(b, sv);
    assert(bytes@ == b);
    assert(strings_view(unit_texts@).len() == unit_texts@.len());
    let mut units: Vec<FilterUnit> = Vec::new();
    let mut k: usize = 0;
    assert(units_view(units@) =~= Seq::<FilterUnitView>::empty());
    assert(after_units(Seq::empty(), spec_units_from(all, numbers@, 0)) == spec_units_from(all, numbers@, 0)) by {
        match spec_units_from(all, numbers@, 0) {
            Some(Ok(rest)) => {
                assert(Seq::<FilterUnitView>::empty() + rest =~= rest);
            },
            _ => {},
        }
    }
    while k < unit_texts.len()
        invariant
            regex_matches(LOGICAL_OPERATOR_PATTERN@, filter_string@) == Some(sv),
            b == vstd::utf8::encode_utf8(filter_string@),
            all == spec_operands(b, sv),
            k <= unit_texts@.len(),
            all == strings_view(unit_texts@),
            all.len() == unit_texts@.len(),
            units@.len() == k,
            spec_units_from(all, numbers@, 0) == after_units(units_view(units@), spec_units_from(all, numbers@, k as nat)),
        decreases unit_texts@.len() - k,
    {
        let number = if k < numbers.len() {
            numbers[k]
        } else {
            None
        };
        assert(all[k as int] == unit_texts@[k as int]@);
        let ghost before = units_view(units@);
        match unit_of(&unit_texts[k], number) {
            None => {
                return None;
            },
            Some(Err(e)) => {
                return Some(Err(e));
            },
            Some(Ok(u)) => {
                let ghost uv = u@;
                units.push(u);
                proof {
                    assert(units_view(units@) =~= before.push(uv));
                    match spec_units_from(all, numbers@, (k + 1) as nat) {
                        Some(Ok(rest)) => {
                            assert(before + (seq![uv] + rest) =~= before.push(uv) + rest);
                        },
                        _ => {},
                    }
                }
            },
        }
        k = k + 1;
    }
    proof {
        assert(units_view(units@) + Seq::<FilterUnitView>::empty() =~= units_view(units@));
    }
    let ghost ops = spec_operators(b, sv);
    assert(strings_view(logical_texts@) == ops);
    let mut operators: Vec<LogicalOperator> = Vec::new();
    let mut j: usize = 0;
    while j < logical_texts.len()
        invariant
            regex_matches(LOGICAL_OPERATOR_PATTERN@, filter_string@) == Some(sv),
            b == vstd::utf8::encode_utf8(filter_string@),
            all == spec_operands(b, sv),
            ops == spec_operators(b, sv),
            spec_units_from(all, numbers@, 0) == Some(Ok::<Seq<FilterUnitView>, FilterErrorKind>(units_view(units@))),
            j <= logical_texts@.len(),
            ops == strings_view(logical_texts@),
            ops.len() == logical_texts@.len(),
            operators@.len() == j,
            forall|i: int| 0 <= i < j ==> #[trigger] spec_logical_of(ops[i]) == Some(operators@[i]),
        decreases logical_texts@.len() - j,
    {
        assert(ops[j as int] == logical_texts@[j as int]@);
        match logical_of(&logical_texts[j]) {
            None => {
                assert(!(spec_logical_of(ops[j as int]) is Some));
                return Some(Err(FilterError::ParseFilterError));
            },
            Some(op) => {
                operators.push(op);
            },
        }
        j = j + 1;
    }
    assert(operators@ =~= Seq::new(ops.len(), |i: int| spec_logical_of(ops[i]).unwrap()));
    Some(Ok(Filter { filter_units: units, logical_operators: operators }))
}

/// Reads a filter text, with the numbers the caller read in its units; see
/// `spec_parse_filter`.
pub fn parse_filter_string(filter_string: String, numbers: &[Option<u64>]) -> (result: Result<Filter, FilterError>)
    requires
        spec_parse_filter(filter_string@, numbers@) is Some,
    ensures
        match result {
            Ok(f) => spec_parse_filter(filter_string@, numbers@) == Some(Ok::<FilterView, FilterErrorKind>(f@)),
            Err(e) => spec_parse_filter(filter_string@, numbers@) == Some(Err::<FilterView, FilterErrorKind>(e.kind())),
        },
{
    match parse_filter_string_checked(filter_string, numbers) {
        Some(r) => r,
        None => {
            assert(false);
            Err(FilterError::ParseFilterError)
        },
    }
}

} // verus!
