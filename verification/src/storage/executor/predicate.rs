//! Predicates over units of content: conditions such as
//! `this.price<20 && this.type=='fruit'`, their tokens, their byte form, and whether a unit
//! satisfies them.

use vstd::prelude::*;
use crate::storage::executor::unit_content::{
    content_eq, content_equals, float_compare, key_position, spec_content_order,
    spec_key_position, spec_parse_content, ContentOrdering, ContentView, UnitContent,
    UnitContentError, entries_view, lemma_entries_view_all,
};
use crate::utils::bytes::{append_bytes, sub_bytes, tail_bytes};
use crate::utils::serialize::{
    extract_data_with_varint_width, prepend_varint_width, read_length_prefixed,
    spec_extract_data_with_varint_width, spec_length_prefixed, spec_prepend_varint_width,
};
use crate::utils::text::{spec_lenient_text, str_chars, string_from_chars, string_from_utf8_lossy};
use crate::utils::varint::{varint_decode, VarIntError};
use vstd::std_specs::cmp::PartialEqSpecImpl;

verus! {

#[derive(Debug, Clone, Copy, PartialEq, Eq, Structural)]
pub enum PredicateError {
    UnexpectedToken,
    MalformedTokens,
    InsufficientBytes,
    MalformedBytes(VarIntError),
    UnexpectedPrefix(u8),
    UnitContent(UnitContentError),
    ParsePredicateErrorError,
}

/// The first byte of each predicate error's byte form.
#[derive(Debug, Clone, Copy, PartialEq, Eq, Structural)]
pub enum PredicateErrorPrefix {
    UnexpectedToken,
    MalformedTokens,
    InsufficientBytes,
    MalformedBytes,
    UnexpectedPrefix,
    UnitContent,
    ParsePredicateErrorError,
}

impl PredicateErrorPrefix {
    pub open spec fn spec_byte(self) -> u8 {
        match self {
            PredicateErrorPrefix::UnexpectedToken => 0x01,
            PredicateErrorPrefix::MalformedTokens => 0x02,
            PredicateErrorPrefix::InsufficientBytes => 0x03,
            PredicateErrorPrefix::MalformedBytes => 0x04,
            PredicateErrorPrefix::UnexpectedPrefix => 0x05,
            PredicateErrorPrefix::UnitContent => 0x06,
            PredicateErrorPrefix::ParsePredicateErrorError => 0x07,
        }
    }

    pub fn byte(&self) -> (result: u8)
        ensures
            result == self.spec_byte(),
    {
        match self {
            PredicateErrorPrefix::UnexpectedToken => 0x01,
            PredicateErrorPrefix::MalformedTokens => 0x02,
            PredicateErrorPrefix::InsufficientBytes => 0x03,
            PredicateErrorPrefix::MalformedBytes => 0x04,
            PredicateErrorPrefix::UnexpectedPrefix => 0x05,
            PredicateErrorPrefix::UnitContent => 0x06,
            PredicateErrorPrefix::ParsePredicateErrorError => 0x07,
        }
    }
}

impl PredicateError {
    pub open spec fn spec_marshal(self) -> Seq<u8> {
        match self {
            PredicateError::UnexpectedToken => seq![0x01u8],
            PredicateError::MalformedTokens => seq![0x02u8],
            PredicateError::InsufficientBytes => seq![0x03u8],
            PredicateError::MalformedBytes(e) => seq![0x04u8] + e.spec_marshal(),
            PredicateError::UnexpectedPrefix(b) => seq![0x05u8, b],
            PredicateError::UnitContent(e) => seq![0x06u8] + e.spec_marshal(),
            PredicateError::ParsePredicateErrorError => seq![0x07u8],
        }
    }

    /// What `parse` gives for `data`; `None` where it would read past the end.
    pub open spec fn spec_parse(data: Seq<u8>) -> Option<(PredicateError, nat)> {
        if data.len() == 0 {
            None
        } else {
            let p = data[0];
            let rest = data.subrange(1, data.len() as int);
            if p == 0x01 {
                Some((PredicateError::UnexpectedToken, 1))
            } else if p == 0x02 {
                Some((PredicateError::MalformedTokens, 1))
            } else if p == 0x03 {
                Some((PredicateError::InsufficientBytes, 1))
            } else if p == 0x04 {
                match VarIntError::spec_parse(rest) {
                    None => None,
                    Some((e, n)) => Some((PredicateError::MalformedBytes(e), 1 + n)),
                }
            } else if p == 0x05 {
                if rest.len() == 0 {
                    None
                } else {
                    Some((PredicateError::UnexpectedPrefix(rest[0]), 2))
                }
            } else if p == 0x06 {
                match UnitContentError::spec_parse(rest) {
                    None => None,
                    Some((e, n)) => Some((PredicateError::UnitContent(e), 1 + n)),
                }
            } else {
                Some((PredicateError::ParsePredicateErrorError, 1))
            }
        }
    }

    pub fn marshal(&self) -> (result: Vec<u8>)
        ensures
            result@ == self.spec_marshal(),
    {
        let mut result: Vec<u8> = Vec::new();
        match self {
            PredicateError::UnexpectedToken => result.push(PredicateErrorPrefix::UnexpectedToken.byte()),
            PredicateError::MalformedTokens => result.push(PredicateErrorPrefix::MalformedTokens.byte()),
            PredicateError::InsufficientBytes => result.push(PredicateErrorPrefix::InsufficientBytes.byte()),
            PredicateError::MalformedBytes(e) => {
                result.push(PredicateErrorPrefix::MalformedBytes.byte());
                append_bytes(&mut result, &e.marshal());
            },
            PredicateError::UnexpectedPrefix(b) => {
                result.push(PredicateErrorPrefix::UnexpectedPrefix.byte());
                result.push(*b);
            },
            PredicateError::UnitContent(e) => {
                result.push(PredicateErrorPrefix::UnitContent.byte());
                append_bytes(&mut result, &e.marshal());
            },
            PredicateError::ParsePredicateErrorError => result.push(PredicateErrorPrefix::ParsePredicateErrorError.byte()),
        }
        assert(result@ =~= self.spec_marshal());
        result
    }

    pub fn parse(data: &[u8]) -> (result: Result<(PredicateError, usize), PredicateError>)
        requires
            Self::spec_parse(data@) is Some,
        ensures
            result matches Ok((e, n)) && Self::spec_parse(data@) == Some((e, n as nat)),
    {
        let p = data[0];
        let rest = tail_bytes(data, 1);
        if p == 0x01 {
            Ok((PredicateError::UnexpectedToken, 1))
        } else if p == 0x02 {
            Ok((PredicateError::MalformedTokens, 1))
        } else if p == 0x03 {
            Ok((PredicateError::InsufficientBytes, 1))
        } else if p == 0x04 {
            match VarIntError::parse(rest) {
                Ok((e, n)) => Ok((PredicateError::MalformedBytes(e), 1 + n)),
                Err(e) => Err(PredicateError::MalformedBytes(e)),
            }
        } else if p == 0x05 {
            Ok((PredicateError::UnexpectedPrefix(rest[0]), 2))
        } else if p == 0x06 {
            match UnitContentError::parse(rest) {
                Ok((e, n)) => Ok((PredicateError::UnitContent(e), 1 + n)),
                Err(e) => Err(PredicateError::UnitContent(e)),
            }
        } else {
            Ok((PredicateError::ParsePredicateErrorError, 1))
        }
    }

    /// Parsing what `marshal` wrote gives the error back.
    pub proof fn lemma_roundtrip(self, rest: Seq<u8>)
        ensures
            Self::spec_parse(self.spec_marshal() + rest) == Some((self, self.spec_marshal().len())),
    {
        let d = self.spec_marshal() + rest;
        assert(d[0] == self.spec_marshal()[0]);
        match self {
            PredicateError::MalformedBytes(e) => {
                e.lemma_roundtrip(rest);
                assert(d.subrange(1, d.len() as int) =~= e.spec_marshal() + rest);
            },
            PredicateError::UnexpectedPrefix(b) => {
                assert(d[1] == b);
            },
            PredicateError::UnitContent(e) => {
                e.lemma_roundtrip(rest);
                assert(d.subrange(1, d.len() as int) =~= e.spec_marshal() + rest);
            },
            _ => {},
        }
    }
}

/// The fields leading to a part of a unit, such as `this.name.familyName`.
#[derive(Debug)]
pub struct FieldPath(Vec<String>);

impl View for FieldPath {
    type V = Seq<Seq<char>>;

    closed spec fn view(&self) -> Seq<Seq<char>> {
        self.0@.map_values(|s: String| s@)
    }
}

/// The byte form of a path: each field, width-prefixed, in turn.
pub open spec fn spec_path_bytes(path: Seq<Seq<char>>) -> Seq<u8>
    decreases path.len(),
{
    if path.len() == 0 {
        Seq::empty()
    } else {
        spec_path_bytes(path.drop_last()) + spec_prepend_varint_width(vstd::utf8::encode_utf8(path.last()))
    }
}

/// What parsing the byte form of a path gives; `None` where a width overruns the bytes.
pub open spec fn spec_parse_path(data: Seq<u8>) -> Option<Result<Seq<Seq<char>>, VarIntError>>
    decreases data.len(),
{
    if data.len() == 0 {
        Some(Ok(Seq::empty()))
    } else {
        match spec_length_prefixed(data) {
            None => None,
            Some(Err(e)) => Some(Err(e)),
            Some(Ok((field, n))) => {
                if n == 0 || n > data.len() {
                    None
                } else {
                    match spec_parse_path(data.subrange(n as int, data.len() as int)) {
                        None => None,
                        Some(Err(e)) => Some(Err(e)),
                        Some(Ok(rest)) => Some(Ok(seq![spec_lenient_text(field)] + rest)),
                    }
                }
            },
        }
    }
}

/// The text of a path: `this`, then each field after a dot.
pub open spec fn spec_path_text(path: Seq<Seq<char>>) -> Seq<char>
    decreases path.len(),
{
    if path.len() == 0 {
        seq!['t', 'h', 'i', 's']
    } else {
        spec_path_text(path.drop_last()) + seq!['.'] + path.last()
    }
}

impl FieldPath {
    pub fn new() -> (result: Self)
        ensures
            result@ == Seq::<Seq<char>>::empty(),
    {
        let result = FieldPath(Vec::new());
        assert(result@ =~= Seq::<Seq<char>>::empty());
        result
    }

    pub fn from(data: Vec<String>) -> (result: Self)
        ensures
            result@ == data@.map_values(|s: String| s@),
    {
        FieldPath(data)
    }

    pub fn inner(&self) -> (result: &[String])
        ensures
            result@.map_values(|s: String| s@) == self@,
    {
        self.0.as_slice()
    }

    pub fn push(&mut self, segment: &str)
        ensures
            final(self)@ == old(self)@.push(segment@),
    {
        let ghost before = self.0@;
        self.0.push(segment.to_owned());
        assert(self.0@.map_values(|s: String| s@) =~= before.map_values(|s: String| s@).push(segment@));
    }

    pub fn len(&self) -> (result: usize)
        ensures
            result == self@.len(),
    {
        self.0.len()
    }

    /// The fields, each width-prefixed, in turn.
    pub fn serialize(&self) -> (result: Vec<u8>)
        ensures
            result@ == spec_path_bytes(self@),
    {
        let mut result: Vec<u8> = Vec::new();
        let mut i: usize = 0;
        while i < self.0.len()
            invariant
                i <= self.0@.len(),
                result@ == spec_path_bytes(self.0@.subrange(0, i as int).map_values(|s: String| s@)),
            decreases self.0@.len() - i,
        {
            let ghost before = self.0@.subrange(0, i as int).map_values(|s: String| s@);
            let bytes = prepend_varint_width(self.0[i].as_str().as_bytes());
            append_bytes(&mut result, &bytes);
            proof {
                let next = self.0@.subrange(0, i + 1).map_values(|s: String| s@);
                assert(next.drop_last() =~= before);
                assert(next.last() == self.0@[i as int]@);
            }
            i = i + 1;
        }
        assert(self.0@.subrange(0, i as int) =~= self.0@);
        result
    }

    /// Reads a path from its byte form; see `spec_parse_path`.
    pub fn parse(data: &[u8]) -> (result: Result<Self, VarIntError>)
        requires
            spec_parse_path(data@) is Some,
        ensures
            match result {
                Ok(p) => spec_parse_path(data@) == Some(Ok::<Seq<Seq<char>>, VarIntError>(p@)),
                Err(e) => spec_parse_path(data@) == Some(Err::<Seq<Seq<char>>, VarIntError>(e)),
            },
    {
        match Self::parse_checked(data) {
            Some(r) => r,
            None => {
                assert(false);
                Err(VarIntError::UnexpectedFormat)
            },
        }
    }

    /// Like `parse`, with `None` where a width overruns the bytes.
    pub fn parse_checked(data: &[u8]) -> (result: Option<Result<Self, VarIntError>>)
        ensures
            match result {
                None => spec_parse_path(data@) is None,
                Some(Ok(p)) => spec_parse_path(data@) == Some(Ok::<Seq<Seq<char>>, VarIntError>(p@)),
                Some(Err(e)) => spec_parse_path(data@) == Some(Err::<Seq<Seq<char>>, VarIntError>(e)),
            },
    {
        let mut paths: Vec<String> = Vec::new();
        let mut i: usize = 0;
        proof {
            assert(data@.subrange(0, data@.len() as int) =~= data@);
            if let Some(Ok(r)) = spec_parse_path(data@) {
                assert(Seq::<Seq<char>>::empty() + r =~= r);
            }
        }
        while i < data.len()
            invariant
                i <= data@.len(),
                spec_parse_path(data@) == (match spec_parse_path(data@.subrange(i as int, data@.len() as int)) {
                    Some(Ok(rest)) => Some(Ok(paths@.map_values(|s: String| s@) + rest)),
                    other => other,
                }),
            decreases data@.len() - i,
        {
            let rest = tail_bytes(data, i);
            match read_length_prefixed(rest) {
                None => {
                    return None;
                },
                Some(Err(e)) => {
                    return Some(Err(e));
                },
                Some(Ok((field, n))) => {
                    if n == 0 {
                        return None;
                    }
                    let ghost before = paths@.map_values(|s: String| s@);
                    let text = string_from_utf8_lossy(field);
                    proof {
                        assert(rest@.subrange(n as int, rest@.len() as int) =~= data@.subrange(i + n, data@.len() as int));
                    }
                    paths.push(text);
                    proof {
                        assert(paths@.map_values(|s: String| s@) =~= before.push(spec_lenient_text(field@)));
                        if let Some(Ok(r)) = spec_parse_path(data@.subrange(i + n, data@.len() as int)) {
                            assert(before + (seq![spec_lenient_text(field@)] + r) =~= before.push(spec_lenient_text(field@)) + r);
                        }
                    }
                    i = i + n;
                },
            }
        }
        proof {
            assert(data@.subrange(i as int, data@.len() as int) =~= Seq::<u8>::empty());
            assert(paths@.map_values(|s: String| s@) + Seq::<Seq<char>>::empty() =~= paths@.map_values(|s: String| s@));
        }
        Some(Ok(FieldPath(paths)))
    }

    /// The first field, and the path of the fields after it; none and the empty path for the
    /// empty path.
    pub fn shift(&self) -> (result: (Option<String>, Self))
        ensures
            self@.len() == 0 ==> result.0 is None && result.1@ == Seq::<Seq<char>>::empty(),
            self@.len() > 0 ==> (result.0 matches Some(first) && first@ == self@[0] && result.1@ == self@.subrange(1, self@.len() as int)),
    {
        if self.0.len() == 0 {
            (None, FieldPath::new())
        } else {
            let mut rest: Vec<String> = Vec::new();
            let mut i: usize = 1;
            while i < self.0.len()
                invariant
                    1 <= i <= self.0@.len(),
                    rest@.len() == i - 1,
                    forall|k: int| 0 <= k < rest@.len() ==> (#[trigger] rest@[k])@ == self.0@[k + 1]@,
                decreases self.0@.len() - i,
            {
                rest.push(self.0[i].clone());
                i = i + 1;
            }
            let result = (Some(self.0[0].clone()), FieldPath(rest));
            assert(result.1@ =~= self@.subrange(1, self@.len() as int));
            result
        }
    }

    /// The text of the path: `this`, then each field after a dot.
    pub fn to_string(&self) -> (result: String)
        ensures
            result@ == spec_path_text(self@),
    {
        let mut chars: Vec<char> = vec!['t', 'h', 'i', 's'];
        let mut i: usize = 0;
        proof {
            assert(chars@ =~= spec_path_text(Seq::<Seq<char>>::empty()));
            assert(self@.subrange(0, 0) =~= Seq::<Seq<char>>::empty());
        }
        while i < self.0.len()
            invariant
                i <= self.0@.len(),
                self@ == self.0@.map_values(|s: String| s@),
                chars@ == spec_path_text(self@.subrange(0, i as int)),
            decreases self.0@.len() - i,
        {
            let ghost before = chars@;
            chars.push('.');
            let field = str_chars(self.0[i].as_str());
            let mut j: usize = 0;
            while j < field.len()
                invariant
                    j <= field@.len(),
                    chars@ == before + seq!['.'] + field@.subrange(0, j as int),
                decreases field@.len() - j,
            {
                chars.push(field[j]);
                j = j + 1;
                assert(chars@ =~= before + seq!['.'] + field@.subrange(0, j as int));
            }
            proof {
                let next = self@.subrange(0, i + 1);
                assert(next.drop_last() =~= self@.subrange(0, i as int));
                assert(field@.subrange(0, j as int) =~= field@);
                assert(next.last() == field@);
            }
            i = i + 1;
        }
        assert(self@.subrange(0, i as int) =~= self@);
        string_from_chars(chars.as_slice())
    }
}

/// The tokens of a predicate's text.
#[derive(Debug, PartialEq)]
pub enum Token {
    This,
    Dot,
    Identifier(String),
    ContentString(String),
    Equal,
    NotEqual,
    GreaterThan,
    GreaterThanOrEqual,
    LessThan,
    LessThanOrEqual,
    Or,
    And,
    Not,
}

/// A token as the contracts see it.
pub enum TokenView {
    This,
    Dot,
    Identifier(Seq<char>),
    ContentString(Seq<char>),
    Equal,
    NotEqual,
    GreaterThan,
    GreaterThanOrEqual,
    LessThan,
    LessThanOrEqual,
    Or,
    And,
    Not,
}

impl View for Token {
    type V = TokenView;

    open spec fn view(&self) -> TokenView {
        match self {
            Token::This => TokenView::This,
            Token::Dot => TokenView::Dot,
            Token::Identifier(s) => TokenView::Identifier(s@),
            Token::ContentString(s) => TokenView::ContentString(s@),
            Token::Equal => TokenView::Equal,
            Token::NotEqual => TokenView::NotEqual,
            Token::GreaterThan => TokenView::GreaterThan,
            Token::GreaterThanOrEqual => TokenView::GreaterThanOrEqual,
            Token::LessThan => TokenView::LessThan,
            Token::LessThanOrEqual => TokenView::LessThanOrEqual,
            Token::Or => TokenView::Or,
            Token::And => TokenView::And,
            Token::Not => TokenView::Not,
        }
    }
}

/// Whether the tokenizer is reading field names or a value.
#[derive(Debug, Clone, Copy, PartialEq, Eq, Structural)]
pub enum TokenizerState {
    ParsingIdentifier,
    ParsingValue,
}

/// Whether `chars` holds `target` at `start`: for `[a, b, c, d]`, `cd` stands at 2.
pub open spec fn spec_starts_with_at(chars: Seq<char>, start: int, target: Seq<char>) -> bool {
    &&& start + target.len() <= chars.len()
    &&& forall|i: int| 0 <= i < target.len() ==> chars[start + i] == target[i]
}

/// Whether `chars` holds `target` at `start`; see `spec_starts_with_at`.
pub fn starts_with_at(chars: &[char], start: usize, target: &[char]) -> (result: bool)
    ensures
        result == spec_starts_with_at(chars@, start as int, target@),
{
    if start as u128 + (target.len() as u128) <= chars.len() as u128 {
        let mut i: usize = 0;
        while i < target.len()
            invariant
                i <= target@.len(),
                chars@.len() <= usize::MAX,
                start + target@.len() <= chars@.len(),
                forall|k: int| 0 <= k < i ==> chars@[start + k] == target@[k],
            decreases target@.len() - i,
        {
            if chars[start + i] != target[i] {
                return false;
            }
            i = i + 1;
        }
        true
    } else {
        false
    }
}

/// `tokens` with the identifier read so far, if it is not empty.
pub open spec fn flush_identifier(tokens: Seq<TokenView>, identifier: Seq<char>) -> Seq<TokenView> {
    if identifier.len() > 0 {
        tokens.push(TokenView::Identifier(identifier))
    } else {
        tokens
    }
}

/// The quote mark open after reading the quote mark `q` inside a value.
pub open spec fn next_quote(active: Option<char>, q: char) -> Option<char> {
    match active {
        Some(a) => if a == q { None } else { Some(a) },
        None => Some(q),
    }
}

/// The tokenizer's state between characters: where it reads, whether it reads field names or a
/// value, the field name and the value read so far, the open quote mark, and the tokens so far.
pub type TokenizerSpecState = (int, TokenizerState, Seq<char>, Seq<char>, Option<char>, Seq<TokenView>);

/// One step of the tokenizer at the character at `index`. Field names end at `.`, comparisons
/// (`>`, `>=`, `<`, `<=`, `=`, `==`, `!=`) and logical operators (`|`, `||`, `&`, `&&`, `!`);
/// spaces are skipped outside quotes; `this` is a token of its own; a value runs to the next
/// `|`, `&` or `!`, where reading goes back to field names without moving.
pub open spec fn spec_tokenize_step(chars: Seq<char>, s: TokenizerSpecState) -> TokenizerSpecState {
    let (index, state, identifier, content, quote, tokens) = s;
    let c = chars[index];
    match state {
        TokenizerState::ParsingIdentifier => {
            if c == '.' {
                (index + 1, state, Seq::empty(), content, quote, flush_identifier(tokens, identifier).push(TokenView::Dot))
            } else if c == '>' {
                let t = tokens.push(TokenView::Identifier(identifier));
                if spec_starts_with_at(chars, index, seq!['>', '=']) {
                    (index + 2, TokenizerState::ParsingValue, Seq::empty(), content, quote, t.push(TokenView::GreaterThanOrEqual))
                } else {
                    (index + 1, TokenizerState::ParsingValue, Seq::empty(), content, quote, t.push(TokenView::GreaterThan))
                }
            } else if c == '<' {
                let t = tokens.push(TokenView::Identifier(identifier));
                if spec_starts_with_at(chars, index, seq!['<', '=']) {
                    (index + 2, TokenizerState::ParsingValue, Seq::empty(), content, quote, t.push(TokenView::LessThanOrEqual))
                } else {
                    (index + 1, TokenizerState::ParsingValue, Seq::empty(), content, quote, t.push(TokenView::LessThan))
                }
            } else if c == '=' {
                let t = tokens.push(TokenView::Identifier(identifier)).push(TokenView::Equal);
                let step = if spec_starts_with_at(chars, index, seq!['=', '=']) { 2int } else { 1int };
                (index + step, TokenizerState::ParsingValue, Seq::empty(), content, quote, t)
            } else if c == '|' || c == '&' {
                let t = flush_identifier(tokens, identifier).push(if c == '|' { TokenView::Or } else { TokenView::And });
                let step = if spec_starts_with_at(chars, index, seq![c, c]) { 2int } else { 1int };
                (index + step, state, Seq::empty(), content, quote, t)
            } else if c == ' ' {
                (index + 1, state, identifier, content, quote, tokens)
            } else if c == '!' {
                let t = flush_identifier(tokens, identifier);
                if spec_starts_with_at(chars, index, seq!['!', '=']) {
                    (index + 2, TokenizerState::ParsingValue, Seq::empty(), content, quote, t.push(TokenView::NotEqual))
                } else {
                    (index + 1, state, Seq::empty(), content, quote, t.push(TokenView::Not))
                }
            } else if spec_starts_with_at(chars, index, seq!['t', 'h', 'i', 's']) {
                (index + 4, state, identifier, content, quote, tokens.push(TokenView::This))
            } else {
                (index + 1, state, identifier.push(c), content, quote, tokens)
            }
        },
        TokenizerState::ParsingValue => {
            if c == '|' || c == '&' || c == '!' {
                let t = if content.len() > 0 {
                    tokens.push(TokenView::ContentString(content))
                } else {
                    tokens
                };
                (index, TokenizerState::ParsingIdentifier, identifier, Seq::empty(), quote, t)
            } else if c == '"' || c == '\'' {
                (index + 1, state, identifier, content.push(c), next_quote(quote, c), tokens)
            } else if c == ' ' {
                (index + 1, state, identifier, if quote is Some { content.push(c) } else { content }, quote, tokens)
            } else {
                (index + 1, state, identifier, content.push(c), quote, tokens)
            }
        },
    }
}

/// The rank of a reading state: reading a value ranks above reading field names, as a value can
/// hand back to field names without moving.
pub open spec fn state_rank(state: TokenizerState) -> int {
    if state == TokenizerState::ParsingValue { 1 } else { 0 }
}

/// The tokens of `chars`, from the tokenizer's state `s` on: one step at a time to the end of
/// the text, which ends with the value read so far.
pub open spec fn spec_tokenize_from(chars: Seq<char>, s: TokenizerSpecState) -> Seq<TokenView>
    decreases chars.len() - s.0, state_rank(s.1),
{
    if s.0 < 0 || s.0 >= chars.len() {
        s.5.push(TokenView::ContentString(s.3))
    } else {
        let next = spec_tokenize_step(chars, s);
        if next.0 > s.0 || (next.0 == s.0 && state_rank(next.1) < state_rank(s.1)) {
            spec_tokenize_from(chars, next)
        } else {
            s.5
        }
    }
}

/// The tokens of a predicate's text; see `spec_tokenize_step`.
pub open spec fn spec_tokenize(text: Seq<char>) -> Seq<TokenView> {
    spec_tokenize_from(text, (0, TokenizerState::ParsingIdentifier, Seq::empty(), Seq::empty(), None, Seq::empty()))
}

/// Appends a token.
fn push_token(tokens: &mut Vec<Token>, token: Token)
    ensures
        final(tokens)@.map_values(|t: Token| t@) == old(tokens)@.map_values(|t: Token| t@).push(token@),
{
    let ghost v = token@;
    tokens.push(token);
    assert(tokens@.map_values(|t: Token| t@) =~= old(tokens)@.map_values(|t: Token| t@).push(v));
}

/// The view of the tokenizer's state.
pub open spec fn tokenizer_view(index: usize, state: TokenizerState, identifier: Seq<char>, content: Seq<char>, quote: Option<char>, tokens: Seq<Token>) -> TokenizerSpecState {
    (index as int, state, identifier, content, quote, tokens.map_values(|t: Token| t@))
}

/// Takes one step of the tokenizer; see `spec_tokenize_step`.
fn tokenize_step(
    chars: &Vec<char>,
    index: &mut usize,
    state: &mut TokenizerState,
    identifier: &mut Vec<char>,
    content: &mut Vec<char>,
    quote: &mut Option<char>,
    tokens: &mut Vec<Token>,
)
    requires
        *old(index) < chars@.len(),
    ensures
        tokenizer_view(*final(index), *final(state), final(identifier)@, final(content)@, *final(quote), final(tokens)@)
            == spec_tokenize_step(chars@, tokenizer_view(*old(index), *old(state), old(identifier)@, old(content)@, *old(quote), old(tokens)@)),
        *final(index) <= chars@.len() + 3,
{
    let c = chars[*index];
    let i = *index;
    let _ = chars.len();
    let gte = ['>', '='];
    let lte = ['<', '='];
    let eqeq = ['=', '='];
    let neq = ['!', '='];
    let this_word = ['t', 'h', 'i', 's'];
    assert(gte@ == seq!['>', '='] && lte@ == seq!['<', '='] && eqeq@ == seq!['=', '='] && neq@ == seq!['!', '=']);
    assert(this_word@ == seq!['t', 'h', 'i', 's']);
    match *state {
        TokenizerState::ParsingIdentifier => {
            if c == '.' {
                if identifier.len() > 0 {
                    push_token(tokens, Token::Identifier(string_from_chars(identifier.as_slice())));
                }
                *identifier = Vec::new();
                push_token(tokens, Token::Dot);
                *index = i + 1;
            } else if c == '>' || c == '<' {
                push_token(tokens, Token::Identifier(string_from_chars(identifier.as_slice())));
                *identifier = Vec::new();
                *state = TokenizerState::ParsingValue;
                let pair = if c == '>' { gte } else { lte };
                if starts_with_at(chars.as_slice(), i, &pair) {
                    push_token(tokens, if c == '>' { Token::GreaterThanOrEqual } else { Token::LessThanOrEqual });
                    *index = i + 2;
                } else {
                    push_token(tokens, if c == '>' { Token::GreaterThan } else { Token::LessThan });
                    *index = i + 1;
                }
            } else if c == '=' {
                push_token(tokens, Token::Identifier(string_from_chars(identifier.as_slice())));
                *identifier = Vec::new();
                *state = TokenizerState::ParsingValue;
                push_token(tokens, Token::Equal);
                if starts_with_at(chars.as_slice(), i, &eqeq) {
                    *index = i + 2;
                } else {
                    *index = i + 1;
                }
            } else if c == '|' || c == '&' {
                if identifier.len() > 0 {
                    push_token(tokens, Token::Identifier(string_from_chars(identifier.as_slice())));
                }
                *identifier = Vec::new();
                let pair = [c, c];
                assert(pair@ == seq![c, c]);
                push_token(tokens, if c == '|' { Token::Or } else { Token::And });
                if starts_with_at(chars.as_slice(), i, &pair) {
                    *index = i + 2;
                } else {
                    *index = i + 1;
                }
            } else if c == ' ' {
                *index = i + 1;
            } else if c == '!' {
                if identifier.len() > 0 {
                    push_token(tokens, Token::Identifier(string_from_chars(identifier.as_slice())));
                }
                *identifier = Vec::new();
                if starts_with_at(chars.as_slice(), i, &neq) {
                    push_token(tokens, Token::NotEqual);
                    *index = i + 2;
                    *state = TokenizerState::ParsingValue;
                } else {
                    push_token(tokens, Token::Not);
                    *index = i + 1;
                }
            } else if starts_with_at(chars.as_slice(), i, &this_word) {
                push_token(tokens, Token::This);
                *index = i + 4;
            } else {
                identifier.push(c);
                *index = i + 1;
            }
        },
        TokenizerState::ParsingValue => {
            if c == '|' || c == '&' || c == '!' {
                if content.len() > 0 {
                    push_token(tokens, Token::ContentString(string_from_chars(content.as_slice())));
                }
                *content = Vec::new();
                *state = TokenizerState::ParsingIdentifier;
            } else if c == '"' || c == '\'' {
                content.push(c);
                *index = i + 1;
                *quote = match *quote {
                    Some(q) => if q == c { None } else { Some(q) },
                    None => Some(c),
                };
            } else if c == ' ' {
                if quote.is_some() {
                    content.push(c);
                }
                *index = i + 1;
            } else {
                content.push(c);
                *index = i + 1;
            }
        },
    }
}

/// Groups the characters of a predicate's text into tokens; see `spec_tokenize`. No sense is
/// made of them here.
pub fn tokenize(text: &str) -> (result: Vec<Token>)
    ensures
        result@.map_values(|t: Token| t@) == spec_tokenize(text@),
{
    let chars = str_chars(text);
    let mut tokens: Vec<Token> = Vec::new();
    let mut state = TokenizerState::ParsingIdentifier;
    let mut identifier: Vec<char> = Vec::new();
    let mut content: Vec<char> = Vec::new();
    let mut quote: Option<char> = None;
    let mut index: usize = 0;
    proof {
        assert(tokens@.map_values(|t: Token| t@) =~= Seq::<TokenView>::empty());
    }
    while index < chars.len()
        invariant
            chars@ == text@,
            index <= chars@.len() + 3,
            spec_tokenize(text@) == spec_tokenize_from(chars@, tokenizer_view(index, state, identifier@, content@, quote, tokens@)),
        decreases chars@.len() - index, state_rank(state),
    {
        let ghost before = tokenizer_view(index, state, identifier@, content@, quote, tokens@);
        tokenize_step(&chars, &mut index, &mut state, &mut identifier, &mut content, &mut quote, &mut tokens);
        proof {
            let next = tokenizer_view(index, state, identifier@, content@, quote, tokens@);
            assert(next.0 > before.0 || (next.0 == before.0 && state_rank(next.1) < state_rank(before.1)));
        }
    }
    push_token(&mut tokens, Token::ContentString(string_from_chars(content.as_slice())));
    tokens
}

#[derive(Debug)]
pub enum PrimitivePredicate {
    Equal(FieldPath, UnitContent),
    GreaterThan(FieldPath, UnitContent),
    GreaterThanOrEqual(FieldPath, UnitContent),
    LessThan(FieldPath, UnitContent),
    LessThanOrEqual(FieldPath, UnitContent),
}

#[derive(Debug)]
pub enum CompoundPredicate {
    Not(Box<Predicate>),
    Or(Vec<Predicate>),
    And(Vec<Predicate>),
}

#[derive(Debug)]
pub enum Predicate {
    Primitive(PrimitivePredicate),
    Compound(CompoundPredicate),
}

/// How a primitive predicate compares the part of a unit with its expected content.
#[derive(Debug, Clone, Copy, PartialEq, Eq, Structural)]
pub enum Relation {
    Equal,
    GreaterThan,
    GreaterThanOrEqual,
    LessThan,
    LessThanOrEqual,
}

/// A predicate as the contracts see it.
pub enum PredicateView {
    Primitive(Relation, Seq<Seq<char>>, ContentView),
    Not(Box<PredicateView>),
    Or(Seq<PredicateView>),
    And(Seq<PredicateView>),
}

/// The view of a predicate.
pub open spec fn predicate_view(p: Predicate) -> PredicateView
    decreases p,
{
    match p {
        Predicate::Primitive(q) => match q {
            PrimitivePredicate::Equal(path, c) => PredicateView::Primitive(Relation::Equal, path@, c@),
            PrimitivePredicate::GreaterThan(path, c) => PredicateView::Primitive(Relation::GreaterThan, path@, c@),
            PrimitivePredicate::GreaterThanOrEqual(path, c) => PredicateView::Primitive(Relation::GreaterThanOrEqual, path@, c@),
            PrimitivePredicate::LessThan(path, c) => PredicateView::Primitive(Relation::LessThan, path@, c@),
            PrimitivePredicate::LessThanOrEqual(path, c) => PredicateView::Primitive(Relation::LessThanOrEqual, path@, c@),
        },
        Predicate::Compound(q) => match q {
            CompoundPredicate::Not(inner) => PredicateView::Not(Box::new(predicate_view(*inner))),
            CompoundPredicate::Or(ps) => PredicateView::Or(predicates_view(ps@)),
            CompoundPredicate::And(ps) => PredicateView::And(predicates_view(ps@)),
        },
    }
}

/// The views of a sequence of predicates.
pub open spec fn predicates_view(ps: Seq<Predicate>) -> Seq<PredicateView>
    decreases ps,
{
    if ps.len() == 0 {
        Seq::empty()
    } else {
        predicates_view(ps.drop_last()).push(predicate_view(ps.last()))
    }
}

impl View for Predicate {
    type V = PredicateView;

    open spec fn view(&self) -> PredicateView {
        predicate_view(*self)
    }
}

/// The views of predicates are those of each.
pub proof fn lemma_predicates_view_all(ps: Seq<Predicate>)
    ensures
        predicates_view(ps).len() == ps.len(),
        forall|i: int| 0 <= i < ps.len() ==> #[trigger] predicates_view(ps)[i] == ps[i]@,
    decreases ps.len(),
{
    if ps.len() > 0 {
        lemma_predicates_view_all(ps.drop_last());
        assert forall|i: int| 0 <= i < ps.len() implies #[trigger] predicates_view(ps)[i] == ps[i]@ by {
            if i < ps.len() - 1 {
                assert(predicates_view(ps.drop_last())[i] == ps.drop_last()[i]@);
            }
        }
    }
}

/// The prefix byte of a primitive predicate.
pub open spec fn relation_byte(r: Relation) -> u8 {
    match r {
        Relation::Equal => 0x00,
        Relation::GreaterThan => 0x01,
        Relation::GreaterThanOrEqual => 0x02,
        Relation::LessThan => 0x03,
        Relation::LessThanOrEqual => 0x04,
    }
}

/// The byte form of a predicate: a prefix byte; then, for a primitive predicate, its path and
/// its content, each width-prefixed; for a negation, the width-prefixed negated predicate; for
/// a disjunction or a conjunction, each part width-prefixed in turn.
pub open spec fn spec_predicate_bytes(p: PredicateView) -> Seq<u8>
    decreases p,
{
    match p {
        PredicateView::Primitive(r, path, c) => seq![relation_byte(r)] + spec_prepend_varint_width(spec_path_bytes(path))
            + spec_prepend_varint_width(crate::storage::executor::unit_content::spec_content_bytes(c)),
        PredicateView::Not(q) => seq![0xA2u8] + spec_prepend_varint_width(spec_predicate_bytes(*q)),
        PredicateView::Or(ps) => seq![0xA1u8] + spec_predicates_bytes(ps),
        PredicateView::And(ps) => seq![0xA0u8] + spec_predicates_bytes(ps),
    }
}

/// The byte forms of predicates, each width-prefixed, in turn.
pub open spec fn spec_predicates_bytes(ps: Seq<PredicateView>) -> Seq<u8>
    decreases ps,
{
    if ps.len() == 0 {
        Seq::empty()
    } else {
        spec_predicates_bytes(ps.drop_last()) + spec_prepend_varint_width(spec_predicate_bytes(ps.last()))
    }
}

/// A width-prefixed path then a width-prefixed unit, with the bytes they take; `None` where a
/// width overruns the bytes.
pub open spec fn spec_parse_path_and_content(data: Seq<u8>) -> Option<Result<(Seq<Seq<char>>, ContentView, nat), PredicateError>> {
    match spec_extract_data_with_varint_width(data) {
        Err(e) => Some(Err(PredicateError::MalformedBytes(e))),
        Ok((path_bytes, path_offset)) => match spec_parse_path(path_bytes) {
            None => None,
            Some(Err(e)) => Some(Err(PredicateError::MalformedBytes(e))),
            Some(Ok(path)) => {
                if path_offset > data.len() {
                    None
                } else {
                    match spec_extract_data_with_varint_width(data.subrange(path_offset as int, data.len() as int)) {
                        Err(e) => Some(Err(PredicateError::MalformedBytes(e))),
                        Ok((content_bytes, content_offset)) => match spec_parse_content(content_bytes) {
                            None => None,
                            Some(Err(e)) => Some(Err(PredicateError::UnitContent(e))),
                            Some(Ok((c, _))) => Some(Ok((path, c, path_offset + content_offset))),
                        },
                    }
                }
            },
        },
    }
}

/// The relation whose prefix byte is `b` (at most 4).
pub open spec fn relation_of_byte(b: u8) -> Relation {
    if b == 0x00 {
        Relation::Equal
    } else if b == 0x01 {
        Relation::GreaterThan
    } else if b == 0x02 {
        Relation::GreaterThanOrEqual
    } else if b == 0x03 {
        Relation::LessThan
    } else {
        Relation::LessThanOrEqual
    }
}

/// What parsing the byte form of a predicate gives, with the bytes it takes; `None` where a
/// width overruns the bytes. The parts of a disjunction or a conjunction run to the end of the
/// bytes, or to a part of width zero.
pub open spec fn spec_parse_predicate(data: Seq<u8>) -> Option<Result<(PredicateView, nat), PredicateError>>
    decreases data.len(), 0nat,
{
    if data.len() == 0 {
        Some(Err(PredicateError::InsufficientBytes))
    } else {
        let p = data[0];
        let main = data.subrange(1, data.len() as int);
        if p <= 0x04 {
            match spec_parse_path_and_content(main) {
                None => None,
                Some(Err(e)) => Some(Err(e)),
                Some(Ok((path, c, offset))) => Some(Ok((PredicateView::Primitive(relation_of_byte(p), path, c), 1 + offset))),
            }
        } else if p == 0xA2 {
            match spec_extract_data_with_varint_width(main) {
                Err(e) => Some(Err(PredicateError::MalformedBytes(e))),
                Ok((inner, offset)) => {
                    if inner.len() >= data.len() {
                        None
                    } else {
                        match spec_parse_predicate(inner) {
                            None => None,
                            Some(Err(e)) => Some(Err(e)),
                            Some(Ok((q, _))) => Some(Ok((PredicateView::Not(Box::new(q)), 1 + offset))),
                        }
                    }
                },
            }
        } else if p == 0xA0 || p == 0xA1 {
            match spec_parse_predicates(main) {
                None => None,
                Some(Err(e)) => Some(Err(e)),
                Some(Ok(ps)) => Some(Ok((if p == 0xA0 { PredicateView::And(ps) } else { PredicateView::Or(ps) }, data.len()))),
            }
        } else {
            Some(Err(PredicateError::UnexpectedPrefix(p)))
        }
    }
}

/// The width-prefixed predicates that follow one another in `data`, to its end or to one of
/// width zero.
pub open spec fn spec_parse_predicates(data: Seq<u8>) -> Option<Result<Seq<PredicateView>, PredicateError>>
    decreases data.len(), 1nat,
{
    if data.len() == 0 {
        Some(Ok(Seq::empty()))
    } else {
        match spec_extract_data_with_varint_width(data) {
            Err(e) => Some(Err(PredicateError::MalformedBytes(e))),
            Ok((part, offset)) => {
                if part.len() == 0 {
                    Some(Ok(Seq::empty()))
                } else if offset == 0 || offset > data.len() || part.len() > data.len() {
                    None
                } else {
                    match spec_parse_predicate(part) {
                        None => None,
                        Some(Err(e)) => Some(Err(e)),
                        Some(Ok((q, _))) => match spec_parse_predicates(data.subrange(offset as int, data.len() as int)) {
                            None => None,
                            Some(Err(e)) => Some(Err(e)),
                            Some(Ok(rest)) => Some(Ok(seq![q] + rest)),
                        },
                    }
                }
            },
        }
    }
}

/// The part of `c` at `path`: each field looked up in turn in a map; nil where a field is
/// missing or the part is not a map.
pub open spec fn spec_value_at_path(c: ContentView, path: Seq<Seq<char>>) -> ContentView
    decreases path.len(),
{
    if path.len() == 0 {
        c
    } else {
        match c {
            ContentView::Mapping(entries) => match spec_key_position(entries, path[0]) {
                Some(j) => spec_value_at_path(entries[j].1, path.subrange(1, path.len() as int)),
                None => ContentView::Nil,
            },
            _ => ContentView::Nil,
        }
    }
}

/// Whether `c` satisfies `p`: for a primitive predicate, whether the part of `c` at its path
/// relates to its expected content as it says (equality as `content_eq` has it, order only
/// between numbers); negations, disjunctions and conjunctions as in logic.
pub open spec fn spec_check(p: PredicateView, c: ContentView) -> bool
    decreases p,
{
    match p {
        PredicateView::Primitive(r, path, expected) => {
            let target = spec_value_at_path(c, path);
            let order = spec_content_order(target, expected);
            match r {
                Relation::Equal => content_eq(target, expected),
                Relation::GreaterThan => order == Some(ContentOrdering::Greater),
                Relation::GreaterThanOrEqual => order == Some(ContentOrdering::Greater) || order == Some(ContentOrdering::Equal),
                Relation::LessThan => order == Some(ContentOrdering::Less),
                Relation::LessThanOrEqual => order == Some(ContentOrdering::Less) || order == Some(ContentOrdering::Equal),
            }
        },
        PredicateView::Not(q) => !spec_check(*q, c),
        PredicateView::Or(ps) => exists|i: int| 0 <= i < ps.len() && spec_check(#[trigger] ps[i], c),
        PredicateView::And(ps) => forall|i: int| 0 <= i < ps.len() ==> spec_check(#[trigger] ps[i], c),
    }
}

/// How two units compare; see `spec_content_order`.
pub fn content_order(a: &UnitContent, b: &UnitContent) -> (result: Option<ContentOrdering>)
    ensures
        result == spec_content_order(a@, b@),
{
    match (a, b) {
        (UnitContent::Float64(x), UnitContent::Float64(y)) => float_compare(*x, *y),
        _ => None,
    }
}

/// A copy of the part of `content` at `path`; see `spec_value_at_path`.
pub fn get_value_at_path(content: &UnitContent, path: &FieldPath) -> (result: UnitContent)
    ensures
        result@ == spec_value_at_path(content@, path@),
{
    let fields = path.inner();
    let ghost full = path@;
    let mut current = content;
    let mut i: usize = 0;
    proof {
        assert(full.subrange(0, full.len() as int) =~= full);
    }
    while i < fields.len()
        invariant
            i <= fields@.len(),
            full == path@,
            full == fields@.map_values(|s: String| s@),
            spec_value_at_path(content@, full) == spec_value_at_path(current@, full.subrange(i as int, full.len() as int)),
        decreases fields@.len() - i,
    {
        let ghost rest = full.subrange(i as int, full.len() as int);
        assert(rest[0] == fields@[i as int]@);
        assert(rest.subrange(1, rest.len() as int) =~= full.subrange(i + 1, full.len() as int));
        match current {
            UnitContent::Mapping(entries) => {
                proof {
                    lemma_entries_view_all(entries@);
                }
                match key_position(entries, &fields[i]) {
                    Some(j) => {
                        current = &entries[j].1;
                    },
                    None => {
                        return UnitContent::Nil;
                    },
                }
            },
            _ => {
                return UnitContent::Nil;
            },
        }
        i = i + 1;
    }
    proof {
        assert(full.subrange(i as int, full.len() as int) =~= Seq::<Seq<char>>::empty());
    }
    current.duplicate()
}

impl Predicate {
    /// Whether `content` satisfies the predicate; see `spec_check`.
    pub fn check(&self, content: &UnitContent) -> (result: bool)
        ensures
            result == spec_check(self@, content@),
        decreases self,
    {
        match self {
            Predicate::Primitive(primitive) => {
                let (relation, path, expected) = match primitive {
                    PrimitivePredicate::Equal(path, c) => (Relation::Equal, path, c),
                    PrimitivePredicate::GreaterThan(path, c) => (Relation::GreaterThan, path, c),
                    PrimitivePredicate::GreaterThanOrEqual(path, c) => (Relation::GreaterThanOrEqual, path, c),
                    PrimitivePredicate::LessThan(path, c) => (Relation::LessThan, path, c),
                    PrimitivePredicate::LessThanOrEqual(path, c) => (Relation::LessThanOrEqual, path, c),
                };
                let target = get_value_at_path(content, path);
                match relation {
                    Relation::Equal => content_equals(&target, expected),
                    Relation::GreaterThan => content_order(&target, expected) == Some(ContentOrdering::Greater),
                    Relation::GreaterThanOrEqual => {
                        let order = content_order(&target, expected);
                        order == Some(ContentOrdering::Greater) || order == Some(ContentOrdering::Equal)
                    },
                    Relation::LessThan => content_order(&target, expected) == Some(ContentOrdering::Less),
                    Relation::LessThanOrEqual => {
                        let order = content_order(&target, expected);
                        order == Some(ContentOrdering::Less) || order == Some(ContentOrdering::Equal)
                    },
                }
            },
            Predicate::Compound(compound) => match compound {
                CompoundPredicate::Not(inner) => {
                    proof {
                        assert(decreases_to!(*self => (*self)->Compound_0));
                    }
                    !inner.check(content)
                },
                CompoundPredicate::Or(ps) => {
                    proof {
                        lemma_predicates_view_all(ps@);
                    }
                    let mut i: usize = 0;
                    while i < ps.len()
                        invariant
                            *self == Predicate::Compound(CompoundPredicate::Or(*ps)),
                            i <= ps@.len(),
                            predicates_view(ps@).len() == ps@.len(),
                            forall|k: int| 0 <= k < ps@.len() ==> #[trigger] predicates_view(ps@)[k] == ps@[k]@,
                            forall|k: int| 0 <= k < i ==> !spec_check(#[trigger] predicates_view(ps@)[k], content@),
                        decreases ps@.len() - i,
                    {
                        proof {
                            assert(decreases_to!(*self => (*self)->Compound_0));
                            assert(decreases_to!((*self)->Compound_0 => (*self)->Compound_0->Or_0));
                            assert(decreases_to!(*ps => ps@));
                            assert(decreases_to!(ps@ => ps@[i as int]));
                        }
                        if ps[i].check(content) {
                            assert(spec_check(predicates_view(ps@)[i as int], content@));
                            assert(self@ == PredicateView::Or(predicates_view(ps@)));
                            proof {
                                lemma_check_parts(predicates_view(ps@), content@);
                            }
                            return true;
                        }
                        i = i + 1;
                    }
                    proof {
                        lemma_check_parts(predicates_view(ps@), content@);
                    }
                    false
                },
                CompoundPredicate::And(ps) => {
                    proof {
                        lemma_predicates_view_all(ps@);
                    }
                    let mut i: usize = 0;
                    while i < ps.len()
                        invariant
                            *self == Predicate::Compound(CompoundPredicate::And(*ps)),
                            i <= ps@.len(),
                            predicates_view(ps@).len() == ps@.len(),
                            forall|k: int| 0 <= k < ps@.len() ==> #[trigger] predicates_view(ps@)[k] == ps@[k]@,
                            forall|k: int| 0 <= k < i ==> spec_check(#[trigger] predicates_view(ps@)[k], content@),
                        decreases ps@.len() - i,
                    {
                        proof {
                            assert(decreases_to!(*self => (*self)->Compound_0));
                            assert(decreases_to!((*self)->Compound_0 => (*self)->Compound_0->And_0));
                            assert(decreases_to!(*ps => ps@));
                            assert(decreases_to!(ps@ => ps@[i as int]));
                        }
                        if !ps[i].check(content) {
                            assert(!spec_check(predicates_view(ps@)[i as int], content@));
                            assert(self@ == PredicateView::And(predicates_view(ps@)));
                            proof {
                                lemma_check_parts(predicates_view(ps@), content@);
                            }
                            return false;
                        }
                        i = i + 1;
                    }
                    proof {
                        lemma_check_parts(predicates_view(ps@), content@);
                    }
                    true
                },
            },
        }
    }

    /// The byte form of the predicate; see `spec_predicate_bytes`.
    pub fn serialize(&self) -> (result: Vec<u8>)
        ensures
            result@ == spec_predicate_bytes(self@),
        decreases self,
    {
        let mut result: Vec<u8> = Vec::new();
        match self {
            Predicate::Primitive(primitive) => {
                let (prefix, path, c) = match primitive {
                    PrimitivePredicate::Equal(path, c) => (0x00u8, path, c),
                    PrimitivePredicate::GreaterThan(path, c) => (0x01u8, path, c),
                    PrimitivePredicate::GreaterThanOrEqual(path, c) => (0x02u8, path, c),
                    PrimitivePredicate::LessThan(path, c) => (0x03u8, path, c),
                    PrimitivePredicate::LessThanOrEqual(path, c) => (0x04u8, path, c),
                };
                result.push(prefix);
                append_bytes(&mut result, &prepend_varint_width(&path.serialize()));
                append_bytes(&mut result, &prepend_varint_width(&c.marshal()));
            },
            Predicate::Compound(compound) => match compound {
                CompoundPredicate::Not(inner) => {
                    proof {
                        assert(decreases_to!(*self => (*self)->Compound_0));
                    }
                    result.push(0xA2u8);
                    append_bytes(&mut result, &prepend_varint_width(&inner.serialize()));
                },
                CompoundPredicate::Or(ps) | CompoundPredicate::And(ps) => {
                    let is_and = match compound {
                        CompoundPredicate::And(_) => true,
                        _ => false,
                    };
                    result.push(if is_and { 0xA0u8 } else { 0xA1u8 });
                    let ghost head = result@;
                    let mut i: usize = 0;
                    proof {
                        assert(ps@.subrange(0, 0) =~= Seq::<Predicate>::empty());
                        assert(predicates_view(Seq::<Predicate>::empty()) =~= Seq::<PredicateView>::empty());
                        assert(head + Seq::<u8>::empty() =~= head);
                    }
                    while i < ps.len()
                        invariant
                            *self == Predicate::Compound(*compound),
                            (*compound == CompoundPredicate::Or(*ps)) || (*compound == CompoundPredicate::And(*ps)),
                            i <= ps@.len(),
                            result@ == head + spec_predicates_bytes(predicates_view(ps@.subrange(0, i as int))),
                        decreases ps@.len() - i,
                    {
                        proof {
                            assert(decreases_to!(*self => (*self)->Compound_0));
                            if *compound == CompoundPredicate::Or(*ps) {
                                assert(decreases_to!((*self)->Compound_0 => (*self)->Compound_0->Or_0));
                            } else {
                                assert(decreases_to!((*self)->Compound_0 => (*self)->Compound_0->And_0));
                            }
                            assert(decreases_to!(*ps => ps@));
                            assert(decreases_to!(ps@ => ps@[i as int]));
                        }
                        let ghost before = predicates_view(ps@.subrange(0, i as int));
                        let bytes = prepend_varint_width(&ps[i].serialize());
                        append_bytes(&mut result, &bytes);
                        proof {
                            let next = ps@.subrange(0, i + 1);
                            assert(next.drop_last() =~= ps@.subrange(0, i as int));
                            assert(predicates_view(next) == before.push(ps@[i as int]@));
                            assert(predicates_view(next).drop_last() =~= before);
                            assert(result@ =~= head + spec_predicates_bytes(predicates_view(next)));
                        }
                        i = i + 1;
                    }
                    proof {
                        assert(ps@.subrange(0, i as int) =~= ps@);
                    }
                },
            },
        }
        assert(result@ =~= spec_predicate_bytes(self@));
        result
    }
}

/// A disjunction holds when one of its parts does; a conjunction when all of them do.
pub proof fn lemma_check_parts(pv: Seq<PredicateView>, c: ContentView)
    ensures
        spec_check(PredicateView::Or(pv), c) == (exists|k: int| 0 <= k < pv.len() && spec_check(#[trigger] pv[k], c)),
        spec_check(PredicateView::And(pv), c) == (forall|k: int| 0 <= k < pv.len() ==> spec_check(#[trigger] pv[k], c)),
{
    let o = PredicateView::Or(pv);
    let a = PredicateView::And(pv);
    assert(decreases_to!(o => o->Or_0));
    assert(decreases_to!(a => a->And_0));
    assert forall|k: int| 0 <= k < pv.len() implies decreases_to!(o => #[trigger] pv[k]) && decreases_to!(a => pv[k]) by {
        assert(decreases_to!(pv => pv[k]));
    }
}

/// A width-prefixed path then a width-prefixed unit; see `spec_parse_path_and_content`.
fn parse_path_and_content(data: &[u8]) -> (result: Option<Result<(FieldPath, UnitContent, usize), PredicateError>>)
    ensures
        match result {
            None => spec_parse_path_and_content(data@) is None,
            Some(Ok((path, c, n))) => spec_parse_path_and_content(data@) == Some(Ok::<(Seq<Seq<char>>, ContentView, nat), PredicateError>((path@, c@, n as nat)))
                && n <= data@.len(),
            Some(Err(e)) => spec_parse_path_and_content(data@) == Some(Err::<(Seq<Seq<char>>, ContentView, nat), PredicateError>(e)),
        },
{
    let (path_bytes, path_offset) = match extract_data_with_varint_width(data) {
        Err(e) => {
            return Some(Err(PredicateError::MalformedBytes(e)));
        },
        Ok(r) => r,
    };
    let path = match FieldPath::parse_checked(path_bytes) {
        None => {
            return None;
        },
        Some(Err(e)) => {
            return Some(Err(PredicateError::MalformedBytes(e)));
        },
        Some(Ok(p)) => p,
    };
    if path_offset > data.len() {
        return None;
    }
    let rest = tail_bytes(data, path_offset);
    let (content_bytes, content_offset) = match extract_data_with_varint_width(rest) {
        Err(e) => {
            return Some(Err(PredicateError::MalformedBytes(e)));
        },
        Ok(r) => r,
    };
    match UnitContent::parse_checked(content_bytes) {
        None => None,
        Some(Err(e)) => Some(Err(PredicateError::UnitContent(e))),
        Some(Ok((c, _))) => {
            proof {
                if let Ok((b, n)) = spec_extract_data_with_varint_width(rest@) {
                    assert(n <= rest@.len());
                }
            }
            Some(Ok((path, c, path_offset + content_offset)))
        },
    }
}

impl Predicate {
    /// Reads the predicate at the start of `data`, with the bytes it takes; see
    /// `spec_parse_predicate`.
    pub fn parse(data: &[u8]) -> (result: Result<(Predicate, usize), PredicateError>)
        requires
            spec_parse_predicate(data@) is Some,
        ensures
            match result {
                Ok((p, n)) => spec_parse_predicate(data@) == Some(Ok::<(PredicateView, nat), PredicateError>((p@, n as nat)))
                    && n <= data@.len(),
                Err(e) => spec_parse_predicate(data@) == Some(Err::<(PredicateView, nat), PredicateError>(e)),
            },
    {
        match Self::parse_checked(data) {
            Some(r) => r,
            None => {
                assert(false);
                Err(PredicateError::InsufficientBytes)
            },
        }
    }

    /// Like `parse`, with `None` where a width overruns the bytes.
    pub fn parse_checked(data: &[u8]) -> (result: Option<Result<(Predicate, usize), PredicateError>>)
        ensures
            match result {
                None => spec_parse_predicate(data@) is None,
                Some(Ok((p, n))) => spec_parse_predicate(data@) == Some(Ok::<(PredicateView, nat), PredicateError>((p@, n as nat)))
                    && n <= data@.len(),
                Some(Err(e)) => spec_parse_predicate(data@) == Some(Err::<(PredicateView, nat), PredicateError>(e)),
            },
        decreases data@.len(), 0nat,
    {
        if data.len() == 0 {
            return Some(Err(PredicateError::InsufficientBytes));
        }
        let p = data[0];
        let main = tail_bytes(data, 1);
        if p <= 0x04 {
            match parse_path_and_content(main) {
                None => None,
                Some(Err(e)) => Some(Err(e)),
                Some(Ok((path, c, offset))) => {
                    let primitive = if p == 0x00 {
                        PrimitivePredicate::Equal(path, c)
                    } else if p == 0x01 {
                        PrimitivePredicate::GreaterThan(path, c)
                    } else if p == 0x02 {
                        PrimitivePredicate::GreaterThanOrEqual(path, c)
                    } else if p == 0x03 {
                        PrimitivePredicate::LessThan(path, c)
                    } else {
                        PrimitivePredicate::LessThanOrEqual(path, c)
                    };
                    Some(Ok((Predicate::Primitive(primitive), 1 + offset)))
                },
            }
        } else if p == 0xA2 {
            match extract_data_with_varint_width(main) {
                Err(e) => Some(Err(PredicateError::MalformedBytes(e))),
                Ok((inner, offset)) => {
                    if inner.len() >= data.len() {
                        return None;
                    }
                    match Self::parse_checked(inner) {
                        None => None,
                        Some(Err(e)) => Some(Err(e)),
                        Some(Ok((q, _))) => {
                            proof {
                                if let Ok((b, n)) = spec_extract_data_with_varint_width(main@) {
                                    assert(n <= main@.len());
                                }
                            }
                            Some(Ok((Predicate::Compound(CompoundPredicate::Not(Box::new(q))), 1 + offset)))
                        },
                    }
                },
            }
        } else if p == 0xA0 || p == 0xA1 {
            match parse_predicates_checked(main) {
                None => None,
                Some(Err(e)) => Some(Err(e)),
                Some(Ok(ps)) => {
                    let compound = if p == 0xA0 {
                        CompoundPredicate::And(ps)
                    } else {
                        CompoundPredicate::Or(ps)
                    };
                    Some(Ok((Predicate::Compound(compound), data.len())))
                },
            }
        } else {
            Some(Err(PredicateError::UnexpectedPrefix(p)))
        }
    }
}

/// The width-prefixed predicates that follow one another in `data`; see
/// `spec_parse_predicates`.
fn parse_predicates_checked(data: &[u8]) -> (result: Option<Result<Vec<Predicate>, PredicateError>>)
    ensures
        match result {
            None => spec_parse_predicates(data@) is None,
            Some(Ok(ps)) => spec_parse_predicates(data@) == Some(Ok::<Seq<PredicateView>, PredicateError>(predicates_view(ps@))),
            Some(Err(e)) => spec_parse_predicates(data@) == Some(Err::<Seq<PredicateView>, PredicateError>(e)),
        },
    decreases data@.len(), 1nat,
{
    let mut ps: Vec<Predicate> = Vec::new();
    let mut i: usize = 0;
    proof {
        assert(data@.subrange(0, data@.len() as int) =~= data@);
        if let Some(Ok(r)) = spec_parse_predicates(data@) {
            assert(Seq::<PredicateView>::empty() + r =~= r);
        }
    }
    while i < data.len()
        invariant
            i <= data@.len(),
            spec_parse_predicates(data@) == (match spec_parse_predicates(data@.subrange(i as int, data@.len() as int)) {
                Some(Ok(rest)) => Some(Ok(predicates_view(ps@) + rest)),
                other => other,
            }),
        decreases data@.len() - i,
    {
        let rest = tail_bytes(data, i);
        match extract_data_with_varint_width(rest) {
            Err(e) => {
                return Some(Err(PredicateError::MalformedBytes(e)));
            },
            Ok((part, offset)) => {
                if part.len() == 0 {
                    proof {
                        assert(predicates_view(ps@) + Seq::<PredicateView>::empty() =~= predicates_view(ps@));
                    }
                    return Some(Ok(ps));
                }
                proof {
                    if let Ok((b, n)) = spec_extract_data_with_varint_width(rest@) {
                        assert(n <= rest@.len());
                        assert(b.len() <= n);
                    }
                }
                if offset == 0 || offset > rest.len() || part.len() > rest.len() {
                    return None;
                }
                match Predicate::parse_checked(part) {
                    None => {
                        return None;
                    },
                    Some(Err(e)) => {
                        return Some(Err(e));
                    },
                    Some(Ok((q, _))) => {
                        let ghost before = predicates_view(ps@);
                        let ghost qv = q@;
                        let ghost old_ps = ps@;
                        proof {
                            assert(rest@.subrange(offset as int, rest@.len() as int) =~= data@.subrange(i + offset, data@.len() as int));
                        }
                        ps.push(q);
                        proof {
                            assert(ps@.drop_last() =~= old_ps);
                            assert(predicates_view(ps@) == before.push(qv));
                            if let Some(Ok(r)) = spec_parse_predicates(data@.subrange(i + offset, data@.len() as int)) {
                                assert(before + (seq![qv] + r) =~= before.push(qv) + r);
                            }
                        }
                        i = i + offset;
                    },
                }
            },
        }
    }
    proof {
        assert(data@.subrange(i as int, data@.len() as int) =~= Seq::<u8>::empty());
        assert(predicates_view(ps@) + Seq::<PredicateView>::empty() =~= predicates_view(ps@));
    }
    Some(Ok(ps))
}

/// The first place of `target` in `tokens`, if any.
#[verifier::opaque]
pub open spec fn first_token_index(tokens: Seq<TokenView>, target: TokenView) -> Option<int> {
    if exists|i: int| 0 <= i < tokens.len() && tokens[i] == target && forall|j: int| 0 <= j < i ==> tokens[j] != target {
        Some(choose|i: int| 0 <= i < tokens.len() && tokens[i] == target && forall|j: int| 0 <= j < i ==> tokens[j] != target)
    } else {
        None
    }
}

/// What reading the first `n` tokens of a primitive predicate gives: the fields of its path,
/// its last value (given in `contents`, at the value's place), and its last comparison; `None`
/// once a token that has no place in a primitive predicate is met.
#[verifier::opaque]
pub open spec fn spec_scan(tokens: Seq<TokenView>, contents: Seq<ContentView>, n: nat) -> Option<(Seq<Seq<char>>, Option<ContentView>, Option<Relation>)>
    decreases n,
{
    if n == 0 {
        Some((Seq::empty(), None, None))
    } else {
        match spec_scan(tokens, contents, (n - 1) as nat) {
            None => None,
            Some((path, content, relation)) => match tokens[n - 1] {
                TokenView::This => Some((path, content, relation)),
                TokenView::Dot => Some((path, content, relation)),
                TokenView::Identifier(s) => Some((path.push(s), content, relation)),
                TokenView::ContentString(_) => Some((path, Some(contents[n - 1]), relation)),
                TokenView::GreaterThan => Some((path, content, Some(Relation::GreaterThan))),
                TokenView::GreaterThanOrEqual => Some((path, content, Some(Relation::GreaterThanOrEqual))),
                TokenView::LessThan => Some((path, content, Some(Relation::LessThan))),
                TokenView::LessThanOrEqual => Some((path, content, Some(Relation::LessThanOrEqual))),
                TokenView::Equal => Some((path, content, Some(Relation::Equal))),
                _ => None,
            },
        }
    }
}

/// The predicate that tokens make, each value given in `contents` at its place: the tokens are
/// split at the first `||`, else at the first `&&`, into two predicates joined by it; tokens
/// without either make a primitive predicate.
pub open spec fn spec_parse_tokens(tokens: Seq<TokenView>, contents: Seq<ContentView>) -> Result<PredicateView, PredicateError>
    decreases tokens.len(),
{
    let split = match first_token_index(tokens, TokenView::Or) {
        Some(i) => Some((i, true)),
        None => match first_token_index(tokens, TokenView::And) {
            Some(i) => Some((i, false)),
            None => None,
        },
    };
    match split {
        Some((i, is_or)) => {
            if 0 <= i < tokens.len() {
                match spec_parse_tokens(tokens.subrange(0, i), contents.subrange(0, i)) {
                    Err(e) => Err(e),
                    Ok(left) => match spec_parse_tokens(tokens.subrange(i + 1, tokens.len() as int), contents.subrange(i + 1, contents.len() as int)) {
                        Err(e) => Err(e),
                        Ok(right) => Ok(if is_or { PredicateView::Or(seq![left, right]) } else { PredicateView::And(seq![left, right]) }),
                    },
                }
            } else {
                Err(PredicateError::MalformedTokens)
            }
        },
        None => match spec_scan(tokens, contents, tokens.len()) {
            None => Err(PredicateError::UnexpectedToken),
            Some((path, Some(content), Some(relation))) => Ok(PredicateView::Primitive(relation, path, content)),
            Some(_) => Err(PredicateError::MalformedTokens),
        },
    }
}

/// The first place of `||` (`is_or`) or `&&` among `tokens`; see `first_token_index`.
fn find_token(tokens: &[Token], is_or: bool) -> (result: Option<usize>)
    ensures
        match result {
            Some(i) => first_token_index(tokens@.map_values(|t: Token| t@), if is_or { TokenView::Or } else { TokenView::And }) == Some(i as int)
                && i < tokens@.len(),
            None => first_token_index(tokens@.map_values(|t: Token| t@), if is_or { TokenView::Or } else { TokenView::And }) is None,
        },
{
    let ghost tv = tokens@.map_values(|t: Token| t@);
    let ghost target = if is_or { TokenView::Or } else { TokenView::And };
    reveal(first_token_index);
    let mut i: usize = 0;
    while i < tokens.len()
        invariant
            i <= tokens@.len(),
            tv == tokens@.map_values(|t: Token| t@),
            target == (if is_or { TokenView::Or } else { TokenView::And }),
            forall|j: int| 0 <= j < i ==> tv[j] != target,
        decreases tokens@.len() - i,
    {
        reveal(first_token_index);
        let hit = match &tokens[i] {
            Token::Or => is_or,
            Token::And => !is_or,
            _ => false,
        };
        assert(tv[i as int] == tokens@[i as int]@);
        if hit {
            proof {
                assert(tv[i as int] == target);
                assert(exists|c: int| 0 <= c < tv.len() && tv[c] == target && forall|j: int| 0 <= j < c ==> tv[j] != target) by {
                    assert(0 <= i < tv.len() && tv[i as int] == target && forall|j: int| 0 <= j < i ==> tv[j] != target);
                }
                let c = choose|c: int| 0 <= c < tv.len() && tv[c] == target && forall|j: int| 0 <= j < c ==> tv[j] != target;
                if c < i {
                    assert(tv[c] != target);
                } else if c > i {
                    assert(tv[i as int] != target);
                }
            }
            return Some(i);
        }
        i = i + 1;
    }
    None
}

impl Predicate {
    /// The predicate that `tokens` make, the value at each place of a value token being given in
    /// `contents` at that place; see `spec_parse_tokens`.
    #[verifier::rlimit(80)]
    pub fn parse_tokens(tokens: &[Token], contents: &[UnitContent]) -> (result: Result<Predicate, PredicateError>)
        requires
            tokens@.len() == contents@.len(),
        ensures
            match result {
                Ok(p) => spec_parse_tokens(tokens@.map_values(|t: Token| t@), contents@.map_values(|c: UnitContent| c@)) == Ok::<PredicateView, PredicateError>(p@),
                Err(e) => spec_parse_tokens(tokens@.map_values(|t: Token| t@), contents@.map_values(|c: UnitContent| c@)) == Err::<PredicateView, PredicateError>(e),
            },
        decreases tokens@.len(),
    {
        let ghost tv = tokens@.map_values(|t: Token| t@);
        let ghost cv = contents@.map_values(|c: UnitContent| c@);
        let _ = tokens.len();
        let split = match find_token(tokens, true) {
            Some(i) => Some((i, true)),
            None => match find_token(tokens, false) {
                Some(i) => Some((i, false)),
                None => None,
            },
        };
        match split {
            Some((i, is_or)) => {
                let left_tokens = vstd::slice::slice_subrange(tokens, 0, i);
                let left_contents = vstd::slice::slice_subrange(contents, 0, i);
                let right_tokens = vstd::slice::slice_subrange(tokens, i + 1, tokens.len());
                let right_contents = vstd::slice::slice_subrange(contents, i + 1, contents.len());
                proof {
                    assert(left_tokens@.map_values(|t: Token| t@) =~= tv.subrange(0, i as int));
                    assert(left_contents@.map_values(|c: UnitContent| c@) =~= cv.subrange(0, i as int));
                    assert(right_tokens@.map_values(|t: Token| t@) =~= tv.subrange(i + 1, tv.len() as int));
                    assert(right_contents@.map_values(|c: UnitContent| c@) =~= cv.subrange(i + 1, cv.len() as int));
                }
                let left = match Self::parse_tokens(left_tokens, left_contents) {
                    Err(e) => {
                        return Err(e);
                    },
                    Ok(p) => p,
                };
                let right = match Self::parse_tokens(right_tokens, right_contents) {
                    Err(e) => {
                        return Err(e);
                    },
                    Ok(p) => p,
                };
                let ghost lv = left@;
                let ghost rv = right@;
                let parts = vec![left, right];
                proof {
                    lemma_predicates_view_all(parts@);
                    assert(predicates_view(parts@) =~= seq![lv, rv]);
                }
                if is_or {
                    Ok(Predicate::Compound(CompoundPredicate::Or(parts)))
                } else {
                    Ok(Predicate::Compound(CompoundPredicate::And(parts)))
                }
            },
            None => parse_primitive(tokens, contents),
        }
    }
}

/// The primitive predicate that `tokens` make; see `spec_scan`.
fn parse_primitive(tokens: &[Token], contents: &[UnitContent]) -> (result: Result<Predicate, PredicateError>)
    requires
        tokens@.len() == contents@.len(),
    ensures
        match result {
            Ok(p) => (match spec_scan(tokens@.map_values(|t: Token| t@), contents@.map_values(|c: UnitContent| c@), tokens@.len()) {
                None => Err(PredicateError::UnexpectedToken),
                Some((path, Some(content), Some(relation))) => Ok(PredicateView::Primitive(relation, path, content)),
                Some(_) => Err(PredicateError::MalformedTokens),
            }) == Ok::<PredicateView, PredicateError>(p@),
            Err(e) => (match spec_scan(tokens@.map_values(|t: Token| t@), contents@.map_values(|c: UnitContent| c@), tokens@.len()) {
                None => Err(PredicateError::UnexpectedToken),
                Some((path, Some(content), Some(relation))) => Ok(PredicateView::Primitive(relation, path, content)),
                Some(_) => Err(PredicateError::MalformedTokens),
            }) == Err::<PredicateView, PredicateError>(e),
        },
{
    let ghost tv = tokens@.map_values(|t: Token| t@);
    let ghost cv = contents@.map_values(|c: UnitContent| c@);
    reveal(spec_scan);
    let mut path = FieldPath::new();
    let mut content: Option<UnitContent> = None;
    let mut relation: Option<Relation> = None;
    let mut i: usize = 0;
    while i < tokens.len()
        invariant
            i <= tokens@.len(),
            tokens@.len() == contents@.len(),
            tv == tokens@.map_values(|t: Token| t@),
            cv == contents@.map_values(|c: UnitContent| c@),
            spec_scan(tv, cv, i as nat) == Some((path@, match content { Some(c) => Some(c@), None => None::<ContentView> }, relation)),
        decreases tokens@.len() - i,
    {
        reveal(spec_scan);
        assert(tv[i as int] == tokens@[i as int]@);
        assert(cv[i as int] == contents@[i as int]@);
        match &tokens[i] {
            Token::This => {},
            Token::Dot => {},
            Token::Identifier(s) => {
                path.push(s.as_str());
            },
            Token::ContentString(_) => {
                content = Some(contents[i].duplicate());
            },
            Token::GreaterThan => {
                relation = Some(Relation::GreaterThan);
            },
            Token::GreaterThanOrEqual => {
                relation = Some(Relation::GreaterThanOrEqual);
            },
            Token::LessThan => {
                relation = Some(Relation::LessThan);
            },
            Token::LessThanOrEqual => {
                relation = Some(Relation::LessThanOrEqual);
            },
            Token::Equal => {
                relation = Some(Relation::Equal);
            },
            _ => {
                let ghost n = (i + 1) as nat;
                assert(spec_scan(tv, cv, n) is None);
                proof {
                    lemma_scan_stays_none(tv, cv, n, tokens@.len());
                }
                return Err(PredicateError::UnexpectedToken);
            },
        }
        i = i + 1;
    }
    match (content, relation) {
        (Some(c), Some(r)) => {
            let primitive = match r {
                Relation::Equal => PrimitivePredicate::Equal(path, c),
                Relation::GreaterThan => PrimitivePredicate::GreaterThan(path, c),
                Relation::GreaterThanOrEqual => PrimitivePredicate::GreaterThanOrEqual(path, c),
                Relation::LessThan => PrimitivePredicate::LessThan(path, c),
                Relation::LessThanOrEqual => PrimitivePredicate::LessThanOrEqual(path, c),
            };
            Ok(Predicate::Primitive(primitive))
        },
        _ => Err(PredicateError::MalformedTokens),
    }
}

/// Once scanning meets a token that has no place in a primitive predicate, scanning further
/// does not recover.
proof fn lemma_scan_stays_none(tokens: Seq<TokenView>, contents: Seq<ContentView>, m: nat, n: nat)
    requires
        m <= n,
        spec_scan(tokens, contents, m) is None,
    ensures
        spec_scan(tokens, contents, n) is None,
    decreases n - m,
{
    reveal(spec_scan);
    if m < n {
        lemma_scan_stays_none(tokens, contents, m, (n - 1) as nat);
    }
}

/// Whether two predicates are the same: the same shape, relations and paths, and equal
/// contents (as `content_eq` has it).
pub open spec fn predicate_eq(a: PredicateView, b: PredicateView) -> bool
    decreases a,
{
    match (a, b) {
        (PredicateView::Primitive(r1, p1, c1), PredicateView::Primitive(r2, p2, c2)) => r1 == r2 && p1 == p2 && content_eq(c1, c2),
        (PredicateView::Not(x), PredicateView::Not(y)) => predicate_eq(*x, *y),
        (PredicateView::Or(xs), PredicateView::Or(ys)) => xs.len() == ys.len() && forall|i: int|
            0 <= i < xs.len() ==> predicate_eq(#[trigger] xs[i], ys[i]),
        (PredicateView::And(xs), PredicateView::And(ys)) => xs.len() == ys.len() && forall|i: int|
            0 <= i < xs.len() ==> predicate_eq(#[trigger] xs[i], ys[i]),
        _ => false,
    }
}

/// Two disjunctions, or two conjunctions, are the same when their parts are, one by one.
proof fn lemma_eq_parts(xs: Seq<PredicateView>, ys: Seq<PredicateView>)
    ensures
        predicate_eq(PredicateView::Or(xs), PredicateView::Or(ys)) == (xs.len() == ys.len() && forall|i: int|
            0 <= i < xs.len() ==> predicate_eq(#[trigger] xs[i], ys[i])),
        predicate_eq(PredicateView::And(xs), PredicateView::And(ys)) == (xs.len() == ys.len() && forall|i: int|
            0 <= i < xs.len() ==> predicate_eq(#[trigger] xs[i], ys[i])),
{
    let o = PredicateView::Or(xs);
    let a = PredicateView::And(xs);
    assert(decreases_to!(o => o->Or_0));
    assert(decreases_to!(a => a->And_0));
    assert forall|k: int| 0 <= k < xs.len() implies decreases_to!(o => #[trigger] xs[k]) && decreases_to!(a => xs[k]) by {
        assert(decreases_to!(xs => xs[k]));
    }
}

impl FieldPath {
    /// Whether two paths have the same fields.
    pub fn same_as(&self, other: &FieldPath) -> (result: bool)
        ensures
            result == (self@ == other@),
    {
        if self.0.len() != other.0.len() {
            assert(self@.len() != other@.len());
            return false;
        }
        let mut i: usize = 0;
        while i < self.0.len()
            invariant
                i <= self.0@.len(),
                self.0@.len() == other.0@.len(),
                forall|k: int| 0 <= k < i ==> self.0@[k]@ == other.0@[k]@,
            decreases self.0@.len() - i,
        {
            if self.0[i] != other.0[i] {
                assert(self@[i as int] != other@[i as int]);
                return false;
            }
            i = i + 1;
        }
        assert(self@ =~= other@);
        true
    }
}

/// Whether two predicates are the same; see `predicate_eq`.
pub fn predicate_equals(a: &Predicate, b: &Predicate) -> (result: bool)
    ensures
        result == predicate_eq(a@, b@),
    decreases a,
{
    match (a, b) {
        (Predicate::Primitive(x), Predicate::Primitive(y)) => {
            let (r1, p1, c1) = match x {
                PrimitivePredicate::Equal(p, c) => (Relation::Equal, p, c),
                PrimitivePredicate::GreaterThan(p, c) => (Relation::GreaterThan, p, c),
                PrimitivePredicate::GreaterThanOrEqual(p, c) => (Relation::GreaterThanOrEqual, p, c),
                PrimitivePredicate::LessThan(p, c) => (Relation::LessThan, p, c),
                PrimitivePredicate::LessThanOrEqual(p, c) => (Relation::LessThanOrEqual, p, c),
            };
            let (r2, p2, c2) = match y {
                PrimitivePredicate::Equal(p, c) => (Relation::Equal, p, c),
                PrimitivePredicate::GreaterThan(p, c) => (Relation::GreaterThan, p, c),
                PrimitivePredicate::GreaterThanOrEqual(p, c) => (Relation::GreaterThanOrEqual, p, c),
                PrimitivePredicate::LessThan(p, c) => (Relation::LessThan, p, c),
                PrimitivePredicate::LessThanOrEqual(p, c) => (Relation::LessThanOrEqual, p, c),
            };
            r1 == r2 && p1.same_as(p2) && content_equals(c1, c2)
        },
        (Predicate::Compound(CompoundPredicate::Not(x)), Predicate::Compound(CompoundPredicate::Not(y))) => {
            proof {
                assert(decreases_to!(*a => (*a)->Compound_0));
            }
            predicate_equals(x, y)
        },
        (Predicate::Compound(x), Predicate::Compound(y)) => {
            let (xs, ys, both_or) = match (x, y) {
                (CompoundPredicate::Or(xs), CompoundPredicate::Or(ys)) => (xs, ys, true),
                (CompoundPredicate::And(xs), CompoundPredicate::And(ys)) => (xs, ys, false),
                _ => {
                    return false;
                },
            };
            proof {
                lemma_predicates_view_all(xs@);
                lemma_predicates_view_all(ys@);
                lemma_eq_parts(predicates_view(xs@), predicates_view(ys@));
            }
            if xs.len() != ys.len() {
                return false;
            }
            let mut i: usize = 0;
            while i < xs.len()
                invariant
                    *a == Predicate::Compound(*x),
                    *b == Predicate::Compound(*y),
                    both_or ==> (*x == CompoundPredicate::Or(*xs) && *y == CompoundPredicate::Or(*ys)),
                    !both_or ==> (*x == CompoundPredicate::And(*xs) && *y == CompoundPredicate::And(*ys)),
                    i <= xs@.len(),
                    xs@.len() == ys@.len(),
                    predicates_view(xs@).len() == xs@.len(),
                    predicates_view(ys@).len() == ys@.len(),
                    forall|k: int| 0 <= k < xs@.len() ==> #[trigger] predicates_view(xs@)[k] == xs@[k]@,
                    forall|k: int| 0 <= k < ys@.len() ==> #[trigger] predicates_view(ys@)[k] == ys@[k]@,
                    forall|k: int| 0 <= k < i ==> predicate_eq(#[trigger] predicates_view(xs@)[k], predicates_view(ys@)[k]),
                decreases xs@.len() - i,
            {
                proof {
                    assert(decreases_to!(*a => (*a)->Compound_0));
                    if *x == CompoundPredicate::Or(*xs) {
                        assert(decreases_to!((*a)->Compound_0 => (*a)->Compound_0->Or_0));
                    } else {
                        assert(decreases_to!((*a)->Compound_0 => (*a)->Compound_0->And_0));
                    }
                    assert(decreases_to!(*xs => xs@));
                    assert(decreases_to!(xs@ => xs@[i as int]));
                }
                if !predicate_equals(&xs[i], &ys[i]) {
                    assert(!predicate_eq(predicates_view(xs@)[i as int], predicates_view(ys@)[i as int]));
                    proof {
                        lemma_eq_parts(predicates_view(xs@), predicates_view(ys@));
                    }
                    return false;
                }
                i = i + 1;
            }
            proof {
                lemma_eq_parts(predicates_view(xs@), predicates_view(ys@));
            }
            true
        },
        _ => false,
    }
}

impl PartialEq for Predicate {
    fn eq(&self, other: &Self) -> (result: bool) {
        predicate_equals(self, other)
    }
}

impl PartialEqSpecImpl for Predicate {
    open spec fn obeys_eq_spec() -> bool {
        true
    }

    open spec fn eq_spec(&self, other: &Self) -> bool {
        predicate_eq(self@, other@)
    }
}

} // verus!
