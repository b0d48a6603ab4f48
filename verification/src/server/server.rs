//! How an HTTP request is read as a request to the executor: the path and its queries, and
//! the routes by method and path segments.

use vstd::prelude::*;
use crate::constants::{
    ABORT_TRANSACTION_KEY_WORD, COMMIT_TRANSACTION_KEY_WORD, HEIGHT, URL_JOURNAL_KEY_WORD,
    URL_TRANSACTIONS_KEY_WORD,
};
use crate::server::errors::ServerError;
use crate::storage::chain_height::ChainHeight;
use crate::storage::executor::errors::ExecutorError;
use crate::storage::executor::executor::{spec_execute, Executor};
use crate::storage::executor::grouping_label::GroupingLabel;
use crate::storage::executor::outcome::{Outcome, OutcomeView};
use crate::storage::kv_model::StoreView;
use crate::storage::executor::instruction::{Instruction, RequestView};
use crate::storage::executor::unit_content::{ContentView, UnitContent};
use crate::storage::executor::unit_key::UnitKey;
use crate::storage::transaction_manager::TransactionId;
use crate::system_error::SystemError;
use crate::utils::decimal::{parse_u64, spec_parse_unsigned};
use crate::utils::text::{str_chars, string_from_chars};
use vstd::utf8::encode_utf8;

verus! {

/// The method of an HTTP request, as far as the routes tell them apart.
#[derive(Debug, Clone, Copy, PartialEq, Eq, Structural)]
pub enum HttpMethod {
    Get,
    Put,
    Post,
    Delete,
    Other,
}

/// The path of a request and the pairs of its query, in the order they came.
pub struct UrlInformation {
    pub queries: Vec<(String, String)>,
    pub main_path: String,
}

/// A path and its query pairs as text.
pub struct UrlView {
    pub queries: Seq<(Seq<char>, Seq<char>)>,
    pub main_path: Seq<char>,
}

/// Query pairs as text.
pub open spec fn pairs_view(pairs: Seq<(String, String)>) -> Seq<(Seq<char>, Seq<char>)> {
    pairs.map_values(|p: (String, String)| (p.0@, p.1@))
}

/// Texts as their characters.
pub open spec fn strings_view(strings: Seq<String>) -> Seq<Seq<char>> {
    strings.map_values(|s: String| s@)
}

impl View for UrlInformation {
    type V = UrlView;

    open spec fn view(&self) -> UrlView {
        UrlView { queries: pairs_view(self.queries@), main_path: self.main_path@ }
    }
}

/// The value of a query: that of the last pair with the key, as where later pairs overwrite
/// earlier ones.
pub open spec fn spec_query(queries: Seq<(Seq<char>, Seq<char>)>, key: Seq<char>) -> Option<Seq<char>>
    decreases queries.len(),
{
    if queries.len() == 0 {
        None
    } else if queries.last().0 == key {
        Some(queries.last().1)
    } else {
        spec_query(queries.drop_last(), key)
    }
}

/// A query read as a number: the URL is refused where the key is missing or its value is not
/// the numeral of a `u64`.
pub open spec fn spec_numeric_query(info: UrlView, key: Seq<char>) -> Result<u64, ServerError> {
    match spec_query(info.queries, key) {
        None => Err(ServerError::UrlParsingError),
        Some(s) => match spec_parse_unsigned(s, u64::MAX as nat) {
            None => Err(ServerError::UrlParsingError),
            Some(v) => Ok(v as u64),
        },
    }
}

/// The pieces of a text between the `/` that separate them, empty ones included.
pub open spec fn spec_split_path(s: Seq<char>) -> Seq<Seq<char>>
    decreases s.len(),
{
    if s.len() == 0 {
        seq![Seq::<char>::empty()]
    } else {
        let init = spec_split_path(s.drop_last());
        if s.last() == '/' {
            init.push(Seq::empty())
        } else {
            init.update(init.len() - 1, init.last().push(s.last()))
        }
    }
}

/// A text splits into at least one piece.
pub proof fn lemma_split_path_nonempty(s: Seq<char>)
    ensures
        spec_split_path(s).len() >= 1,
    decreases s.len(),
{
    if s.len() > 0 {
        lemma_split_path_nonempty(s.drop_last());
    }
}

/// An id in a path: refused, as a failed integer parse, where it is not the numeral of a
/// `u64`.
pub open spec fn spec_path_id(s: Seq<char>) -> Result<u64, ServerError> {
    match spec_parse_unsigned(s, u64::MAX as nat) {
        None => Err(ServerError::ParseIntError(SystemError::ParseIntError)),
        Some(v) => Ok(v as u64),
    }
}

/// The route of a GET: a transactional select, the journal of a unit, a select, or the whole
/// journal, by the number of path segments.
pub open spec fn spec_route_get(segs: Seq<Seq<char>>) -> Result<RequestView, ServerError> {
    if segs.len() >= 5 {
        if segs[1] != URL_TRANSACTIONS_KEY_WORD@ || segs[4].len() == 0 {
            Err(ServerError::UrlParsingError)
        } else {
            match spec_path_id(segs[2]) {
                Err(e) => Err(e),
                Ok(t) => Ok(RequestView::Select(encode_utf8(segs[4]), Some(t))),
            }
        }
    } else if segs.len() >= 4 {
        if segs[3] != URL_JOURNAL_KEY_WORD@ || segs[2].len() == 0 {
            Err(ServerError::UrlParsingError)
        } else {
            Ok(RequestView::InspectOne(encode_utf8(segs[2])))
        }
    } else if segs.len() >= 3 {
        Ok(RequestView::Select(encode_utf8(segs[2]), None))
    } else if segs.len() >= 2 && segs[1] == URL_JOURNAL_KEY_WORD@ {
        Ok(RequestView::InspectAll)
    } else {
        Err(ServerError::UrlParsingError)
    }
}

/// The route of a PUT: with a height query a revert, else an insert of the body as text;
/// transactional under the transactions segment.
pub open spec fn spec_route_put(info: UrlView, segs: Seq<Seq<char>>, body: Seq<char>) -> Result<RequestView, ServerError> {
    let height = spec_numeric_query(info, HEIGHT@);
    if segs.len() >= 5 {
        if segs[1] != URL_TRANSACTIONS_KEY_WORD@ || segs[4].len() == 0 {
            Err(ServerError::UrlParsingError)
        } else {
            match spec_path_id(segs[2]) {
                Err(e) => Err(e),
                Ok(t) => match height {
                    Ok(h) => Ok(RequestView::TransactionalRevertOne(encode_utf8(segs[4]), h, t)),
                    Err(_) => Ok(RequestView::TransactionalInsert(encode_utf8(segs[4]), ContentView::String(body), t)),
                },
            }
        }
    } else if segs.len() >= 3 {
        if segs[2].len() == 0 {
            Err(ServerError::UrlParsingError)
        } else {
            match height {
                Ok(h) => Ok(RequestView::RevertOne(encode_utf8(segs[2]), h)),
                Err(_) => Ok(RequestView::Insert(encode_utf8(segs[2]), ContentView::String(body))),
            }
        }
    } else {
        match height {
            Ok(h) => Ok(RequestView::RevertAll(h)),
            Err(_) => Err(ServerError::UrlParsingError),
        }
    }
}

/// The route of a POST under the transactions segment: a commit or an abort of the id that
/// follows it where the query asks for one, else a new transaction.
pub open spec fn spec_route_post(info: UrlView, segs: Seq<Seq<char>>) -> Result<RequestView, ServerError> {
    let word = if segs.len() >= 2 { segs[1] } else { Seq::empty() };
    let id = if segs.len() >= 3 { segs[2] } else { Seq::empty() };
    if word != URL_TRANSACTIONS_KEY_WORD@ {
        Err(ServerError::UrlParsingError)
    } else if spec_query(info.queries, COMMIT_TRANSACTION_KEY_WORD@) is Some {
        if id.len() == 0 {
            Err(ServerError::UrlParsingError)
        } else {
            match spec_path_id(id) {
                Err(e) => Err(e),
                Ok(t) => Ok(RequestView::TransactionCommit(t)),
            }
        }
    } else if spec_query(info.queries, ABORT_TRANSACTION_KEY_WORD@) is Some {
        if id.len() == 0 {
            Err(ServerError::UrlParsingError)
        } else {
            match spec_path_id(id) {
                Err(e) => Err(e),
                Ok(t) => Ok(RequestView::TransactionAbort(t)),
            }
        }
    } else {
        Ok(RequestView::CreateTransaction)
    }
}

/// The route of a DELETE: a transactional removal, a removal, or the removal of everything.
pub open spec fn spec_route_delete(segs: Seq<Seq<char>>) -> Result<RequestView, ServerError> {
    if segs.len() >= 5 {
        if segs[4].len() == 0 || segs[2].len() == 0 || segs[1] != URL_TRANSACTIONS_KEY_WORD@ {
            Err(ServerError::UrlParsingError)
        } else {
            match spec_path_id(segs[2]) {
                Err(e) => Err(e),
                Ok(t) => Ok(RequestView::TransactionalRemoveOne(encode_utf8(segs[4]), t)),
            }
        }
    } else if segs.len() >= 3 {
        Ok(RequestView::RemoveOne(encode_utf8(segs[2])))
    } else {
        Ok(RequestView::RemoveAll)
    }
}

/// The request that a method, a URL and a body stand for; other methods are refused as a
/// body that cannot be read.
pub open spec fn spec_route(method: HttpMethod, info: UrlView, body: Seq<char>) -> Result<RequestView, ServerError> {
    let segs = spec_split_path(info.main_path);
    match method {
        HttpMethod::Get => spec_route_get(segs),
        HttpMethod::Put => spec_route_put(info, segs, body),
        HttpMethod::Post => spec_route_post(info, segs),
        HttpMethod::Delete => spec_route_delete(segs),
        HttpMethod::Other => Err(ServerError::BodyParsingError),
    }
}

/// A request as plain values, where there is one.
pub open spec fn request_result(r: Result<Instruction, ServerError>) -> Result<RequestView, ServerError> {
    match r {
        Ok(i) => Ok(i@),
        Err(e) => Err(e),
    }
}

/// The path and the query pairs that the URL parser reads from an absolute URL, `None` where
/// it refuses the text.
pub uninterp spec fn url_components(text: Seq<char>) -> Option<(Seq<char>, Seq<(Seq<char>, Seq<char>)>)>;

/// Calls `url::Url::parse` on the text and, where it gives a URL, its `path` and the pairs of
/// `query_pairs`, decoded and owned, in order. The contract names what the parser gives as a
/// function of the text alone; how it parses is not stated.
#[verifier::external_body]
fn parse_url(text: &str) -> (result: Option<(String, Vec<(String, String)>)>)
    ensures
        match result {
            None => url_components(text@) is None,
            Some((path, pairs)) => url_components(text@) == Some((path@, pairs_view(pairs@))),
        },
{
    match url::Url::parse(text) {
        Err(_) => None,
        Ok(url) => Some((url.path().to_string(), url.query_pairs().into_owned().collect())),
    }
}

/// What `parse_path` reads from a path: the parser's reading of it behind the server's
/// address.
pub open spec fn spec_parse_path(path: Seq<char>) -> Result<UrlView, ServerError> {
    match url_components("http://127.0.0.1"@ + path) {
        None => Err(ServerError::UrlParsingError),
        Some((main_path, queries)) => Ok(UrlView { queries, main_path }),
    }
}

/// Reads the path of a request, with its query, as seen behind the server's address.
pub fn parse_path(path: &str) -> (result: Result<UrlInformation, ServerError>)
    ensures
        match result {
            Ok(info) => spec_parse_path(path@) == Ok::<UrlView, ServerError>(info@),
            Err(e) => spec_parse_path(path@) == Err::<UrlView, ServerError>(e),
        },
{
    let mut full = String::from_str("http://127.0.0.1");
    full.append(path);
    match parse_url(full.as_str()) {
        None => Err(ServerError::UrlParsingError),
        Some((main_path, queries)) => Ok(UrlInformation { queries, main_path }),
    }
}

/// Splits a path into its segments; see `spec_split_path`.
pub fn split_path(path: &str) -> (result: Vec<String>)
    ensures
        strings_view(result@) == spec_split_path(path@),
{
    let chars = str_chars(path);
    let mut pieces: Vec<String> = Vec::new();
    let mut current: Vec<char> = Vec::new();
    let mut i: usize = 0;
    while i < chars.len()
        invariant
            i <= chars@.len(),
            chars@ == path@,
            strings_view(pieces@).push(current@) == spec_split_path(chars@.take(i as int)),
        decreases chars@.len() - i,
    {
        let ghost before = chars@.take(i as int);
        let ghost done = strings_view(pieces@);
        let ghost cur = current@;
        proof {
            assert(chars@.take(i + 1).drop_last() =~= before);
            assert(chars@.take(i + 1).last() == chars@[i as int]);
        }
        let c = chars[i];
        if c == '/' {
            let piece = string_from_chars(current.as_slice());
            let ghost old_pieces = pieces@;
            pieces.push(piece);
            current = Vec::new();
            proof {
                assert(strings_view(pieces@) =~= strings_view(old_pieces).push(piece@));
                assert(strings_view(pieces@).push(current@) =~= spec_split_path(before).push(Seq::<char>::empty()));
            }
        } else {
            current.push(c);
            proof {
                assert(done.push(cur.push(c)) =~= done.push(cur).update(done.len() as int, cur.push(c)));
            }
        }
        i = i + 1;
    }
    let last = string_from_chars(current.as_slice());
    pieces.push(last);
    proof {
        assert(chars@.take(chars@.len() as int) =~= chars@);
        assert(strings_view(pieces@) =~= strings_view(pieces@.drop_last()).push(last@));
    }
    pieces
}

impl UrlInformation {
    /// The value of the last query pair with the key; see `spec_query`.
    pub fn extract_string_query(&self, key: &str) -> (result: Option<String>)
        ensures
            match result {
                None => spec_query(self@.queries, key@) is None,
                Some(s) => spec_query(self@.queries, key@) == Some(s@),
            },
    {
        let wanted = key.to_owned();
        let ghost all = pairs_view(self.queries@);
        let mut i: usize = self.queries.len();
        assert(all.take(i as int) =~= all);
        while i > 0
            invariant
                i <= self.queries@.len(),
                all == pairs_view(self.queries@),
                wanted@ == key@,
                spec_query(all, key@) == spec_query(all.take(i as int), key@),
            decreases i,
        {
            let ghost upto = all.take(i as int);
            proof {
                assert(upto.last() == all[i - 1]);
                assert(upto.drop_last() =~= all.take(i - 1));
            }
            if self.queries[i - 1].0 == wanted {
                return Some(self.queries[i - 1].1.clone());
            }
            i = i - 1;
        }
        proof {
            assert(all.take(0) =~= Seq::<(Seq<char>, Seq<char>)>::empty());
        }
        None
    }

    /// The value of the query with the key, read as a `u64`; see `spec_numeric_query`.
    pub fn extract_numeric_query(&self, key: &str) -> (result: Result<u64, ServerError>)
        ensures
            result == spec_numeric_query(self@, key@),
    {
        match self.extract_string_query(key) {
            None => Err(ServerError::UrlParsingError),
            Some(s) => match parse_u64(s.as_str()) {
                None => Err(ServerError::UrlParsingError),
                Some(v) => Ok(v),
            },
        }
    }
}

/// Reads an id of a path; see `spec_path_id`.
fn path_id(s: &String) -> (result: Result<u64, ServerError>)
    ensures
        result == spec_path_id(s@),
{
    match parse_u64(s.as_str()) {
        None => Err(ServerError::ParseIntError(SystemError::ParseIntError)),
        Some(v) => Ok(v),
    }
}

/// The key that a path segment names: its UTF-8 bytes.
fn segment_key(s: &String) -> (result: UnitKey)
    ensures
        result@ == encode_utf8(s@),
{
    UnitKey::new(s.as_str().as_bytes())
}

/// Routes a GET; see `spec_route_get`.
fn route_get(segs: &Vec<String>) -> (result: Result<Instruction, ServerError>)
    ensures
        request_result(result) == spec_route_get(strings_view(segs@)),
{
    let ghost sv = strings_view(segs@);
    let transactions = URL_TRANSACTIONS_KEY_WORD.to_owned();
    let journal = URL_JOURNAL_KEY_WORD.to_owned();
    if segs.len() >= 5 {
        assert(sv[1] == segs@[1]@ && sv[2] == segs@[2]@ && sv[4] == segs@[4]@);
        if segs[1] != transactions || segs[4].as_str().is_empty() {
            return Err(ServerError::UrlParsingError);
        }
        match path_id(&segs[2]) {
            Err(e) => Err(e),
            Ok(t) => Ok(Instruction::Select { key: segment_key(&segs[4]), transaction_id: Some(TransactionId::new(t)) }),
        }
    } else if segs.len() >= 4 {
        assert(sv[2] == segs@[2]@ && sv[3] == segs@[3]@);
        if segs[3] != journal || segs[2].as_str().is_empty() {
            return Err(ServerError::UrlParsingError);
        }
        Ok(Instruction::InspectOne { key: segment_key(&segs[2]) })
    } else if segs.len() >= 3 {
        assert(sv[2] == segs@[2]@);
        Ok(Instruction::Select { key: segment_key(&segs[2]), transaction_id: None })
    } else if segs.len() >= 2 && segs[1] == journal {
        Ok(Instruction::InspectAll)
    } else {
        Err(ServerError::UrlParsingError)
    }
}

/// Routes a PUT; see `spec_route_put`.
fn route_put(info: &UrlInformation, segs: &Vec<String>, body: String) -> (result: Result<Instruction, ServerError>)
    ensures
        request_result(result) == spec_route_put(info@, strings_view(segs@), body@),
{
    let ghost sv = strings_view(segs@);
    let transactions = URL_TRANSACTIONS_KEY_WORD.to_owned();
    let height = info.extract_numeric_query(HEIGHT);
    if segs.len() >= 5 {
        assert(sv[1] == segs@[1]@ && sv[2] == segs@[2]@ && sv[4] == segs@[4]@);
        if segs[1] != transactions || segs[4].as_str().is_empty() {
            return Err(ServerError::UrlParsingError);
        }
        let key = segment_key(&segs[4]);
        match path_id(&segs[2]) {
            Err(e) => Err(e),
            Ok(t) => match height {
                Ok(h) => Ok(
                    Instruction::TransactionalRevertOne {
                        key,
                        height: ChainHeight::new(h),
                        transaction_id: TransactionId::new(t),
                    },
                ),
                Err(_) => Ok(
                    Instruction::TransactionalInsert {
                        key,
                        content: UnitContent::String(body),
                        transaction_id: TransactionId::new(t),
                    },
                ),
            },
        }
    } else if segs.len() >= 3 {
        assert(sv[2] == segs@[2]@);
        if segs[2].as_str().is_empty() {
            return Err(ServerError::UrlParsingError);
        }
        let key = segment_key(&segs[2]);
        match height {
            Ok(h) => Ok(Instruction::RevertOne { key, height: ChainHeight::new(h) }),
            Err(_) => Ok(Instruction::Insert { key, content: UnitContent::String(body) }),
        }
    } else {
        match height {
            Ok(h) => Ok(Instruction::RevertAll { height: ChainHeight::new(h) }),
            Err(_) => Err(ServerError::UrlParsingError),
        }
    }
}

/// Routes a POST; see `spec_route_post`.
fn route_post(info: &UrlInformation, segs: &Vec<String>) -> (result: Result<Instruction, ServerError>)
    ensures
        request_result(result) == spec_route_post(info@, strings_view(segs@)),
{
    let ghost sv = strings_view(segs@);
    let transactions = URL_TRANSACTIONS_KEY_WORD.to_owned();
    let empty = String::new();
    let word: &String = if segs.len() >= 2 {
        assert(sv[1] == segs@[1]@);
        &segs[1]
    } else {
        &empty
    };
    let id: &String = if segs.len() >= 3 {
        assert(sv[2] == segs@[2]@);
        &segs[2]
    } else {
        &empty
    };
    if *word != transactions {
        return Err(ServerError::UrlParsingError);
    }
    if info.extract_string_query(COMMIT_TRANSACTION_KEY_WORD).is_some() {
        if id.as_str().is_empty() {
            return Err(ServerError::UrlParsingError);
        }
        match path_id(id) {
            Err(e) => Err(e),
            Ok(t) => Ok(Instruction::TransactionCommit { transaction_id: TransactionId::new(t) }),
        }
    } else if info.extract_string_query(ABORT_TRANSACTION_KEY_WORD).is_some() {
        if id.as_str().is_empty() {
            return Err(ServerError::UrlParsingError);
        }
        match path_id(id) {
            Err(e) => Err(e),
            Ok(t) => Ok(Instruction::TransactionAbort { transaction_id: TransactionId::new(t) }),
        }
    } else {
        Ok(Instruction::CreateTransaction)
    }
}

/// Routes a DELETE; see `spec_route_delete`.
fn route_delete(segs: &Vec<String>) -> (result: Result<Instruction, ServerError>)
    ensures
        request_result(result) == spec_route_delete(strings_view(segs@)),
{
    let ghost sv = strings_view(segs@);
    let transactions = URL_TRANSACTIONS_KEY_WORD.to_owned();
    if segs.len() >= 5 {
        assert(sv[1] == segs@[1]@ && sv[2] == segs@[2]@ && sv[4] == segs@[4]@);
        if segs[4].as_str().is_empty() || segs[2].as_str().is_empty() || segs[1] != transactions {
            return Err(ServerError::UrlParsingError);
        }
        match path_id(&segs[2]) {
            Err(e) => Err(e),
            Ok(t) => Ok(
                Instruction::TransactionalRemoveOne { key: segment_key(&segs[4]), transaction_id: TransactionId::new(t) },
            ),
        }
    } else if segs.len() >= 3 {
        assert(sv[2] == segs@[2]@);
        Ok(Instruction::RemoveOne { key: segment_key(&segs[2]) })
    } else {
        Ok(Instruction::RemoveAll)
    }
}

/// The request that a method, the path and query of a URL, and a body stand for; see
/// `spec_route`.
pub fn route_request(method: HttpMethod, info: &UrlInformation, body: String) -> (result: Result<Instruction, ServerError>)
    ensures
        request_result(result) == spec_route(method, info@, body@),
{
    let segs = split_path(info.main_path.as_str());
    match method {
        HttpMethod::Get => route_get(&segs),
        HttpMethod::Put => route_put(info, &segs, body),
        HttpMethod::Post => route_post(info, &segs),
        HttpMethod::Delete => route_delete(&segs),
        HttpMethod::Other => Err(ServerError::BodyParsingError),
    }
}

/// The request that an HTTP request stands for: its URL read by `parse_path`, then routed by
/// `route_request`.
pub fn parse_http_request(method: HttpMethod, url: &str, body: String) -> (result: Result<Instruction, ServerError>)
    ensures
        request_result(result) == match spec_parse_path(url@) {
            Err(e) => Err(e),
            Ok(info) => spec_route(method, info, body@),
        },
{
    let info = parse_path(url)?;
    route_request(method, &info, body)
}

/// The grouping that a path names: the segment after the transactions segment and its id on
/// a transactional route, else the first segment; empty where there is none.
pub open spec fn spec_request_grouping(info: UrlView) -> Seq<u8> {
    let segs = spec_split_path(info.main_path);
    if segs.len() >= 5 {
        encode_utf8(segs[3])
    } else if segs.len() >= 2 {
        encode_utf8(segs[1])
    } else {
        Seq::empty()
    }
}

/// The grouping that the executor reads and writes for a request; see
/// `spec_request_grouping`.
pub fn request_grouping(info: &UrlInformation) -> (result: GroupingLabel)
    ensures
        result@ == spec_request_grouping(info@),
{
    let segs = split_path(info.main_path.as_str());
    let ghost sv = strings_view(segs@);
    if segs.len() >= 5 {
        assert(sv[3] == segs@[3]@);
        GroupingLabel::new(segs[3].as_str().as_bytes())
    } else if segs.len() >= 2 {
        assert(sv[1] == segs@[1]@);
        GroupingLabel::new(segs[1].as_str().as_bytes())
    } else {
        GroupingLabel::new(&[])
    }
}

/// An executor's answer as the server gives it: its errors wrapped as server errors.
pub open spec fn served(r: Option<Result<OutcomeView, ExecutorError>>) -> Option<Result<OutcomeView, ServerError>> {
    match r {
        None => None,
        Some(Ok(o)) => Some(Ok(o)),
        Some(Err(e)) => Some(Err(ServerError::ExecutorError(e))),
    }
}

/// A server's answer as plain values.
pub open spec fn answer_view(r: Option<Result<Outcome, ServerError>>) -> Option<Result<OutcomeView, ServerError>> {
    match r {
        None => None,
        Some(Ok(o)) => Some(Ok(o@)),
        Some(Err(e)) => Some(Err(e)),
    }
}

/// What serving an HTTP request does: its URL read and routed, then the request carried out
/// on the grouping that the path names. A request that cannot be read or routed leaves the
/// store as it was and is answered with its error.
pub open spec fn spec_handle_request(v: StoreView, method: HttpMethod, url: Seq<char>, body: Seq<char>) -> (StoreView, Option<Result<OutcomeView, ServerError>>) {
    match spec_parse_path(url) {
        Err(e) => (v, Some(Err(e))),
        Ok(info) => match spec_route(method, info, body) {
            Err(e) => (v, Some(Err(e))),
            Ok(req) => {
                let (s, r) = spec_execute(v, spec_request_grouping(info), req);
                (s, served(r))
            },
        },
    }
}

/// Serves an HTTP request on the executor; see `spec_handle_request`. `None` where a stored
/// byte string overruns or the unit sent is too large to be written.
pub fn handle_request(executor: &mut Executor, method: HttpMethod, url: &str, body: String) -> (result: Option<Result<Outcome, ServerError>>)
    requires
        old(executor).wf(),
    ensures
        final(executor).wf(),
        final(executor)@ == spec_handle_request(old(executor)@, method, url@, body@).0,
        answer_view(result) == spec_handle_request(old(executor)@, method, url@, body@).1,
{
    let info = match parse_path(url) {
        Err(e) => return Some(Err(e)),
        Ok(info) => info,
    };
    let grouping = request_grouping(&info);
    let request = match route_request(method, &info, body) {
        Err(e) => return Some(Err(e)),
        Ok(request) => request,
    };
    match executor.execute(&grouping, request) {
        None => None,
        Some(Ok(outcome)) => Some(Ok(outcome)),
        Some(Err(e)) => Some(Err(ServerError::ExecutorError(e))),
    }
}

} // verus!
