//! What routing promises of requests made under a transaction: they name that transaction and
//! the unit's key, and carrying them out changes no committed read.

use vstd::prelude::*;
use vstd::utf8::encode_utf8;
use crate::constants::{HEIGHT, URL_TRANSACTIONS_KEY_WORD};
use crate::server::server::{spec_numeric_query, spec_handle_request, spec_parse_path, spec_path_id, spec_request_grouping, spec_route, spec_split_path, HttpMethod, UrlView};
use crate::storage::executor::executor::spec_execute;
use crate::storage::executor::instruction::RequestView;
use crate::storage::kv_laws::law_transactional_changes_keep_committed;
use crate::storage::kv_model::{spec_get, spec_store_wf, StoreView};
use crate::storage::kvkey::spec_kvkey_bytes;

verus! {

/// Whether a path is `/.transactions/<id>/<grouping>/<key>...`: at least five segments, the
/// second the transactions word.
pub open spec fn under_transaction(info: UrlView) -> bool {
    let segs = spec_split_path(info.main_path);
    segs.len() >= 5 && segs[1] == URL_TRANSACTIONS_KEY_WORD@
}

/// Whether a request is made inside transaction `t` on the unit of key `key`: a select, a
/// write, a revert or a removal that carries that transaction.
pub open spec fn inside_transaction(req: RequestView, key: Seq<u8>, t: u64) -> bool {
    match req {
        RequestView::Select(k, Some(x)) => k == key && x == t,
        RequestView::TransactionalInsert(k, _, x) => k == key && x == t,
        RequestView::TransactionalRevertOne(k, _, x) => k == key && x == t,
        RequestView::TransactionalRemoveOne(k, x) => k == key && x == t,
        _ => false,
    }
}

/// A GET, PUT or DELETE under `/.transactions/<id>/<grouping>/<key>` routes, where it routes at
/// all, to a request inside transaction `<id>` on `<key>`; a DELETE there with a key and a
/// valid id is the transaction's removal of the key.
pub proof fn law_transaction_routes(method: HttpMethod, info: UrlView, body: Seq<char>)
    requires
        method == HttpMethod::Get || method == HttpMethod::Put || method == HttpMethod::Delete,
        under_transaction(info),
    ensures
        ({
            let segs = spec_split_path(info.main_path);
            &&& spec_route(method, info, body) matches Ok(req) ==> (spec_path_id(segs[2]) matches Ok(t) && inside_transaction(
                req,
                encode_utf8(segs[4]),
                t,
            ))
            &&& (method == HttpMethod::Delete && segs[2].len() > 0 && segs[4].len() > 0) ==> (spec_path_id(segs[2]) matches Ok(t)
                ==> spec_route(method, info, body) == Ok::<RequestView, crate::server::errors::ServerError>(
                RequestView::TransactionalRemoveOne(encode_utf8(segs[4]), t),
            ))
        }),
{
}

/// Carrying out a request inside a transaction changes no committed read, of any key.
pub proof fn law_transactional_request_keeps_committed(v: StoreView, g: Seq<u8>, req: RequestView, key: Seq<u8>, t: u64, other: Seq<u8>)
    requires
        spec_store_wf(v),
        inside_transaction(req, key, t),
    ensures
        spec_get(spec_execute(v, g, req).0, other, None) == spec_get(v, other, None),
{
    match req {
        RequestView::TransactionalInsert(k, c, x) => {
            law_transactional_changes_keep_committed(
                v,
                spec_kvkey_bytes(g, k),
                crate::storage::executor::unit_content::spec_content_bytes(c),
                0,
                x,
                other,
            );
        },
        RequestView::TransactionalRevertOne(k, h, x) => {
            law_transactional_changes_keep_committed(v, spec_kvkey_bytes(g, k), Seq::empty(), h, x, other);
        },
        RequestView::TransactionalRemoveOne(k, x) => {
            law_transactional_changes_keep_committed(v, spec_kvkey_bytes(g, k), Seq::empty(), 0, x, other);
        },
        _ => {},
    }
}

/// Serving a GET, PUT or DELETE under `/.transactions/<id>/...` changes no committed read, of
/// any key, until the transaction commits.
pub proof fn law_transaction_requests_keep_committed(v: StoreView, method: HttpMethod, url: Seq<char>, body: Seq<char>, other: Seq<u8>)
    requires
        spec_store_wf(v),
        method == HttpMethod::Get || method == HttpMethod::Put || method == HttpMethod::Delete,
        spec_parse_path(url) matches Ok(info) && under_transaction(info),
    ensures
        spec_get(spec_handle_request(v, method, url, body).0, other, None) == spec_get(v, other, None),
{
    let info = spec_parse_path(url)->Ok_0;
    law_transaction_routes(method, info, body);
    if let Ok(req) = spec_route(method, info, body) {
        let segs = spec_split_path(info.main_path);
        let t = spec_path_id(segs[2])->Ok_0;
        law_transactional_request_keeps_committed(v, spec_request_grouping(info), req, encode_utf8(segs[4]), t, other);
    }
}

/// Whether a path is `/<grouping>/<key>`, with a key, and its query names no height.
pub open spec fn plain_unit_path(info: UrlView) -> bool {
    let segs = spec_split_path(info.main_path);
    segs.len() == 3 && segs[2].len() > 0 && spec_numeric_query(info, HEIGHT@) is Err
}

/// A PUT of a body to `/<grouping>/<key>` that succeeds is what a GET of the same URL reads
/// next: the body, as text, alone.
pub proof fn law_put_then_get_reads_back(v: StoreView, url: Seq<char>, body: Seq<char>)
    requires
        spec_store_wf(v),
        spec_parse_path(url) matches Ok(info) && plain_unit_path(info),
        spec_handle_request(v, HttpMethod::Put, url, body).1 == Some(
            Ok::<crate::storage::executor::outcome::OutcomeView, crate::server::errors::ServerError>(
                crate::storage::executor::outcome::OutcomeView::InsertSuccess,
            ),
        ),
    ensures
        spec_handle_request(spec_handle_request(v, HttpMethod::Put, url, body).0, HttpMethod::Get, url, Seq::empty()).1
            == Some(
            Ok::<crate::storage::executor::outcome::OutcomeView, crate::server::errors::ServerError>(
                crate::storage::executor::outcome::OutcomeView::Select(seq![crate::storage::executor::unit_content::ContentView::String(body)]),
            ),
        ),
{
    broadcast use vstd::utf8::encode_utf8_valid_utf8, vstd::utf8::encode_utf8_decode_utf8;

    let info = spec_parse_path(url)->Ok_0;
    let segs = spec_split_path(info.main_path);
    let k = encode_utf8(segs[2]);
    let g = spec_request_grouping(info);
    let c = crate::storage::executor::unit_content::ContentView::String(body);
    let bytes = crate::storage::executor::unit_content::spec_content_bytes(c);
    let kk = spec_kvkey_bytes(g, k);
    assert(spec_route(HttpMethod::Put, info, body) == Ok::<RequestView, crate::server::errors::ServerError>(RequestView::Insert(k, c)));
    assert(crate::storage::executor::executor::content_fits(c));
    let w = crate::storage::kv_model::spec_set(v, kk, bytes, None).0;
    assert(crate::storage::kv_model::spec_set(v, kk, bytes, None).1 is Ok);
    crate::storage::kv_laws::law_set_then_get(v, kk, bytes);
    assert(spec_handle_request(v, HttpMethod::Put, url, body).0 == w);
    assert(spec_route(HttpMethod::Get, info, Seq::empty()) == Ok::<RequestView, crate::server::errors::ServerError>(RequestView::Select(k, None)));
    assert(crate::storage::executor::unit_content::content_wf(c)) by {
        crate::utils::varint::lemma_varint_encode_len(encode_utf8(body).len() as u64);
    }
    crate::storage::executor::unit_content::lemma_content_roundtrip(c, Seq::empty());
    assert(bytes + Seq::<u8>::empty() =~= bytes);
    reveal(crate::storage::executor::command::content_part);
}

/// A DELETE of `/<grouping>/<key>` that succeeds leaves nothing for a GET of the same URL to
/// read.
pub proof fn law_delete_then_get_reads_nothing(v: StoreView, url: Seq<char>, body: Seq<char>)
    requires
        spec_store_wf(v),
        spec_parse_path(url) matches Ok(info) && spec_split_path(info.main_path).len() == 3 && spec_split_path(
            info.main_path,
        )[2].len() > 0,
        spec_handle_request(v, HttpMethod::Delete, url, body).1 == Some(
            Ok::<crate::storage::executor::outcome::OutcomeView, crate::server::errors::ServerError>(
                crate::storage::executor::outcome::OutcomeView::RemoveOneSuccess,
            ),
        ),
    ensures
        spec_handle_request(spec_handle_request(v, HttpMethod::Delete, url, body).0, HttpMethod::Get, url, Seq::empty()).1
            == Some(
            Ok::<crate::storage::executor::outcome::OutcomeView, crate::server::errors::ServerError>(
                crate::storage::executor::outcome::OutcomeView::Select(Seq::empty()),
            ),
        ),
{
    let info = spec_parse_path(url)->Ok_0;
    let segs = spec_split_path(info.main_path);
    let k = encode_utf8(segs[2]);
    let g = spec_request_grouping(info);
    let kk = spec_kvkey_bytes(g, k);
    assert(spec_route(HttpMethod::Delete, info, body) == Ok::<RequestView, crate::server::errors::ServerError>(RequestView::RemoveOne(k)));
    assert(crate::storage::kv_model::spec_remove_one(v, kk, None).1 is Ok);
    crate::storage::kv_laws::law_remove_then_get(v, kk);
    assert(spec_route(HttpMethod::Get, info, Seq::empty()) == Ok::<RequestView, crate::server::errors::ServerError>(RequestView::Select(k, None)));
}

} // verus!
