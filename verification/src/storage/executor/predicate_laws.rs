//! The byte form of a predicate reads back as the predicate.

use vstd::prelude::*;
use crate::storage::executor::predicate::{
    relation_byte, relation_of_byte, spec_parse_path, spec_parse_path_and_content,
    spec_parse_predicate, spec_parse_predicates, spec_path_bytes, spec_predicate_bytes,
    spec_predicates_bytes, PredicateView,
};
use crate::storage::executor::unit_content::{
    content_wf, lemma_content_roundtrip, spec_content_bytes,
};
use crate::utils::serialize::{
    lemma_length_prefixed_roundtrip, spec_extract_data_with_varint_width, spec_length_prefixed,
    spec_prepend_varint_width,
};
use crate::utils::text::spec_lenient_text;
use crate::utils::varint::{lemma_varint_encode_len, spec_varint_encode};
use vstd::utf8::encode_utf8;

verus! {

/// Whether the byte form of a predicate can be read back: every width fits in a varint and
/// every unit is well formed.
pub open spec fn predicate_wf(p: PredicateView) -> bool
    decreases p,
{
    match p {
        PredicateView::Primitive(_, path, c) => {
            &&& content_wf(c)
            &&& spec_path_bytes(path).len() <= u64::MAX
            &&& spec_content_bytes(c).len() <= u64::MAX
            &&& forall|i: int| 0 <= i < path.len() ==> encode_utf8(#[trigger] path[i]).len() <= u64::MAX
        },
        PredicateView::Not(q) => predicate_wf(*q) && spec_predicate_bytes(*q).len() <= u64::MAX,
        PredicateView::Or(ps) => forall|i: int|
            0 <= i < ps.len() ==> predicate_wf(#[trigger] ps[i]) && spec_predicate_bytes(ps[i]).len() <= u64::MAX,
        PredicateView::And(ps) => forall|i: int|
            0 <= i < ps.len() ==> predicate_wf(#[trigger] ps[i]) && spec_predicate_bytes(ps[i]).len() <= u64::MAX,
    }
}

/// Whether every part is well formed and its byte form fits a varint width.
pub open spec fn parts_wf(ps: Seq<PredicateView>) -> bool {
    forall|i: int| 0 <= i < ps.len() ==> predicate_wf(#[trigger] ps[i]) && spec_predicate_bytes(ps[i]).len() <= u64::MAX
}

proof fn lemma_parts_wf(p: PredicateView)
    requires
        predicate_wf(p),
    ensures
        p matches PredicateView::Or(ps) ==> parts_wf(ps),
        p matches PredicateView::And(ps) ==> parts_wf(ps),
{
    match p {
        PredicateView::Or(ps) => {
            assert forall|i: int| 0 <= i < ps.len() implies predicate_wf(#[trigger] ps[i]) && spec_predicate_bytes(ps[i]).len() <= u64::MAX by {
                assert(decreases_to!(p => p->Or_0));
                assert(decreases_to!(ps => ps[i]));
            }
        },
        PredicateView::And(ps) => {
            assert forall|i: int| 0 <= i < ps.len() implies predicate_wf(#[trigger] ps[i]) && spec_predicate_bytes(ps[i]).len() <= u64::MAX by {
                assert(decreases_to!(p => p->And_0));
                assert(decreases_to!(ps => ps[i]));
            }
        },
        _ => {},
    }
}

/// The byte form of a path starts with its first field.
proof fn lemma_path_bytes_first(path: Seq<Seq<char>>)
    requires
        path.len() > 0,
    ensures
        spec_path_bytes(path) == spec_prepend_varint_width(encode_utf8(path[0])) + spec_path_bytes(
            path.subrange(1, path.len() as int),
        ),
    decreases path.len(),
{
    if path.len() == 1 {
        assert(path.drop_last() =~= Seq::<Seq<char>>::empty());
        assert(path.subrange(1, 1) =~= Seq::<Seq<char>>::empty());
        assert(spec_path_bytes(path.drop_last()) == Seq::<u8>::empty());
        assert(spec_path_bytes(path.subrange(1, 1)) == Seq::<u8>::empty());
        assert(spec_path_bytes(path) =~= spec_prepend_varint_width(encode_utf8(path[0])) + spec_path_bytes(
            path.subrange(1, path.len() as int),
        ));
    } else {
        let init = path.drop_last();
        lemma_path_bytes_first(init);
        assert(init.subrange(1, init.len() as int) =~= path.subrange(1, path.len() as int).drop_last());
        assert(path.subrange(1, path.len() as int).last() == path.last());
        assert(spec_path_bytes(path) =~= spec_prepend_varint_width(encode_utf8(path[0])) + spec_path_bytes(
            path.subrange(1, path.len() as int),
        ));
    }
}

/// The byte form of a path reads back as the path.
pub proof fn lemma_path_roundtrip(path: Seq<Seq<char>>)
    requires
        forall|i: int| 0 <= i < path.len() ==> encode_utf8(#[trigger] path[i]).len() <= u64::MAX,
    ensures
        spec_parse_path(spec_path_bytes(path)) == Some(Ok::<Seq<Seq<char>>, crate::utils::varint::VarIntError>(path)),
    decreases path.len(),
{
    broadcast use vstd::utf8::encode_utf8_valid_utf8, vstd::utf8::encode_utf8_decode_utf8;

    if path.len() == 0 {
        assert(path =~= Seq::<Seq<char>>::empty());
        assert(spec_path_bytes(path) == Seq::<u8>::empty());
    } else {
        let tail = path.subrange(1, path.len() as int);
        lemma_path_bytes_first(path);
        let field = encode_utf8(path[0]);
        let head = spec_prepend_varint_width(field);
        let data = spec_path_bytes(path);
        assert(data == head + spec_path_bytes(tail));
        lemma_length_prefixed_roundtrip(field, spec_path_bytes(tail));
        lemma_varint_encode_len(field.len() as u64);
        assert(spec_length_prefixed(data) == Some(Ok::<(Seq<u8>, nat), crate::utils::varint::VarIntError>((field, head.len()))));
        assert(data.subrange(head.len() as int, data.len() as int) =~= spec_path_bytes(tail));
        assert forall|i: int| 0 <= i < tail.len() implies encode_utf8(#[trigger] tail[i]).len() <= u64::MAX by {
            assert(tail[i] == path[i + 1]);
        }
        lemma_path_roundtrip(tail);
        assert(spec_lenient_text(field) == path[0]);
        assert(seq![path[0]] + tail =~= path);
    }
}

/// The byte forms of predicates start with that of the first one.
proof fn lemma_predicates_bytes_first(ps: Seq<PredicateView>)
    requires
        ps.len() > 0,
    ensures
        spec_predicates_bytes(ps) == spec_prepend_varint_width(spec_predicate_bytes(ps[0])) + spec_predicates_bytes(
            ps.subrange(1, ps.len() as int),
        ),
    decreases ps.len(),
{
    if ps.len() == 1 {
        assert(ps.drop_last() =~= Seq::<PredicateView>::empty());
        assert(ps.subrange(1, 1) =~= Seq::<PredicateView>::empty());
        assert(spec_predicates_bytes(ps.drop_last()) == Seq::<u8>::empty());
        assert(spec_predicates_bytes(ps.subrange(1, 1)) == Seq::<u8>::empty());
        assert(spec_predicates_bytes(ps) =~= spec_prepend_varint_width(spec_predicate_bytes(ps[0]))
            + spec_predicates_bytes(ps.subrange(1, ps.len() as int)));
    } else {
        let init = ps.drop_last();
        lemma_predicates_bytes_first(init);
        assert(init.subrange(1, init.len() as int) =~= ps.subrange(1, ps.len() as int).drop_last());
        assert(ps.subrange(1, ps.len() as int).last() == ps.last());
        assert(spec_predicates_bytes(ps) =~= spec_prepend_varint_width(spec_predicate_bytes(ps[0]))
            + spec_predicates_bytes(ps.subrange(1, ps.len() as int)));
    }
}

/// The byte form of a well-formed primitive predicate reads back as it, whatever follows.
#[verifier::rlimit(60)]
proof fn lemma_primitive_roundtrip(r: crate::storage::executor::predicate::Relation, path: Seq<Seq<char>>, c: crate::storage::executor::unit_content::ContentView, rest: Seq<u8>)
    requires
        predicate_wf(PredicateView::Primitive(r, path, c)),
    ensures
        ({
            let p = PredicateView::Primitive(r, path, c);
            spec_parse_predicate(spec_predicate_bytes(p) + rest) == Some(
                Ok::<(PredicateView, nat), crate::storage::executor::predicate::PredicateError>(
                    (p, spec_predicate_bytes(p).len()),
                ),
            )
        }),
{
    let p = PredicateView::Primitive(r, path, c);
    let b = spec_predicate_bytes(p);
    let d = b + rest;
    let main = d.subrange(1, d.len() as int);
    assert(d[0] == b[0]);
    let pb = spec_path_bytes(path);
    let cb = spec_content_bytes(c);
    assert(main =~= spec_prepend_varint_width(pb) + (spec_prepend_varint_width(cb) + rest));
    lemma_length_prefixed_roundtrip(pb, spec_prepend_varint_width(cb) + rest);
    lemma_path_roundtrip(path);
    let w1 = spec_prepend_varint_width(pb).len();
    assert(main.subrange(w1 as int, main.len() as int) =~= spec_prepend_varint_width(cb) + rest);
    lemma_length_prefixed_roundtrip(cb, rest);
    lemma_content_roundtrip(c, Seq::empty());
    assert(cb + Seq::<u8>::empty() =~= cb);
    assert(relation_of_byte(relation_byte(r)) == r);
    assert(spec_parse_path_and_content(main) == Some(Ok::<(Seq<Seq<char>>, crate::storage::executor::unit_content::ContentView, nat), crate::storage::executor::predicate::PredicateError>((path, c, w1 + spec_prepend_varint_width(cb).len()))));
}

/// Reading a negation: its byte form reads back as it, whatever follows.
#[verifier::rlimit(60)]
proof fn lemma_not_roundtrip(p: PredicateView, rest: Seq<u8>)
    requires
        p is Not,
        predicate_wf(p),
    ensures
        spec_parse_predicate(spec_predicate_bytes(p) + rest) == Some(
            Ok::<(PredicateView, nat), crate::storage::executor::predicate::PredicateError>(
                (p, spec_predicate_bytes(p).len()),
            ),
        ),
    decreases p, 0nat,
{
    let q = p->Not_0;
    let qb = spec_predicate_bytes(*q);
    let b = spec_predicate_bytes(p);
    let d = b + rest;
    assert(d[0] == b[0]);
    assert(d.subrange(1, d.len() as int) =~= spec_prepend_varint_width(qb) + rest);
    lemma_length_prefixed_roundtrip(qb, rest);
    assert(decreases_to!(p => q));
    lemma_predicate_roundtrip(*q, Seq::empty());
    assert(qb + Seq::<u8>::empty() =~= qb);
}

/// Reading a disjunction or a conjunction: its byte form, to the end of the bytes, reads
/// back as it.
#[verifier::rlimit(60)]
proof fn lemma_list_roundtrip(p: PredicateView)
    requires
        p is Or || p is And,
        predicate_wf(p),
    ensures
        spec_parse_predicate(spec_predicate_bytes(p)) == Some(
            Ok::<(PredicateView, nat), crate::storage::executor::predicate::PredicateError>(
                (p, spec_predicate_bytes(p).len()),
            ),
        ),
    decreases p, 0nat,
{
    let b = spec_predicate_bytes(p);
    lemma_parts_wf(p);
    match p {
        PredicateView::Or(ps) => {
            assert(b.subrange(1, b.len() as int) =~= spec_predicates_bytes(ps));
            lemma_predicates_roundtrip(ps);
        },
        PredicateView::And(ps) => {
            assert(b.subrange(1, b.len() as int) =~= spec_predicates_bytes(ps));
            lemma_predicates_roundtrip(ps);
        },
        _ => {},
    }
}

/// The byte form of a well-formed predicate reads back as the predicate, with the width of
/// its byte form. For a negation or a primitive predicate anything may follow; a disjunction
/// or a conjunction runs to the end of the bytes.
pub proof fn lemma_predicate_roundtrip(p: PredicateView, rest: Seq<u8>)
    requires
        predicate_wf(p),
        (p is Or || p is And) ==> rest.len() == 0,
    ensures
        spec_parse_predicate(spec_predicate_bytes(p) + rest) == Some(
            Ok::<(PredicateView, nat), crate::storage::executor::predicate::PredicateError>(
                (p, spec_predicate_bytes(p).len()),
            ),
        ),
    decreases p, 1nat,
{
    match p {
        PredicateView::Primitive(r, path, c) => {
            lemma_primitive_roundtrip(r, path, c, rest);
        },
        PredicateView::Not(_) => {
            lemma_not_roundtrip(p, rest);
        },
        _ => {
            assert(spec_predicate_bytes(p) + rest =~= spec_predicate_bytes(p));
            lemma_list_roundtrip(p);
        },
    }
}

/// One more predicate in front: if the first reads back alone and the others read back,
/// all of them read back.
#[verifier::rlimit(60)]
#[verifier::spinoff_prover]
proof fn lemma_predicates_cons(ps: Seq<PredicateView>)
    requires
        ps.len() > 0,
        spec_predicate_bytes(ps[0]).len() <= u64::MAX,
        spec_parse_predicate(spec_predicate_bytes(ps[0])) == Some(
            Ok::<(PredicateView, nat), crate::storage::executor::predicate::PredicateError>(
                (ps[0], spec_predicate_bytes(ps[0]).len()),
            ),
        ),
        spec_parse_predicates(spec_predicates_bytes(ps.subrange(1, ps.len() as int))) == Some(
            Ok::<Seq<PredicateView>, crate::storage::executor::predicate::PredicateError>(
                ps.subrange(1, ps.len() as int),
            ),
        ),
    ensures
        spec_parse_predicates(spec_predicates_bytes(ps)) == Some(
            Ok::<Seq<PredicateView>, crate::storage::executor::predicate::PredicateError>(ps),
        ),
{
    let data = spec_predicates_bytes(ps);
    let fb = spec_predicate_bytes(ps[0]);
    let tail = ps.subrange(1, ps.len() as int);
    let tb = spec_predicates_bytes(tail);
    let w = spec_prepend_varint_width(fb).len();
    assert(data == spec_prepend_varint_width(fb) + tb) by {
        lemma_predicates_bytes_first(ps);
    }
    assert(spec_extract_data_with_varint_width(data) == Ok::<(Seq<u8>, nat), crate::utils::varint::VarIntError>((fb, w))) by {
        lemma_length_prefixed_roundtrip(fb, tb);
    }
    assert(0 < w <= data.len() && 0 < fb.len() <= data.len()) by {
        lemma_varint_encode_len(fb.len() as u64);
        lemma_predicate_bytes_nonempty(ps[0]);
    }
    assert(data.subrange(w as int, data.len() as int) =~= tb);
    assert(seq![ps[0]] + tail =~= ps);
}

/// The byte forms of well-formed predicates, one after another, read back as the predicates.
pub proof fn lemma_predicates_roundtrip(ps: Seq<PredicateView>)
    requires
        parts_wf(ps),
    ensures
        spec_parse_predicates(spec_predicates_bytes(ps)) == Some(
            Ok::<Seq<PredicateView>, crate::storage::executor::predicate::PredicateError>(ps),
        ),
    decreases ps, 0nat,
{
    if ps.len() == 0 {
        assert(ps =~= Seq::<PredicateView>::empty());
        assert(spec_predicates_bytes(ps) == Seq::<u8>::empty());
    } else {
        let first = ps[0];
        let fb = spec_predicate_bytes(first);
        let tail = ps.subrange(1, ps.len() as int);
        assert(decreases_to!(ps => ps[0]));
        assert(predicate_wf(first) && fb.len() <= u64::MAX);
        lemma_predicate_roundtrip(first, Seq::empty());
        assert(fb + Seq::<u8>::empty() =~= fb);
        assert(parts_wf(tail)) by {
            assert forall|i: int| 0 <= i < tail.len() implies predicate_wf(#[trigger] tail[i]) && spec_predicate_bytes(tail[i]).len() <= u64::MAX by {
                assert(tail[i] == ps[i + 1]);
            }
        }
        lemma_predicates_roundtrip(tail);
        lemma_predicates_cons(ps);
    }
}

/// The byte form of a predicate is never empty.
proof fn lemma_predicate_bytes_nonempty(p: PredicateView)
    ensures
        spec_predicate_bytes(p).len() >= 1,
{
    match p {
        PredicateView::Primitive(r, path, c) => {},
        PredicateView::Not(q) => {},
        PredicateView::Or(ps) => {},
        PredicateView::And(ps) => {},
    }
}

} // verus!
