//! The canonical writer: definite lengths and shortest heads.

use crate::cbor::head::{head_bytes, push_head};
use crate::cbor::item::{
    item_views, lemma_element_smaller, lemma_entry_smaller, lemma_view_of_lists, pair_views, Cbor,
    CborV,
};
use vstd::prelude::*;

verus! {

/// The canonical bytes of a data item.
pub open spec fn encode(t: CborV) -> Seq<u8>
    decreases t,
{
    match t {
        CborV::Uint(n) => head_bytes(0, n),
        CborV::Nint(n) => head_bytes(1, n),
        CborV::Bytes(b) => head_bytes(2, b.len() as u64) + b,
        CborV::Text(b) => head_bytes(3, b.len() as u64) + b,
        CborV::Array(ts) => head_bytes(4, ts.len() as u64) + encode_items(ts),
        CborV::Pairs(ps) => head_bytes(5, ps.len() as u64) + encode_pairs(ps),
        CborV::Tag(tag, inner) => head_bytes(6, tag) + encode(*inner),
        CborV::Simple(v) => seq![(0xe0 + v % 32) as u8],
    }
}

/// The canonical bytes of a run of items, one after the other.
pub open spec fn encode_items(ts: Seq<CborV>) -> Seq<u8>
    decreases ts,
{
    if ts.len() == 0 {
        Seq::empty()
    } else {
        encode(ts[0]) + encode_items(ts.drop_first())
    }
}

/// The canonical bytes of a run of entries: key, value, key, value.
pub open spec fn encode_pairs(ps: Seq<(CborV, CborV)>) -> Seq<u8>
    decreases ps,
{
    if ps.len() == 0 {
        Seq::empty()
    } else {
        encode(ps[0].0) + encode(ps[0].1) + encode_pairs(ps.drop_first())
    }
}

/// Writing a run of items up to `i`, then the rest, writes the whole run.
pub proof fn lemma_encode_items_step(ts: Seq<CborV>, i: int)
    requires
        0 <= i < ts.len(),
    ensures
        encode_items(ts.skip(i)) == encode(ts[i]) + encode_items(ts.skip(i + 1)),
{
    assert(ts.skip(i).drop_first() =~= ts.skip(i + 1));
}

/// Writing a run of entries up to `i`, then the rest, writes the whole run.
pub proof fn lemma_encode_pairs_step(ps: Seq<(CborV, CborV)>, i: int)
    requires
        0 <= i < ps.len(),
    ensures
        encode_pairs(ps.skip(i)) == encode(ps[i].0) + encode(ps[i].1) + encode_pairs(
            ps.skip(i + 1),
        ),
{
    assert(ps.skip(i).drop_first() =~= ps.skip(i + 1));
}

/// Appends the canonical bytes of an item.
pub fn encode_into(item: &Cbor, out: &mut Vec<u8>)
    ensures
        final(out)@ == old(out)@ + encode(item@),
    decreases item,
{
    let ghost start = out@;
    match item {
        Cbor::Uint(n) => {
            push_head(out, 0, *n);
        },
        Cbor::Nint(n) => {
            push_head(out, 1, *n);
        },
        Cbor::Bytes(b) => {
            push_head(out, 2, b.len() as u64);
            out.extend_from_slice(b.as_slice());
            assert(out@ =~= start + encode(item@));
        },
        Cbor::Text(b) => {
            push_head(out, 3, b.len() as u64);
            out.extend_from_slice(b.as_slice());
            assert(out@ =~= start + encode(item@));
        },
        Cbor::Array(v) => {
            push_head(out, 4, v.len() as u64);
            let ghost ts = item_views(v@);
            let ghost after_head = out@;
            let mut i: usize = 0;
            assert(ts.skip(0) =~= ts);
            while i < v.len()
                invariant
                    *item == Cbor::Array(*v),
                    ts == item_views(v@),
                    i <= v.len(),
                    out@ + encode_items(ts.skip(i as int)) == after_head + encode_items(ts),
                decreases v.len() - i,
            {
                proof {
                    lemma_element_smaller(*item, i as int);
                    lemma_encode_items_step(ts, i as int);
                }
                let ghost before = out@;
                encode_into(&v[i], out);
                assert((before + encode(ts[i as int])) + encode_items(ts.skip(i + 1)) =~= before
                    + (encode(ts[i as int]) + encode_items(ts.skip(i + 1))));
                i += 1;
            }
            proof {
                lemma_view_of_lists(*item);
                assert(out@ =~= after_head + encode_items(ts));
                assert(out@ =~= start + encode(item@));
            }
        },
        Cbor::Pairs(v) => {
            push_head(out, 5, v.len() as u64);
            let ghost ps = pair_views(v@);
            let ghost after_head = out@;
            let mut i: usize = 0;
            assert(ps.skip(0) =~= ps);
            while i < v.len()
                invariant
                    *item == Cbor::Pairs(*v),
                    ps == pair_views(v@),
                    i <= v.len(),
                    out@ + encode_pairs(ps.skip(i as int)) == after_head + encode_pairs(ps),
                decreases v.len() - i,
            {
                proof {
                    lemma_entry_smaller(*item, i as int);
                    lemma_encode_pairs_step(ps, i as int);
                }
                let ghost before = out@;
                encode_into(&v[i].0, out);
                encode_into(&v[i].1, out);
                assert(((before + encode(ps[i as int].0)) + encode(ps[i as int].1)) + encode_pairs(
                    ps.skip(i + 1),
                ) =~= before + (encode(ps[i as int].0) + encode(ps[i as int].1) + encode_pairs(
                    ps.skip(i + 1),
                )));
                i += 1;
            }
            proof {
                lemma_view_of_lists(*item);
                assert(out@ =~= after_head + encode_pairs(ps));
                assert(out@ =~= start + encode(item@));
            }
        },
        Cbor::Tag(tag, inner) => {
            push_head(out, 6, *tag);
            encode_into(&**inner, out);
            proof {
                lemma_view_of_lists(*item);
                assert(out@ =~= start + encode(item@));
            }
        },
        Cbor::Simple(v) => {
            out.push(0xe0 + *v % 32);
            assert(out@ =~= start + encode(item@));
        },
    }
}

/// The canonical bytes of an item.
pub fn to_bytes(item: &Cbor) -> (r: Vec<u8>)
    ensures
        r@ == encode(item@),
{
    let mut out: Vec<u8> = Vec::new();
    encode_into(item, &mut out);
    assert(out@ =~= encode(item@));
    out
}

} // verus!
