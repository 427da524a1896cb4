//! What holds between the writer and the reader.

use crate::cbor::decode::{
    chunk_ok, chunks_at, is_break, item_at, items_at, items_to_break, pairs_at, pairs_to_break,
    whole_item,
};
use crate::cbor::encode::{encode, encode_items, encode_pairs};
use crate::cbor::head::{
    head_at, head_bytes, lemma_be_moved, lemma_head_moved, lemma_head_of_bytes, lemma_part_moved,
    short_info, Head,
};
use crate::cbor::item::CborV;
use vstd::prelude::*;
use vstd::utf8::valid_utf8;

verus! {

/// A tree that the canonical writer can write and the reader gives back:
/// lengths fit the head's argument, text is valid UTF-8 and simple values
/// are below 24.
pub open spec fn wf(t: CborV) -> bool
    decreases t,
{
    match t {
        CborV::Uint(_) => true,
        CborV::Nint(_) => true,
        CborV::Bytes(b) => b.len() <= u64::MAX,
        CborV::Text(b) => b.len() <= u64::MAX && valid_utf8(b),
        CborV::Array(ts) => ts.len() <= u64::MAX && forall|i: int|
            0 <= i < ts.len() ==> wf(#[trigger] ts[i]),
        CborV::Pairs(ps) => ps.len() <= u64::MAX && forall|i: int|
            0 <= i < ps.len() ==> wf((#[trigger] ps[i]).0) && wf(ps[i].1),
        CborV::Tag(_, inner) => wf(*inner),
        CborV::Simple(v) => v < 24,
    }
}

/// Arrays of up to ten well-formed items are well formed.
pub proof fn lemma_wf_short(ts: Seq<CborV>)
    requires
        ts.len() <= 10,
        ts.len() > 0 ==> wf(ts[0]),
        ts.len() > 1 ==> wf(ts[1]),
        ts.len() > 2 ==> wf(ts[2]),
        ts.len() > 3 ==> wf(ts[3]),
        ts.len() > 4 ==> wf(ts[4]),
        ts.len() > 5 ==> wf(ts[5]),
        ts.len() > 6 ==> wf(ts[6]),
        ts.len() > 7 ==> wf(ts[7]),
        ts.len() > 8 ==> wf(ts[8]),
        ts.len() > 9 ==> wf(ts[9]),
    ensures
        wf(CborV::Array(ts)),
{
}

/// A stretch that holds `a + b` holds `a` and then `b`.
pub proof fn lemma_split(s: Seq<u8>, pos: int, a: Seq<u8>, b: Seq<u8>)
    requires
        0 <= pos,
        pos + (a + b).len() <= s.len(),
        s.subrange(pos, pos + (a + b).len()) == a + b,
    ensures
        s.subrange(pos, pos + a.len()) == a,
        s.subrange(pos + a.len(), pos + a.len() + b.len()) == b,
{
    let c = a + b;
    assert(c.subrange(0, c.len() as int) =~= c);
    lemma_part_moved(s, pos, c, 0, c.len() as int, 0, a.len() as int);
    lemma_part_moved(s, pos, c, 0, c.len() as int, a.len() as int, c.len() as int);
    assert(c.subrange(0, a.len() as int) =~= a);
    assert(c.subrange(a.len() as int, c.len() as int) =~= b);
}

/// An item that was read ends after its start and within the bytes.
pub proof fn lemma_item_bounds(s: Seq<u8>, pos: int)
    ensures
        item_at(s, pos) matches Some((_, e)) ==> pos < e <= s.len(),
    decreases s.len() - pos, 0int,
{
    match head_at(s, pos) {
        None => {},
        Some(h) => {
            if h.major == 2 || h.major == 3 {
                if h.info == 31 {
                    lemma_chunks_bounds(s, h.end, h.major);
                }
            } else if h.major == 4 {
                if h.info == 31 {
                    lemma_items_to_break_bounds(s, h.end);
                } else {
                    lemma_items_bounds(s, h.end, h.arg as nat);
                }
            } else if h.major == 5 {
                if h.info == 31 {
                    lemma_pairs_to_break_bounds(s, h.end);
                } else {
                    lemma_pairs_bounds(s, h.end, h.arg as nat);
                }
            } else if h.major == 6 {
                if h.info != 31 {
                    lemma_item_bounds(s, h.end);
                }
            }
        },
    }
}

/// The chunks of a string end after their start and within the bytes.
pub proof fn lemma_chunks_bounds(s: Seq<u8>, pos: int, major: u8)
    ensures
        chunks_at(s, pos, major) matches Some((_, e)) ==> pos < e <= s.len(),
    decreases s.len() - pos,
{
    if !is_break(s, pos) {
        match head_at(s, pos) {
            Some(h) => {
                if h.major == major && h.info != 31 && h.end + h.arg <= s.len() {
                    lemma_chunks_bounds(s, h.end + h.arg, major);
                }
            },
            None => {},
        }
    }
}

/// A run of `n` items ends within the bytes and holds `n` items.
pub proof fn lemma_items_bounds(s: Seq<u8>, pos: int, n: nat)
    requires
        0 <= pos <= s.len(),
    ensures
        items_at(s, pos, n) matches Some((v, e)) ==> pos <= e <= s.len() && v.len() == n,
    decreases s.len() - pos, 1int,
{
    if n != 0 {
        match item_at(s, pos) {
            Some((v, e)) => {
                if pos < e <= s.len() {
                    lemma_items_bounds(s, e, (n - 1) as nat);
                }
            },
            None => {},
        }
    }
}

/// The items up to a break end after their start and within the bytes.
pub proof fn lemma_items_to_break_bounds(s: Seq<u8>, pos: int)
    ensures
        items_to_break(s, pos) matches Some((_, e)) ==> pos < e <= s.len(),
    decreases s.len() - pos, 1int,
{
    if !is_break(s, pos) {
        match item_at(s, pos) {
            Some((v, e)) => {
                if pos < e <= s.len() {
                    lemma_items_to_break_bounds(s, e);
                }
            },
            None => {},
        }
    }
}

/// A run of `n` entries ends within the bytes and holds `n` entries.
pub proof fn lemma_pairs_bounds(s: Seq<u8>, pos: int, n: nat)
    requires
        0 <= pos <= s.len(),
    ensures
        pairs_at(s, pos, n) matches Some((v, e)) ==> pos <= e <= s.len() && v.len() == n,
    decreases s.len() - pos, 1int,
{
    if n != 0 {
        match item_at(s, pos) {
            Some((k, e1)) => {
                if pos < e1 <= s.len() {
                    match item_at(s, e1) {
                        Some((v, e2)) => {
                            if e1 < e2 <= s.len() {
                                lemma_pairs_bounds(s, e2, (n - 1) as nat);
                            }
                        },
                        None => {},
                    }
                }
            },
            None => {},
        }
    }
}

/// The entries up to a break end after their start and within the bytes.
pub proof fn lemma_pairs_to_break_bounds(s: Seq<u8>, pos: int)
    ensures
        pairs_to_break(s, pos) matches Some((_, e)) ==> pos < e <= s.len(),
    decreases s.len() - pos, 1int,
{
    if !is_break(s, pos) {
        match item_at(s, pos) {
            Some((k, e1)) => {
                if pos < e1 <= s.len() {
                    match item_at(s, e1) {
                        Some((v, e2)) => {
                            if e1 < e2 <= s.len() {
                                lemma_pairs_to_break_bounds(s, e2);
                            }
                        },
                        None => {},
                    }
                }
            },
            None => {},
        }
    }
}

/// Where a shortest head is followed by `rest`, the reader finds that head
/// and `rest` after it.
pub proof fn lemma_written_head(major: u8, arg: u64, rest: Seq<u8>, s: Seq<u8>, pos: int)
    requires
        major < 8,
        0 <= pos,
        pos + (head_bytes(major, arg) + rest).len() <= s.len(),
        s.subrange(pos, pos + (head_bytes(major, arg) + rest).len()) == head_bytes(major, arg)
            + rest,
    ensures
        head_at(s, pos) == Some(
            Head {
                major,
                info: short_info(arg),
                arg,
                end: pos + head_bytes(major, arg).len(),
            },
        ),
        short_info(arg) < 28,
        head_bytes(major, arg).len() >= 1,
        pos + head_bytes(major, arg).len() + rest.len() <= s.len(),
        s.subrange(
            pos + head_bytes(major, arg).len(),
            pos + head_bytes(major, arg).len() + rest.len(),
        ) == rest,
{
    lemma_split(s, pos, head_bytes(major, arg), rest);
    lemma_head_of_bytes(major, arg, s, pos);
}

/// The round trip for items that hold no other item.
proof fn lemma_read_written_leaf(t: CborV, s: Seq<u8>, pos: int)
    requires
        wf(t),
        t is Uint || t is Nint || t is Bytes || t is Text || t is Simple,
        0 <= pos,
        pos + encode(t).len() <= s.len(),
        s.subrange(pos, pos + encode(t).len()) == encode(t),
    ensures
        item_at(s, pos) == Some((t, pos + encode(t).len())),
{
    match t {
        CborV::Uint(n) => {
            assert(encode(t) =~= head_bytes(0, n) + Seq::<u8>::empty());
            lemma_written_head(0, n, Seq::empty(), s, pos);
        },
        CborV::Nint(n) => {
            assert(encode(t) =~= head_bytes(1, n) + Seq::<u8>::empty());
            lemma_written_head(1, n, Seq::empty(), s, pos);
        },
        CborV::Bytes(b) => {
            lemma_written_head(2, b.len() as u64, b, s, pos);
        },
        CborV::Text(b) => {
            lemma_written_head(3, b.len() as u64, b, s, pos);
        },
        CborV::Simple(v) => {
            assert(s.subrange(pos, pos + 1)[0] == s[pos]);
            assert(s[pos] == (0xe0 + v) as u8);
        },
        _ => {},
    }
}

/// What the reader makes of a definite head once its content is known.
pub proof fn lemma_read_container(s: Seq<u8>, pos: int, h: Head, t: CborV, e: int)
    requires
        head_at(s, pos) == Some(h),
        h.info != 31,
        match t {
            CborV::Array(ts) => h.major == 4 && h.arg == ts.len() && items_at(s, h.end, ts.len())
                == Some((ts, e)),
            CborV::Pairs(ps) => h.major == 5 && h.arg == ps.len() && pairs_at(s, h.end, ps.len())
                == Some((ps, e)),
            CborV::Tag(tag, inner) => h.major == 6 && h.arg == tag && item_at(s, h.end) == Some(
                (*inner, e),
            ),
            _ => false,
        },
    ensures
        item_at(s, pos) == Some((t, e)),
{
}

/// Wherever the canonical bytes of a well-formed tree stand, the reader
/// reads that tree there and stops at their end.
pub proof fn lemma_read_written(t: CborV, s: Seq<u8>, pos: int)
    requires
        wf(t),
        0 <= pos,
        pos + encode(t).len() <= s.len(),
        s.subrange(pos, pos + encode(t).len()) == encode(t),
    ensures
        item_at(s, pos) == Some((t, pos + encode(t).len())),
    decreases t,
{
    match t {
        CborV::Array(ts) => {
            let hb = head_bytes(4, ts.len() as u64);
            lemma_written_head(4, ts.len() as u64, encode_items(ts), s, pos);
            lemma_read_written_items(ts, s, pos + hb.len());
            lemma_read_container(
                s,
                pos,
                head_at(s, pos)->0,
                t,
                pos + hb.len() + encode_items(ts).len(),
            );
        },
        CborV::Pairs(ps) => {
            let hb = head_bytes(5, ps.len() as u64);
            lemma_written_head(5, ps.len() as u64, encode_pairs(ps), s, pos);
            lemma_read_written_pairs(ps, s, pos + hb.len());
            lemma_read_container(
                s,
                pos,
                head_at(s, pos)->0,
                t,
                pos + hb.len() + encode_pairs(ps).len(),
            );
        },
        CborV::Tag(tag, inner) => {
            let hb = head_bytes(6, tag);
            lemma_written_head(6, tag, encode(*inner), s, pos);
            lemma_read_written(*inner, s, pos + hb.len());
            lemma_read_container(
                s,
                pos,
                head_at(s, pos)->0,
                t,
                pos + hb.len() + encode(*inner).len(),
            );
        },
        _ => {
            lemma_read_written_leaf(t, s, pos);
        },
    }
}

/// Wherever the canonical bytes of a run of well-formed items stand, the
/// reader reads that run there.
pub proof fn lemma_read_written_items(ts: Seq<CborV>, s: Seq<u8>, pos: int)
    requires
        forall|i: int| 0 <= i < ts.len() ==> wf(#[trigger] ts[i]),
        0 <= pos,
        pos + encode_items(ts).len() <= s.len(),
        s.subrange(pos, pos + encode_items(ts).len()) == encode_items(ts),
    ensures
        items_at(s, pos, ts.len()) == Some((ts, pos + encode_items(ts).len())),
    decreases ts,
{
    if ts.len() == 0 {
        assert(ts =~= Seq::empty());
    } else {
        let first = encode(ts[0]);
        let rest = ts.drop_first();
        lemma_split(s, pos, first, encode_items(rest));
        lemma_read_written(ts[0], s, pos);
        lemma_item_bounds(s, pos);
        assert forall|i: int| 0 <= i < rest.len() implies wf(#[trigger] rest[i]) by {
            assert(rest[i] == ts[i + 1]);
        }
        lemma_read_written_items(rest, s, pos + first.len());
        assert(seq![ts[0]] + rest =~= ts);
    }
}

/// Wherever the canonical bytes of a run of well-formed entries stand, the
/// reader reads that run there.
pub proof fn lemma_read_written_pairs(ps: Seq<(CborV, CborV)>, s: Seq<u8>, pos: int)
    requires
        forall|i: int| 0 <= i < ps.len() ==> wf((#[trigger] ps[i]).0) && wf(ps[i].1),
        0 <= pos,
        pos + encode_pairs(ps).len() <= s.len(),
        s.subrange(pos, pos + encode_pairs(ps).len()) == encode_pairs(ps),
    ensures
        pairs_at(s, pos, ps.len()) == Some((ps, pos + encode_pairs(ps).len())),
    decreases ps,
{
    if ps.len() == 0 {
        assert(ps =~= Seq::empty());
    } else {
        let key = encode(ps[0].0);
        let value = encode(ps[0].1);
        let rest = ps.drop_first();
        lemma_split(s, pos, key + value, encode_pairs(rest));
        lemma_split(s, pos, key, value);
        lemma_read_written(ps[0].0, s, pos);
        lemma_item_bounds(s, pos);
        lemma_read_written(ps[0].1, s, pos + key.len());
        lemma_item_bounds(s, pos + key.len());
        assert forall|i: int| 0 <= i < rest.len() implies wf((#[trigger] rest[i]).0) && wf(
            rest[i].1,
        ) by {
            assert(rest[i] == ps[i + 1]);
        }
        lemma_read_written_pairs(rest, s, pos + key.len() + value.len());
        assert(seq![ps[0]] + rest =~= ps);
    }
}

/// Reading the canonical bytes of a well-formed tree gives the tree back.
pub proof fn lemma_round_trip(t: CborV)
    requires
        wf(t),
    ensures
        whole_item(encode(t)) == Some(t),
{
    let s = encode(t);
    assert(s.subrange(0, s.len() as int) =~= s);
    lemma_read_written(t, s, 0);
}

/// Where the head of a read item ends, and that the same head stands at the
/// other place.
proof fn lemma_item_head_moved(s: Seq<u8>, pos: int, v: CborV, e: int, t: Seq<u8>, q: int)
    requires
        item_at(s, pos) == Some((v, e)),
        0 <= q,
        q + (e - pos) <= t.len(),
        s.subrange(pos, e) == t.subrange(q, q + (e - pos)),
    ensures
        head_at(s, pos) is Some,
        pos < head_at(s, pos)->0.end <= e <= s.len(),
        head_at(t, q) == Some(
            Head { end: head_at(s, pos)->0.end + (q - pos), ..head_at(s, pos)->0 },
        ),
        s.subrange(head_at(s, pos)->0.end, e) == t.subrange(
            head_at(s, pos)->0.end + (q - pos),
            e + (q - pos),
        ),
{
    lemma_item_bounds(s, pos);
    let h = head_at(s, pos)->0;
    assert(h.end <= e) by {
        if h.major == 2 || h.major == 3 {
            if h.info == 31 {
                lemma_chunks_bounds(s, h.end, h.major);
            }
        } else if h.major == 4 {
            if h.info == 31 {
                lemma_items_to_break_bounds(s, h.end);
            } else {
                lemma_items_bounds(s, h.end, h.arg as nat);
            }
        } else if h.major == 5 {
            if h.info == 31 {
                lemma_pairs_to_break_bounds(s, h.end);
            } else {
                lemma_pairs_bounds(s, h.end, h.arg as nat);
            }
        } else if h.major == 6 {
            lemma_item_bounds(s, h.end);
        }
    }
    lemma_part_moved(s, pos, t, q, e - pos, 0, h.end - pos);
    lemma_head_moved(s, pos, t, q);
    lemma_part_moved(s, pos, t, q, e - pos, h.end - pos, e - pos);
}

/// What the reader reads depends only on the bytes that the item covers:
/// the same stretch at another place, in other surroundings, reads alike.
#[verifier::rlimit(50)]
pub proof fn lemma_item_moved(s: Seq<u8>, pos: int, v: CborV, e: int, t: Seq<u8>, q: int)
    requires
        item_at(s, pos) == Some((v, e)),
        0 <= q,
        q + (e - pos) <= t.len(),
        s.subrange(pos, e) == t.subrange(q, q + (e - pos)),
    ensures
        item_at(t, q) == Some((v, q + (e - pos))),
    decreases s.len() - pos, 0int,
{
    lemma_item_head_moved(s, pos, v, e, t, q);
    let h = head_at(s, pos)->0;
    let d = q - pos;
    if h.major == 2 || h.major == 3 {
        if h.info == 31 {
            let b = (chunks_at(s, h.end, h.major)->0).0;
            lemma_chunks_moved(s, h.end, h.major, b, e, t, h.end + d);
        }
    } else if h.major == 4 {
        if h.info == 31 {
            let r = (items_to_break(s, h.end)->0).0;
            lemma_items_to_break_moved(s, h.end, r, e, t, h.end + d);
        } else {
            let r = (items_at(s, h.end, h.arg as nat)->0).0;
            lemma_items_moved(s, h.end, h.arg as nat, r, e, t, h.end + d);
        }
    } else if h.major == 5 {
        if h.info == 31 {
            let r = (pairs_to_break(s, h.end)->0).0;
            lemma_pairs_to_break_moved(s, h.end, r, e, t, h.end + d);
        } else {
            let r = (pairs_at(s, h.end, h.arg as nat)->0).0;
            lemma_pairs_moved(s, h.end, h.arg as nat, r, e, t, h.end + d);
        }
    } else if h.major == 6 {
        let inner = (item_at(s, h.end)->0).0;
        lemma_item_moved(s, h.end, inner, e, t, h.end + d);
    }
}

/// The chunks of a string read alike at another place.
pub proof fn lemma_chunks_moved(
    s: Seq<u8>,
    pos: int,
    major: u8,
    b: Seq<u8>,
    e: int,
    t: Seq<u8>,
    q: int,
)
    requires
        chunks_at(s, pos, major) == Some((b, e)),
        0 <= q,
        q + (e - pos) <= t.len(),
        s.subrange(pos, e) == t.subrange(q, q + (e - pos)),
    ensures
        chunks_at(t, q, major) == Some((b, q + (e - pos))),
    decreases s.len() - pos,
{
    lemma_chunks_bounds(s, pos, major);
    let n = e - pos;
    lemma_part_moved(s, pos, t, q, n, 0, 1);
    lemma_be_moved(s, pos, t, q, 1);
    if !is_break(s, pos) {
        let h = head_at(s, pos)->0;
        let stop = h.end + h.arg;
        lemma_chunks_bounds(s, stop, major);
        lemma_part_moved(s, pos, t, q, n, 0, h.end - pos);
        lemma_head_moved(s, pos, t, q);
        lemma_part_moved(s, pos, t, q, n, h.end - pos, stop - pos);
        lemma_part_moved(s, pos, t, q, n, stop - pos, n);
        let rest = (chunks_at(s, stop, major)->0).0;
        lemma_chunks_moved(s, stop, major, rest, e, t, stop + (q - pos));
    }
}

/// A run of `n` items reads alike at another place.
pub proof fn lemma_items_moved(
    s: Seq<u8>,
    pos: int,
    n: nat,
    v: Seq<CborV>,
    e: int,
    t: Seq<u8>,
    q: int,
)
    requires
        0 <= pos <= s.len(),
        items_at(s, pos, n) == Some((v, e)),
        0 <= q,
        q + (e - pos) <= t.len(),
        s.subrange(pos, e) == t.subrange(q, q + (e - pos)),
    ensures
        items_at(t, q, n) == Some((v, q + (e - pos))),
    decreases s.len() - pos, 2int,
{
    if n != 0 {
        let first = item_at(s, pos)->0;
        let e1 = first.1;
        lemma_items_bounds(s, e1, (n - 1) as nat);
        lemma_part_moved(s, pos, t, q, e - pos, 0, e1 - pos);
        lemma_part_moved(s, pos, t, q, e - pos, e1 - pos, e - pos);
        lemma_item_moved(s, pos, first.0, e1, t, q);
        let rest = (items_at(s, e1, (n - 1) as nat)->0).0;
        lemma_items_moved(s, e1, (n - 1) as nat, rest, e, t, e1 + (q - pos));
    }
}

/// The items up to a break read alike at another place.
pub proof fn lemma_items_to_break_moved(
    s: Seq<u8>,
    pos: int,
    v: Seq<CborV>,
    e: int,
    t: Seq<u8>,
    q: int,
)
    requires
        items_to_break(s, pos) == Some((v, e)),
        0 <= q,
        q + (e - pos) <= t.len(),
        s.subrange(pos, e) == t.subrange(q, q + (e - pos)),
    ensures
        items_to_break(t, q) == Some((v, q + (e - pos))),
    decreases s.len() - pos, 2int,
{
    lemma_items_to_break_bounds(s, pos);
    lemma_part_moved(s, pos, t, q, e - pos, 0, 1);
    lemma_be_moved(s, pos, t, q, 1);
    if !is_break(s, pos) {
        let first = item_at(s, pos)->0;
        let e1 = first.1;
        lemma_items_to_break_bounds(s, e1);
        lemma_part_moved(s, pos, t, q, e - pos, 0, e1 - pos);
        lemma_part_moved(s, pos, t, q, e - pos, e1 - pos, e - pos);
        lemma_item_moved(s, pos, first.0, e1, t, q);
        let rest = (items_to_break(s, e1)->0).0;
        lemma_items_to_break_moved(s, e1, rest, e, t, e1 + (q - pos));
    }
}

/// A key and its value read alike at another place.
#[verifier::rlimit(50)]
pub proof fn lemma_pair_moved(
    s: Seq<u8>,
    pos: int,
    k: CborV,
    e1: int,
    v: CborV,
    e2: int,
    t: Seq<u8>,
    q: int,
)
    requires
        item_at(s, pos) == Some((k, e1)),
        item_at(s, e1) == Some((v, e2)),
        0 <= q,
        q + (e2 - pos) <= t.len(),
        s.subrange(pos, e2) == t.subrange(q, q + (e2 - pos)),
    ensures
        pos < e1 < e2 <= s.len(),
        item_at(t, q) == Some((k, q + (e1 - pos))),
        item_at(t, q + (e1 - pos)) == Some((v, q + (e2 - pos))),
    decreases s.len() - pos, 1int,
{
    lemma_item_bounds(s, pos);
    lemma_item_bounds(s, e1);
    lemma_part_moved(s, pos, t, q, e2 - pos, 0, e1 - pos);
    lemma_part_moved(s, pos, t, q, e2 - pos, e1 - pos, e2 - pos);
    lemma_item_moved(s, pos, k, e1, t, q);
    lemma_item_moved(s, e1, v, e2, t, e1 + (q - pos));
}

/// A run of `n` entries reads alike at another place.
pub proof fn lemma_pairs_moved(
    s: Seq<u8>,
    pos: int,
    n: nat,
    v: Seq<(CborV, CborV)>,
    e: int,
    t: Seq<u8>,
    q: int,
)
    requires
        0 <= pos <= s.len(),
        pairs_at(s, pos, n) == Some((v, e)),
        0 <= q,
        q + (e - pos) <= t.len(),
        s.subrange(pos, e) == t.subrange(q, q + (e - pos)),
    ensures
        pairs_at(t, q, n) == Some((v, q + (e - pos))),
    decreases s.len() - pos, 2int,
{
    if n != 0 {
        let key = item_at(s, pos)->0;
        let e1 = key.1;
        let value = item_at(s, e1)->0;
        let e2 = value.1;
        lemma_pairs_bounds(s, e2, (n - 1) as nat);
        lemma_part_moved(s, pos, t, q, e - pos, 0, e2 - pos);
        lemma_part_moved(s, pos, t, q, e - pos, e2 - pos, e - pos);
        lemma_pair_moved(s, pos, key.0, e1, value.0, e2, t, q);
        let rest = (pairs_at(s, e2, (n - 1) as nat)->0).0;
        lemma_pairs_moved(s, e2, (n - 1) as nat, rest, e, t, e2 + (q - pos));
    }
}

/// The entries up to a break read alike at another place.
pub proof fn lemma_pairs_to_break_moved(
    s: Seq<u8>,
    pos: int,
    v: Seq<(CborV, CborV)>,
    e: int,
    t: Seq<u8>,
    q: int,
)
    requires
        pairs_to_break(s, pos) == Some((v, e)),
        0 <= q,
        q + (e - pos) <= t.len(),
        s.subrange(pos, e) == t.subrange(q, q + (e - pos)),
    ensures
        pairs_to_break(t, q) == Some((v, q + (e - pos))),
    decreases s.len() - pos, 2int,
{
    lemma_pairs_to_break_bounds(s, pos);
    lemma_part_moved(s, pos, t, q, e - pos, 0, 1);
    lemma_be_moved(s, pos, t, q, 1);
    if !is_break(s, pos) {
        let key = item_at(s, pos)->0;
        let e1 = key.1;
        let value = item_at(s, e1)->0;
        let e2 = value.1;
        lemma_pairs_to_break_bounds(s, e2);
        lemma_part_moved(s, pos, t, q, e - pos, 0, e2 - pos);
        lemma_part_moved(s, pos, t, q, e - pos, e2 - pos, e - pos);
        lemma_pair_moved(s, pos, key.0, e1, value.0, e2, t, q);
        let rest = (pairs_to_break(s, e2)->0).0;
        lemma_pairs_to_break_moved(s, e2, rest, e, t, e2 + (q - pos));
    }
}

/// Every item of a run is well formed.
pub open spec fn all_wf(ts: Seq<CborV>) -> bool {
    forall|i: int| 0 <= i < ts.len() ==> wf(#[trigger] ts[i])
}

/// The key and the value of every entry of a run are well formed.
pub open spec fn all_pairs_wf(ps: Seq<(CborV, CborV)>) -> bool {
    forall|i: int| 0 <= i < ps.len() ==> wf((#[trigger] ps[i]).0) && wf(ps[i].1)
}

/// What the reader reads is well formed: the canonical writer can write it
/// and the reader reads it back.
pub proof fn lemma_read_is_wf(s: Seq<u8>, pos: int)
    requires
        s.len() <= u64::MAX,
    ensures
        item_at(s, pos) matches Some((t, _)) ==> wf(t),
    decreases s.len() - pos, 0int,
{
    lemma_item_bounds(s, pos);
    match head_at(s, pos) {
        None => {},
        Some(h) => {
            if h.major == 2 || h.major == 3 {
                if h.info == 31 {
                    lemma_chunks_wf(s, h.end, h.major);
                    lemma_chunks_bounds(s, h.end, h.major);
                }
            } else if h.major == 4 {
                if h.info == 31 {
                    lemma_items_to_break_wf(s, h.end);
                    lemma_items_to_break_bounds(s, h.end);
                } else {
                    lemma_items_wf(s, h.end, h.arg as nat);
                    lemma_items_bounds(s, h.end, h.arg as nat);
                }
            } else if h.major == 5 {
                if h.info == 31 {
                    lemma_pairs_to_break_wf(s, h.end);
                    lemma_pairs_to_break_bounds(s, h.end);
                } else {
                    lemma_pairs_wf(s, h.end, h.arg as nat);
                    lemma_pairs_bounds(s, h.end, h.arg as nat);
                }
            } else if h.major == 6 {
                if h.info != 31 {
                    lemma_read_is_wf(s, h.end);
                }
            }
        },
    }
}

/// The chunks of a string are no longer than the bytes they stand in, and
/// text in chunks is valid UTF-8.
pub proof fn lemma_chunks_wf(s: Seq<u8>, pos: int, major: u8)
    requires
        major == 2 || major == 3,
    ensures
        chunks_at(s, pos, major) matches Some((b, e)) ==> b.len() <= e - pos && chunk_ok(
            major,
            b,
        ),
    decreases s.len() - pos,
{
    if !is_break(s, pos) {
        match head_at(s, pos) {
            Some(h) => {
                let stop = h.end + h.arg;
                if h.major == major && h.info != 31 && stop <= s.len() && chunk_ok(
                    major,
                    s.subrange(h.end, stop),
                ) {
                    lemma_chunks_wf(s, stop, major);
                    match chunks_at(s, stop, major) {
                        Some((rest, _)) => {
                            if major == 3 {
                                vstd::utf8::valid_utf8_concat(s.subrange(h.end, stop), rest);
                            }
                        },
                        None => {},
                    }
                }
            },
            None => {},
        }
    }
}

/// The items of a run that was read are well formed.
pub proof fn lemma_items_wf(s: Seq<u8>, pos: int, n: nat)
    requires
        s.len() <= u64::MAX,
    ensures
        items_at(s, pos, n) matches Some((ts, _)) ==> all_wf(ts),
    decreases s.len() - pos, 1int,
{
    if n != 0 {
        match item_at(s, pos) {
            Some((v, e)) => {
                if pos < e <= s.len() {
                    lemma_read_is_wf(s, pos);
                    lemma_items_wf(s, e, (n - 1) as nat);
                    match items_at(s, e, (n - 1) as nat) {
                        Some((rest, _)) => {
                            let ts = seq![v] + rest;
                            assert forall|i: int| 0 <= i < ts.len() implies wf(#[trigger] ts[i]) by {
                                if i > 0 {
                                    assert(ts[i] == rest[i - 1]);
                                }
                            }
                        },
                        None => {},
                    }
                }
            },
            None => {},
        }
    }
}

/// The items read up to a break are well formed and no more than the bytes
/// they stand in.
pub proof fn lemma_items_to_break_wf(s: Seq<u8>, pos: int)
    requires
        s.len() <= u64::MAX,
    ensures
        items_to_break(s, pos) matches Some((ts, e)) ==> all_wf(ts) && ts.len() <= e - pos,
    decreases s.len() - pos, 1int,
{
    if !is_break(s, pos) {
        match item_at(s, pos) {
            Some((v, e)) => {
                if pos < e <= s.len() {
                    lemma_read_is_wf(s, pos);
                    lemma_items_to_break_wf(s, e);
                    match items_to_break(s, e) {
                        Some((rest, _)) => {
                            let ts = seq![v] + rest;
                            assert forall|i: int| 0 <= i < ts.len() implies wf(#[trigger] ts[i]) by {
                                if i > 0 {
                                    assert(ts[i] == rest[i - 1]);
                                }
                            }
                        },
                        None => {},
                    }
                }
            },
            None => {},
        }
    }
}

/// The entries of a run that was read are well formed.
pub proof fn lemma_pairs_wf(s: Seq<u8>, pos: int, n: nat)
    requires
        s.len() <= u64::MAX,
    ensures
        pairs_at(s, pos, n) matches Some((ps, _)) ==> all_pairs_wf(ps),
    decreases s.len() - pos, 1int,
{
    if n != 0 {
        match item_at(s, pos) {
            Some((k, e1)) => {
                if pos < e1 <= s.len() {
                    match item_at(s, e1) {
                        Some((v, e2)) => {
                            if e1 < e2 <= s.len() {
                                lemma_read_is_wf(s, pos);
                                lemma_read_is_wf(s, e1);
                                lemma_pairs_wf(s, e2, (n - 1) as nat);
                                match pairs_at(s, e2, (n - 1) as nat) {
                                    Some((rest, _)) => {
                                        let ps = seq![(k, v)] + rest;
                                        assert forall|i: int| 0 <= i < ps.len() implies wf(
                                            (#[trigger] ps[i]).0,
                                        ) && wf(ps[i].1) by {
                                            if i > 0 {
                                                assert(ps[i] == rest[i - 1]);
                                            }
                                        }
                                    },
                                    None => {},
                                }
                            }
                        },
                        None => {},
                    }
                }
            },
            None => {},
        }
    }
}

/// The entries read up to a break are well formed and no more than the bytes
/// they stand in.
pub proof fn lemma_pairs_to_break_wf(s: Seq<u8>, pos: int)
    requires
        s.len() <= u64::MAX,
    ensures
        pairs_to_break(s, pos) matches Some((ps, e)) ==> all_pairs_wf(ps) && ps.len() <= e - pos,
    decreases s.len() - pos, 1int,
{
    if !is_break(s, pos) {
        match item_at(s, pos) {
            Some((k, e1)) => {
                if pos < e1 <= s.len() {
                    match item_at(s, e1) {
                        Some((v, e2)) => {
                            if e1 < e2 <= s.len() {
                                lemma_read_is_wf(s, pos);
                                lemma_read_is_wf(s, e1);
                                lemma_pairs_to_break_wf(s, e2);
                                match pairs_to_break(s, e2) {
                                    Some((rest, _)) => {
                                        let ps = seq![(k, v)] + rest;
                                        assert forall|i: int| 0 <= i < ps.len() implies wf(
                                            (#[trigger] ps[i]).0,
                                        ) && wf(ps[i].1) by {
                                            if i > 0 {
                                                assert(ps[i] == rest[i - 1]);
                                            }
                                        }
                                    },
                                    None => {},
                                }
                            }
                        },
                        None => {},
                    }
                }
            },
            None => {},
        }
    }
}

/// The bytes that an item was read from, taken alone, hold exactly that item.
pub proof fn lemma_item_alone(s: Seq<u8>, pos: int, v: CborV, e: int)
    requires
        item_at(s, pos) == Some((v, e)),
    ensures
        pos < e <= s.len(),
        whole_item(s.subrange(pos, e)) == Some(v),
{
    lemma_item_bounds(s, pos);
    let t = s.subrange(pos, e);
    assert(t.subrange(0, e - pos) =~= t);
    lemma_item_moved(s, pos, v, e, t, 0);
}

} // verus!
