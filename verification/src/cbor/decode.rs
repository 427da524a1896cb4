//! The reader: accepts heads of any width, indefinite lengths and chunked
//! strings, and says where each item ends.

use crate::cbor::head::{head_at, read_head};
use crate::cbor::item::{item_views, lemma_view_of_lists, pair_views, Cbor, CborV};
use vstd::prelude::*;
use vstd::slice::{slice_subrange, slice_to_vec};
use vstd::utf8::valid_utf8;

verus! {

/// The byte at `pos` is the break that closes an indefinite-length item.
pub open spec fn is_break(s: Seq<u8>, pos: int) -> bool {
    0 <= pos < s.len() && s[pos] == 0xff
}

/// A byte string or a text string, by major type.
pub open spec fn string_item(major: u8, b: Seq<u8>) -> CborV {
    if major == 2 {
        CborV::Bytes(b)
    } else {
        CborV::Text(b)
    }
}

/// Text must be valid UTF-8; bytes may be anything.
pub open spec fn chunk_ok(major: u8, b: Seq<u8>) -> bool {
    major == 3 ==> valid_utf8(b)
}

/// Puts what was read first in front of what was read after it.
pub open spec fn prepend<T>(first: Seq<T>, rest: Option<(Seq<T>, int)>) -> Option<(Seq<T>, int)> {
    match rest {
        Some((more, e)) => Some((first + more, e)),
        None => None,
    }
}

/// Putting in front twice is putting the joined run in front, and putting
/// nothing in front changes nothing.
pub proof fn lemma_prepend_twice<T>(a: Seq<T>, b: Seq<T>, x: Option<(Seq<T>, int)>)
    ensures
        prepend(a, prepend(b, x)) == prepend(a + b, x),
        prepend(Seq::<T>::empty(), x) == x,
{
    match x {
        Some((m, e)) => {
            assert(a + (b + m) =~= (a + b) + m);
            assert(Seq::<T>::empty() + m =~= m);
        },
        None => {},
    }
}

/// The chunks of an indefinite-length string from `pos` up to the break,
/// joined, and the position after the break.
pub open spec fn chunks_at(s: Seq<u8>, pos: int, major: u8) -> Option<(Seq<u8>, int)>
    decreases s.len() - pos,
{
    if is_break(s, pos) {
        Some((Seq::empty(), pos + 1))
    } else {
        match head_at(s, pos) {
            Some(h) => if h.major == major && h.info != 31 && h.end + h.arg <= s.len() && chunk_ok(
                major,
                s.subrange(h.end, h.end + h.arg),
            ) {
                prepend(s.subrange(h.end, h.end + h.arg), chunks_at(s, h.end + h.arg, major))
            } else {
                None
            },
            None => None,
        }
    }
}

/// The item that starts at `pos` and the position after it, if the bytes
/// from `pos` on begin with a well-formed item.
pub open spec fn item_at(s: Seq<u8>, pos: int) -> Option<(CborV, int)>
    decreases s.len() - pos, 0int,
{
    match head_at(s, pos) {
        None => None,
        Some(h) => if h.major == 0 {
            if h.info == 31 {
                None
            } else {
                Some((CborV::Uint(h.arg), h.end))
            }
        } else if h.major == 1 {
            if h.info == 31 {
                None
            } else {
                Some((CborV::Nint(h.arg), h.end))
            }
        } else if h.major == 2 || h.major == 3 {
            if h.info == 31 {
                match chunks_at(s, h.end, h.major) {
                    Some((b, e)) => Some((string_item(h.major, b), e)),
                    None => None,
                }
            } else if h.end + h.arg <= s.len() && chunk_ok(
                h.major,
                s.subrange(h.end, h.end + h.arg),
            ) {
                Some((string_item(h.major, s.subrange(h.end, h.end + h.arg)), h.end + h.arg))
            } else {
                None
            }
        } else if h.major == 4 {
            let r = if h.info == 31 {
                items_to_break(s, h.end)
            } else {
                items_at(s, h.end, h.arg as nat)
            };
            match r {
                Some((v, e)) => Some((CborV::Array(v), e)),
                None => None,
            }
        } else if h.major == 5 {
            let r = if h.info == 31 {
                pairs_to_break(s, h.end)
            } else {
                pairs_at(s, h.end, h.arg as nat)
            };
            match r {
                Some((v, e)) => Some((CborV::Pairs(v), e)),
                None => None,
            }
        } else if h.major == 6 {
            if h.info == 31 {
                None
            } else {
                match item_at(s, h.end) {
                    Some((v, e)) => Some((CborV::Tag(h.arg, Box::new(v)), e)),
                    None => None,
                }
            }
        } else {
            if h.info < 24 {
                Some((CborV::Simple(h.info), h.end))
            } else {
                None
            }
        },
    }
}

/// The `n` items that start at `pos`, and the position after the last.
pub open spec fn items_at(s: Seq<u8>, pos: int, n: nat) -> Option<(Seq<CborV>, int)>
    decreases s.len() - pos, 1int,
{
    if n == 0 {
        Some((Seq::empty(), pos))
    } else {
        match item_at(s, pos) {
            Some((v, e)) => if pos < e <= s.len() {
                prepend(seq![v], items_at(s, e, (n - 1) as nat))
            } else {
                None
            },
            None => None,
        }
    }
}

/// The items from `pos` up to the break, and the position after the break.
pub open spec fn items_to_break(s: Seq<u8>, pos: int) -> Option<(Seq<CborV>, int)>
    decreases s.len() - pos, 1int,
{
    if is_break(s, pos) {
        Some((Seq::empty(), pos + 1))
    } else {
        match item_at(s, pos) {
            Some((v, e)) => if pos < e <= s.len() {
                prepend(seq![v], items_to_break(s, e))
            } else {
                None
            },
            None => None,
        }
    }
}

/// The `n` entries that start at `pos`, and the position after the last.
pub open spec fn pairs_at(s: Seq<u8>, pos: int, n: nat) -> Option<(Seq<(CborV, CborV)>, int)>
    decreases s.len() - pos, 1int,
{
    if n == 0 {
        Some((Seq::empty(), pos))
    } else {
        match item_at(s, pos) {
            Some((k, e1)) => if pos < e1 <= s.len() {
                match item_at(s, e1) {
                    Some((v, e2)) => if e1 < e2 <= s.len() {
                        prepend(seq![(k, v)], pairs_at(s, e2, (n - 1) as nat))
                    } else {
                        None
                    },
                    None => None,
                }
            } else {
                None
            },
            None => None,
        }
    }
}

/// The entries from `pos` up to the break, and the position after the break.
pub open spec fn pairs_to_break(s: Seq<u8>, pos: int) -> Option<(Seq<(CborV, CborV)>, int)>
    decreases s.len() - pos, 1int,
{
    if is_break(s, pos) {
        Some((Seq::empty(), pos + 1))
    } else {
        match item_at(s, pos) {
            Some((k, e1)) => if pos < e1 <= s.len() {
                match item_at(s, e1) {
                    Some((v, e2)) => if e1 < e2 <= s.len() {
                        prepend(seq![(k, v)], pairs_to_break(s, e2))
                    } else {
                        None
                    },
                    None => None,
                }
            } else {
                None
            },
            None => None,
        }
    }
}

/// The item that a byte string holds, when it holds exactly one.
pub open spec fn whole_item(s: Seq<u8>) -> Option<CborV> {
    match item_at(s, 0) {
        Some((v, e)) => if e == s.len() {
            Some(v)
        } else {
            None
        },
        None => None,
    }
}

/// `core::str::from_utf8` on the bytes from `from` to `to`: it accepts
/// exactly the valid UTF-8 encodings.
#[verifier::external_body]
pub(crate) fn is_utf8(bytes: &[u8], from: usize, to: usize) -> (r: bool)
    requires
        from <= to <= bytes.len(),
    ensures
        r == valid_utf8(bytes@.subrange(from as int, to as int)),
{
    core::str::from_utf8(&bytes[from..to]).is_ok()
}

fn decode_chunks(bytes: &[u8], pos: usize, major: u8) -> (r: Option<(Vec<u8>, usize)>)
    requires
        pos <= bytes.len(),
        major == 2 || major == 3,
    ensures
        match r {
            Some((b, end)) => chunks_at(bytes@, pos as int, major) == Some((b@, end as int)) && pos
                < end <= bytes.len(),
            None => chunks_at(bytes@, pos as int, major) is None,
        },
{
    let mut out: Vec<u8> = Vec::new();
    let mut cur = pos;
    proof {
        lemma_prepend_twice(out@, out@, chunks_at(bytes@, pos as int, major));
    }
    loop
        invariant
            pos <= cur <= bytes.len(),
            major == 2 || major == 3,
            chunks_at(bytes@, pos as int, major) == prepend(
                out@,
                chunks_at(bytes@, cur as int, major),
            ),
        decreases bytes.len() - cur,
    {
        if cur < bytes.len() && bytes[cur] == 0xff {
            assert(out@ + Seq::<u8>::empty() =~= out@);
            return Some((out, cur + 1));
        }
        let h = match read_head(bytes, cur) {
            Some(h) => h,
            None => {
                return None;
            },
        };
        if h.major != major || h.info == 31 || h.arg > (bytes.len() - h.end) as u64 {
            return None;
        }
        let stop = h.end + h.arg as usize;
        if major == 3 && !is_utf8(bytes, h.end, stop) {
            return None;
        }
        proof {
            lemma_prepend_twice(
                out@,
                bytes@.subrange(h.end as int, stop as int),
                chunks_at(bytes@, stop as int, major),
            );
        }
        out.extend_from_slice(slice_subrange(bytes, h.end, stop));
        cur = stop;
    }
}

/// Reads the item that starts at `pos`.
pub fn decode_item(bytes: &[u8], pos: usize) -> (r: Option<(Cbor, usize)>)
    ensures
        match r {
            Some((c, end)) => item_at(bytes@, pos as int) == Some((c@, end as int)) && pos < end
                <= bytes.len(),
            None => item_at(bytes@, pos as int) is None,
        },
    decreases bytes.len() - pos, 0int,
{
    let h = match read_head(bytes, pos) {
        Some(h) => h,
        None => {
            return None;
        },
    };
    if h.major == 0 {
        if h.info == 31 {
            None
        } else {
            Some((Cbor::Uint(h.arg), h.end))
        }
    } else if h.major == 1 {
        if h.info == 31 {
            None
        } else {
            Some((Cbor::Nint(h.arg), h.end))
        }
    } else if h.major == 2 || h.major == 3 {
        if h.info == 31 {
            match decode_chunks(bytes, h.end, h.major) {
                Some((b, end)) => {
                    if h.major == 2 {
                        Some((Cbor::Bytes(b), end))
                    } else {
                        Some((Cbor::Text(b), end))
                    }
                },
                None => None,
            }
        } else {
            if h.arg > (bytes.len() - h.end) as u64 {
                return None;
            }
            let stop = h.end + h.arg as usize;
            if h.major == 3 && !is_utf8(bytes, h.end, stop) {
                return None;
            }
            let b = slice_to_vec(slice_subrange(bytes, h.end, stop));
            if h.major == 2 {
                Some((Cbor::Bytes(b), stop))
            } else {
                Some((Cbor::Text(b), stop))
            }
        }
    } else if h.major == 4 {
        let r = if h.info == 31 {
            decode_items_to_break(bytes, h.end)
        } else {
            decode_items(bytes, h.end, h.arg)
        };
        match r {
            Some((v, end)) => {
                let c = Cbor::Array(v);
                proof {
                    lemma_view_of_lists(c);
                }
                Some((c, end))
            },
            None => None,
        }
    } else if h.major == 5 {
        let r = if h.info == 31 {
            decode_pairs_to_break(bytes, h.end)
        } else {
            decode_pairs(bytes, h.end, h.arg)
        };
        match r {
            Some((v, end)) => {
                let c = Cbor::Pairs(v);
                proof {
                    lemma_view_of_lists(c);
                }
                Some((c, end))
            },
            None => None,
        }
    } else if h.major == 6 {
        if h.info == 31 {
            None
        } else {
            match decode_item(bytes, h.end) {
                Some((inner, end)) => {
                    let c = Cbor::Tag(h.arg, Box::new(inner));
                    proof {
                        lemma_view_of_lists(c);
                    }
                    Some((c, end))
                },
                None => None,
            }
        }
    } else {
        if h.info < 24 {
            Some((Cbor::Simple(h.info), h.end))
        } else {
            None
        }
    }
}

fn decode_items(bytes: &[u8], pos: usize, n: u64) -> (r: Option<(Vec<Cbor>, usize)>)
    requires
        pos <= bytes.len(),
    ensures
        match r {
            Some((v, end)) => items_at(bytes@, pos as int, n as nat) == Some(
                (item_views(v@), end as int),
            ) && pos <= end <= bytes.len(),
            None => items_at(bytes@, pos as int, n as nat) is None,
        },
    decreases bytes.len() - pos, 1int,
{
    let mut out: Vec<Cbor> = Vec::new();
    let mut cur = pos;
    let mut i: u64 = 0;
    proof {
        assert(item_views(out@) =~= Seq::empty());
        lemma_prepend_twice(
            item_views(out@),
            item_views(out@),
            items_at(bytes@, pos as int, n as nat),
        );
    }
    while i < n
        invariant
            pos <= cur <= bytes.len(),
            i <= n,
            items_at(bytes@, pos as int, n as nat) == prepend(
                item_views(out@),
                items_at(bytes@, cur as int, (n - i) as nat),
            ),
        decreases n - i,
    {
        match decode_item(bytes, cur) {
            None => {
                return None;
            },
            Some((c, end)) => {
                proof {
                    lemma_prepend_twice(
                        item_views(out@),
                        seq![c@],
                        items_at(bytes@, end as int, (n - i - 1) as nat),
                    );
                    assert(item_views(out@.push(c)) =~= item_views(out@) + seq![c@]);
                }
                out.push(c);
                cur = end;
                i += 1;
            },
        }
    }
    proof {
        assert(item_views(out@) + Seq::<CborV>::empty() =~= item_views(out@));
    }
    Some((out, cur))
}

fn decode_items_to_break(bytes: &[u8], pos: usize) -> (r: Option<(Vec<Cbor>, usize)>)
    requires
        pos <= bytes.len(),
    ensures
        match r {
            Some((v, end)) => items_to_break(bytes@, pos as int) == Some(
                (item_views(v@), end as int),
            ) && pos < end <= bytes.len(),
            None => items_to_break(bytes@, pos as int) is None,
        },
    decreases bytes.len() - pos, 1int,
{
    let mut out: Vec<Cbor> = Vec::new();
    let mut cur = pos;
    proof {
        assert(item_views(out@) =~= Seq::empty());
        lemma_prepend_twice(item_views(out@), item_views(out@), items_to_break(bytes@, pos as int));
    }
    loop
        invariant
            pos <= cur <= bytes.len(),
            items_to_break(bytes@, pos as int) == prepend(
                item_views(out@),
                items_to_break(bytes@, cur as int),
            ),
        decreases bytes.len() - cur,
    {
        if cur < bytes.len() && bytes[cur] == 0xff {
            assert(item_views(out@) + Seq::<CborV>::empty() =~= item_views(out@));
            return Some((out, cur + 1));
        }
        match decode_item(bytes, cur) {
            None => {
                return None;
            },
            Some((c, end)) => {
                proof {
                    lemma_prepend_twice(
                        item_views(out@),
                        seq![c@],
                        items_to_break(bytes@, end as int),
                    );
                    assert(item_views(out@.push(c)) =~= item_views(out@) + seq![c@]);
                }
                out.push(c);
                cur = end;
            },
        }
    }
}

fn decode_pairs(bytes: &[u8], pos: usize, n: u64) -> (r: Option<(Vec<(Cbor, Cbor)>, usize)>)
    requires
        pos <= bytes.len(),
    ensures
        match r {
            Some((v, end)) => pairs_at(bytes@, pos as int, n as nat) == Some(
                (pair_views(v@), end as int),
            ) && pos <= end <= bytes.len(),
            None => pairs_at(bytes@, pos as int, n as nat) is None,
        },
    decreases bytes.len() - pos, 1int,
{
    let mut out: Vec<(Cbor, Cbor)> = Vec::new();
    let mut cur = pos;
    let mut i: u64 = 0;
    proof {
        assert(pair_views(out@) =~= Seq::empty());
        lemma_prepend_twice(
            pair_views(out@),
            pair_views(out@),
            pairs_at(bytes@, pos as int, n as nat),
        );
    }
    while i < n
        invariant
            pos <= cur <= bytes.len(),
            i <= n,
            pairs_at(bytes@, pos as int, n as nat) == prepend(
                pair_views(out@),
                pairs_at(bytes@, cur as int, (n - i) as nat),
            ),
        decreases n - i,
    {
        let (k, mid) = match decode_item(bytes, cur) {
            None => {
                return None;
            },
            Some(x) => x,
        };
        let (v, end) = match decode_item(bytes, mid) {
            None => {
                return None;
            },
            Some(x) => x,
        };
        proof {
            lemma_prepend_twice(
                pair_views(out@),
                seq![(k@, v@)],
                pairs_at(bytes@, end as int, (n - i - 1) as nat),
            );
            assert(pair_views(out@.push((k, v))) =~= pair_views(out@) + seq![(k@, v@)]);
        }
        out.push((k, v));
        cur = end;
        i += 1;
    }
    proof {
        assert(pair_views(out@) + Seq::<(CborV, CborV)>::empty() =~= pair_views(out@));
    }
    Some((out, cur))
}

fn decode_pairs_to_break(bytes: &[u8], pos: usize) -> (r: Option<(Vec<(Cbor, Cbor)>, usize)>)
    requires
        pos <= bytes.len(),
    ensures
        match r {
            Some((v, end)) => pairs_to_break(bytes@, pos as int) == Some(
                (pair_views(v@), end as int),
            ) && pos < end <= bytes.len(),
            None => pairs_to_break(bytes@, pos as int) is None,
        },
    decreases bytes.len() - pos, 1int,
{
    let mut out: Vec<(Cbor, Cbor)> = Vec::new();
    let mut cur = pos;
    proof {
        assert(pair_views(out@) =~= Seq::empty());
        lemma_prepend_twice(pair_views(out@), pair_views(out@), pairs_to_break(bytes@, pos as int));
    }
    loop
        invariant
            pos <= cur <= bytes.len(),
            pairs_to_break(bytes@, pos as int) == prepend(
                pair_views(out@),
                pairs_to_break(bytes@, cur as int),
            ),
        decreases bytes.len() - cur,
    {
        if cur < bytes.len() && bytes[cur] == 0xff {
            assert(pair_views(out@) + Seq::<(CborV, CborV)>::empty() =~= pair_views(out@));
            return Some((out, cur + 1));
        }
        let (k, mid) = match decode_item(bytes, cur) {
            None => {
                return None;
            },
            Some(x) => x,
        };
        let (v, end) = match decode_item(bytes, mid) {
            None => {
                return None;
            },
            Some(x) => x,
        };
        proof {
            lemma_prepend_twice(
                pair_views(out@),
                seq![(k@, v@)],
                pairs_to_break(bytes@, end as int),
            );
            assert(pair_views(out@.push((k, v))) =~= pair_views(out@) + seq![(k@, v@)]);
        }
        out.push((k, v));
        cur = end;
    }
}

/// Reads a byte string that holds exactly one item.
pub fn from_bytes(bytes: &[u8]) -> (r: Option<Cbor>)
    ensures
        match r {
            Some(c) => whole_item(bytes@) == Some(c@),
            None => whole_item(bytes@) is None,
        },
{
    match decode_item(bytes, 0) {
        Some((c, end)) => if end == bytes.len() {
            Some(c)
        } else {
            None
        },
        None => None,
    }
}

} // verus!
