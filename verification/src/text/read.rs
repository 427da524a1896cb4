//! The reader of the text form.

use crate::cbor::decode::{is_utf8, lemma_prepend_twice, prepend};
use crate::cbor::item::{item_views, lemma_view_of_lists, pair_views, Cbor, CborV};
use crate::hex::unhex_bytes;
use crate::text::grammar::{
    at, dec_value, digits_end, elems_at, is_digit, name, name_at, number_at, pairs_text_at,
    plain_end, quoted_at, stands, text_at, whole_text, word,
};
use crate::text::write::{push_name, push_word};
use vstd::prelude::*;
use vstd::slice::{slice_subrange, slice_to_vec};

verus! {

/// Ten to the power of `k`.
pub open spec fn pow10(k: nat) -> nat
    decreases k,
{
    if k == 0 {
        1
    } else {
        10 * pow10((k - 1) as nat)
    }
}

proof fn lemma_pow10_20(k: nat)
    requires
        k <= 20,
    ensures
        pow10(k) <= 100_000_000_000_000_000_000,
    decreases 20 - k,
{
    if k < 20 {
        lemma_pow10_20(k + 1);
    } else {
        reveal_with_fuel(pow10, 21);
    }
}

fn digits_stop(bytes: &[u8], pos: usize) -> (r: usize)
    requires
        pos <= bytes.len(),
    ensures
        r == digits_end(bytes@, pos as int),
        pos <= r <= bytes.len(),
{
    let mut i = pos;
    while i < bytes.len() && 0x30 <= bytes[i] && bytes[i] <= 0x39
        invariant
            pos <= i <= bytes.len(),
            digits_end(bytes@, pos as int) == digits_end(bytes@, i as int),
        decreases bytes.len() - i,
    {
        i += 1;
    }
    i
}

fn plain_stop(bytes: &[u8], pos: usize) -> (r: usize)
    requires
        pos <= bytes.len(),
    ensures
        r == plain_end(bytes@, pos as int),
        pos <= r <= bytes.len(),
{
    let mut i = pos;
    while i < bytes.len() && 0x20 <= bytes[i] && bytes[i] <= 0x7e && bytes[i] != 0x22 && bytes[i]
        != 0x5c
        invariant
            pos <= i <= bytes.len(),
            plain_end(bytes@, pos as int) == plain_end(bytes@, i as int),
        decreases bytes.len() - i,
    {
        i += 1;
    }
    i
}

fn read_number(bytes: &[u8], pos: usize) -> (r: Option<(u128, usize)>)
    requires
        pos <= bytes.len(),
    ensures
        match r {
            Some((v, e)) => number_at(bytes@, pos as int) == Some((v as nat, e as int)) && pos < e
                <= bytes.len(),
            None => number_at(bytes@, pos as int) is None,
        },
{
    let e = digits_stop(bytes, pos);
    if e == pos || e - pos > 20 || (bytes[pos] == 0x30 && e != pos + 1) {
        return None;
    }
    proof {
        lemma_digits(bytes@, pos as int);
    }
    let mut acc: u128 = 0;
    let mut i = pos;
    while i < e
        invariant
            pos <= i <= e <= bytes.len(),
            e - pos <= 20,
            acc == dec_value(bytes@, pos as int, i as int),
            acc < pow10((i - pos) as nat),
            forall|j: int| pos <= j < e ==> is_digit(#[trigger] bytes@[j]),
        decreases e - i,
    {
        proof {
            lemma_pow10_20((i - pos) as nat);
            lemma_pow10_20((i + 1 - pos) as nat);
            assert(is_digit(bytes@[i as int]));
        }
        acc = acc * 10 + (bytes[i] - 0x30) as u128;
        i += 1;
    }
    Some((acc, e))
}

/// Every byte from `pos` up to the end of its run of digits is a digit.
proof fn lemma_digits(s: Seq<u8>, pos: int)
    requires
        0 <= pos,
    ensures
        forall|j: int| pos <= j < digits_end(s, pos) ==> is_digit(#[trigger] s[j]),
    decreases s.len() - pos,
{
    if pos < s.len() && is_digit(s[pos]) {
        lemma_digits(s, pos + 1);
    }
}

fn has_lit(bytes: &[u8], pos: usize, lit: &Vec<u8>) -> (r: bool)
    requires
        pos <= bytes.len(),
    ensures
        r == stands(bytes@, pos as int, lit@),
{
    if lit.len() > bytes.len() - pos {
        return false;
    }
    let mut i: usize = 0;
    while i < lit.len()
        invariant
            pos + lit.len() <= bytes.len(),
            i <= lit.len(),
            forall|j: int| 0 <= j < i ==> bytes@[pos + j] == lit@[j],
        decreases lit.len() - i,
    {
        if bytes[pos + i] != lit[i] {
            proof {
                let sub = bytes@.subrange(pos as int, pos + lit.len());
                assert(sub[i as int] != lit@[i as int]);
            }
            return false;
        }
        i += 1;
    }
    assert(bytes@.subrange(pos as int, pos + lit.len()) =~= lit@);
    true
}

fn read_name(bytes: &[u8], pos: usize) -> (r: Option<(u8, usize)>)
    requires
        pos <= bytes.len(),
    ensures
        match r {
            Some((kind, e)) => name_at(bytes@, pos as int) == Some((kind, e as int)) && pos < e
                <= bytes.len() && kind < 5,
            None => name_at(bytes@, pos as int) is None,
        },
{
    let mut kind: u8 = 0;
    while kind < 5
        invariant
            kind <= 5,
            pos <= bytes.len(),
            forall|k: u8| 0 <= k < kind ==> !stands(bytes@, pos as int, #[trigger] name(k)),
        decreases 5 - kind,
    {
        let mut lit: Vec<u8> = Vec::new();
        push_name(&mut lit, kind);
        assert(lit@ =~= name(kind));
        if has_lit(bytes, pos, &lit) {
            return Some((kind, pos + lit.len()));
        }
        kind += 1;
    }
    proof {
        assert(!stands(bytes@, pos as int, name(0)));
        assert(!stands(bytes@, pos as int, name(1)));
        assert(!stands(bytes@, pos as int, name(2)));
        assert(!stands(bytes@, pos as int, name(3)));
        assert(!stands(bytes@, pos as int, name(4)));
    }
    None
}

fn read_quoted(bytes: &[u8], pos: usize) -> (r: Option<(usize, usize)>)
    requires
        pos <= bytes.len(),
    ensures
        match r {
            Some((from, to)) => quoted_at(bytes@, pos as int) == Some(
                (bytes@.subrange(from as int, to as int), to + 1),
            ) && pos < from <= to < bytes.len(),
            None => quoted_at(bytes@, pos as int) is None,
        },
{
    if pos >= bytes.len() || bytes[pos] != 0x22 {
        return None;
    }
    let e = plain_stop(bytes, pos + 1);
    if e >= bytes.len() || bytes[e] != 0x22 {
        return None;
    }
    Some((pos + 1, e))
}

fn byte_at(bytes: &[u8], pos: usize, c: u8) -> (r: bool)
    ensures
        r == at(bytes@, pos as int, c),
{
    pos < bytes.len() && bytes[pos] == c
}

/// Reads the item whose text form starts at `pos`.
pub fn read_text(bytes: &[u8], pos: usize) -> (r: Option<(Cbor, usize)>)
    ensures
        match r {
            Some((c, end)) => text_at(bytes@, pos as int) == Some((c@, end as int)) && pos < end
                <= bytes.len(),
            None => text_at(bytes@, pos as int) is None,
        },
    decreases bytes.len() - pos, 0int,
{
    if pos >= bytes.len() {
        return None;
    }
    let c = bytes[pos];
    if 0x30 <= c && c <= 0x39 {
        match read_number(bytes, pos) {
            Some((v, e)) => if v <= u64::MAX as u128 {
                Some((Cbor::Uint(v as u64), e))
            } else {
                None
            },
            None => None,
        }
    } else if c == 0x2d {
        match read_number(bytes, pos + 1) {
            Some((v, e)) => if 1 <= v && v <= 0x1_0000_0000_0000_0000 {
                Some((Cbor::Nint((v - 1) as u64), e))
            } else {
                None
            },
            None => None,
        }
    } else if c == 0x22 {
        match read_quoted(bytes, pos) {
            Some((from, to)) => Some(
                (Cbor::Text(slice_to_vec(slice_subrange(bytes, from, to))), to + 1),
            ),
            None => None,
        }
    } else if c == 0x5b {
        if byte_at(bytes, pos + 1, 0x5d) {
            let item = Cbor::Array(Vec::new());
            proof {
                lemma_view_of_lists(item);
                assert(item@->Array_0 =~= Seq::<CborV>::empty());
            }
            Some((item, pos + 2))
        } else {
            match read_elems(bytes, pos + 1) {
                Some((v, e)) => {
                    let item = Cbor::Array(v);
                    proof {
                        lemma_view_of_lists(item);
                    }
                    Some((item, e))
                },
                None => None,
            }
        }
    } else if c == 0x66 || c == 0x74 || c == 0x6e {
        let simple: u8 = if c == 0x66 {
            20
        } else if c == 0x74 {
            21
        } else {
            22
        };
        let mut lit: Vec<u8> = Vec::new();
        push_word(&mut lit, simple);
        assert(lit@ =~= word(simple));
        if has_lit(bytes, pos, &lit) {
            Some((Cbor::Simple(simple), pos + lit.len()))
        } else {
            None
        }
    } else if c == 0x7b {
        let (kind, p) = match read_name(bytes, pos + 1) {
            Some(x) => x,
            None => {
                return None;
            },
        };
        if kind == 0 || kind == 1 {
            let (from, to) = match read_quoted(bytes, p) {
                Some(x) => x,
                None => {
                    return None;
                },
            };
            let b = match unhex_bytes(slice_subrange(bytes, from, to)) {
                Some(b) => b,
                None => {
                    return None;
                },
            };
            if !byte_at(bytes, to + 1, 0x7d) {
                return None;
            }
            if kind == 0 {
                Some((Cbor::Bytes(b), to + 2))
            } else {
                proof {
                    assert(b@.subrange(0, b@.len() as int) =~= b@);
                }
                if is_utf8(b.as_slice(), 0, b.len()) {
                    Some((Cbor::Text(b), to + 2))
                } else {
                    None
                }
            }
        } else if kind == 2 {
            if !byte_at(bytes, p, 0x5b) {
                return None;
            }
            let (v, e) = if byte_at(bytes, p + 1, 0x5d) {
                let v: Vec<(Cbor, Cbor)> = Vec::new();
                assert(pair_views(v@) =~= Seq::<(CborV, CborV)>::empty());
                (v, p + 2)
            } else {
                match read_pairs(bytes, p + 1) {
                    Some(x) => x,
                    None => {
                        return None;
                    },
                }
            };
            if !byte_at(bytes, e, 0x7d) {
                return None;
            }
            let item = Cbor::Pairs(v);
            proof {
                lemma_view_of_lists(item);
            }
            Some((item, e + 1))
        } else if kind == 3 {
            if !byte_at(bytes, p, 0x5b) {
                return None;
            }
            let (tag, e1) = match read_number(bytes, p + 1) {
                Some(x) => x,
                None => {
                    return None;
                },
            };
            if tag > u64::MAX as u128 || !byte_at(bytes, e1, 0x2c) {
                return None;
            }
            let (x, e2) = match read_text(bytes, e1 + 1) {
                Some(x) => x,
                None => {
                    return None;
                },
            };
            if !byte_at(bytes, e2, 0x5d) || !byte_at(bytes, e2 + 1, 0x7d) {
                return None;
            }
            let item = Cbor::Tag(tag as u64, Box::new(x));
            proof {
                lemma_view_of_lists(item);
            }
            Some((item, e2 + 2))
        } else {
            let (v, e) = match read_number(bytes, p) {
                Some(x) => x,
                None => {
                    return None;
                },
            };
            if v >= 24 || !byte_at(bytes, e, 0x7d) {
                return None;
            }
            Some((Cbor::Simple(v as u8), e + 1))
        }
    } else {
        None
    }
}

fn read_elems(bytes: &[u8], pos: usize) -> (r: Option<(Vec<Cbor>, usize)>)
    requires
        pos <= bytes.len(),
    ensures
        match r {
            Some((v, end)) => elems_at(bytes@, pos as int) == Some((item_views(v@), end as int))
                && pos < end <= bytes.len(),
            None => elems_at(bytes@, pos as int) is None,
        },
    decreases bytes.len() - pos, 1int,
{
    let mut out: Vec<Cbor> = Vec::new();
    let mut cur = pos;
    proof {
        assert(item_views(out@) =~= Seq::empty());
        lemma_prepend_twice(item_views(out@), item_views(out@), elems_at(bytes@, pos as int));
    }
    loop
        invariant
            pos <= cur <= bytes.len(),
            elems_at(bytes@, pos as int) == prepend(
                item_views(out@),
                elems_at(bytes@, cur as int),
            ),
        decreases bytes.len() - cur,
    {
        let (c, e) = match read_text(bytes, cur) {
            Some(x) => x,
            None => {
                return None;
            },
        };
        if e >= bytes.len() {
            return None;
        }
        proof {
            assert(item_views(out@.push(c)) =~= item_views(out@) + seq![c@]);
        }
        if bytes[e] == 0x2c {
            proof {
                lemma_prepend_twice(item_views(out@), seq![c@], elems_at(bytes@, e + 1));
            }
            out.push(c);
            cur = e + 1;
        } else if bytes[e] == 0x5d {
            out.push(c);
            return Some((out, e + 1));
        } else {
            return None;
        }
    }
}

fn read_pairs(bytes: &[u8], pos: usize) -> (r: Option<(Vec<(Cbor, Cbor)>, usize)>)
    requires
        pos <= bytes.len(),
    ensures
        match r {
            Some((v, end)) => pairs_text_at(bytes@, pos as int) == Some(
                (pair_views(v@), end as int),
            ) && pos < end <= bytes.len(),
            None => pairs_text_at(bytes@, pos as int) is None,
        },
    decreases bytes.len() - pos, 1int,
{
    let mut out: Vec<(Cbor, Cbor)> = Vec::new();
    let mut cur = pos;
    proof {
        assert(pair_views(out@) =~= Seq::empty());
        lemma_prepend_twice(pair_views(out@), pair_views(out@), pairs_text_at(bytes@, pos as int));
    }
    loop
        invariant
            pos <= cur <= bytes.len(),
            pairs_text_at(bytes@, pos as int) == prepend(
                pair_views(out@),
                pairs_text_at(bytes@, cur as int),
            ),
        decreases bytes.len() - cur,
    {
        if !byte_at(bytes, cur, 0x5b) {
            return None;
        }
        let (k, e1) = match read_text(bytes, cur + 1) {
            Some(x) => x,
            None => {
                return None;
            },
        };
        if !byte_at(bytes, e1, 0x2c) {
            return None;
        }
        let (v, e2) = match read_text(bytes, e1 + 1) {
            Some(x) => x,
            None => {
                return None;
            },
        };
        if !byte_at(bytes, e2, 0x5d) || e2 + 1 >= bytes.len() {
            return None;
        }
        proof {
            assert(pair_views(out@.push((k, v))) =~= pair_views(out@) + seq![(k@, v@)]);
        }
        if bytes[e2 + 1] == 0x2c {
            proof {
                lemma_prepend_twice(
                    pair_views(out@),
                    seq![(k@, v@)],
                    pairs_text_at(bytes@, e2 + 2),
                );
            }
            out.push((k, v));
            cur = e2 + 2;
        } else if bytes[e2 + 1] == 0x5d {
            out.push((k, v));
            return Some((out, e2 + 2));
        } else {
            return None;
        }
    }
}

/// Reads a text that holds exactly one item.
pub fn from_text(bytes: &[u8]) -> (r: Option<Cbor>)
    ensures
        match r {
            Some(c) => whole_text(bytes@) == Some(c@),
            None => whole_text(bytes@) is None,
        },
{
    match read_text(bytes, 0) {
        Some((c, end)) => if end == bytes.len() {
            Some(c)
        } else {
            None
        },
        None => None,
    }
}

} // verus!
