//! What the text form of an item is, and what item a text stands for.

use crate::cbor::decode::prepend;
use crate::cbor::item::CborV;
use crate::hex::{hex, unhex};
use vstd::prelude::*;
use vstd::utf8::valid_utf8;

verus! {

/// A decimal digit.
pub open spec fn is_digit(c: u8) -> bool {
    0x30 <= c <= 0x39
}

/// A byte that stands for itself inside a string: printable ASCII but the
/// quote and the backslash.
pub open spec fn is_plain_byte(c: u8) -> bool {
    0x20 <= c <= 0x7e && c != 0x22 && c != 0x5c
}

/// Text that is written as a plain string.
pub open spec fn is_plain(b: Seq<u8>) -> bool {
    forall|i: int| 0 <= i < b.len() ==> is_plain_byte(#[trigger] b[i])
}

/// Where the run of digits that starts at `pos` ends.
pub open spec fn digits_end(s: Seq<u8>, pos: int) -> int
    decreases s.len() - pos,
{
    if 0 <= pos < s.len() && is_digit(s[pos]) {
        digits_end(s, pos + 1)
    } else {
        pos
    }
}

/// Where the run of plain bytes that starts at `pos` ends.
pub open spec fn plain_end(s: Seq<u8>, pos: int) -> int
    decreases s.len() - pos,
{
    if 0 <= pos < s.len() && is_plain_byte(s[pos]) {
        plain_end(s, pos + 1)
    } else {
        pos
    }
}

/// The number that the decimal digits from `from` up to `to` spell.
pub open spec fn dec_value(s: Seq<u8>, from: int, to: int) -> nat
    decreases to - from,
{
    if to <= from {
        0
    } else {
        dec_value(s, from, to - 1) * 10 + (s[to - 1] - 0x30) as nat
    }
}

/// The number at `pos`: one to twenty digits, without a leading zero but
/// for zero itself.
pub open spec fn number_at(s: Seq<u8>, pos: int) -> Option<(nat, int)> {
    let e = digits_end(s, pos);
    if 0 <= pos < e && e - pos <= 20 && (s[pos] != 0x30 || e == pos + 1) {
        Some((dec_value(s, pos, e), e))
    } else {
        None
    }
}

/// The decimal digits of a number.
pub open spec fn dec(n: nat) -> Seq<u8>
    decreases n,
{
    if n < 10 {
        seq![(0x30 + n) as u8]
    } else {
        dec(n / 10).push((0x30 + n % 10) as u8)
    }
}

/// The text stands at `pos`.
pub open spec fn stands(s: Seq<u8>, pos: int, lit: Seq<u8>) -> bool {
    0 <= pos && pos + lit.len() <= s.len() && s.subrange(pos, pos + lit.len()) == lit
}

/// The member names, with their quotes and the colon: `"bytes":`,
/// `"text":`, `"map":`, `"tag":`, `"simple":`.
pub open spec fn name(kind: u8) -> Seq<u8> {
    if kind == 0 {
        seq![0x22, 0x62, 0x79, 0x74, 0x65, 0x73, 0x22, 0x3a]
    } else if kind == 1 {
        seq![0x22, 0x74, 0x65, 0x78, 0x74, 0x22, 0x3a]
    } else if kind == 2 {
        seq![0x22, 0x6d, 0x61, 0x70, 0x22, 0x3a]
    } else if kind == 3 {
        seq![0x22, 0x74, 0x61, 0x67, 0x22, 0x3a]
    } else {
        seq![0x22, 0x73, 0x69, 0x6d, 0x70, 0x6c, 0x65, 0x22, 0x3a]
    }
}

/// The words `false`, `true` and `null`, by the simple value they stand
/// for.
pub open spec fn word(simple: u8) -> Seq<u8> {
    if simple == 20 {
        seq![0x66, 0x61, 0x6c, 0x73, 0x65]
    } else if simple == 21 {
        seq![0x74, 0x72, 0x75, 0x65]
    } else {
        seq![0x6e, 0x75, 0x6c, 0x6c]
    }
}

/// The member name at `pos` and where it ends.
pub open spec fn name_at(s: Seq<u8>, pos: int) -> Option<(u8, int)> {
    if stands(s, pos, name(0)) {
        Some((0, pos + 8))
    } else if stands(s, pos, name(1)) {
        Some((1, pos + 7))
    } else if stands(s, pos, name(2)) {
        Some((2, pos + 6))
    } else if stands(s, pos, name(3)) {
        Some((3, pos + 6))
    } else if stands(s, pos, name(4)) {
        Some((4, pos + 9))
    } else {
        None
    }
}

/// The byte at `pos` is `c`.
pub open spec fn at(s: Seq<u8>, pos: int, c: u8) -> bool {
    0 <= pos < s.len() && s[pos] == c
}

/// The plain string at `pos`, without its quotes, and where it ends.
pub open spec fn quoted_at(s: Seq<u8>, pos: int) -> Option<(Seq<u8>, int)> {
    if at(s, pos, 0x22) && at(s, plain_end(s, pos + 1), 0x22) {
        Some((s.subrange(pos + 1, plain_end(s, pos + 1)), plain_end(s, pos + 1) + 1))
    } else {
        None
    }
}

/// The item whose text form starts at `pos`, and where that form ends.
pub open spec fn text_at(s: Seq<u8>, pos: int) -> Option<(CborV, int)>
    decreases s.len() - pos, 0int,
{
    if !(0 <= pos < s.len()) {
        None
    } else if is_digit(s[pos]) {
        match number_at(s, pos) {
            Some((v, e)) => if v <= u64::MAX {
                Some((CborV::Uint(v as u64), e))
            } else {
                None
            },
            None => None,
        }
    } else if s[pos] == 0x2d {
        match number_at(s, pos + 1) {
            Some((v, e)) => if 1 <= v <= 0x1_0000_0000_0000_0000 {
                Some((CborV::Nint((v - 1) as u64), e))
            } else {
                None
            },
            None => None,
        }
    } else if s[pos] == 0x22 {
        match quoted_at(s, pos) {
            Some((b, e)) => Some((CborV::Text(b), e)),
            None => None,
        }
    } else if s[pos] == 0x5b {
        if at(s, pos + 1, 0x5d) {
            Some((CborV::Array(Seq::empty()), pos + 2))
        } else {
            match elems_at(s, pos + 1) {
                Some((v, e)) => Some((CborV::Array(v), e)),
                None => None,
            }
        }
    } else if s[pos] == 0x66 {
        if stands(s, pos, word(20)) {
            Some((CborV::Simple(20), pos + 5))
        } else {
            None
        }
    } else if s[pos] == 0x74 {
        if stands(s, pos, word(21)) {
            Some((CborV::Simple(21), pos + 4))
        } else {
            None
        }
    } else if s[pos] == 0x6e {
        if stands(s, pos, word(22)) {
            Some((CborV::Simple(22), pos + 4))
        } else {
            None
        }
    } else if s[pos] == 0x7b {
        match name_at(s, pos + 1) {
            Some((kind, p)) => if kind == 0 || kind == 1 {
                match quoted_at(s, p) {
                    Some((h, e)) => match unhex(h) {
                        Some(b) => if at(s, e, 0x7d) && (kind == 1 ==> valid_utf8(b)) {
                            Some(
                                (
                                    if kind == 0 {
                                        CborV::Bytes(b)
                                    } else {
                                        CborV::Text(b)
                                    },
                                    e + 1,
                                ),
                            )
                        } else {
                            None
                        },
                        None => None,
                    },
                    None => None,
                }
            } else if kind == 2 {
                if at(s, p, 0x5b) {
                    let r = if at(s, p + 1, 0x5d) {
                        Some((Seq::<(CborV, CborV)>::empty(), p + 2))
                    } else {
                        pairs_text_at(s, p + 1)
                    };
                    match r {
                        Some((ps, e)) => if at(s, e, 0x7d) {
                            Some((CborV::Pairs(ps), e + 1))
                        } else {
                            None
                        },
                        None => None,
                    }
                } else {
                    None
                }
            } else if kind == 3 {
                if at(s, p, 0x5b) {
                    match number_at(s, p + 1) {
                        Some((tag, e1)) => if tag <= u64::MAX && at(s, e1, 0x2c) {
                            match text_at(s, e1 + 1) {
                                Some((x, e2)) => if at(s, e2, 0x5d) && at(s, e2 + 1, 0x7d) {
                                    Some((CborV::Tag(tag as u64, Box::new(x)), e2 + 2))
                                } else {
                                    None
                                },
                                None => None,
                            }
                        } else {
                            None
                        },
                        None => None,
                    }
                } else {
                    None
                }
            } else {
                match number_at(s, p) {
                    Some((v, e)) => if v < 24 && at(s, e, 0x7d) {
                        Some((CborV::Simple(v as u8), e + 1))
                    } else {
                        None
                    },
                    None => None,
                }
            },
            None => None,
        }
    } else {
        None
    }
}

/// The items of a non-empty array from `pos`, after its opening bracket,
/// up to and with its closing bracket.
pub open spec fn elems_at(s: Seq<u8>, pos: int) -> Option<(Seq<CborV>, int)>
    decreases s.len() - pos, 1int,
{
    match text_at(s, pos) {
        Some((v, e)) => if pos < e < s.len() {
            if s[e] == 0x2c {
                prepend(seq![v], elems_at(s, e + 1))
            } else if s[e] == 0x5d {
                Some((seq![v], e + 1))
            } else {
                None
            }
        } else {
            None
        },
        None => None,
    }
}

/// The entries of a non-empty map from `pos`, after the opening bracket of
/// their list, up to and with its closing bracket. Each entry is an array
/// of key and value.
pub open spec fn pairs_text_at(s: Seq<u8>, pos: int) -> Option<(Seq<(CborV, CborV)>, int)>
    decreases s.len() - pos, 1int,
{
    if at(s, pos, 0x5b) {
        match text_at(s, pos + 1) {
            Some((k, e1)) => if pos + 1 < e1 < s.len() && s[e1] == 0x2c {
                match text_at(s, e1 + 1) {
                    Some((v, e2)) => if e1 + 1 < e2 && e2 + 1 < s.len() && s[e2] == 0x5d {
                        if s[e2 + 1] == 0x2c {
                            prepend(seq![(k, v)], pairs_text_at(s, e2 + 2))
                        } else if s[e2 + 1] == 0x5d {
                            Some((seq![(k, v)], e2 + 2))
                        } else {
                            None
                        }
                    } else {
                        None
                    },
                    None => None,
                }
            } else {
                None
            },
            None => None,
        }
    } else {
        None
    }
}

/// The item that a text holds, when it holds exactly one.
pub open spec fn whole_text(s: Seq<u8>) -> Option<CborV> {
    match text_at(s, 0) {
        Some((v, e)) => if e == s.len() {
            Some(v)
        } else {
            None
        },
        None => None,
    }
}

/// A string in its quotes.
pub open spec fn quoted(b: Seq<u8>) -> Seq<u8> {
    seq![0x22u8] + b + seq![0x22u8]
}

/// An object with one member.
pub open spec fn member(kind: u8, value: Seq<u8>) -> Seq<u8> {
    seq![0x7bu8] + name(kind) + value + seq![0x7du8]
}

/// A list in its brackets.
pub open spec fn bracketed(inner: Seq<u8>) -> Seq<u8> {
    seq![0x5bu8] + inner + seq![0x5du8]
}

/// The text form of an item.
pub open spec fn render(t: CborV) -> Seq<u8>
    decreases t,
{
    match t {
        CborV::Uint(n) => dec(n as nat),
        CborV::Nint(n) => seq![0x2du8] + dec((n + 1) as nat),
        CborV::Bytes(b) => member(0, quoted(hex(b))),
        CborV::Text(b) => if is_plain(b) {
            quoted(b)
        } else {
            member(1, quoted(hex(b)))
        },
        CborV::Array(ts) => bracketed(render_items(ts)),
        CborV::Pairs(ps) => member(2, bracketed(render_pairs(ps))),
        CborV::Tag(tag, inner) => member(
            3,
            bracketed(dec(tag as nat) + seq![0x2cu8] + render(*inner)),
        ),
        CborV::Simple(v) => if v == 20 || v == 21 || v == 22 {
            word(v)
        } else {
            member(4, dec(v as nat))
        },
    }
}

/// Items with commas between them.
pub open spec fn render_items(ts: Seq<CborV>) -> Seq<u8>
    decreases ts,
{
    if ts.len() == 0 {
        Seq::empty()
    } else if ts.len() == 1 {
        render(ts[0])
    } else {
        render(ts[0]) + seq![0x2cu8] + render_items(ts.drop_first())
    }
}

/// Entries with commas between them.
pub open spec fn render_pairs(ps: Seq<(CborV, CborV)>) -> Seq<u8>
    decreases ps,
{
    if ps.len() == 0 {
        Seq::empty()
    } else if ps.len() == 1 {
        bracketed(render(ps[0].0) + seq![0x2cu8] + render(ps[0].1))
    } else {
        bracketed(render(ps[0].0) + seq![0x2cu8] + render(ps[0].1)) + seq![0x2cu8] + render_pairs(
            ps.drop_first(),
        )
    }
}

} // verus!
