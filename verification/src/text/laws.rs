//! What holds between the writer and the reader of the text form.

use crate::ascii::is_ascii;
use crate::cbor::item::CborV;
use crate::cbor::laws::{all_pairs_wf, all_wf, lemma_split, wf};
use crate::hex::{hex, lemma_unhex_hex, unhex};
use crate::text::grammar::{
    at, bracketed, dec, dec_value, digits_end, elems_at, is_digit, is_plain, is_plain_byte, member,
    name, name_at, number_at, pairs_text_at, plain_end, quoted, quoted_at, render, render_items,
    render_pairs, stands, text_at, whole_text, word,
};
use crate::text::read::pow10;
use vstd::prelude::*;

verus! {

/// What stands after an item does not continue it: the text ends there, or
/// a byte that is no digit follows.
pub open spec fn ends_at(s: Seq<u8>, e: int) -> bool {
    e == s.len() || (0 <= e < s.len() && !is_digit(s[e]))
}

/// A stretch of one byte holds that byte.
pub proof fn lemma_one(s: Seq<u8>, pos: int, c: u8)
    requires
        0 <= pos < s.len(),
        s.subrange(pos, pos + 1) == seq![c],
    ensures
        s[pos] == c,
{
    assert(s.subrange(pos, pos + 1)[0] == s[pos]);
}

/// A stretch that holds `a + b + c` holds each in its place.
pub proof fn lemma_split3(s: Seq<u8>, pos: int, a: Seq<u8>, b: Seq<u8>, c: Seq<u8>)
    requires
        0 <= pos,
        pos + (a + b + c).len() <= s.len(),
        s.subrange(pos, pos + (a + b + c).len()) == a + b + c,
    ensures
        s.subrange(pos, pos + a.len()) == a,
        s.subrange(pos + a.len(), pos + a.len() + b.len()) == b,
        s.subrange(pos + a.len() + b.len(), pos + a.len() + b.len() + c.len()) == c,
{
    lemma_split(s, pos, a + b, c);
    lemma_split(s, pos, a, b);
}

/// The digits of a number: at least one, all digits, no leading zero but
/// for zero, and they spell the number.
pub proof fn lemma_dec(n: nat)
    ensures
        dec(n).len() >= 1,
        forall|i: int| 0 <= i < dec(n).len() ==> is_digit(#[trigger] dec(n)[i]),
        dec(n)[0] == 0x30 ==> n == 0,
        n < 10 ==> dec(n).len() == 1,
        dec_value(dec(n), 0, dec(n).len() as int) == n,
    decreases n,
{
    if n >= 10 {
        lemma_dec(n / 10);
        let d = dec(n / 10);
        let full = dec(n);
        assert(full == d.push((0x30 + n % 10) as u8));
        assert forall|i: int| 0 <= i < full.len() implies is_digit(#[trigger] full[i]) by {
            if i < d.len() {
                assert(full[i] == d[i]);
            }
        }
        assert(full[0] == d[0]);
        assert(full.subrange(0, d.len() as int) =~= d.subrange(0, d.len() as int));
        lemma_dec_value_same(full, 0, d, 0, d.len() as int);
        reveal_with_fuel(dec_value, 2);
    } else {
        reveal_with_fuel(dec_value, 2);
    }
}

/// A number below ten to the `k` has at most `k` digits.
pub proof fn lemma_dec_len(n: nat, k: nat)
    requires
        k >= 1,
        n < pow10(k),
    ensures
        dec(n).len() <= k,
    decreases n,
{
    if n >= 10 {
        if k == 1 {
            reveal_with_fuel(pow10, 2);
        } else {
            lemma_dec_len(n / 10, (k - 1) as nat);
        }
    }
}

/// Digits spell the same number wherever they stand.
pub proof fn lemma_dec_value_same(s: Seq<u8>, p: int, t: Seq<u8>, q: int, n: int)
    requires
        0 <= n,
        0 <= p,
        p + n <= s.len(),
        0 <= q,
        q + n <= t.len(),
        s.subrange(p, p + n) == t.subrange(q, q + n),
    ensures
        dec_value(s, p, p + n) == dec_value(t, q, q + n),
    decreases n,
{
    if n > 0 {
        crate::cbor::head::lemma_part_moved(s, p, t, q, n, 0, n - 1);
        lemma_dec_value_same(s, p, t, q, n - 1);
        assert(s.subrange(p, p + n)[n - 1] == s[p + n - 1]);
        assert(t.subrange(q, q + n)[n - 1] == t[q + n - 1]);
    }
}

/// A run of digits that something else follows ends where it ends.
pub proof fn lemma_digits_run(s: Seq<u8>, pos: int, d: Seq<u8>)
    requires
        0 <= pos,
        pos + d.len() <= s.len(),
        s.subrange(pos, pos + d.len()) == d,
        forall|i: int| 0 <= i < d.len() ==> is_digit(#[trigger] d[i]),
        ends_at(s, pos + d.len()),
    ensures
        digits_end(s, pos) == pos + d.len(),
    decreases d.len(),
{
    if d.len() > 0 {
        assert(s.subrange(pos, pos + d.len())[0] == s[pos]);
        assert(is_digit(d[0]));
        let rest = d.drop_first();
        assert(s.subrange(pos + 1, pos + d.len()) =~= rest);
        assert forall|i: int| 0 <= i < rest.len() implies is_digit(#[trigger] rest[i]) by {
            assert(rest[i] == d[i + 1]);
        }
        lemma_digits_run(s, pos + 1, rest);
    }
}

/// Wherever the digits of a number of at most twenty digits stand, with
/// something else after them, the reader reads that number there.
pub proof fn lemma_number_read(n: nat, s: Seq<u8>, pos: int)
    requires
        n <= 0x1_0000_0000_0000_0000,
        0 <= pos,
        pos + dec(n).len() <= s.len(),
        s.subrange(pos, pos + dec(n).len()) == dec(n),
        ends_at(s, pos + dec(n).len()),
    ensures
        number_at(s, pos) == Some((n, pos + dec(n).len())),
        dec(n).len() >= 1,
        is_digit(s[pos]),
{
    let d = dec(n);
    let len = d.len() as int;
    lemma_dec(n);
    assert(pow10(20) == 100_000_000_000_000_000_000) by {
        reveal_with_fuel(pow10, 21);
    }
    lemma_dec_len(n, 20);
    lemma_digits_run(s, pos, d);
    assert(d.subrange(0, len) =~= d);
    lemma_dec_value_same(s, pos, d, 0, len);
    assert(s.subrange(pos, pos + len)[0] == s[pos]);
    assert(is_digit(d[0]));
}

/// A run of plain bytes that a quote follows ends at the quote.
pub proof fn lemma_plain_run(s: Seq<u8>, pos: int, b: Seq<u8>)
    requires
        0 <= pos,
        pos + b.len() < s.len(),
        s.subrange(pos, pos + b.len()) == b,
        is_plain(b),
        s[pos + b.len()] == 0x22,
    ensures
        plain_end(s, pos) == pos + b.len(),
    decreases b.len(),
{
    if b.len() > 0 {
        assert(s.subrange(pos, pos + b.len())[0] == s[pos]);
        assert(is_plain_byte(b[0]));
        let rest = b.drop_first();
        assert(s.subrange(pos + 1, pos + b.len()) =~= rest);
        assert forall|i: int| 0 <= i < rest.len() implies is_plain_byte(#[trigger] rest[i]) by {
            assert(rest[i] == b[i + 1]);
        }
        lemma_plain_run(s, pos + 1, rest);
    }
}

/// Wherever a plain string stands in its quotes, the reader reads it
/// there.
pub proof fn lemma_quoted_read(b: Seq<u8>, s: Seq<u8>, pos: int)
    requires
        is_plain(b),
        0 <= pos,
        pos + quoted(b).len() <= s.len(),
        s.subrange(pos, pos + quoted(b).len()) == quoted(b),
    ensures
        quoted_at(s, pos) == Some((b, pos + b.len() + 2)),
        quoted(b).len() == b.len() + 2,
        s[pos] == 0x22,
{
    let n = b.len() as int;
    lemma_split3(s, pos, seq![0x22u8], b, seq![0x22u8]);
    lemma_one(s, pos, 0x22);
    lemma_one(s, pos + 1 + n, 0x22);
    lemma_plain_run(s, pos + 1, b);
}

/// Hexadecimal text is plain.
pub proof fn lemma_hex_plain(b: Seq<u8>)
    ensures
        is_plain(hex(b)),
{
    let h = hex(b);
    assert forall|i: int| 0 <= i < h.len() implies is_plain_byte(#[trigger] h[i]) by {
        assert(0 <= i / 2 < b.len());
    }
}

/// Wherever a member name stands, the reader finds that name there.
pub proof fn lemma_name_read(kind: u8, s: Seq<u8>, pos: int)
    requires
        kind < 5,
        stands(s, pos, name(kind)),
    ensures
        name_at(s, pos) == Some((kind, pos + name(kind).len())),
        name(kind).len() >= 6,
{
    let n = name(kind);
    assert(s.subrange(pos, pos + n.len())[1] == s[pos + 1]);
    assert(s.subrange(pos, pos + n.len())[2] == s[pos + 2]);
    assert(s[pos + 1] == n[1]);
    assert(s[pos + 2] == n[2]);
    if kind != 0 && stands(s, pos, name(0)) {
        assert(s.subrange(pos, pos + 8)[1] == s[pos + 1]);
    }
    if kind != 1 && stands(s, pos, name(1)) {
        assert(s.subrange(pos, pos + 7)[1] == s[pos + 1]);
        assert(s.subrange(pos, pos + 7)[2] == s[pos + 2]);
    }
    if kind != 2 && stands(s, pos, name(2)) {
        assert(s.subrange(pos, pos + 6)[1] == s[pos + 1]);
    }
    if kind != 3 && stands(s, pos, name(3)) {
        assert(s.subrange(pos, pos + 6)[1] == s[pos + 1]);
        assert(s.subrange(pos, pos + 6)[2] == s[pos + 2]);
    }
}

/// Where an object with one member stands: its brace, its name, its value
/// and its closing brace.
pub proof fn lemma_member_parts(kind: u8, value: Seq<u8>, s: Seq<u8>, pos: int)
    requires
        kind < 5,
        0 <= pos,
        pos + member(kind, value).len() <= s.len(),
        s.subrange(pos, pos + member(kind, value).len()) == member(kind, value),
    ensures
        s[pos] == 0x7b,
        name_at(s, pos + 1) == Some((kind, pos + 1 + name(kind).len())),
        s.subrange(pos + 1 + name(kind).len(), pos + 1 + name(kind).len() + value.len())
            == value,
        at(s, pos + 1 + name(kind).len() + value.len(), 0x7d),
        member(kind, value).len() == name(kind).len() + value.len() + 2,
{
    let open = seq![0x7bu8];
    let close = seq![0x7du8];
    let n = name(kind);
    lemma_split(s, pos, open + n + value, close);
    lemma_split3(s, pos, open, n, value);
    lemma_one(s, pos, 0x7b);
    lemma_one(s, pos + 1 + n.len() + value.len(), 0x7d);
    lemma_name_read(kind, s, pos + 1);
}

/// Where a bracketed list stands: its bracket, its content and its closing
/// bracket.
pub proof fn lemma_bracket_parts(inner: Seq<u8>, s: Seq<u8>, pos: int)
    requires
        0 <= pos,
        pos + bracketed(inner).len() <= s.len(),
        s.subrange(pos, pos + bracketed(inner).len()) == bracketed(inner),
    ensures
        s[pos] == 0x5b,
        s.subrange(pos + 1, pos + 1 + inner.len()) == inner,
        at(s, pos + 1 + inner.len(), 0x5d),
        bracketed(inner).len() == inner.len() + 2,
{
    let open = seq![0x5bu8];
    let close = seq![0x5du8];
    lemma_split3(s, pos, open, inner, close);
    lemma_one(s, pos, 0x5b);
    lemma_one(s, pos + 1 + inner.len(), 0x5d);
}

/// The round trip of a negative integer.
proof fn lemma_text_read_nint(n: u64, s: Seq<u8>, pos: int)
    requires
        0 <= pos,
        pos + render(CborV::Nint(n)).len() <= s.len(),
        s.subrange(pos, pos + render(CborV::Nint(n)).len()) == render(CborV::Nint(n)),
        ends_at(s, pos + render(CborV::Nint(n)).len()),
    ensures
        text_at(s, pos) == Some((CborV::Nint(n), pos + render(CborV::Nint(n)).len())),
{
    let d = dec((n + 1) as nat);
    lemma_split(s, pos, seq![0x2du8], d);
    lemma_one(s, pos, 0x2d);
    lemma_number_read((n + 1) as nat, s, pos + 1);
}

/// The round trip of hexadecimal content under the name for bytes
/// (`kind` 0) or for text (`kind` 1).
proof fn lemma_text_read_hex(kind: u8, b: Seq<u8>, s: Seq<u8>, pos: int)
    requires
        kind == 0 || kind == 1,
        kind == 1 ==> vstd::utf8::valid_utf8(b),
        0 <= pos,
        pos + member(kind, quoted(hex(b))).len() <= s.len(),
        s.subrange(pos, pos + member(kind, quoted(hex(b))).len()) == member(
            kind,
            quoted(hex(b)),
        ),
    ensures
        text_at(s, pos) == Some(
            (
                if kind == 0 {
                    CborV::Bytes(b)
                } else {
                    CborV::Text(b)
                },
                pos + member(kind, quoted(hex(b))).len(),
            ),
        ),
{
    let q = quoted(hex(b));
    lemma_member_parts(kind, q, s, pos);
    lemma_hex_plain(b);
    lemma_quoted_read(hex(b), s, pos + 1 + name(kind).len());
    lemma_unhex_hex(b);
}

/// The round trip of a simple value.
proof fn lemma_text_read_simple(v: u8, s: Seq<u8>, pos: int)
    requires
        v < 24,
        0 <= pos,
        pos + render(CborV::Simple(v)).len() <= s.len(),
        s.subrange(pos, pos + render(CborV::Simple(v)).len()) == render(CborV::Simple(v)),
    ensures
        text_at(s, pos) == Some((CborV::Simple(v), pos + render(CborV::Simple(v)).len())),
{
    if v == 20 || v == 21 || v == 22 {
        assert(s.subrange(pos, pos + word(v).len())[0] == s[pos]);
    } else {
        let d = dec(v as nat);
        lemma_member_parts(4, d, s, pos);
        let p = pos + 1 + name(4).len();
        assert(!is_digit(s[p + d.len()]));
        lemma_number_read(v as nat, s, p);
    }
}

/// The round trip for items that hold no other item.
proof fn lemma_text_read_leaf(t: CborV, s: Seq<u8>, pos: int)
    requires
        wf(t),
        t is Uint || t is Nint || t is Bytes || t is Text || t is Simple,
        0 <= pos,
        pos + render(t).len() <= s.len(),
        s.subrange(pos, pos + render(t).len()) == render(t),
        ends_at(s, pos + render(t).len()),
    ensures
        text_at(s, pos) == Some((t, pos + render(t).len())),
        render(t).len() >= 1,
{
    match t {
        CborV::Uint(n) => {
            lemma_number_read(n as nat, s, pos);
        },
        CborV::Nint(n) => {
            lemma_text_read_nint(n, s, pos);
        },
        CborV::Bytes(b) => {
            lemma_text_read_hex(0, b, s, pos);
        },
        CborV::Text(b) => {
            if is_plain(b) {
                lemma_quoted_read(b, s, pos);
            } else {
                lemma_text_read_hex(1, b, s, pos);
            }
        },
        CborV::Simple(v) => {
            lemma_text_read_simple(v, s, pos);
        },
        _ => {},
    }
}

/// What the reader makes of an array once its items are known.
proof fn lemma_read_array(ts: Seq<CborV>, s: Seq<u8>, pos: int, e: int)
    requires
        0 <= pos < s.len(),
        s[pos] == 0x5b,
        if ts.len() == 0 {
            at(s, pos + 1, 0x5d) && e == pos + 2
        } else {
            !at(s, pos + 1, 0x5d) && elems_at(s, pos + 1) == Some((ts, e))
        },
    ensures
        text_at(s, pos) == Some((CborV::Array(ts), e)),
{
    if ts.len() == 0 {
        assert(ts =~= Seq::<CborV>::empty());
    }
}

/// What the reader makes of a map once its entries are known.
proof fn lemma_read_map(ps: Seq<(CborV, CborV)>, s: Seq<u8>, pos: int, p: int, e: int)
    requires
        0 <= pos < s.len(),
        s[pos] == 0x7b,
        name_at(s, pos + 1) == Some((2u8, p)),
        at(s, p, 0x5b),
        if ps.len() == 0 {
            at(s, p + 1, 0x5d) && e == p + 2
        } else {
            !at(s, p + 1, 0x5d) && pairs_text_at(s, p + 1) == Some((ps, e))
        },
        at(s, e, 0x7d),
    ensures
        text_at(s, pos) == Some((CborV::Pairs(ps), e + 1)),
{
    if ps.len() == 0 {
        assert(ps =~= Seq::<(CborV, CborV)>::empty());
    }
}

/// What the reader makes of a tagged item once the tag and the item are
/// known.
proof fn lemma_read_tag(tag: u64, inner: CborV, s: Seq<u8>, pos: int, p: int, e1: int, e2: int)
    requires
        0 <= pos < s.len(),
        s[pos] == 0x7b,
        name_at(s, pos + 1) == Some((3u8, p)),
        at(s, p, 0x5b),
        number_at(s, p + 1) == Some((tag as nat, e1)),
        at(s, e1, 0x2c),
        text_at(s, e1 + 1) == Some((inner, e2)),
        at(s, e2, 0x5d),
        at(s, e2 + 1, 0x7d),
    ensures
        text_at(s, pos) == Some((CborV::Tag(tag, Box::new(inner)), e2 + 2)),
{
}

/// Wherever the text form of a well-formed item stands, with something
/// after it that does not continue it, the reader reads that item there.
pub proof fn lemma_text_read(t: CborV, s: Seq<u8>, pos: int)
    requires
        wf(t),
        0 <= pos,
        pos + render(t).len() <= s.len(),
        s.subrange(pos, pos + render(t).len()) == render(t),
        ends_at(s, pos + render(t).len()),
    ensures
        text_at(s, pos) == Some((t, pos + render(t).len())),
        render(t).len() >= 1,
    decreases t,
{
    match t {
        CborV::Array(ts) => {
            let inner = render_items(ts);
            lemma_bracket_parts(inner, s, pos);
            if ts.len() > 0 {
                lemma_items_read(ts, s, pos + 1);
            }
            lemma_read_array(ts, s, pos, pos + inner.len() + 2);
        },
        CborV::Pairs(ps) => {
            let inner = render_pairs(ps);
            let list = bracketed(inner);
            lemma_member_parts(2, list, s, pos);
            let p = pos + 1 + name(2).len();
            lemma_bracket_parts(inner, s, p);
            if ps.len() > 0 {
                lemma_pairs_read(ps, s, p + 1);
            }
            lemma_read_map(ps, s, pos, p, p + inner.len() + 2);
        },
        CborV::Tag(tag, inner) => {
            let d = dec(tag as nat);
            let x = render(*inner);
            let content = d + seq![0x2cu8] + x;
            let list = bracketed(content);
            lemma_member_parts(3, list, s, pos);
            let p = pos + 1 + name(3).len();
            lemma_bracket_parts(content, s, p);
            lemma_split3(s, p + 1, d, seq![0x2cu8], x);
            let e1 = p + 1 + d.len();
            lemma_one(s, e1, 0x2c);
            lemma_number_read(tag as nat, s, p + 1);
            lemma_text_read(*inner, s, e1 + 1);
            lemma_read_tag(tag, *inner, s, pos, p, e1, e1 + 1 + x.len());
        },
        _ => {
            lemma_text_read_leaf(t, s, pos);
        },
    }
}

/// The items of a non-empty array read back, up to its closing bracket.
pub proof fn lemma_items_read(ts: Seq<CborV>, s: Seq<u8>, pos: int)
    requires
        ts.len() >= 1,
        forall|i: int| 0 <= i < ts.len() ==> wf(#[trigger] ts[i]),
        0 <= pos,
        pos + render_items(ts).len() < s.len(),
        s.subrange(pos, pos + render_items(ts).len()) == render_items(ts),
        s[pos + render_items(ts).len()] == 0x5d,
    ensures
        elems_at(s, pos) == Some((ts, pos + render_items(ts).len() + 1)),
        !at(s, pos, 0x5d),
    decreases ts,
{
    let first = render(ts[0]);
    if ts.len() == 1 {
        lemma_text_read(ts[0], s, pos);
        assert(ts =~= seq![ts[0]]);
    } else {
        let rest = ts.drop_first();
        let tail = render_items(rest);
        lemma_split3(s, pos, first, seq![0x2cu8], tail);
        lemma_one(s, pos + first.len(), 0x2c);
        lemma_text_read(ts[0], s, pos);
        assert forall|i: int| 0 <= i < rest.len() implies wf(#[trigger] rest[i]) by {
            assert(rest[i] == ts[i + 1]);
        }
        lemma_items_read(rest, s, pos + first.len() + 1);
        assert(seq![ts[0]] + rest =~= ts);
    }
}

/// The entries of a non-empty map read back, up to the closing bracket of
/// their list.
pub proof fn lemma_pairs_read(ps: Seq<(CborV, CborV)>, s: Seq<u8>, pos: int)
    requires
        ps.len() >= 1,
        forall|i: int| 0 <= i < ps.len() ==> wf((#[trigger] ps[i]).0) && wf(ps[i].1),
        0 <= pos,
        pos + render_pairs(ps).len() < s.len(),
        s.subrange(pos, pos + render_pairs(ps).len()) == render_pairs(ps),
        s[pos + render_pairs(ps).len()] == 0x5d,
    ensures
        pairs_text_at(s, pos) == Some((ps, pos + render_pairs(ps).len() + 1)),
        !at(s, pos, 0x5d),
    decreases ps,
{
    let k = render(ps[0].0);
    let v = render(ps[0].1);
    let content = k + seq![0x2cu8] + v;
    let pair = bracketed(content);
    assert(wf(ps[0].0) && wf(ps[0].1));
    if ps.len() == 1 {
        lemma_bracket_parts(content, s, pos);
        lemma_split3(s, pos + 1, k, seq![0x2cu8], v);
        lemma_one(s, pos + 1 + k.len(), 0x2c);
        lemma_text_read(ps[0].0, s, pos + 1);
        lemma_text_read(ps[0].1, s, pos + 2 + k.len());
        assert(ps =~= seq![ps[0]]);
    } else {
        let rest = ps.drop_first();
        let tail = render_pairs(rest);
        lemma_split3(s, pos, pair, seq![0x2cu8], tail);
        lemma_one(s, pos + pair.len(), 0x2c);
        lemma_bracket_parts(content, s, pos);
        lemma_split3(s, pos + 1, k, seq![0x2cu8], v);
        lemma_one(s, pos + 1 + k.len(), 0x2c);
        lemma_text_read(ps[0].0, s, pos + 1);
        lemma_text_read(ps[0].1, s, pos + 2 + k.len());
        assert forall|i: int| 0 <= i < rest.len() implies wf((#[trigger] rest[i]).0) && wf(
            rest[i].1,
        ) by {
            assert(rest[i] == ps[i + 1]);
        }
        lemma_pairs_read(rest, s, pos + pair.len() + 1);
        assert(seq![ps[0]] + rest =~= ps);
    }
}

/// Where a run of digits or of plain bytes ends: not before its start and
/// not after the end of the text.
pub proof fn lemma_runs_end(s: Seq<u8>, pos: int)
    requires
        0 <= pos <= s.len(),
    ensures
        pos <= digits_end(s, pos) <= s.len(),
        pos <= plain_end(s, pos) <= s.len(),
        is_plain(s.subrange(pos, plain_end(s, pos))),
    decreases s.len() - pos,
{
    if pos < s.len() {
        lemma_runs_end(s, pos + 1);
        if is_plain_byte(s[pos]) {
            let b = s.subrange(pos, plain_end(s, pos));
            let rest = s.subrange(pos + 1, plain_end(s, pos + 1));
            assert forall|i: int| 0 <= i < b.len() implies is_plain_byte(#[trigger] b[i]) by {
                if i > 0 {
                    assert(b[i] == rest[i - 1]);
                }
            }
        } else {
            assert(s.subrange(pos, pos) =~= Seq::<u8>::empty());
        }
    } else {
        assert(s.subrange(pos, pos) =~= Seq::<u8>::empty());
    }
}

/// Plain text is valid UTF-8.
pub proof fn lemma_plain_is_utf8(b: Seq<u8>)
    requires
        is_plain(b),
    ensures
        vstd::utf8::valid_utf8(b),
{
    assert(is_ascii(b)) by {
        assert forall|i: int| 0 <= i < b.len() implies #[trigger] b[i] < 128 by {
            assert(is_plain_byte(b[i]));
        }
    }
    crate::ascii::lemma_ascii_is_utf8(b);
}

/// What is read from a plain string: where it ends, and that its content
/// is plain and no longer than the text.
pub proof fn lemma_quoted_bounds(s: Seq<u8>, pos: int)
    ensures
        quoted_at(s, pos) matches Some((b, e)) ==> pos + 2 <= e <= s.len() && is_plain(b)
            && b.len() <= s.len(),
{
    if 0 <= pos < s.len() {
        lemma_runs_end(s, pos + 1);
    }
}

/// What is read from hexadecimal text is shorter than the text.
pub proof fn lemma_unhex_len(h: Seq<u8>)
    ensures
        unhex(h) matches Some(b) ==> b.len() <= h.len(),
{
}

/// The item that the text form is read as ends after its start and within
/// the text, and is well formed.
pub proof fn lemma_text_is_wf(s: Seq<u8>, pos: int)
    requires
        s.len() <= u64::MAX,
    ensures
        text_at(s, pos) matches Some((t, e)) ==> pos < e <= s.len() && wf(t),
    decreases s.len() - pos, 0int,
{
    if 0 <= pos < s.len() {
        lemma_runs_end(s, pos);
        lemma_runs_end(s, pos + 1);
        if s[pos] == 0x22 {
            lemma_quoted_bounds(s, pos);
            match quoted_at(s, pos) {
                Some((b, _)) => {
                    lemma_plain_is_utf8(b);
                },
                None => {},
            }
        } else if s[pos] == 0x5b {
            if !at(s, pos + 1, 0x5d) {
                lemma_elems_are_wf(s, pos + 1);
            }
        } else if s[pos] == 0x7b {
            match name_at(s, pos + 1) {
                Some((kind, p)) => {
                    if kind == 0 || kind == 1 {
                        lemma_quoted_bounds(s, p);
                        match quoted_at(s, p) {
                            Some((h, _)) => {
                                lemma_unhex_len(h);
                            },
                            None => {},
                        }
                    } else if kind == 2 {
                        if at(s, p, 0x5b) && !at(s, p + 1, 0x5d) {
                            lemma_pairs_text_are_wf(s, p + 1);
                        }
                    } else if kind == 3 {
                        if at(s, p, 0x5b) {
                            lemma_runs_end(s, p + 1);
                            match number_at(s, p + 1) {
                                Some((_, e1)) => {
                                    if at(s, e1, 0x2c) {
                                        lemma_text_is_wf(s, e1 + 1);
                                    }
                                },
                                None => {},
                            }
                        }
                    } else {
                        if p <= s.len() {
                            lemma_runs_end(s, p);
                        }
                    }
                },
                None => {},
            }
        }
    }
}

/// The items read from a non-empty array are well formed and no more than the
/// bytes they stand in.
pub proof fn lemma_elems_are_wf(s: Seq<u8>, pos: int)
    requires
        s.len() <= u64::MAX,
    ensures
        elems_at(s, pos) matches Some((ts, e)) ==> pos < e <= s.len() && all_wf(ts) && ts.len()
            <= e - pos,
    decreases s.len() - pos, 1int,
{
    lemma_text_is_wf(s, pos);
    match text_at(s, pos) {
        Some((v, e)) => {
            if pos < e < s.len() && s[e] == 0x2c {
                lemma_elems_are_wf(s, e + 1);
                match elems_at(s, e + 1) {
                    Some((rest, _)) => {
                        let ts = seq![v] + rest;
                        assert forall|i: int| 0 <= i < ts.len() implies wf(#[trigger] ts[i]) by {
                            if i > 0 {
                                assert(ts[i] == rest[i - 1]);
                            }
                        }
                    },
                    None => {},
                }
            }
        },
        None => {},
    }
}

/// The entries read from a non-empty map are well formed and no more than the
/// bytes they stand in.
pub proof fn lemma_pairs_text_are_wf(s: Seq<u8>, pos: int)
    requires
        s.len() <= u64::MAX,
    ensures
        pairs_text_at(s, pos) matches Some((ps, e)) ==> pos < e <= s.len() && all_pairs_wf(ps)
            && ps.len() <= e - pos,
    decreases s.len() - pos, 1int,
{
    if at(s, pos, 0x5b) {
        lemma_text_is_wf(s, pos + 1);
        match text_at(s, pos + 1) {
            Some((k, e1)) => {
                if pos + 1 < e1 < s.len() && s[e1] == 0x2c {
                    lemma_text_is_wf(s, e1 + 1);
                    match text_at(s, e1 + 1) {
                        Some((v, e2)) => {
                            if e1 + 1 < e2 && e2 + 1 < s.len() && s[e2] == 0x5d && s[e2 + 1]
                                == 0x2c {
                                lemma_pairs_text_are_wf(s, e2 + 2);
                                match pairs_text_at(s, e2 + 2) {
                                    Some((rest, _)) => {
                                        let ps = seq![(k, v)] + rest;
                                        assert forall|i: int| 0 <= i < ps.len() implies wf(
                                            (#[trigger] ps[i]).0,
                                        ) && wf(ps[i].1) by {
                                            if i > 0 {
                                                assert(ps[i] == rest[i - 1]);
                                            }
                                        }
                                    },
                                    None => {},
                                }
                            }
                        },
                        None => {},
                    }
                }
            },
            None => {},
        }
    }
}

/// Reading the text form of a well-formed item gives the item back.
pub proof fn lemma_text_round_trip(t: CborV)
    requires
        wf(t),
    ensures
        whole_text(render(t)) == Some(t),
{
    let s = render(t);
    assert(s.subrange(0, s.len() as int) =~= s);
    lemma_text_read(t, s, 0);
}

/// Joining ASCII texts gives ASCII text.
pub proof fn lemma_ascii_join(a: Seq<u8>, b: Seq<u8>)
    requires
        is_ascii(a),
        is_ascii(b),
    ensures
        is_ascii(a + b),
{
    assert forall|i: int| 0 <= i < (a + b).len() implies #[trigger] (a + b)[i] < 128 by {
        if i < a.len() {
            assert(a[i] < 128);
        } else {
            assert(b[i - a.len()] < 128);
        }
    }
}

/// An object with one member whose value is ASCII is ASCII.
pub proof fn lemma_ascii_member(kind: u8, value: Seq<u8>)
    requires
        is_ascii(value),
    ensures
        is_ascii(member(kind, value)),
{
    lemma_ascii_join(seq![0x7bu8], name(kind));
    lemma_ascii_join(seq![0x7bu8] + name(kind), value);
    lemma_ascii_join(seq![0x7bu8] + name(kind) + value, seq![0x7du8]);
}

/// ASCII text between two ASCII bytes is ASCII.
pub proof fn lemma_ascii_wrapped(open: u8, inner: Seq<u8>, close: u8)
    requires
        open < 128,
        close < 128,
        is_ascii(inner),
    ensures
        is_ascii(seq![open] + inner + seq![close]),
{
    lemma_ascii_join(seq![open], inner);
    lemma_ascii_join(seq![open] + inner, seq![close]);
}

/// The digits of a number are ASCII.
pub proof fn lemma_ascii_dec(n: nat)
    ensures
        is_ascii(dec(n)),
{
    lemma_dec(n);
    assert forall|i: int| 0 <= i < dec(n).len() implies #[trigger] dec(n)[i] < 128 by {
        assert(is_digit(dec(n)[i]));
    }
}

/// Hexadecimal text in quotes is ASCII.
pub proof fn lemma_ascii_hex(b: Seq<u8>)
    ensures
        is_ascii(quoted(hex(b))),
{
    lemma_unhex_hex(b);
    lemma_ascii_wrapped(0x22, hex(b), 0x22);
}

/// The text form of any item is ASCII.
pub proof fn lemma_render_ascii(t: CborV)
    ensures
        is_ascii(render(t)),
    decreases t,
{
    match t {
        CborV::Uint(n) => {
            lemma_ascii_dec(n as nat);
        },
        CborV::Nint(n) => {
            lemma_ascii_dec((n + 1) as nat);
            lemma_ascii_join(seq![0x2du8], dec((n + 1) as nat));
        },
        CborV::Bytes(b) => {
            lemma_ascii_hex(b);
            lemma_ascii_member(0, quoted(hex(b)));
        },
        CborV::Text(b) => {
            if is_plain(b) {
                assert(is_ascii(b)) by {
                    assert forall|i: int| 0 <= i < b.len() implies #[trigger] b[i] < 128 by {
                        assert(is_plain_byte(b[i]));
                    }
                }
                lemma_ascii_wrapped(0x22, b, 0x22);
            } else {
                lemma_ascii_hex(b);
                lemma_ascii_member(1, quoted(hex(b)));
            }
        },
        CborV::Array(ts) => {
            lemma_render_items_ascii(ts);
            lemma_ascii_wrapped(0x5b, render_items(ts), 0x5d);
        },
        CborV::Pairs(ps) => {
            lemma_render_pairs_ascii(ps);
            lemma_ascii_wrapped(0x5b, render_pairs(ps), 0x5d);
            lemma_ascii_member(2, bracketed(render_pairs(ps)));
        },
        CborV::Tag(tag, inner) => {
            lemma_ascii_dec(tag as nat);
            lemma_render_ascii(*inner);
            lemma_ascii_join(dec(tag as nat), seq![0x2cu8]);
            lemma_ascii_join(dec(tag as nat) + seq![0x2cu8], render(*inner));
            let content = dec(tag as nat) + seq![0x2cu8] + render(*inner);
            lemma_ascii_wrapped(0x5b, content, 0x5d);
            lemma_ascii_member(3, bracketed(content));
        },
        CborV::Simple(v) => {
            if v == 20 || v == 21 || v == 22 {
            } else {
                lemma_ascii_dec(v as nat);
                lemma_ascii_member(4, dec(v as nat));
            }
        },
    }
}

/// The text form of a run of items is ASCII.
pub proof fn lemma_render_items_ascii(ts: Seq<CborV>)
    ensures
        is_ascii(render_items(ts)),
    decreases ts,
{
    if ts.len() == 1 {
        lemma_render_ascii(ts[0]);
    } else if ts.len() > 1 {
        lemma_render_ascii(ts[0]);
        lemma_render_items_ascii(ts.drop_first());
        lemma_ascii_join(render(ts[0]), seq![0x2cu8]);
        lemma_ascii_join(render(ts[0]) + seq![0x2cu8], render_items(ts.drop_first()));
    }
}

/// The text form of a run of entries is ASCII.
pub proof fn lemma_render_pairs_ascii(ps: Seq<(CborV, CborV)>)
    ensures
        is_ascii(render_pairs(ps)),
    decreases ps,
{
    if ps.len() >= 1 {
        lemma_render_ascii(ps[0].0);
        lemma_render_ascii(ps[0].1);
        lemma_ascii_join(render(ps[0].0), seq![0x2cu8]);
        lemma_ascii_join(render(ps[0].0) + seq![0x2cu8], render(ps[0].1));
        let content = render(ps[0].0) + seq![0x2cu8] + render(ps[0].1);
        lemma_ascii_wrapped(0x5b, content, 0x5d);
        if ps.len() > 1 {
            lemma_render_pairs_ascii(ps.drop_first());
            lemma_ascii_join(bracketed(content), seq![0x2cu8]);
            lemma_ascii_join(bracketed(content) + seq![0x2cu8], render_pairs(ps.drop_first()));
        }
    }
}

} // verus!
