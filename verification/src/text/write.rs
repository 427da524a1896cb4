//! The writer of the text form.

use crate::cbor::item::{
    item_views, lemma_element_smaller, lemma_entry_smaller, lemma_view_of_lists, pair_views, Cbor,
    CborV,
};
use crate::hex::hex_bytes;
use crate::text::grammar::{
    bracketed, dec, is_plain, is_plain_byte, member, name, quoted, render, render_items,
    render_pairs, word,
};
use vstd::prelude::*;

verus! {

/// Appends the decimal digits of a number.
pub fn push_dec(out: &mut Vec<u8>, n: u128)
    ensures
        final(out)@ == old(out)@ + dec(n as nat),
    decreases n,
{
    if n < 10 {
        out.push(0x30 + n as u8);
        assert(out@ =~= old(out)@ + dec(n as nat));
    } else {
        push_dec(out, n / 10);
        out.push(0x30 + (n % 10) as u8);
        assert(out@ =~= old(out)@ + dec(n as nat));
    }
}

/// Appends a member name with its quotes and the colon.
pub fn push_name(out: &mut Vec<u8>, kind: u8)
    ensures
        final(out)@ == old(out)@ + name(kind),
{
    out.push(0x22);
    if kind == 0 {
        out.push(0x62);
        out.push(0x79);
        out.push(0x74);
        out.push(0x65);
        out.push(0x73);
    } else if kind == 1 {
        out.push(0x74);
        out.push(0x65);
        out.push(0x78);
        out.push(0x74);
    } else if kind == 2 {
        out.push(0x6d);
        out.push(0x61);
        out.push(0x70);
    } else if kind == 3 {
        out.push(0x74);
        out.push(0x61);
        out.push(0x67);
    } else {
        out.push(0x73);
        out.push(0x69);
        out.push(0x6d);
        out.push(0x70);
        out.push(0x6c);
        out.push(0x65);
    }
    out.push(0x22);
    out.push(0x3a);
    assert(out@ =~= old(out)@ + name(kind));
}

/// Appends one of the words `false`, `true`, `null`.
pub fn push_word(out: &mut Vec<u8>, simple: u8)
    ensures
        final(out)@ == old(out)@ + word(simple),
{
    if simple == 20 {
        out.push(0x66);
        out.push(0x61);
        out.push(0x6c);
        out.push(0x73);
        out.push(0x65);
    } else if simple == 21 {
        out.push(0x74);
        out.push(0x72);
        out.push(0x75);
        out.push(0x65);
    } else {
        out.push(0x6e);
        out.push(0x75);
        out.push(0x6c);
        out.push(0x6c);
    }
    assert(out@ =~= old(out)@ + word(simple));
}

/// Appends bytes in quotes.
pub fn push_quoted(out: &mut Vec<u8>, b: &[u8])
    ensures
        final(out)@ == old(out)@ + quoted(b@),
{
    out.push(0x22);
    out.extend_from_slice(b);
    out.push(0x22);
    assert(out@ =~= old(out)@ + quoted(b@));
}

/// Whether text is written as a plain string.
pub fn plain_check(b: &[u8]) -> (r: bool)
    ensures
        r == is_plain(b@),
{
    let mut i: usize = 0;
    while i < b.len()
        invariant
            i <= b.len(),
            forall|j: int| 0 <= j < i ==> is_plain_byte(#[trigger] b@[j]),
        decreases b.len() - i,
    {
        let c = b[i];
        if !(0x20 <= c && c <= 0x7e && c != 0x22 && c != 0x5c) {
            assert(!is_plain_byte(b@[i as int]));
            return false;
        }
        i += 1;
    }
    true
}

/// Writing a run of items from `i` on: the item, a comma where more
/// follow, and the rest.
pub proof fn lemma_render_items_step(ts: Seq<CborV>, i: int)
    requires
        0 <= i < ts.len(),
    ensures
        render_items(ts.skip(i)) == if i + 1 < ts.len() {
            render(ts[i]) + seq![0x2cu8] + render_items(ts.skip(i + 1))
        } else {
            render(ts[i])
        },
{
    assert(ts.skip(i).drop_first() =~= ts.skip(i + 1));
    assert(ts.skip(i)[0] == ts[i]);
}

/// Writing a run of entries from `i` on.
pub proof fn lemma_render_pairs_step(ps: Seq<(CborV, CborV)>, i: int)
    requires
        0 <= i < ps.len(),
    ensures
        render_pairs(ps.skip(i)) == if i + 1 < ps.len() {
            bracketed(render(ps[i].0) + seq![0x2cu8] + render(ps[i].1)) + seq![0x2cu8]
                + render_pairs(ps.skip(i + 1))
        } else {
            bracketed(render(ps[i].0) + seq![0x2cu8] + render(ps[i].1))
        },
{
    assert(ps.skip(i).drop_first() =~= ps.skip(i + 1));
    assert(ps.skip(i)[0] == ps[i]);
}

/// Appends the text form of an item.
pub fn write_text(item: &Cbor, out: &mut Vec<u8>)
    ensures
        final(out)@ == old(out)@ + render(item@),
    decreases item,
{
    let ghost start = out@;
    match item {
        Cbor::Uint(n) => {
            push_dec(out, *n as u128);
        },
        Cbor::Nint(n) => {
            out.push(0x2d);
            push_dec(out, *n as u128 + 1);
            assert(out@ =~= start + render(item@));
        },
        Cbor::Bytes(b) => {
            out.push(0x7b);
            push_name(out, 0);
            let h = hex_bytes(b.as_slice());
            push_quoted(out, h.as_slice());
            out.push(0x7d);
            assert(out@ =~= start + render(item@));
        },
        Cbor::Text(b) => {
            if plain_check(b.as_slice()) {
                push_quoted(out, b.as_slice());
            } else {
                out.push(0x7b);
                push_name(out, 1);
                let h = hex_bytes(b.as_slice());
                push_quoted(out, h.as_slice());
                out.push(0x7d);
                assert(out@ =~= start + render(item@));
            }
        },
        Cbor::Array(v) => {
            out.push(0x5b);
            let ghost ts = item_views(v@);
            let ghost opened = out@;
            let mut i: usize = 0;
            assert(ts.skip(0) =~= ts);
            while i < v.len()
                invariant
                    *item == Cbor::Array(*v),
                    ts == item_views(v@),
                    i <= v.len(),
                    out@ + render_items(ts.skip(i as int)) == opened + render_items(ts),
                decreases v.len() - i,
            {
                proof {
                    lemma_element_smaller(*item, i as int);
                    lemma_render_items_step(ts, i as int);
                }
                let ghost before = out@;
                write_text(&v[i], out);
                if i + 1 < v.len() {
                    out.push(0x2c);
                    assert((before + render(ts[i as int]) + seq![0x2cu8]) + render_items(
                        ts.skip(i + 1),
                    ) =~= before + (render(ts[i as int]) + seq![0x2cu8] + render_items(
                        ts.skip(i + 1),
                    )));
                    assert(out@ =~= before + render(ts[i as int]) + seq![0x2cu8]);
                } else {
                    assert(ts.skip(i + 1) =~= Seq::<CborV>::empty());
                    assert(out@ + render_items(ts.skip(i + 1)) =~= out@);
                }
                i += 1;
            }
            out.push(0x5d);
            proof {
                lemma_view_of_lists(*item);
                assert(ts.skip(v.len() as int) =~= Seq::<CborV>::empty());
                assert(out@ =~= start + render(item@));
            }
        },
        Cbor::Pairs(v) => {
            out.push(0x7b);
            push_name(out, 2);
            out.push(0x5b);
            let ghost ps = pair_views(v@);
            let ghost opened = out@;
            let mut i: usize = 0;
            assert(ps.skip(0) =~= ps);
            while i < v.len()
                invariant
                    *item == Cbor::Pairs(*v),
                    ps == pair_views(v@),
                    i <= v.len(),
                    out@ + render_pairs(ps.skip(i as int)) == opened + render_pairs(ps),
                decreases v.len() - i,
            {
                proof {
                    lemma_entry_smaller(*item, i as int);
                    lemma_render_pairs_step(ps, i as int);
                }
                let ghost before = out@;
                out.push(0x5b);
                write_text(&v[i].0, out);
                out.push(0x2c);
                write_text(&v[i].1, out);
                out.push(0x5d);
                let ghost pair = bracketed(
                    render(ps[i as int].0) + seq![0x2cu8] + render(ps[i as int].1),
                );
                assert(out@ =~= before + pair);
                if i + 1 < v.len() {
                    out.push(0x2c);
                    assert((before + pair + seq![0x2cu8]) + render_pairs(ps.skip(i + 1)) =~= before
                        + (pair + seq![0x2cu8] + render_pairs(ps.skip(i + 1))));
                    assert(out@ =~= before + pair + seq![0x2cu8]);
                } else {
                    assert(ps.skip(i + 1) =~= Seq::<(CborV, CborV)>::empty());
                    assert(out@ + render_pairs(ps.skip(i + 1)) =~= out@);
                }
                i += 1;
            }
            out.push(0x5d);
            out.push(0x7d);
            proof {
                lemma_view_of_lists(*item);
                assert(ps.skip(v.len() as int) =~= Seq::<(CborV, CborV)>::empty());
                assert(out@ =~= start + render(item@));
            }
        },
        Cbor::Tag(tag, inner) => {
            out.push(0x7b);
            push_name(out, 3);
            out.push(0x5b);
            push_dec(out, *tag as u128);
            out.push(0x2c);
            write_text(&**inner, out);
            out.push(0x5d);
            out.push(0x7d);
            proof {
                lemma_view_of_lists(*item);
                assert(out@ =~= start + render(item@));
            }
        },
        Cbor::Simple(v) => {
            if *v == 20 || *v == 21 || *v == 22 {
                push_word(out, *v);
            } else {
                out.push(0x7b);
                push_name(out, 4);
                push_dec(out, *v as u128);
                out.push(0x7d);
                assert(out@ =~= start + render(item@));
            }
        },
    }
}

/// The text form of an item.
pub fn to_text(item: &Cbor) -> (r: Vec<u8>)
    ensures
        r@ == render(item@),
{
    let mut out: Vec<u8> = Vec::new();
    write_text(item, &mut out);
    assert(out@ =~= render(item@));
    out
}

} // verus!
