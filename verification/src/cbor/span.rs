//! Where the items of a run stand in the bytes they were read from.

use crate::cbor::decode::{decode_item, is_break, item_at, pairs_at, pairs_to_break};
use crate::cbor::item::CborV;
use crate::cbor::laws::{lemma_item_bounds, lemma_pairs_bounds, lemma_pairs_to_break_bounds};
use vstd::prelude::*;

verus! {

/// Where the `j`-th item of the run that starts at `pos` begins and ends.
pub open spec fn item_span(s: Seq<u8>, pos: int, j: nat) -> Option<(int, int)>
    decreases j,
{
    match item_at(s, pos) {
        Some((_, e)) => if j == 0 {
            Some((pos, e))
        } else {
            item_span(s, e, (j - 1) as nat)
        },
        None => None,
    }
}

/// Where the run of `n` items that starts at `pos` ends.
pub open spec fn run_end(s: Seq<u8>, pos: int, n: nat) -> Option<int>
    decreases n,
{
    if n == 0 {
        Some(pos)
    } else {
        match item_at(s, pos) {
            Some((_, e)) => run_end(s, e, (n - 1) as nat),
            None => None,
        }
    }
}

/// The `j`-th span of a run is the first span of the run that starts where
/// the first `j` items end.
pub proof fn lemma_span_after(s: Seq<u8>, pos: int, j: nat)
    ensures
        item_span(s, pos, j) == match run_end(s, pos, j) {
            Some(p) => item_span(s, p, 0),
            None => None,
        },
        run_end(s, pos, j + 1) == match item_span(s, pos, j) {
            Some((_, e)) => Some(e),
            None => None,
        },
    decreases j,
{
    reveal_with_fuel(run_end, 2);
    if j > 0 {
        match item_at(s, pos) {
            Some((_, e)) => {
                lemma_span_after(s, e, (j - 1) as nat);
            },
            None => {},
        }
    }
}

/// The spans of the first `n` items from `pos` on, or `None` where fewer
/// than `n` well-formed items stand there.
pub fn item_spans(bytes: &[u8], pos: usize, n: usize) -> (r: Option<Vec<(usize, usize)>>)
    ensures
        match r {
            Some(v) => v.len() == n && forall|j: int|
                0 <= j < n ==> item_span(bytes@, pos as int, j as nat) == Some(
                    ((#[trigger] v@[j]).0 as int, v@[j].1 as int),
                ) && v@[j].0 < v@[j].1 <= bytes.len(),
            None => run_end(bytes@, pos as int, n as nat) is None,
        },
{
    let mut out: Vec<(usize, usize)> = Vec::new();
    let mut cur = pos;
    let mut i: usize = 0;
    while i < n
        invariant
            i <= n,
            out.len() == i,
            run_end(bytes@, pos as int, i as nat) == Some(cur as int),
            forall|j: int|
                0 <= j < i ==> item_span(bytes@, pos as int, j as nat) == Some(
                    ((#[trigger] out@[j]).0 as int, out@[j].1 as int),
                ) && out@[j].0 < out@[j].1 <= bytes.len(),
        decreases n - i,
    {
        proof {
            lemma_span_after(bytes@, pos as int, i as nat);
        }
        match decode_item(bytes, cur) {
            Some((_, end)) => {
                out.push((cur, end));
                cur = end;
            },
            None => {
                proof {
                    lemma_run_fails(bytes@, pos as int, i as nat, n as nat);
                }
                return None;
            },
        }
        i += 1;
    }
    Some(out)
}

/// A run that cannot be read up to `i + 1` items cannot be read further.
pub proof fn lemma_run_fails(s: Seq<u8>, pos: int, i: nat, n: nat)
    requires
        i < n,
        run_end(s, pos, i + 1) is None,
    ensures
        run_end(s, pos, n) is None,
    decreases i,
{
    reveal_with_fuel(run_end, 2);
    match item_at(s, pos) {
        Some((_, e)) => {
            if i > 0 {
                lemma_run_fails(s, e, (i - 1) as nat, (n - 1) as nat);
            }
        },
        None => {},
    }
}

/// The entries of a map stand as a run of twice as many items: the value
/// of the `i`-th entry is the item at place `2 i + 1` of the run.
pub proof fn lemma_pairs_run(
    s: Seq<u8>,
    pos: int,
    n: nat,
    ps: Seq<(CborV, CborV)>,
    e: int,
    i: int,
) -> (span: (int, int))
    requires
        0 <= pos <= s.len(),
        pairs_at(s, pos, n) == Some((ps, e)),
        0 <= i < n,
    ensures
        ps.len() == n,
        e - pos >= 2 * n,
        run_end(s, pos, 2 * n) == Some(e),
        item_span(s, pos, (2 * i + 1) as nat) == Some(span),
        item_at(s, span.0) == Some((ps[i].1, span.1)),
    decreases n,
{
    reveal_with_fuel(run_end, 3);
    reveal_with_fuel(item_span, 3);
    lemma_pairs_bounds(s, pos, n);
    lemma_item_bounds(s, pos);
    let e1 = (item_at(s, pos)->0).1;
    lemma_item_bounds(s, e1);
    let e2 = (item_at(s, e1)->0).1;
    let rest = (pairs_at(s, e2, (n - 1) as nat)->0).0;
    lemma_pairs_bounds(s, e2, (n - 1) as nat);
    if n > 1 {
        let j = if i == 0 {
            0
        } else {
            i - 1
        };
        let sp = lemma_pairs_run(s, e2, (n - 1) as nat, rest, e, j);
        if i == 0 {
            (e1, e2)
        } else {
            assert(ps[i] == rest[i - 1]);
            sp
        }
    } else {
        (e1, e2)
    }
}

/// The same for a map of indefinite length, whose run ends before the
/// break.
pub proof fn lemma_pairs_to_break_run(
    s: Seq<u8>,
    pos: int,
    ps: Seq<(CborV, CborV)>,
    e: int,
    i: int,
) -> (span: (int, int))
    requires
        0 <= pos <= s.len(),
        pairs_to_break(s, pos) == Some((ps, e)),
        0 <= i < ps.len(),
    ensures
        e - pos >= 2 * ps.len() + 1,
        run_end(s, pos, 2 * ps.len()) == Some(e - 1),
        item_span(s, pos, (2 * i + 1) as nat) == Some(span),
        item_at(s, span.0) == Some((ps[i].1, span.1)),
    decreases ps.len(),
{
    reveal_with_fuel(run_end, 3);
    reveal_with_fuel(item_span, 3);
    lemma_pairs_to_break_bounds(s, pos);
    lemma_item_bounds(s, pos);
    let e1 = (item_at(s, pos)->0).1;
    lemma_item_bounds(s, e1);
    let e2 = (item_at(s, e1)->0).1;
    let rest = (pairs_to_break(s, e2)->0).0;
    lemma_pairs_to_break_bounds(s, e2);
    assert(ps =~= seq![ps[0]] + rest);
    if ps.len() > 1 {
        let j = if i == 0 {
            0
        } else {
            i - 1
        };
        let sp = lemma_pairs_to_break_run(s, e2, rest, e, j);
        if i == 0 {
            (e1, e2)
        } else {
            assert(ps[i] == rest[i - 1]);
            sp
        }
    } else {
        assert(rest.len() == 0);
        assert(is_break(s, e2));
        (e1, e2)
    }
}

} // verus!
