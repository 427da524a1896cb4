//! Maps keyed by small unsigned numbers, as transaction bodies and witness
//! sets are: a list of fields in the order written.

use crate::cbor::item::{lemma_view_of_lists, pair_views, Cbor, CborV};
use vstd::prelude::*;

verus! {

/// What a list of fields holds.
pub open spec fn field_views(f: Seq<(u64, Cbor)>) -> Seq<(u64, CborV)> {
    Seq::new(f.len(), |i: int| (f[i].0, f[i].1@))
}

/// The entries of the map item that a list of fields is written as.
pub open spec fn field_trees(f: Seq<(u64, CborV)>) -> Seq<(CborV, CborV)> {
    Seq::new(f.len(), |i: int| (CborV::Uint(f[i].0), f[i].1))
}

/// Every key of the entries is an unsigned integer.
pub open spec fn uint_keys(ps: Seq<(CborV, CborV)>) -> bool {
    forall|i: int| 0 <= i < ps.len() ==> (#[trigger] ps[i]).0 is Uint
}

/// The fields that the entries of a map item stand for.
pub open spec fn fields_of(ps: Seq<(CborV, CborV)>) -> Option<Seq<(u64, CborV)>> {
    if uint_keys(ps) {
        Some(Seq::new(ps.len(), |i: int| (ps[i].0->Uint_0, ps[i].1)))
    } else {
        None
    }
}

/// The fields of a map item whose keys are all unsigned integers.
pub open spec fn fields_of_tree(t: CborV) -> Option<Seq<(u64, CborV)>> {
    match t {
        CborV::Pairs(ps) => fields_of(ps),
        _ => None,
    }
}

/// The first place at or after `from` that holds `key`.
pub open spec fn first_at(f: Seq<(u64, CborV)>, key: u64, from: int) -> Option<int>
    decreases f.len() - from,
{
    if from < 0 || from >= f.len() {
        None
    } else if f[from].0 == key {
        Some(from)
    } else {
        first_at(f, key, from + 1)
    }
}

/// The value of the first field that holds `key`.
pub open spec fn field(f: Seq<(u64, CborV)>, key: u64) -> Option<CborV> {
    match first_at(f, key, 0) {
        Some(i) => Some(f[i].1),
        None => None,
    }
}

/// No key occurs twice.
pub open spec fn distinct_keys(f: Seq<(u64, CborV)>) -> bool {
    forall|i: int, j: int| 0 <= i < j < f.len() ==> (#[trigger] f[i]).0 != (#[trigger] f[j]).0
}

/// What `first_at` finds is the first field with the key, and where it
/// finds none there is none.
pub proof fn lemma_first_at(f: Seq<(u64, CborV)>, key: u64, from: int)
    requires
        0 <= from,
    ensures
        match first_at(f, key, from) {
            Some(i) => from <= i < f.len() && f[i].0 == key && forall|j: int|
                from <= j < i ==> (#[trigger] f[j]).0 != key,
            None => forall|j: int| from <= j < f.len() ==> (#[trigger] f[j]).0 != key,
        },
    decreases f.len() - from,
{
    if from < f.len() && f[from].0 != key {
        lemma_first_at(f, key, from + 1);
    }
}

/// Written fields read back as they were.
pub proof fn lemma_fields_round_trip(f: Seq<(u64, CborV)>)
    ensures
        fields_of(field_trees(f)) == Some(f),
{
    let ps = field_trees(f);
    assert forall|i: int| 0 <= i < ps.len() implies (#[trigger] ps[i]).0 is Uint by {}
    assert(fields_of(ps)->0 =~= f);
}

/// The fields of a map item, each value copied.
pub fn read_fields(item: &Cbor) -> (r: Option<Vec<(u64, Cbor)>>)
    ensures
        match r {
            Some(f) => fields_of_tree(item@) == Some(field_views(f@)),
            None => fields_of_tree(item@) is None,
        },
{
    proof {
        lemma_view_of_lists(*item);
    }
    match item {
        Cbor::Pairs(ps) => {
            let mut out: Vec<(u64, Cbor)> = Vec::new();
            let mut i: usize = 0;
            while i < ps.len()
                invariant
                    item@ == CborV::Pairs(pair_views(ps@)),
                    i <= ps.len(),
                    out.len() == i,
                    forall|j: int|
                        0 <= j < i ==> ps@[j].0@ == CborV::Uint(out@[j].0) && out@[j].1@
                            == ps@[j].1@,
                decreases ps.len() - i,
            {
                match &ps[i].0 {
                    Cbor::Uint(k) => {
                        out.push((*k, ps[i].1.clone()));
                    },
                    _ => {
                        proof {
                            let pv = pair_views(ps@);
                            assert(!(pv[i as int].0 is Uint));
                        }
                        return None;
                    },
                }
                i += 1;
            }
            proof {
                let pv = pair_views(ps@);
                assert forall|j: int| 0 <= j < pv.len() implies (#[trigger] pv[j]).0 is Uint by {
                    assert(ps@[j].0@ == CborV::Uint(out@[j].0));
                }
                assert(fields_of(pv)->0 =~= field_views(out@));
            }
            Some(out)
        },
        _ => None,
    }
}

/// The map item that a list of fields is written as.
pub fn fields_item(f: &Vec<(u64, Cbor)>) -> (r: Cbor)
    ensures
        r@ == CborV::Pairs(field_trees(field_views(f@))),
{
    let mut out: Vec<(Cbor, Cbor)> = Vec::new();
    let mut i: usize = 0;
    while i < f.len()
        invariant
            i <= f.len(),
            out.len() == i,
            forall|j: int|
                0 <= j < i ==> out@[j].0@ == CborV::Uint(f@[j].0) && out@[j].1@ == f@[j].1@,
        decreases f.len() - i,
    {
        out.push((Cbor::Uint(f[i].0), f[i].1.clone()));
        i += 1;
    }
    let r = Cbor::Pairs(out);
    proof {
        lemma_view_of_lists(r);
        assert(pair_views(out@) =~= field_trees(field_views(f@)));
    }
    r
}

/// A second list of fields that holds the same.
pub fn dup_fields(f: &Vec<(u64, Cbor)>) -> (r: Vec<(u64, Cbor)>)
    ensures
        field_views(r@) == field_views(f@),
{
    let mut out: Vec<(u64, Cbor)> = Vec::new();
    let mut i: usize = 0;
    while i < f.len()
        invariant
            i <= f.len(),
            out.len() == i,
            forall|j: int| 0 <= j < i ==> out@[j].0 == f@[j].0 && out@[j].1@ == f@[j].1@,
        decreases f.len() - i,
    {
        out.push((f[i].0, f[i].1.clone()));
        i += 1;
    }
    assert(field_views(out@) =~= field_views(f@));
    out
}

/// The place of the first field that holds `key`.
pub fn find_field(f: &Vec<(u64, Cbor)>, key: u64) -> (r: Option<usize>)
    ensures
        match r {
            Some(i) => first_at(field_views(f@), key, 0) == Some(i as int) && i < f.len(),
            None => first_at(field_views(f@), key, 0) is None,
        },
{
    let mut i: usize = 0;
    while i < f.len()
        invariant
            i <= f.len(),
            first_at(field_views(f@), key, 0) == first_at(field_views(f@), key, i as int),
        decreases f.len() - i,
    {
        if f[i].0 == key {
            return Some(i);
        }
        i += 1;
    }
    None
}

/// Whether no key occurs twice.
pub fn keys_are_distinct(f: &Vec<(u64, Cbor)>) -> (r: bool)
    ensures
        r == distinct_keys(field_views(f@)),
{
    let ghost v = field_views(f@);
    let mut j: usize = 0;
    while j < f.len()
        invariant
            j <= f.len(),
            v == field_views(f@),
            forall|a: int, b: int| 0 <= a < b < j ==> (#[trigger] v[a]).0 != (#[trigger] v[b]).0,
        decreases f.len() - j,
    {
        let mut i: usize = 0;
        while i < j
            invariant
                i <= j < f.len(),
                v == field_views(f@),
                forall|a: int| 0 <= a < i ==> (#[trigger] v[a]).0 != v[j as int].0,
            decreases j - i,
        {
            if f[i].0 == f[j].0 {
                assert(v[i as int].0 == v[j as int].0);
                return false;
            }
            i += 1;
        }
        j += 1;
    }
    true
}

} // verus!
