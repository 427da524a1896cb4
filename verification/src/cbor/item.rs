//! Data items as trees.

use vstd::prelude::*;

verus! {

/// A data item, as mathematics sees it.
pub enum CborV {
    /// Major type 0: an unsigned integer.
    Uint(u64),
    /// Major type 1: the negative integer `-1 - n`.
    Nint(u64),
    /// Major type 2: a byte string.
    Bytes(Seq<u8>),
    /// Major type 3: a text string, as its UTF-8 bytes.
    Text(Seq<u8>),
    /// Major type 4: an array of items.
    Array(Seq<CborV>),
    /// Major type 5: a map, as its entries in the order written.
    Pairs(Seq<(CborV, CborV)>),
    /// Major type 6: a tagged item.
    Tag(u64, Box<CborV>),
    /// Major type 7: a simple value below 24 (20 false, 21 true, 22 null).
    Simple(u8),
}

/// A data item in memory.
#[derive(Debug, PartialEq, Eq)]
pub enum Cbor {
    Uint(u64),
    Nint(u64),
    Bytes(Vec<u8>),
    Text(Vec<u8>),
    Array(Vec<Cbor>),
    Pairs(Vec<(Cbor, Cbor)>),
    Tag(u64, Box<Cbor>),
    Simple(u8),
}

/// The tree that an item in memory stands for.
pub open spec fn item_view(c: Cbor) -> CborV
    decreases c,
{
    match c {
        Cbor::Uint(n) => CborV::Uint(n),
        Cbor::Nint(n) => CborV::Nint(n),
        Cbor::Bytes(b) => CborV::Bytes(b@),
        Cbor::Text(b) => CborV::Text(b@),
        Cbor::Array(v) => CborV::Array(
            Seq::new(
                v@.len(),
                |i: int|
                    if 0 <= i < v@.len() {
                        item_view(v@[i])
                    } else {
                        CborV::Simple(0)
                    },
            ),
        ),
        Cbor::Pairs(v) => CborV::Pairs(
            Seq::new(
                v@.len(),
                |i: int|
                    if 0 <= i < v@.len() {
                        (item_view(v@[i].0), item_view(v@[i].1))
                    } else {
                        (CborV::Simple(0), CborV::Simple(0))
                    },
            ),
        ),
        Cbor::Tag(t, b) => CborV::Tag(t, Box::new(item_view(*b))),
        Cbor::Simple(v) => CborV::Simple(v),
    }
}

impl View for Cbor {
    type V = CborV;

    open spec fn view(&self) -> CborV {
        item_view(*self)
    }
}

/// The trees of a run of items.
pub open spec fn item_views(s: Seq<Cbor>) -> Seq<CborV> {
    Seq::new(s.len(), |i: int| s[i]@)
}

/// The trees of a run of entries.
pub open spec fn pair_views(s: Seq<(Cbor, Cbor)>) -> Seq<(CborV, CborV)> {
    Seq::new(s.len(), |i: int| (s[i].0@, s[i].1@))
}

/// What the view of an array or a map is, element by element.
pub proof fn lemma_view_of_lists(c: Cbor)
    ensures
        c matches Cbor::Array(v) ==> c@ == CborV::Array(item_views(v@)),
        c matches Cbor::Pairs(v) ==> c@ == CborV::Pairs(pair_views(v@)),
        c matches Cbor::Tag(t, b) ==> c@ == CborV::Tag(t, Box::new((*b)@)),
{
    match c {
        Cbor::Array(v) => {
            assert(c@->Array_0 =~= item_views(v@));
        },
        Cbor::Pairs(v) => {
            assert(c@->Pairs_0 =~= pair_views(v@));
        },
        _ => {},
    }
}

/// An element of an array is a smaller tree than the array.
pub proof fn lemma_element_smaller(c: Cbor, i: int)
    requires
        c is Array,
        0 <= i < c->Array_0.len(),
    ensures
        decreases_to!(c => c->Array_0[i]),
{
    vstd::std_specs::vec::axiom_vec_index_decreases(c->Array_0, i);
    assert(decreases_to!(c => c->Array_0));
}

/// The key and the value of an entry are smaller trees than the map.
pub proof fn lemma_entry_smaller(c: Cbor, i: int)
    requires
        c is Pairs,
        0 <= i < c->Pairs_0.len(),
    ensures
        decreases_to!(c => c->Pairs_0[i].0),
        decreases_to!(c => c->Pairs_0[i].1),
{
    vstd::std_specs::vec::axiom_vec_index_decreases(c->Pairs_0, i);
    assert(decreases_to!(c => c->Pairs_0));
    assert(decreases_to!(c->Pairs_0[i] => c->Pairs_0[i].0));
    assert(decreases_to!(c->Pairs_0[i] => c->Pairs_0[i].1));
}

fn clone_bytes(b: &Vec<u8>) -> (r: Vec<u8>)
    ensures
        r@ == b@,
{
    let r = b.clone();
    assert(r@ =~= b@);
    r
}

/// A second run of items that hold the same.
pub fn clone_items(v: &Vec<Cbor>) -> (r: Vec<Cbor>)
    ensures
        item_views(r@) == item_views(v@),
{
    let mut out: Vec<Cbor> = Vec::new();
    let mut i: usize = 0;
    while i < v.len()
        invariant
            i <= v.len(),
            out.len() == i,
            forall|j: int| 0 <= j < i ==> out@[j]@ == v@[j]@,
        decreases v.len() - i,
    {
        out.push(v[i].clone());
        i += 1;
    }
    assert(item_views(out@) =~= item_views(v@));
    out
}

impl Clone for Cbor {
    fn clone(&self) -> (r: Self)
        ensures
            r@ == self@,
        decreases self,
    {
        match self {
            Cbor::Uint(n) => Cbor::Uint(*n),
            Cbor::Nint(n) => Cbor::Nint(*n),
            Cbor::Bytes(b) => Cbor::Bytes(clone_bytes(b)),
            Cbor::Text(b) => Cbor::Text(clone_bytes(b)),
            Cbor::Array(v) => {
                let mut out: Vec<Cbor> = Vec::new();
                let mut i: usize = 0;
                while i < v.len()
                    invariant
                        *self == Cbor::Array(*v),
                        i <= v.len(),
                        out.len() == i,
                        forall|j: int| 0 <= j < i ==> out@[j]@ == v@[j]@,
                    decreases v.len() - i,
                {
                    proof {
                        lemma_element_smaller(*self, i as int);
                    }
                    out.push(v[i].clone());
                    i += 1;
                }
                let r = Cbor::Array(out);
                proof {
                    lemma_view_of_lists(r);
                    lemma_view_of_lists(*self);
                    assert(item_views(out@) =~= item_views(v@));
                }
                r
            },
            Cbor::Pairs(v) => {
                let mut out: Vec<(Cbor, Cbor)> = Vec::new();
                let mut i: usize = 0;
                while i < v.len()
                    invariant
                        *self == Cbor::Pairs(*v),
                        i <= v.len(),
                        out.len() == i,
                        forall|j: int|
                            0 <= j < i ==> out@[j].0@ == v@[j].0@ && out@[j].1@ == v@[j].1@,
                    decreases v.len() - i,
                {
                    proof {
                        lemma_entry_smaller(*self, i as int);
                    }
                    out.push((v[i].0.clone(), v[i].1.clone()));
                    i += 1;
                }
                let r = Cbor::Pairs(out);
                proof {
                    lemma_view_of_lists(r);
                    lemma_view_of_lists(*self);
                    assert(pair_views(out@) =~= pair_views(v@));
                }
                r
            },
            Cbor::Tag(t, b) => Cbor::Tag(*t, Box::new((**b).clone())),
            Cbor::Simple(v) => Cbor::Simple(*v),
        }
    }
}

} // verus!
