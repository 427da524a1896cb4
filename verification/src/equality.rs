//! When two witness collections, and two assemblies, are the same.
//!
//! A witness collection is what it holds: for each kind of witness, the
//! witnesses with their number of occurrences. The order of the witnesses,
//! the order of the fields, the form the sets are written in, the kept
//! bytes and the policy for new sets play no part.

use crate::cbor::item::{clone_items, item_views, lemma_view_of_lists, pair_views, Cbor, CborV};
use crate::codec::read_set;
use crate::fields::{field, field_views, find_field};
use crate::fixed_transaction::{FixedTransaction, FixedTransactionV};
use crate::fixed_witnesses::{
    grown_set, lemma_with_element_fields, set_elems, with_element, FixedTxWitnessesSet,
    FixedWitnessesV,
};
use vstd::prelude::*;
use vstd::std_specs::cmp::PartialEqSpecImpl;

verus! {

fn same_bytes(a: &Vec<u8>, b: &Vec<u8>) -> (r: bool)
    ensures
        r == (a@ == b@),
{
    if a.len() != b.len() {
        return false;
    }
    let mut i: usize = 0;
    while i < a.len()
        invariant
            a.len() == b.len(),
            i <= a.len(),
            forall|j: int| 0 <= j < i ==> a@[j] == b@[j],
        decreases a.len() - i,
    {
        if a[i] != b[i] {
            return false;
        }
        i += 1;
    }
    assert(a@ =~= b@);
    true
}

/// Whether two items are the same tree.
pub fn same_item(a: &Cbor, b: &Cbor) -> (r: bool)
    ensures
        r == (a@ == b@),
    decreases a,
{
    proof {
        lemma_view_of_lists(*a);
        lemma_view_of_lists(*b);
    }
    match (a, b) {
        (Cbor::Uint(x), Cbor::Uint(y)) => *x == *y,
        (Cbor::Nint(x), Cbor::Nint(y)) => *x == *y,
        (Cbor::Bytes(x), Cbor::Bytes(y)) => same_bytes(x, y),
        (Cbor::Text(x), Cbor::Text(y)) => same_bytes(x, y),
        (Cbor::Simple(x), Cbor::Simple(y)) => *x == *y,
        (Cbor::Tag(s, x), Cbor::Tag(t, y)) => *s == *t && same_item(&**x, &**y),
        (Cbor::Array(x), Cbor::Array(y)) => {
            if x.len() != y.len() {
                assert(item_views(x@).len() != item_views(y@).len());
                return false;
            }
            let mut i: usize = 0;
            while i < x.len()
                invariant
                    *a == Cbor::Array(*x),
                    a@ == CborV::Array(item_views(x@)),
                    b@ == CborV::Array(item_views(y@)),
                    x.len() == y.len(),
                    i <= x.len(),
                    forall|j: int| 0 <= j < i ==> x@[j]@ == y@[j]@,
                decreases x.len() - i,
            {
                proof {
                    crate::cbor::item::lemma_element_smaller(*a, i as int);
                }
                if !same_item(&x[i], &y[i]) {
                    assert(item_views(x@)[i as int] != item_views(y@)[i as int]);
                    return false;
                }
                i += 1;
            }
            assert(item_views(x@) =~= item_views(y@));
            true
        },
        (Cbor::Pairs(x), Cbor::Pairs(y)) => {
            if x.len() != y.len() {
                assert(pair_views(x@).len() != pair_views(y@).len());
                return false;
            }
            let mut i: usize = 0;
            while i < x.len()
                invariant
                    *a == Cbor::Pairs(*x),
                    a@ == CborV::Pairs(pair_views(x@)),
                    b@ == CborV::Pairs(pair_views(y@)),
                    x.len() == y.len(),
                    i <= x.len(),
                    forall|j: int| 0 <= j < i ==> x@[j].0@ == y@[j].0@ && x@[j].1@ == y@[j].1@,
                decreases x.len() - i,
            {
                proof {
                    crate::cbor::item::lemma_entry_smaller(*a, i as int);
                }
                if !same_item(&x[i].0, &y[i].0) || !same_item(&x[i].1, &y[i].1) {
                    assert(pair_views(x@)[i as int] != pair_views(y@)[i as int]);
                    return false;
                }
                i += 1;
            }
            assert(pair_views(x@) =~= pair_views(y@));
            true
        },
        _ => false,
    }
}

/// How often an item occurs in a run.
pub open spec fn occurrences(s: Seq<CborV>, x: CborV) -> nat
    decreases s.len(),
{
    if s.len() == 0 {
        0
    } else {
        occurrences(s.drop_last(), x) + if s.last() == x {
            1nat
        } else {
            0nat
        }
    }
}

/// Two runs hold the same items, each as often in the one as in the other.
pub open spec fn same_elements(s: Seq<CborV>, t: Seq<CborV>) -> bool {
    forall|x: CborV| occurrences(s, x) == occurrences(t, x)
}

/// What occurs in a run is one of its items, and each of its items occurs.
pub proof fn lemma_occurs(s: Seq<CborV>, x: CborV)
    ensures
        occurrences(s, x) > 0 <==> exists|i: int| 0 <= i < s.len() && s[i] == x,
    decreases s.len(),
{
    if s.len() > 0 {
        lemma_occurs(s.drop_last(), x);
        if occurrences(s, x) > 0 {
            if s.last() == x {
                assert(s[s.len() - 1] == x);
            } else {
                let i = choose|i: int| 0 <= i < s.drop_last().len() && s.drop_last()[i] == x;
                assert(s[i] == x);
            }
        }
        if exists|i: int| 0 <= i < s.len() && s[i] == x {
            let i = choose|i: int| 0 <= i < s.len() && s[i] == x;
            if i < s.len() - 1 {
                assert(s.drop_last()[i] == x);
            }
        }
    }
}

fn count_of(v: &Vec<Cbor>, x: &Cbor) -> (n: usize)
    ensures
        n == occurrences(item_views(v@), x@),
{
    let ghost s = item_views(v@);
    let mut n: usize = 0;
    let mut i: usize = 0;
    assert(s.take(0) =~= Seq::<CborV>::empty());
    while i < v.len()
        invariant
            s == item_views(v@),
            i <= v.len(),
            n <= i,
            n == occurrences(s.take(i as int), x@),
        decreases v.len() - i,
    {
        proof {
            assert(s.take(i + 1).drop_last() =~= s.take(i as int));
            assert(s.take(i + 1).last() == s[i as int]);
        }
        if same_item(&v[i], x) {
            n += 1;
        }
        i += 1;
    }
    assert(s.take(v.len() as int) =~= s);
    n
}

/// Whether every item of `a` occurs as often in `b` as in `a`.
fn covered(a: &Vec<Cbor>, b: &Vec<Cbor>) -> (r: bool)
    ensures
        r == (forall|i: int|
            0 <= i < a.len() ==> occurrences(item_views(a@), #[trigger] item_views(a@)[i])
                == occurrences(item_views(b@), item_views(a@)[i])),
{
    let ghost s = item_views(a@);
    let ghost t = item_views(b@);
    let mut i: usize = 0;
    while i < a.len()
        invariant
            s == item_views(a@),
            t == item_views(b@),
            i <= a.len(),
            forall|j: int| 0 <= j < i ==> occurrences(s, #[trigger] s[j]) == occurrences(t, s[j]),
        decreases a.len() - i,
    {
        if count_of(a, &a[i]) != count_of(b, &a[i]) {
            assert(occurrences(s, s[i as int]) != occurrences(t, s[i as int]));
            return false;
        }
        i += 1;
    }
    true
}

/// Whether two runs hold the same items, each as often in the one as in the
/// other.
pub fn same_elements_check(a: &Vec<Cbor>, b: &Vec<Cbor>) -> (r: bool)
    ensures
        r == same_elements(item_views(a@), item_views(b@)),
{
    let ghost s = item_views(a@);
    let ghost t = item_views(b@);
    let r = covered(a, b) && covered(b, a);
    proof {
        if r {
            assert forall|x: CborV| occurrences(s, x) == occurrences(t, x) by {
                lemma_occurs(s, x);
                lemma_occurs(t, x);
                if occurrences(s, x) > 0 {
                    let i = choose|i: int| 0 <= i < s.len() && s[i] == x;
                    assert(occurrences(s, s[i]) == occurrences(t, s[i]));
                } else if occurrences(t, x) > 0 {
                    let i = choose|i: int| 0 <= i < t.len() && t[i] == x;
                    assert(occurrences(t, t[i]) == occurrences(s, t[i]));
                }
            }
        }
    }
    r
}

/// The witnesses of one kind that a witness set holds: the elements of the
/// set for the key, or for the redeemers (key 5) the one item they are.
/// None where the set has no such field.
pub open spec fn witnesses_of_kind(f: Seq<(u64, CborV)>, key: u64) -> Seq<CborV> {
    match field(f, key) {
        Some(t) => if key == 5 {
            seq![t]
        } else {
            set_elems(t)
        },
        None => Seq::empty(),
    }
}

/// Two witness sets hold the same witnesses: for each of the eight kinds,
/// the same witnesses, each as often in the one as in the other.
pub open spec fn same_witnesses(a: Seq<(u64, CborV)>, b: Seq<(u64, CborV)>) -> bool {
    forall|key: u64|
        key < 8 ==> same_elements(
            #[trigger] witnesses_of_kind(a, key),
            witnesses_of_kind(b, key),
        )
}

fn kind_of(f: &Vec<(u64, Cbor)>, key: u64) -> (r: Vec<Cbor>)
    ensures
        item_views(r@) == witnesses_of_kind(field_views(f@), key),
{
    match find_field(f, key) {
        Some(i) => {
            if key == 5 {
                let mut v: Vec<Cbor> = Vec::new();
                v.push(f[i].1.clone());
                assert(item_views(v@) =~= seq![f@[i as int].1@]);
                v
            } else {
                match read_set(&f[i].1) {
                    Some((_, v)) => clone_items(v),
                    None => {
                        let v: Vec<Cbor> = Vec::new();
                        assert(item_views(v@) =~= Seq::<CborV>::empty());
                        v
                    },
                }
            }
        },
        None => {
            let v: Vec<Cbor> = Vec::new();
            assert(item_views(v@) =~= Seq::<CborV>::empty());
            v
        },
    }
}

fn same_fields(a: &Vec<(u64, Cbor)>, b: &Vec<(u64, Cbor)>) -> (r: bool)
    ensures
        r == (field_views(a@) == field_views(b@)),
{
    if a.len() != b.len() {
        assert(field_views(a@).len() != field_views(b@).len());
        return false;
    }
    let mut i: usize = 0;
    while i < a.len()
        invariant
            a.len() == b.len(),
            i <= a.len(),
            forall|j: int| 0 <= j < i ==> a@[j].0 == b@[j].0 && a@[j].1@ == b@[j].1@,
        decreases a.len() - i,
    {
        if a[i].0 != b[i].0 || !same_item(&a[i].1, &b[i].1) {
            assert(field_views(a@)[i as int] != field_views(b@)[i as int]);
            return false;
        }
        i += 1;
    }
    assert(field_views(a@) =~= field_views(b@));
    true
}

impl PartialEq for FixedTxWitnessesSet {
    fn eq(&self, other: &Self) -> (r: bool) {
        let mut key: u64 = 0;
        while key < 8
            invariant
                key <= 8,
                forall|k: u64|
                    k < key ==> same_elements(
                        #[trigger] witnesses_of_kind(self@.fields, k),
                        witnesses_of_kind(other@.fields, k),
                    ),
            decreases 8 - key,
        {
            let mine = kind_of(&self.set.fields, key);
            let theirs = kind_of(&other.set.fields, key);
            if !same_elements_check(&mine, &theirs) {
                return false;
            }
            key += 1;
        }
        true
    }
}

impl PartialEqSpecImpl for FixedTxWitnessesSet {
    open spec fn obeys_eq_spec() -> bool {
        true
    }

    open spec fn eq_spec(&self, other: &Self) -> bool {
        same_witnesses(self@.fields, other@.fields)
    }
}

/// Two assemblies are the same: the same body and body bytes, the same
/// hash, the same witnesses, the same validity marker, and the same
/// auxiliary data and bytes.
pub open spec fn same_assembly(a: FixedTransactionV, b: FixedTransactionV) -> bool {
    &&& a.body == b.body
    &&& a.body_bytes == b.body_bytes
    &&& a.tx_hash == b.tx_hash
    &&& same_witnesses(a.witness_set.fields, b.witness_set.fields)
    &&& a.is_valid == b.is_valid
    &&& a.auxiliary_data == b.auxiliary_data
    &&& a.auxiliary_bytes == b.auxiliary_bytes
}

impl PartialEq for FixedTransaction {
    fn eq(&self, other: &Self) -> (r: bool) {
        let same_aux = match (&self.auxiliary_data, &other.auxiliary_data) {
            (Some(x), Some(y)) => same_item(&x.item, &y.item),
            (None, None) => true,
            _ => false,
        };
        let same_aux_bytes = match (&self.auxiliary_bytes, &other.auxiliary_bytes) {
            (Some(x), Some(y)) => same_bytes(x, y),
            (None, None) => true,
            _ => false,
        };
        let same_hash = self.tx_hash.to_bytes();
        let other_hash = other.tx_hash.to_bytes();
        same_fields(&self.body.fields, &other.body.fields) && same_bytes(
            &self.body_bytes,
            &other.body_bytes,
        ) && same_bytes(&same_hash, &other_hash) && self.witness_set.eq(&other.witness_set)
            && self.is_valid == other.is_valid && same_aux && same_aux_bytes
    }
}

impl PartialEqSpecImpl for FixedTransaction {
    open spec fn obeys_eq_spec() -> bool {
        true
    }

    open spec fn eq_spec(&self, other: &Self) -> bool {
        same_assembly(self@, other@)
    }
}

/// Sameness of witnesses does not look at the policy, the kept bytes or the
/// order of the fields: it is a matter of the witness sets alone, and every
/// witness set is the same as itself.
pub proof fn law_same_witnesses_reflexive(a: Seq<(u64, CborV)>)
    ensures
        same_witnesses(a, a),
{
}

/// Sameness of witnesses goes both ways and carries over.
pub proof fn law_same_witnesses_equivalence(
    a: Seq<(u64, CborV)>,
    b: Seq<(u64, CborV)>,
    c: Seq<(u64, CborV)>,
)
    ensures
        same_witnesses(a, b) ==> same_witnesses(b, a),
        same_witnesses(a, b) && same_witnesses(b, c) ==> same_witnesses(a, c),
{
    if same_witnesses(a, b) {
        assert forall|key: u64| key < 8 implies same_elements(
            #[trigger] witnesses_of_kind(b, key),
            witnesses_of_kind(a, key),
        ) by {
            assert(same_elements(witnesses_of_kind(a, key), witnesses_of_kind(b, key)));
        }
        if same_witnesses(b, c) {
            assert forall|key: u64| key < 8 implies same_elements(
                #[trigger] witnesses_of_kind(a, key),
                witnesses_of_kind(c, key),
            ) by {
                assert(same_elements(witnesses_of_kind(a, key), witnesses_of_kind(b, key)));
                assert(same_elements(witnesses_of_kind(b, key), witnesses_of_kind(c, key)));
            }
        }
    }
}

/// How often an item occurs in a run that has received one more item.
pub proof fn lemma_occurrences_push(s: Seq<CborV>, a: CborV, x: CborV)
    ensures
        occurrences(s.push(a), x) == occurrences(s, x) + if a == x {
            1nat
        } else {
            0nat
        },
{
    assert(s.push(a).drop_last() =~= s);
    assert(s.push(a).last() == a);
}

/// The witnesses of the kind that received an element are those it held and
/// the element; the witnesses of the other kinds are those they were.
pub proof fn lemma_kind_after_add(w: FixedWitnessesV, key: u64, elem: CborV, kind: u64)
    requires
        key != 5,
    ensures
        witnesses_of_kind(with_element(w, key, elem).fields, kind) == if kind == key {
            witnesses_of_kind(w.fields, key).push(elem)
        } else {
            witnesses_of_kind(w.fields, kind)
        },
{
    if kind == key {
        lemma_with_element_fields(
            w,
            key,
            elem,
            if key == 0 {
                1
            } else {
                0
            },
        );
        crate::fields::lemma_first_at(w.fields, key, 0);
        let held = witnesses_of_kind(w.fields, key);
        assert(set_elems(grown_set(w, key, elem)) =~= held.push(elem));
    } else {
        lemma_with_element_fields(w, key, elem, kind);
    }
}

/// The order in which two witnesses are added plays no part: either way
/// the collection holds the same witnesses.
pub proof fn law_order_of_adding(w: FixedWitnessesV, key: u64, first: CborV, second: CborV)
    requires
        key != 5,
    ensures
        same_witnesses(
            with_element(with_element(w, key, first), key, second).fields,
            with_element(with_element(w, key, second), key, first).fields,
        ),
{
    let a = with_element(with_element(w, key, first), key, second).fields;
    let b = with_element(with_element(w, key, second), key, first).fields;
    assert forall|kind: u64| kind < 8 implies same_elements(
        #[trigger] witnesses_of_kind(a, kind),
        witnesses_of_kind(b, kind),
    ) by {
        lemma_kind_after_add(w, key, first, kind);
        lemma_kind_after_add(with_element(w, key, first), key, second, kind);
        lemma_kind_after_add(w, key, second, kind);
        lemma_kind_after_add(with_element(w, key, second), key, first, kind);
        if kind == key {
            let held = witnesses_of_kind(w.fields, key);
            assert forall|x: CborV|
                occurrences(held.push(first).push(second), x) == occurrences(
                    held.push(second).push(first),
                    x,
                ) by {
                lemma_occurrences_push(held, first, x);
                lemma_occurrences_push(held.push(first), second, x);
                lemma_occurrences_push(held, second, x);
                lemma_occurrences_push(held.push(second), first, x);
            }
        }
    }
}

} // verus!
