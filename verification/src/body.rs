//! Transaction bodies and auxiliary data.

use crate::cbor::item::{item_views, Cbor, CborV};
use crate::cbor::laws::{lemma_wf_short, wf};
use crate::certificates::Certificates;
use crate::codec::{array_item, opt_view, read_set, read_sized, set_of, sized_of, Codec, TaggedSet};
use crate::fields::{
    distinct_keys, dup_fields, field, field_trees, field_views, fields_item, fields_of_tree,
    find_field, keys_are_distinct, lemma_fields_round_trip, read_fields,
};
use crate::primitives::{BigNum, Coin, Ed25519KeyHash, Hash32, TransactionHash};
use vstd::prelude::*;

verus! {


/// An output of an earlier transaction, by that transaction and a position.
#[derive(Clone, Copy, Debug, PartialEq, Eq)]
pub struct TransactionInput {
    pub transaction_id: TransactionHash,
    pub index: u32,
}

impl View for TransactionInput {
    type V = TransactionInput;

    open spec fn view(&self) -> TransactionInput {
        *self
    }
}

impl TransactionInput {
    pub fn new(transaction_id: &TransactionHash, index: u32) -> (r: Self)
        ensures
            r@ == (TransactionInput {
                transaction_id: *transaction_id,
                index: index,
            }),
    {
        TransactionInput {
            transaction_id: *transaction_id,
            index: index,
        }
    }
}

impl Codec for TransactionInput {
    open spec fn tree(v: TransactionInput) -> CborV {
        CborV::Array(
            seq![
                Hash32::tree(v.transaction_id),
                u32::tree(v.index),
            ],
        )
    }

    open spec fn of_tree(t: CborV) -> Option<TransactionInput> {
        match sized_of(t, 2) {
            Some(e) => match (
                Hash32::of_tree(e[0]),
                u32::of_tree(e[1]),
            ) {
                (
                    Some(transaction_id),
                    Some(index),
                ) => Some(
                    TransactionInput {
                        transaction_id,
                        index,
                    },
                ),
                _ => None,
            },
            None => None,
        }
    }

    open spec fn valid(v: TransactionInput) -> bool {
        true
    }

    proof fn lemma_tree_round_trip(v: TransactionInput) {
        Hash32::lemma_tree_round_trip(v.transaction_id);
        u32::lemma_tree_round_trip(v.index);
        lemma_wf_short(Self::tree(v)->Array_0);
    }

    proof fn lemma_read_exact(t: CborV) {
        let e = t->Array_0;
        assert(wf(e[0]));
        Hash32::lemma_read_exact(e[0]);
        assert(wf(e[1]));
        u32::lemma_read_exact(e[1]);
        assert(Self::tree(Self::of_tree(t)->0)->Array_0 =~= e);
    }

    fn dup(&self) -> (r: Self) {
        *self
    }

    fn to_item(&self) -> (r: Cbor) {
        let mut v: Vec<Cbor> = Vec::new();
        v.push(self.transaction_id.to_item());
        v.push(self.index.to_item());
        proof {
            assert(item_views(v@) =~= Self::tree(self@)->Array_0);
        }
        array_item(v)
    }

    fn from_item(item: &Cbor) -> (r: Option<TransactionInput>) {
        let e = match read_sized(item, 2) {
            Some(e) => e,
            None => {
                return None;
            },
        };
        match (
            Hash32::from_item(&e[0]),
            u32::from_item(&e[1]),
        ) {
            (
                Some(transaction_id),
                Some(index),
            ) => Some(
                TransactionInput {
                    transaction_id,
                    index,
                },
            ),
            _ => None,
        }
    }
}

pub type TransactionInputs = TaggedSet<TransactionInput>;

pub type RequiredSigners = TaggedSet<Ed25519KeyHash>;

/// Whether an item has the shape of a transaction output: an array of two
/// or three items, or a map.
pub open spec fn output_ok(t: CborV) -> bool {
    match t {
        CborV::Array(e) => e.len() == 2 || e.len() == 3,
        CborV::Pairs(_) => true,
        _ => false,
    }
}

/// Whether an item is an array of outputs.
pub open spec fn outputs_ok(t: CborV) -> bool {
    match t {
        CborV::Array(e) => forall|i: int| 0 <= i < e.len() ==> output_ok(#[trigger] e[i]),
        _ => false,
    }
}

/// Whether a value is of the structure that the body asks of the field
/// with that key.
///
/// Sets: inputs, collateral and reference inputs (0, 13, 18) are sets of
/// inputs; certificates (4) are a set of certificates; required signers
/// (14) are a set of key hashes; proposals (20) are a set.
/// Outputs (1) are an array of outputs, and the collateral return (16) is
/// an output. Fee, time to live, start of validity, network, total
/// collateral, treasury and donation (2, 3, 8, 15, 17, 21, 22) are unsigned
/// integers. Withdrawals, mint and votes (5, 9, 19) are maps. The two
/// digests (7, 11) are byte strings of 32 bytes. The update (6) is an array
/// of two items. There are no other keys.
pub open spec fn body_field_ok(key: u64, t: CborV) -> bool {
    if key == 0 || key == 13 || key == 18 {
        TransactionInputs::of_tree(t) is Some
    } else if key == 1 {
        outputs_ok(t)
    } else if key == 2 || key == 3 || key == 8 || key == 15 || key == 17 || key == 21 || key
        == 22 {
        t is Uint
    } else if key == 4 {
        Certificates::of_tree(t) is Some
    } else if key == 5 || key == 9 || key == 19 {
        t is Pairs
    } else if key == 6 {
        sized_of(t, 2) is Some
    } else if key == 7 || key == 11 {
        Hash32::of_tree(t) is Some
    } else if key == 14 {
        RequiredSigners::of_tree(t) is Some
    } else if key == 16 {
        output_ok(t)
    } else if key == 20 {
        set_of(t) is Some
    } else {
        false
    }
}

/// Every field is of the structure that its key asks for.
pub open spec fn body_fields_ok(f: Seq<(u64, CborV)>) -> bool {
    forall|i: int| 0 <= i < f.len() ==> body_field_ok((#[trigger] f[i]).0, f[i].1)
}

/// The fields of a body: no key twice, every field of its structure, and
/// inputs, outputs and fee present.
pub open spec fn body_ok(f: Seq<(u64, CborV)>) -> bool {
    &&& distinct_keys(f)
    &&& body_fields_ok(f)
    &&& field(f, 0) is Some
    &&& field(f, 1) is Some
    &&& field(f, 2) is Some
}

/// A transaction body: its fields in the order written, each value as a
/// data item.
#[derive(Debug, PartialEq, Eq)]
pub struct TransactionBody {
    pub fields: Vec<(u64, Cbor)>,
}

impl View for TransactionBody {
    type V = Seq<(u64, CborV)>;

    open spec fn view(&self) -> Seq<(u64, CborV)> {
        field_views(self.fields@)
    }
}

impl Clone for TransactionBody {
    fn clone(&self) -> (r: Self)
        ensures
            r@ == self@,
    {
        TransactionBody { fields: dup_fields(&self.fields) }
    }
}

fn output_check(item: &Cbor) -> (r: bool)
    ensures
        r == output_ok(item@),
{
    proof {
        crate::cbor::item::lemma_view_of_lists(*item);
    }
    match item {
        Cbor::Array(e) => e.len() == 2 || e.len() == 3,
        Cbor::Pairs(_) => true,
        _ => false,
    }
}

fn outputs_check(item: &Cbor) -> (r: bool)
    ensures
        r == outputs_ok(item@),
{
    proof {
        crate::cbor::item::lemma_view_of_lists(*item);
    }
    match item {
        Cbor::Array(e) => {
            let mut i: usize = 0;
            while i < e.len()
                invariant
                    item@ == CborV::Array(item_views(e@)),
                    i <= e.len(),
                    forall|j: int| 0 <= j < i ==> output_ok(#[trigger] item_views(e@)[j]),
                decreases e.len() - i,
            {
                if !output_check(&e[i]) {
                    proof {
                        let x = item@->Array_0;
                        assert(x == item_views(e@));
                        assert(!output_ok(x[i as int]));
                    }
                    return false;
                }
                assert(item_views(e@)[i as int] == e@[i as int]@);
                i += 1;
            }
            proof {
                let x = item@->Array_0;
                assert(x == item_views(e@));
                assert forall|j: int| 0 <= j < x.len() implies output_ok(#[trigger] x[j]) by {
                    assert(output_ok(item_views(e@)[j]));
                }
            }
            true
        },
        _ => false,
    }
}

fn body_field_check(key: u64, item: &Cbor) -> (r: bool)
    ensures
        r == body_field_ok(key, item@),
{
    if key == 0 || key == 13 || key == 18 {
        TransactionInputs::from_item(item).is_some()
    } else if key == 1 {
        outputs_check(item)
    } else if key == 2 || key == 3 || key == 8 || key == 15 || key == 17 || key == 21 || key
        == 22 {
        match item {
            Cbor::Uint(_) => true,
            _ => false,
        }
    } else if key == 4 {
        Certificates::from_item(item).is_some()
    } else if key == 5 || key == 9 || key == 19 {
        match item {
            Cbor::Pairs(_) => true,
            _ => false,
        }
    } else if key == 6 {
        read_sized(item, 2).is_some()
    } else if key == 7 || key == 11 {
        Hash32::from_item(item).is_some()
    } else if key == 14 {
        RequiredSigners::from_item(item).is_some()
    } else if key == 16 {
        output_check(item)
    } else if key == 20 {
        read_set(item).is_some()
    } else {
        false
    }
}

impl TransactionBody {
    /// The inputs, where the body holds that field in its structure.
    pub fn inputs(&self) -> (r: Option<TransactionInputs>)
        ensures
            opt_view(r) == match field(self@, 0) {
                Some(t) => TransactionInputs::of_tree(t),
                None => None,
            },
    {
        match find_field(&self.fields, 0) {
            Some(i) => TransactionInputs::from_item(&self.fields[i].1),
            None => None,
        }
    }

    /// The fee, where the body holds that field in its structure.
    pub fn fee(&self) -> (r: Option<Coin>)
        ensures
            r == match field(self@, 2) {
                Some(t) => BigNum::of_tree(t),
                None => None,
            },
    {
        match find_field(&self.fields, 2) {
            Some(i) => BigNum::from_item(&self.fields[i].1),
            None => None,
        }
    }

    /// The certificates, where the body holds that field in its structure.
    pub fn certs(&self) -> (r: Option<Certificates>)
        ensures
            opt_view(r) == match field(self@, 4) {
                Some(t) => Certificates::of_tree(t),
                None => None,
            },
    {
        match find_field(&self.fields, 4) {
            Some(i) => Certificates::from_item(&self.fields[i].1),
            None => None,
        }
    }
}

impl Codec for TransactionBody {
    open spec fn tree(v: Seq<(u64, CborV)>) -> CborV {
        CborV::Pairs(field_trees(v))
    }

    open spec fn of_tree(t: CborV) -> Option<Seq<(u64, CborV)>> {
        match fields_of_tree(t) {
            Some(f) => if body_ok(f) {
                Some(f)
            } else {
                None
            },
            None => None,
        }
    }

    open spec fn valid(v: Seq<(u64, CborV)>) -> bool {
        &&& body_ok(v)
        &&& v.len() <= u64::MAX
        &&& forall|i: int| 0 <= i < v.len() ==> wf((#[trigger] v[i]).1)
    }

    proof fn lemma_tree_round_trip(v: Seq<(u64, CborV)>) {
        lemma_fields_round_trip(v);
        let ps = field_trees(v);
        assert forall|i: int| 0 <= i < ps.len() implies wf((#[trigger] ps[i]).0) && wf(
            ps[i].1,
        ) by {
            assert(wf(v[i].1));
        }
    }

    proof fn lemma_read_exact(t: CborV) {
        let ps = t->Pairs_0;
        let f = crate::fields::fields_of(ps)->0;
        assert forall|i: int| 0 <= i < ps.len() implies (#[trigger] field_trees(f)[i]) == ps[i]
            && wf(f[i].1) by {
            assert(wf(ps[i].0) && wf(ps[i].1));
            assert(ps[i].0 is Uint);
        }
        assert(field_trees(f) =~= ps);
    }

    fn dup(&self) -> (r: Self) {
        self.clone()
    }

    fn to_item(&self) -> (r: Cbor) {
        fields_item(&self.fields)
    }

    fn from_item(item: &Cbor) -> (r: Option<TransactionBody>) {
        let fields = match read_fields(item) {
            Some(f) => f,
            None => {
                return None;
            },
        };
        if !keys_are_distinct(&fields) {
            return None;
        }
        if find_field(&fields, 0).is_none() || find_field(&fields, 1).is_none() || find_field(
            &fields,
            2,
        ).is_none() {
            return None;
        }
        let mut i: usize = 0;
        while i < fields.len()
            invariant
                fields_of_tree(item@) == Some(field_views(fields@)),
                i <= fields.len(),
                forall|j: int|
                    0 <= j < i ==> body_field_ok(
                        (#[trigger] field_views(fields@)[j]).0,
                        field_views(fields@)[j].1,
                    ),
            decreases fields.len() - i,
        {
            if !body_field_check(fields[i].0, &fields[i].1) {
                proof {
                    let f = field_views(fields@);
                    assert(!body_field_ok(f[i as int].0, f[i as int].1));
                }
                return None;
            }
            i += 1;
        }
        Some(TransactionBody { fields })
    }
}

/// Whether an item is of one of the three structures of auxiliary data: a
/// map of metadata, an array of metadata and scripts, or a map under tag
/// 259.
pub open spec fn auxiliary_ok(t: CborV) -> bool {
    match t {
        CborV::Pairs(_) => true,
        CborV::Array(e) => e.len() == 2,
        CborV::Tag(tag, inner) => tag == 259 && *inner is Pairs,
        _ => false,
    }
}

/// Auxiliary data, as the data item it is.
#[derive(Debug, PartialEq, Eq)]
pub struct AuxiliaryData {
    pub item: Cbor,
}

impl View for AuxiliaryData {
    type V = CborV;

    open spec fn view(&self) -> CborV {
        self.item@
    }
}

impl Clone for AuxiliaryData {
    fn clone(&self) -> (r: Self)
        ensures
            r@ == self@,
    {
        AuxiliaryData { item: self.item.clone() }
    }
}

impl Codec for AuxiliaryData {
    open spec fn tree(v: CborV) -> CborV {
        v
    }

    open spec fn of_tree(t: CborV) -> Option<CborV> {
        if auxiliary_ok(t) {
            Some(t)
        } else {
            None
        }
    }

    open spec fn valid(v: CborV) -> bool {
        auxiliary_ok(v) && wf(v)
    }

    proof fn lemma_tree_round_trip(v: CborV) {
    }

    proof fn lemma_read_exact(t: CborV) {
    }

    fn dup(&self) -> (r: Self) {
        self.clone()
    }

    fn to_item(&self) -> (r: Cbor) {
        self.item.clone()
    }

    fn from_item(item: &Cbor) -> (r: Option<AuxiliaryData>) {
        proof {
            crate::cbor::item::lemma_view_of_lists(*item);
        }
        let ok = match item {
            Cbor::Pairs(_) => true,
            Cbor::Array(e) => e.len() == 2,
            Cbor::Tag(tag, inner) => {
                proof {
                    crate::cbor::item::lemma_view_of_lists(**inner);
                }
                match &**inner {
                    Cbor::Pairs(_) => *tag == 259,
                    _ => false,
                }
            },
            _ => false,
        };
        if ok {
            Some(AuxiliaryData { item: item.clone() })
        } else {
            None
        }
    }
}

} // verus!

