//! Witnesses and the witness set of a transaction.

use crate::cbor::item::{item_views, Cbor, CborV};
use crate::cbor::laws::{lemma_wf_short, wf};
use crate::codec::{array_item, opt_view, read_set, read_sized, set_of, sized_of, Codec, TaggedSet};
use crate::fields::{
    distinct_keys, dup_fields, field, field_trees, field_views, fields_item, fields_of_tree,
    find_field, keys_are_distinct, lemma_fields_round_trip, read_fields,
};
use crate::primitives::{ChainCode, Ed25519Signature, Vkey};
use vstd::prelude::*;

verus! {


/// A public key and its signature over a transaction hash.
#[derive(Clone, Copy, Debug, PartialEq, Eq)]
pub struct Vkeywitness {
    pub vkey: Vkey,
    pub signature: Ed25519Signature,
}

impl View for Vkeywitness {
    type V = Vkeywitness;

    open spec fn view(&self) -> Vkeywitness {
        *self
    }
}

impl Vkeywitness {
    pub fn new(vkey: &Vkey, signature: &Ed25519Signature) -> (r: Self)
        ensures
            r@ == (Vkeywitness {
                vkey: *vkey,
                signature: *signature,
            }),
    {
        Vkeywitness {
            vkey: *vkey,
            signature: *signature,
        }
    }
}

impl Codec for Vkeywitness {
    open spec fn tree(v: Vkeywitness) -> CborV {
        CborV::Array(
            seq![
                Vkey::tree(v.vkey),
                Ed25519Signature::tree(v.signature),
            ],
        )
    }

    open spec fn of_tree(t: CborV) -> Option<Vkeywitness> {
        match sized_of(t, 2) {
            Some(e) => match (
                Vkey::of_tree(e[0]),
                Ed25519Signature::of_tree(e[1]),
            ) {
                (Some(vkey), Some(signature)) => Some(Vkeywitness { vkey, signature }),
                _ => None,
            },
            None => None,
        }
    }

    open spec fn valid(v: Vkeywitness) -> bool {
        true
    }

    proof fn lemma_tree_round_trip(v: Vkeywitness) {
        Vkey::lemma_tree_round_trip(v.vkey);
        Ed25519Signature::lemma_tree_round_trip(v.signature);
        lemma_wf_short(Self::tree(v)->Array_0);
    }

    proof fn lemma_read_exact(t: CborV) {
        let e = t->Array_0;
        assert(wf(e[0]));
        Vkey::lemma_read_exact(e[0]);
        assert(wf(e[1]));
        Ed25519Signature::lemma_read_exact(e[1]);
        assert(Self::tree(Self::of_tree(t)->0)->Array_0 =~= e);
    }

    fn dup(&self) -> (r: Self) {
        *self
    }

    fn to_item(&self) -> (r: Cbor) {
        let mut v: Vec<Cbor> = Vec::new();
        v.push(self.vkey.to_item());
        v.push(self.signature.to_item());
        proof {
            assert(item_views(v@) =~= Self::tree(self@)->Array_0);
        }
        array_item(v)
    }

    fn from_item(item: &Cbor) -> (r: Option<Vkeywitness>) {
        let e = match read_sized(item, 2) {
            Some(e) => e,
            None => {
                return None;
            },
        };
        match (
            Vkey::from_item(&e[0]),
            Ed25519Signature::from_item(&e[1]),
        ) {
            (Some(vkey), Some(signature)) => Some(Vkeywitness { vkey, signature }),
            _ => None,
        }
    }
}

/// A witness for an address of the first era: key, signature, chain code and
/// the attributes of the address.
#[derive(Debug, PartialEq, Eq)]
pub struct BootstrapWitness {
    pub vkey: Vkey,
    pub signature: Ed25519Signature,
    pub chain_code: ChainCode,
    pub attributes: Vec<u8>,
}

/// What a `BootstrapWitness` holds.
pub struct BootstrapWitnessV {
    pub vkey: Vkey,
    pub signature: Ed25519Signature,
    pub chain_code: ChainCode,
    pub attributes: Seq<u8>,
}

impl View for BootstrapWitness {
    type V = BootstrapWitnessV;

    open spec fn view(&self) -> BootstrapWitnessV {
        BootstrapWitnessV {
            vkey: self.vkey,
            signature: self.signature,
            chain_code: self.chain_code,
            attributes: self.attributes@,
        }
    }
}

impl Clone for BootstrapWitness {
    fn clone(&self) -> (r: Self)
        ensures
            r@ == self@,
    {
        BootstrapWitness {
            vkey: self.vkey,
            signature: self.signature,
            chain_code: self.chain_code,
            attributes: self.attributes.dup(),
        }
    }
}

impl BootstrapWitness {
    pub fn new(
        vkey: &Vkey,
        signature: &Ed25519Signature,
        chain_code: &ChainCode,
        attributes: &Vec<u8>,
    ) -> (r: Self)
        ensures
            r@ == (BootstrapWitnessV {
                vkey: *vkey,
                signature: *signature,
                chain_code: *chain_code,
                attributes: attributes@,
            }),
    {
        BootstrapWitness {
            vkey: *vkey,
            signature: *signature,
            chain_code: *chain_code,
            attributes: attributes.dup(),
        }
    }
}

impl Codec for BootstrapWitness {
    open spec fn tree(v: BootstrapWitnessV) -> CborV {
        CborV::Array(
            seq![
                Vkey::tree(v.vkey),
                Ed25519Signature::tree(v.signature),
                ChainCode::tree(v.chain_code),
                Vec::<u8>::tree(v.attributes),
            ],
        )
    }

    open spec fn of_tree(t: CborV) -> Option<BootstrapWitnessV> {
        match sized_of(t, 4) {
            Some(e) => match (
                Vkey::of_tree(e[0]),
                Ed25519Signature::of_tree(e[1]),
                ChainCode::of_tree(e[2]),
                Vec::<u8>::of_tree(e[3]),
            ) {
                (
                    Some(vkey),
                    Some(signature),
                    Some(chain_code),
                    Some(attributes),
                ) => Some(
                    BootstrapWitnessV {
                        vkey,
                        signature,
                        chain_code,
                        attributes,
                    },
                ),
                _ => None,
            },
            None => None,
        }
    }

    open spec fn valid(v: BootstrapWitnessV) -> bool {
        &&& Vec::<u8>::valid(v.attributes)
    }

    proof fn lemma_tree_round_trip(v: BootstrapWitnessV) {
        Vkey::lemma_tree_round_trip(v.vkey);
        Ed25519Signature::lemma_tree_round_trip(v.signature);
        ChainCode::lemma_tree_round_trip(v.chain_code);
        Vec::<u8>::lemma_tree_round_trip(v.attributes);
        lemma_wf_short(Self::tree(v)->Array_0);
    }

    proof fn lemma_read_exact(t: CborV) {
        let e = t->Array_0;
        assert(wf(e[0]));
        Vkey::lemma_read_exact(e[0]);
        assert(wf(e[1]));
        Ed25519Signature::lemma_read_exact(e[1]);
        assert(wf(e[2]));
        ChainCode::lemma_read_exact(e[2]);
        assert(wf(e[3]));
        Vec::<u8>::lemma_read_exact(e[3]);
        assert(Self::tree(Self::of_tree(t)->0)->Array_0 =~= e);
    }

    fn dup(&self) -> (r: Self) {
        self.clone()
    }

    fn to_item(&self) -> (r: Cbor) {
        let mut v: Vec<Cbor> = Vec::new();
        v.push(self.vkey.to_item());
        v.push(self.signature.to_item());
        v.push(self.chain_code.to_item());
        v.push(self.attributes.to_item());
        proof {
            assert(item_views(v@) =~= Self::tree(self@)->Array_0);
        }
        array_item(v)
    }

    fn from_item(item: &Cbor) -> (r: Option<BootstrapWitness>) {
        let e = match read_sized(item, 4) {
            Some(e) => e,
            None => {
                return None;
            },
        };
        match (
            Vkey::from_item(&e[0]),
            Ed25519Signature::from_item(&e[1]),
            ChainCode::from_item(&e[2]),
            Vec::<u8>::from_item(&e[3]),
        ) {
            (
                Some(vkey),
                Some(signature),
                Some(chain_code),
                Some(attributes),
            ) => Some(
                BootstrapWitness {
                    vkey,
                    signature,
                    chain_code,
                    attributes,
                },
            ),
            _ => None,
        }
    }
}

pub type Vkeywitnesses = TaggedSet<Vkeywitness>;

pub type BootstrapWitnesses = TaggedSet<BootstrapWitness>;

/// Whether a value is of the structure that the witness set asks of the
/// field with that key: key and bootstrap witnesses (0, 2) are sets of
/// witnesses; scripts and data (1, 3, 4, 6, 7) are sets of any items;
/// redeemers (5) are an array or a map.
pub open spec fn witness_field_ok(key: u64, t: CborV) -> bool {
    if key == 0 {
        Vkeywitnesses::of_tree(t) is Some
    } else if key == 2 {
        BootstrapWitnesses::of_tree(t) is Some
    } else if key == 1 || key == 3 || key == 4 || key == 6 || key == 7 {
        set_of(t) is Some
    } else if key == 5 {
        t is Array || t is Pairs
    } else {
        false
    }
}

/// Every field is of the structure that its key asks for.
pub open spec fn witness_fields_ok(f: Seq<(u64, CborV)>) -> bool {
    forall|i: int| 0 <= i < f.len() ==> witness_field_ok((#[trigger] f[i]).0, f[i].1)
}

/// Whether the field for `key` is written as a set.
pub open spec fn is_set_key(key: u64) -> bool {
    key == 0 || key == 1 || key == 2 || key == 3 || key == 4 || key == 6 || key == 7
}

/// A witness set: its fields in the order written, each value as a data
/// item.
#[derive(Debug, PartialEq, Eq)]
pub struct TransactionWitnessSet {
    pub fields: Vec<(u64, Cbor)>,
}

impl View for TransactionWitnessSet {
    type V = Seq<(u64, CborV)>;

    open spec fn view(&self) -> Seq<(u64, CborV)> {
        field_views(self.fields@)
    }
}

impl Clone for TransactionWitnessSet {
    fn clone(&self) -> (r: Self)
        ensures
            r@ == self@,
    {
        TransactionWitnessSet { fields: dup_fields(&self.fields) }
    }
}

fn witness_field_check(key: u64, item: &Cbor) -> (r: bool)
    ensures
        r == witness_field_ok(key, item@),
{
    if key == 0 {
        Vkeywitnesses::from_item(item).is_some()
    } else if key == 2 {
        BootstrapWitnesses::from_item(item).is_some()
    } else if key == 1 || key == 3 || key == 4 || key == 6 || key == 7 {
        read_set(item).is_some()
    } else if key == 5 {
        match item {
            Cbor::Array(_) => true,
            Cbor::Pairs(_) => true,
            _ => false,
        }
    } else {
        false
    }
}

impl TransactionWitnessSet {
    /// A witness set without fields.
    pub fn new() -> (r: TransactionWitnessSet)
        ensures
            r@ == Seq::<(u64, CborV)>::empty(),
    {
        let r = TransactionWitnessSet { fields: Vec::new() };
        assert(r@ =~= Seq::<(u64, CborV)>::empty());
        r
    }

    /// The key witnesses, where the set holds that field.
    pub fn vkeys(&self) -> (r: Option<Vkeywitnesses>)
        ensures
            opt_view(r) == match field(self@, 0) {
                Some(t) => Vkeywitnesses::of_tree(t),
                None => None,
            },
    {
        match find_field(&self.fields, 0) {
            Some(i) => Vkeywitnesses::from_item(&self.fields[i].1),
            None => None,
        }
    }

    /// The bootstrap witnesses, where the set holds that field.
    pub fn bootstraps(&self) -> (r: Option<BootstrapWitnesses>)
        ensures
            opt_view(r) == match field(self@, 2) {
                Some(t) => BootstrapWitnesses::of_tree(t),
                None => None,
            },
    {
        match find_field(&self.fields, 2) {
            Some(i) => BootstrapWitnesses::from_item(&self.fields[i].1),
            None => None,
        }
    }
}

impl Codec for TransactionWitnessSet {
    open spec fn tree(v: Seq<(u64, CborV)>) -> CborV {
        CborV::Pairs(field_trees(v))
    }

    open spec fn of_tree(t: CborV) -> Option<Seq<(u64, CborV)>> {
        match fields_of_tree(t) {
            Some(f) => if distinct_keys(f) && witness_fields_ok(f) {
                Some(f)
            } else {
                None
            },
            None => None,
        }
    }

    open spec fn valid(v: Seq<(u64, CborV)>) -> bool {
        &&& distinct_keys(v)
        &&& witness_fields_ok(v)
        &&& v.len() <= u64::MAX
        &&& forall|i: int| 0 <= i < v.len() ==> wf((#[trigger] v[i]).1)
    }

    proof fn lemma_tree_round_trip(v: Seq<(u64, CborV)>) {
        lemma_fields_round_trip(v);
        let ps = field_trees(v);
        assert forall|i: int| 0 <= i < ps.len() implies wf((#[trigger] ps[i]).0) && wf(
            ps[i].1,
        ) by {
            assert(wf(v[i].1));
        }
    }

    proof fn lemma_read_exact(t: CborV) {
        let ps = t->Pairs_0;
        let f = crate::fields::fields_of(ps)->0;
        assert forall|i: int| 0 <= i < ps.len() implies (#[trigger] field_trees(f)[i]) == ps[i]
            && wf(f[i].1) by {
            assert(wf(ps[i].0) && wf(ps[i].1));
            assert(ps[i].0 is Uint);
        }
        assert(field_trees(f) =~= ps);
    }

    fn dup(&self) -> (r: Self) {
        self.clone()
    }

    fn to_item(&self) -> (r: Cbor) {
        fields_item(&self.fields)
    }

    fn from_item(item: &Cbor) -> (r: Option<TransactionWitnessSet>) {
        let fields = match read_fields(item) {
            Some(f) => f,
            None => {
                return None;
            },
        };
        if !keys_are_distinct(&fields) {
            return None;
        }
        let mut i: usize = 0;
        while i < fields.len()
            invariant
                fields_of_tree(item@) == Some(field_views(fields@)),
                i <= fields.len(),
                forall|j: int|
                    0 <= j < i ==> witness_field_ok(
                        (#[trigger] field_views(fields@)[j]).0,
                        field_views(fields@)[j].1,
                    ),
            decreases fields.len() - i,
        {
            if !witness_field_check(fields[i].0, &fields[i].1) {
                proof {
                    let f = field_views(fields@);
                    assert(!witness_field_ok(f[i as int].0, f[i as int].1));
                }
                return None;
            }
            i += 1;
        }
        Some(TransactionWitnessSet { fields })
    }
}

} // verus!

