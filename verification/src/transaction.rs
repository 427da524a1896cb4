//! Whole transactions: body, witness set, validity and auxiliary data.

use crate::body::{AuxiliaryData, TransactionBody};
use crate::cbor::item::{item_views, Cbor, CborV};
use crate::cbor::laws::{lemma_wf_short, wf};
use crate::codec::{
    array_item, null, opt_from_item, opt_of_tree, opt_to_item, opt_tree, opt_view, read_sized,
    sized_of, Codec, DecodeError,
};
use crate::tag_state::{has_transaction_set_tag_internal, sets_state, TransactionSetsState};
use crate::witness::TransactionWitnessSet;
use vstd::prelude::*;

verus! {

/// A transaction as it travels.
#[derive(Debug, PartialEq, Eq)]
pub struct Transaction {
    pub body: TransactionBody,
    pub witness_set: TransactionWitnessSet,
    pub is_valid: bool,
    pub auxiliary_data: Option<AuxiliaryData>,
}

/// What a `Transaction` holds.
pub struct TransactionV {
    pub body: Seq<(u64, CborV)>,
    pub witness_set: Seq<(u64, CborV)>,
    pub is_valid: bool,
    pub auxiliary_data: Option<CborV>,
}

impl View for Transaction {
    type V = TransactionV;

    open spec fn view(&self) -> TransactionV {
        TransactionV {
            body: self.body@,
            witness_set: self.witness_set@,
            is_valid: self.is_valid,
            auxiliary_data: opt_view(self.auxiliary_data),
        }
    }
}

impl Clone for Transaction {
    fn clone(&self) -> (r: Self)
        ensures
            r@ == self@,
    {
        Transaction {
            body: self.body.dup(),
            witness_set: self.witness_set.dup(),
            is_valid: self.is_valid,
            auxiliary_data: match &self.auxiliary_data {
                Some(a) => Some(a.dup()),
                None => None,
            },
        }
    }
}

impl Transaction {
    pub fn new(
        body: &TransactionBody,
        witness_set: &TransactionWitnessSet,
        is_valid: bool,
        auxiliary_data: Option<AuxiliaryData>,
    ) -> (r: Self)
        ensures
            r@ == (TransactionV {
                body: body@,
                witness_set: witness_set@,
                is_valid: is_valid,
                auxiliary_data: opt_view(auxiliary_data),
            }),
    {
        Transaction {
            body: body.dup(),
            witness_set: witness_set.dup(),
            is_valid: is_valid,
            auxiliary_data: auxiliary_data,
        }
    }
}

impl Codec for Transaction {
    open spec fn tree(v: TransactionV) -> CborV {
        CborV::Array(
            seq![
                TransactionBody::tree(v.body),
                TransactionWitnessSet::tree(v.witness_set),
                bool::tree(v.is_valid),
                opt_tree::<AuxiliaryData>(v.auxiliary_data),
            ],
        )
    }

    open spec fn of_tree(t: CborV) -> Option<TransactionV> {
        match sized_of(t, 4) {
            Some(e) => match (
                TransactionBody::of_tree(e[0]),
                TransactionWitnessSet::of_tree(e[1]),
                bool::of_tree(e[2]),
                opt_of_tree::<AuxiliaryData>(e[3]),
            ) {
                (
                    Some(body),
                    Some(witness_set),
                    Some(is_valid),
                    Some(auxiliary_data),
                ) => Some(
                    TransactionV {
                        body,
                        witness_set,
                        is_valid,
                        auxiliary_data,
                    },
                ),
                _ => None,
            },
            None => None,
        }
    }

    open spec fn valid(v: TransactionV) -> bool {
        &&& TransactionBody::valid(v.body)
        &&& TransactionWitnessSet::valid(v.witness_set)
        &&& (v.auxiliary_data matches Some(a) ==> AuxiliaryData::valid(a))
    }

    proof fn lemma_tree_round_trip(v: TransactionV) {
        TransactionBody::lemma_tree_round_trip(v.body);
        TransactionWitnessSet::lemma_tree_round_trip(v.witness_set);
        bool::lemma_tree_round_trip(v.is_valid);
        if let Some(a) = v.auxiliary_data {
            AuxiliaryData::lemma_tree_round_trip(a);
        }
        lemma_wf_short(Self::tree(v)->Array_0);
    }

    proof fn lemma_read_exact(t: CborV) {
        let e = t->Array_0;
        assert(wf(e[0]));
        TransactionBody::lemma_read_exact(e[0]);
        assert(wf(e[1]));
        TransactionWitnessSet::lemma_read_exact(e[1]);
        assert(wf(e[2]));
        bool::lemma_read_exact(e[2]);
        assert(wf(e[3]));
        if e[3] != null() {
            AuxiliaryData::lemma_read_exact(e[3]);
        }
        assert(Self::tree(Self::of_tree(t)->0)->Array_0 =~= e);
    }

    fn dup(&self) -> (r: Self) {
        self.clone()
    }

    fn to_item(&self) -> (r: Cbor) {
        let mut v: Vec<Cbor> = Vec::new();
        v.push(self.body.to_item());
        v.push(self.witness_set.to_item());
        v.push(self.is_valid.to_item());
        v.push(opt_to_item(&self.auxiliary_data));
        proof {
            assert(item_views(v@) =~= Self::tree(self@)->Array_0);
        }
        array_item(v)
    }

    fn from_item(item: &Cbor) -> (r: Option<Transaction>) {
        let e = match read_sized(item, 4) {
            Some(e) => e,
            None => {
                return None;
            },
        };
        match (
            TransactionBody::from_item(&e[0]),
            TransactionWitnessSet::from_item(&e[1]),
            bool::from_item(&e[2]),
            opt_from_item::<AuxiliaryData>(&e[3]),
        ) {
            (
                Some(body),
                Some(witness_set),
                Some(is_valid),
                Some(auxiliary_data),
            ) => Some(
                Transaction {
                    body,
                    witness_set,
                    is_valid,
                    auxiliary_data,
                },
            ),
            _ => None,
        }
    }
}

impl Transaction {
    pub fn body(&self) -> (r: TransactionBody)
        ensures
            r@ == self@.body,
    {
        self.body.clone()
    }

    pub fn witness_set(&self) -> (r: TransactionWitnessSet)
        ensures
            r@ == self@.witness_set,
    {
        self.witness_set.clone()
    }

    pub fn is_valid(&self) -> (r: bool)
        ensures
            r == self@.is_valid,
    {
        self.is_valid
    }

    pub fn auxiliary_data(&self) -> (r: Option<AuxiliaryData>)
        ensures
            opt_view(r) == self@.auxiliary_data,
    {
        match &self.auxiliary_data {
            Some(a) => Some(a.clone()),
            None => None,
        }
    }
}

/// The form of the sets of the transaction that bytes hold.
pub fn has_transaction_set_tag(tx_bytes: Vec<u8>) -> (r: Result<TransactionSetsState, DecodeError>)
    ensures
        match r {
            Ok(state) => crate::codec::of_bytes::<Transaction>(tx_bytes@) matches Ok(tx) && state
                == sets_state(tx.body, Some(tx.witness_set)),
            Err(e) => crate::codec::of_bytes::<Transaction>(tx_bytes@) == Err::<
                TransactionV,
                DecodeError,
            >(e),
        },
{
    match Transaction::from_bytes(tx_bytes) {
        Ok(tx) => Ok(has_transaction_set_tag_internal(&tx.body, Some(&tx.witness_set))),
        Err(e) => Err(e),
    }
}

} // verus!
