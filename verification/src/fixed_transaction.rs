//! The transaction assembly: a body with the bytes it was read from, the
//! hash of those bytes, and a witness collection that grows by signing.

use crate::address::{attributes_bytes, ByronAddress};
use crate::body::{AuxiliaryData, TransactionBody};
use crate::cbor::head::{head_at, head_bytes, push_head, read_head};
use crate::cbor::item::CborV;
use crate::cbor::span::{item_span, item_spans, lemma_span_after, run_end};
use crate::codec::{array_with, lemma_array_with, of_bytes, opt_view, Codec, DecodeError};
use crate::crypto::{
    blake2b256, blake2b256_digest, ed25519_extended_public, ed25519_extended_signature,
    Bip32PrivateKey, LegacyDaedalusPrivateKey, PrivateKey, SigningError,
};
use crate::fixed_witnesses::{
    fixed_witnesses_of, kept_well, lemma_with_element_kept, with_element, witness_bytes,
    FixedTxWitnessesSet, FixedWitnessesV,
};
use crate::hex::{from_hex, hex, to_hex, unhex};
use crate::primitives::{FixedBytes, TransactionHash};
use crate::tag_state::{has_transaction_set_tag_internal, sets_state, tags_forced};
use crate::witness::{BootstrapWitness, BootstrapWitnessV, TransactionWitnessSet, Vkeywitness};
use vstd::prelude::*;
use vstd::slice::{slice_subrange, slice_to_vec};
use vstd::utf8::encode_utf8;

verus! {

/// Which part was refused when an assembly was built or changed, and why.
/// A key that could not sign is refused where the key is made, with a
/// `SigningError`.
#[derive(Clone, Copy, Debug, PartialEq, Eq, Structural)]
pub enum TxError {
    /// The body bytes were refused.
    Body(DecodeError),
    /// The witness-set bytes were refused.
    WitnessSet(DecodeError),
    /// The auxiliary-data bytes were refused.
    AuxiliaryData(DecodeError),
    /// The bytes of a whole transaction are not an array of four items.
    Transaction,
    /// The third item of a whole transaction is not `true` or `false`.
    Validity,
}

/// A transaction being assembled.
#[derive(Debug)]
pub struct FixedTransaction {
    /// The body as read.
    pub(crate) body: TransactionBody,
    /// The bytes the body was read from.
    pub(crate) body_bytes: Vec<u8>,
    /// The digest of the bytes given at construction.
    pub(crate) tx_hash: TransactionHash,
    /// The witnesses.
    pub(crate) witness_set: FixedTxWitnessesSet,
    /// The validity marker, carried through.
    pub(crate) is_valid: bool,
    /// The auxiliary data as read.
    pub(crate) auxiliary_data: Option<AuxiliaryData>,
    /// The bytes the auxiliary data was read from.
    pub(crate) auxiliary_bytes: Option<Vec<u8>>,
}

/// What a `FixedTransaction` holds.
pub struct FixedTransactionV {
    pub body: Seq<(u64, CborV)>,
    pub body_bytes: Seq<u8>,
    pub tx_hash: Seq<u8>,
    pub witness_set: FixedWitnessesV,
    pub is_valid: bool,
    pub auxiliary_data: Option<CborV>,
    pub auxiliary_bytes: Option<Seq<u8>>,
}

/// The view of optional bytes.
pub open spec fn opt_bytes(o: Option<Vec<u8>>) -> Option<Seq<u8>> {
    match o {
        Some(b) => Some(b@),
        None => None,
    }
}

impl View for FixedTransaction {
    type V = FixedTransactionV;

    open(crate) spec fn view(&self) -> FixedTransactionV {
        FixedTransactionV {
            body: self.body@,
            body_bytes: self.body_bytes@,
            tx_hash: self.tx_hash.bytes@,
            witness_set: self.witness_set@,
            is_valid: self.is_valid,
            auxiliary_data: opt_view(self.auxiliary_data),
            auxiliary_bytes: opt_bytes(self.auxiliary_bytes),
        }
    }
}

/// The witness collection with the policy that the sets of the body and of
/// the collection itself call for: bare sets only where no set is tagged.
pub open spec fn with_policy(ws: FixedWitnessesV, body: Seq<(u64, CborV)>) -> FixedWitnessesV {
    FixedWitnessesV { tag_policy: tags_forced(sets_state(body, Some(ws.fields))), ..ws }
}

/// The assembly of already-read parts: the hash is the digest of the body
/// bytes, and the collection takes the policy that the sets call for.
pub open spec fn assembled_parts(
    body: Seq<(u64, CborV)>,
    raw_body: Seq<u8>,
    ws: FixedWitnessesV,
    is_valid: bool,
    auxiliary_data: Option<CborV>,
    auxiliary_bytes: Option<Seq<u8>>,
) -> FixedTransactionV {
    FixedTransactionV {
        body,
        body_bytes: raw_body,
        tx_hash: blake2b256_digest(raw_body),
        witness_set: with_policy(ws, body),
        is_valid,
        auxiliary_data,
        auxiliary_bytes,
    }
}

/// What body bytes and witness-set bytes assemble to. The body is read
/// first: where both are refused, the error names the body.
pub open spec fn assembled(raw_body: Seq<u8>, raw_ws: Seq<u8>, is_valid: bool) -> Result<
    FixedTransactionV,
    TxError,
> {
    match of_bytes::<TransactionBody>(raw_body) {
        Err(e) => Err(TxError::Body(e)),
        Ok(body) => match fixed_witnesses_of(raw_ws) {
            Err(e) => Err(TxError::WitnessSet(e)),
            Ok(ws) => Ok(assembled_parts(body, raw_body, ws, is_valid, None, None)),
        },
    }
}

/// What body, witness-set and auxiliary-data bytes assemble to. They are
/// read in that order, and the error names the first that is refused.
pub open spec fn assembled_with_auxiliary(
    raw_body: Seq<u8>,
    raw_ws: Seq<u8>,
    raw_aux: Seq<u8>,
    is_valid: bool,
) -> Result<FixedTransactionV, TxError> {
    match of_bytes::<TransactionBody>(raw_body) {
        Err(e) => Err(TxError::Body(e)),
        Ok(body) => match fixed_witnesses_of(raw_ws) {
            Err(e) => Err(TxError::WitnessSet(e)),
            Ok(ws) => match of_bytes::<AuxiliaryData>(raw_aux) {
                Err(e) => Err(TxError::AuxiliaryData(e)),
                Ok(aux) => Ok(
                    assembled_parts(body, raw_body, ws, is_valid, Some(aux), Some(raw_aux)),
                ),
            },
        },
    }
}

/// An empty collection with the policy that the sets of the body call for.
pub open spec fn empty_witnesses(body: Seq<(u64, CborV)>) -> FixedWitnessesV {
    FixedWitnessesV {
        fields: Seq::empty(),
        raw: Seq::empty(),
        tag_policy: tags_forced(sets_state(body, None)),
    }
}

/// What body bytes alone assemble to: no witnesses yet, and valid.
pub open spec fn assembled_from_body(raw_body: Seq<u8>) -> Result<FixedTransactionV, TxError> {
    match of_bytes::<TransactionBody>(raw_body) {
        Err(e) => Err(TxError::Body(e)),
        Ok(body) => Ok(
            FixedTransactionV {
                body,
                body_bytes: raw_body,
                tx_hash: blake2b256_digest(raw_body),
                witness_set: empty_witnesses(body),
                is_valid: true,
                auxiliary_data: None,
                auxiliary_bytes: None,
            },
        ),
    }
}

/// One change to an assembly, with what was read from bytes already read.
pub enum Change {
    /// The set for `key` receives an element.
    AddWitness { key: u64, elem: CborV },
    /// The validity marker is set.
    SetValid { valid: bool },
    /// The auxiliary data and its bytes are replaced.
    SetAuxiliary { auxiliary_data: CborV, raw: Seq<u8> },
    /// The body and its bytes are replaced.
    SetBody { body: Seq<(u64, CborV)>, raw: Seq<u8> },
    /// The witness collection is replaced.
    SetWitnesses { witness_set: FixedWitnessesV },
}

/// The assembly after one change.
pub open spec fn changed(v: FixedTransactionV, c: Change) -> FixedTransactionV {
    match c {
        Change::AddWitness { key, elem } => FixedTransactionV {
            witness_set: with_element(v.witness_set, key, elem),
            ..v
        },
        Change::SetValid { valid } => FixedTransactionV { is_valid: valid, ..v },
        Change::SetAuxiliary { auxiliary_data, raw } => FixedTransactionV {
            auxiliary_data: Some(auxiliary_data),
            auxiliary_bytes: Some(raw),
            ..v
        },
        Change::SetBody { body, raw } => FixedTransactionV { body, body_bytes: raw, ..v },
        Change::SetWitnesses { witness_set } => FixedTransactionV { witness_set, ..v },
    }
}

/// The assembly after a run of changes.
pub open spec fn changed_all(v: FixedTransactionV, cs: Seq<Change>) -> FixedTransactionV
    decreases cs.len(),
{
    if cs.len() == 0 {
        v
    } else {
        changed(changed_all(v, cs.drop_last()), cs.last())
    }
}

/// An assembly whose parts agree: the body is what its bytes hold, the
/// hash is the digest of those bytes, the witness collection is of its
/// structure with its kept bytes in place, and the auxiliary data is what
/// its bytes hold.
pub open spec fn consistent(v: FixedTransactionV) -> bool {
    &&& of_bytes::<TransactionBody>(v.body_bytes) == Ok::<Seq<(u64, CborV)>, DecodeError>(
        v.body,
    )
    &&& v.tx_hash == blake2b256_digest(v.body_bytes)
    &&& kept_well(v.witness_set)
    &&& TransactionWitnessSet::valid(v.witness_set.fields)
    &&& match v.auxiliary_bytes {
        Some(b) => of_bytes::<AuxiliaryData>(b) matches Ok(a) && v.auxiliary_data == Some(a),
        None => v.auxiliary_data is None,
    }
}

/// The byte that the validity marker is written as.
pub open spec fn validity_byte(valid: bool) -> u8 {
    if valid {
        0xf5
    } else {
        0xf4
    }
}

/// The bytes that stand for the auxiliary data in a whole transaction: the
/// bytes it was read from, or `null` where there are none.
pub open spec fn auxiliary_part(v: FixedTransactionV) -> Seq<u8> {
    match v.auxiliary_bytes {
        Some(b) => b,
        None => seq![0xf6u8],
    }
}

/// The bytes of the whole transaction: an array of the body as it was
/// read, the witness collection, the validity marker and the auxiliary
/// data as it was read.
pub open spec fn assembly_bytes(v: FixedTransactionV) -> Seq<u8> {
    head_bytes(4, 4) + v.body_bytes + witness_bytes(v.witness_set) + seq![
        validity_byte(v.is_valid),
    ] + auxiliary_part(v)
}

/// The bytes of the `j`-th item of the run that starts at `start`.
pub open spec fn part_at(s: Seq<u8>, start: int, j: nat) -> Seq<u8> {
    match item_span(s, start, j) {
        Some((a, b)) => s.subrange(a, b),
        None => Seq::empty(),
    }
}

/// The bytes are an array, of definite length, of exactly four items.
pub open spec fn is_four(s: Seq<u8>) -> bool {
    head_at(s, 0) matches Some(h) && h.major == 4 && h.info != 31 && h.arg == 4 && run_end(
        s,
        h.end,
        4,
    ) == Some(s.len() as int)
}

/// What the bytes of a whole transaction assemble to. Body, witness set,
/// validity marker and auxiliary data are read in that order, each from its
/// own stretch of the bytes, and the error names the first that is refused.
pub open spec fn assembly_of(s: Seq<u8>) -> Result<FixedTransactionV, TxError> {
    if !is_four(s) {
        Err(TxError::Transaction)
    } else {
        let start = head_at(s, 0)->0.end;
        match of_bytes::<TransactionBody>(part_at(s, start, 0)) {
            Err(e) => Err(TxError::Body(e)),
            Ok(body) => match fixed_witnesses_of(part_at(s, start, 1)) {
                Err(e) => Err(TxError::WitnessSet(e)),
                Ok(ws) => match of_bytes::<bool>(part_at(s, start, 2)) {
                    Err(_) => Err(TxError::Validity),
                    Ok(valid) => if part_at(s, start, 3) == seq![0xf6u8] {
                        Ok(assembled_parts(body, part_at(s, start, 0), ws, valid, None, None))
                    } else {
                        match of_bytes::<AuxiliaryData>(part_at(s, start, 3)) {
                            Err(e) => Err(TxError::AuxiliaryData(e)),
                            Ok(aux) => Ok(
                                assembled_parts(
                                    body,
                                    part_at(s, start, 0),
                                    ws,
                                    valid,
                                    Some(aux),
                                    Some(part_at(s, start, 3)),
                                ),
                            ),
                        }
                    },
                },
            },
        }
    }
}

/// The key witness that a key makes over a hash.
pub open spec fn vkey_witness_spec(hash: Seq<u8>, key: PrivateKey) -> Vkeywitness {
    Vkeywitness {
        vkey: FixedBytes { bytes: array_with::<32>(key.public_spec()) },
        signature: FixedBytes { bytes: array_with::<64>(key.signature_spec(hash)) },
    }
}

/// The bootstrap witness that the 96 bytes of an extended key with its
/// chain code make over a hash, for an address whose attributes are written
/// as the given bytes.
pub open spec fn bootstrap_witness_spec(
    hash: Seq<u8>,
    attributes: Seq<u8>,
    key: Seq<u8>,
) -> BootstrapWitnessV {
    BootstrapWitnessV {
        vkey: FixedBytes {
            bytes: array_with::<32>(ed25519_extended_public(key.subrange(0, 64))),
        },
        signature: FixedBytes {
            bytes: array_with::<64>(ed25519_extended_signature(hash, key.subrange(0, 64))),
        },
        chain_code: FixedBytes { bytes: array_with::<32>(key.subrange(64, 96)) },
        attributes,
    }
}

/// Signs a transaction hash with a key and pairs the signature with the
/// public key.
pub fn make_vkey_witness(tx_body_hash: &TransactionHash, sk: &PrivateKey) -> (r: Vkeywitness)
    requires
        sk.usable(),
    ensures
        r == vkey_witness_spec(tx_body_hash.bytes@, *sk),
{
    let signature = sk.sign(tx_body_hash.bytes.as_slice());
    let vkey = sk.to_public();
    proof {
        lemma_array_with(vkey.bytes);
        lemma_array_with(signature.bytes);
    }
    Vkeywitness { vkey, signature }
}

fn make_bootstrap_witness(
    tx_body_hash: &TransactionHash,
    addr: &ByronAddress,
    raw_key: &PrivateKey,
    chain_code: FixedBytes<32>,
    Ghost(key): Ghost<Seq<u8>>,
) -> (r: BootstrapWitness)
    requires
        key.len() == 96,
        raw_key.usable(),
        raw_key matches PrivateKey::Extended(k) && k.bytes@ == key.subrange(0, 64),
        chain_code.bytes@ == key.subrange(64, 96),
    ensures
        r@ == bootstrap_witness_spec(tx_body_hash.bytes@, attributes_bytes(addr@), key),
{
    let signature = raw_key.sign(tx_body_hash.bytes.as_slice());
    let vkey = raw_key.to_public();
    proof {
        lemma_array_with(vkey.bytes);
        lemma_array_with(signature.bytes);
        lemma_array_with(chain_code.bytes);
    }
    BootstrapWitness { vkey, signature, chain_code, attributes: addr.attributes() }
}

/// The bootstrap witness of a key of the hierarchical scheme that can
/// sign.
pub fn make_icarus_bootstrap_witness(
    tx_body_hash: &TransactionHash,
    addr: &ByronAddress,
    key: &Bip32PrivateKey,
) -> (r: BootstrapWitness)
    requires
        key.usable(),
    ensures
        r@ == bootstrap_witness_spec(
            tx_body_hash.bytes@,
            attributes_bytes(addr@),
            key.bytes.bytes@,
        ),
{
    make_bootstrap_witness(
        tx_body_hash,
        addr,
        &key.to_raw_key(),
        key.chaincode(),
        Ghost(key.bytes.bytes@),
    )
}

/// The bootstrap witness of a key of the first wallets' scheme that can
/// sign.
pub fn make_daedalus_bootstrap_witness(
    tx_body_hash: &TransactionHash,
    addr: &ByronAddress,
    key: &LegacyDaedalusPrivateKey,
) -> (r: BootstrapWitness)
    requires
        key.usable(),
    ensures
        r@ == bootstrap_witness_spec(
            tx_body_hash.bytes@,
            attributes_bytes(addr@),
            key.bytes.bytes@,
        ),
{
    make_bootstrap_witness(
        tx_body_hash,
        addr,
        &key.to_raw_key(),
        key.chaincode(),
        Ghost(key.bytes.bytes@),
    )
}

impl FixedTransaction {
    /// Assembles a transaction from the bytes of its body and of its
    /// witness set. The hash is the digest of the body bytes as given; the
    /// witness collection writes its sets bare only where no set of the
    /// body or of the witness set is tagged.
    pub fn new(raw_body: &[u8], raw_witness_set: &[u8], is_valid: bool) -> (r: Result<
        FixedTransaction,
        TxError,
    >)
        ensures
            match r {
                Ok(tx) => assembled(raw_body@, raw_witness_set@, is_valid) == Ok::<
                    FixedTransactionV,
                    TxError,
                >(tx@) && consistent(tx@),
                Err(e) => assembled(raw_body@, raw_witness_set@, is_valid) == Err::<
                    FixedTransactionV,
                    TxError,
                >(e),
            },
    {
        let body = match TransactionBody::from_bytes(slice_to_vec(raw_body)) {
            Ok(body) => body,
            Err(e) => {
                return Err(TxError::Body(e));
            },
        };
        let witness_set = match FixedTxWitnessesSet::from_bytes(slice_to_vec(raw_witness_set)) {
            Ok(ws) => ws,
            Err(e) => {
                return Err(TxError::WitnessSet(e));
            },
        };
        Self::new_with_original_bytes(
            body,
            slice_to_vec(raw_body),
            witness_set,
            is_valid,
            None,
            None,
        )
    }

    /// As `new`, with auxiliary data read from its bytes.
    pub fn new_with_auxiliary(
        raw_body: &[u8],
        raw_witness_set: &[u8],
        raw_auxiliary_data: &[u8],
        is_valid: bool,
    ) -> (r: Result<FixedTransaction, TxError>)
        ensures
            match r {
                Ok(tx) => assembled_with_auxiliary(
                    raw_body@,
                    raw_witness_set@,
                    raw_auxiliary_data@,
                    is_valid,
                ) == Ok::<FixedTransactionV, TxError>(tx@) && consistent(tx@),
                Err(e) => assembled_with_auxiliary(
                    raw_body@,
                    raw_witness_set@,
                    raw_auxiliary_data@,
                    is_valid,
                ) == Err::<FixedTransactionV, TxError>(e),
            },
    {
        let body = match TransactionBody::from_bytes(slice_to_vec(raw_body)) {
            Ok(body) => body,
            Err(e) => {
                return Err(TxError::Body(e));
            },
        };
        let witness_set = match FixedTxWitnessesSet::from_bytes(slice_to_vec(raw_witness_set)) {
            Ok(ws) => ws,
            Err(e) => {
                return Err(TxError::WitnessSet(e));
            },
        };
        let auxiliary_data = match AuxiliaryData::from_bytes(slice_to_vec(raw_auxiliary_data)) {
            Ok(aux) => aux,
            Err(e) => {
                return Err(TxError::AuxiliaryData(e));
            },
        };
        Self::new_with_original_bytes(
            body,
            slice_to_vec(raw_body),
            witness_set,
            is_valid,
            Some(auxiliary_data),
            Some(slice_to_vec(raw_auxiliary_data)),
        )
    }

    /// Assembles a transaction without witnesses from the bytes of its
    /// body. It is valid, and its witness collection writes new sets bare
    /// only where no set of the body is tagged.
    pub fn new_from_body_bytes(raw_body: &[u8]) -> (r: Result<FixedTransaction, TxError>)
        ensures
            match r {
                Ok(tx) => assembled_from_body(raw_body@) == Ok::<FixedTransactionV, TxError>(tx@)
                    && consistent(tx@),
                Err(e) => assembled_from_body(raw_body@) == Err::<FixedTransactionV, TxError>(e),
            },
    {
        let body = match TransactionBody::from_bytes(slice_to_vec(raw_body)) {
            Ok(body) => body,
            Err(e) => {
                return Err(TxError::Body(e));
            },
        };
        let tx_hash = FixedBytes { bytes: blake2b256(raw_body) };
        let tag_state = has_transaction_set_tag_internal(&body, None);
        let force_set_tag = match tag_state {
            crate::tag_state::TransactionSetsState::AllSetsHaveNoTag => false,
            _ => true,
        };
        let mut witness_set = FixedTxWitnessesSet::new_empty();
        witness_set.force_set_tags_for_new_witnesses(force_set_tag);
        Ok(
            FixedTransaction {
                body,
                body_bytes: slice_to_vec(raw_body),
                tx_hash,
                witness_set,
                is_valid: true,
                auxiliary_data: None,
                auxiliary_bytes: None,
            },
        )
    }

    /// Assembles a transaction from parts that were read already. Always
    /// succeeds.
    pub fn new_with_original_bytes(
        tx_body: TransactionBody,
        raw_body: Vec<u8>,
        tx_witnesses_set: FixedTxWitnessesSet,
        is_valid: bool,
        auxiliary_data: Option<AuxiliaryData>,
        raw_auxiliary_data: Option<Vec<u8>>,
    ) -> (r: Result<FixedTransaction, TxError>)
        ensures
            r matches Ok(tx) && tx@ == assembled_parts(
                tx_body@,
                raw_body@,
                tx_witnesses_set@,
                is_valid,
                opt_view(auxiliary_data),
                opt_bytes(raw_auxiliary_data),
            ),
            kept_well(tx_witnesses_set@) ==> kept_well(r->Ok_0@.witness_set),
            r->Ok_0@.witness_set.fields == tx_witnesses_set@.fields,
    {
        let tx_hash = FixedBytes { bytes: blake2b256(raw_body.as_slice()) };
        let tag_state = has_transaction_set_tag_internal(
            &tx_body,
            Some(tx_witnesses_set.tx_witnesses_set_ref()),
        );
        let force_set_tag = match tag_state {
            crate::tag_state::TransactionSetsState::AllSetsHaveNoTag => false,
            _ => true,
        };
        let mut tx_witnesses_set = tx_witnesses_set;
        tx_witnesses_set.force_set_tags_for_new_witnesses(force_set_tag);
        Ok(
            FixedTransaction {
                body: tx_body,
                body_bytes: raw_body,
                tx_hash,
                witness_set: tx_witnesses_set,
                is_valid,
                auxiliary_data,
                auxiliary_bytes: raw_auxiliary_data,
            },
        )
    }

    /// Assembles a transaction from the bytes of a whole transaction, and
    /// keeps the bytes of its body, of the fields of its witness set and of
    /// its auxiliary data as they stand there.
    pub fn from_bytes(bytes: Vec<u8>) -> (r: Result<FixedTransaction, TxError>)
        ensures
            match r {
                Ok(tx) => assembly_of(bytes@) == Ok::<FixedTransactionV, TxError>(tx@)
                    && consistent(tx@),
                Err(e) => assembly_of(bytes@) == Err::<FixedTransactionV, TxError>(e),
            },
    {
        let h = match read_head(bytes.as_slice(), 0) {
            Some(h) => h,
            None => {
                return Err(TxError::Transaction);
            },
        };
        if h.major != 4 || h.info == 31 || h.arg != 4 {
            return Err(TxError::Transaction);
        }
        let spans = match item_spans(bytes.as_slice(), h.end, 4) {
            Some(spans) => spans,
            None => {
                return Err(TxError::Transaction);
            },
        };
        proof {
            lemma_span_after(bytes@, h.end as int, 3);
        }
        if spans[3].1 != bytes.len() {
            return Err(TxError::Transaction);
        }
        let raw_body = slice_to_vec(slice_subrange(bytes.as_slice(), spans[0].0, spans[0].1));
        let raw_ws = slice_to_vec(slice_subrange(bytes.as_slice(), spans[1].0, spans[1].1));
        let raw_valid = slice_to_vec(slice_subrange(bytes.as_slice(), spans[2].0, spans[2].1));
        let raw_aux = slice_to_vec(slice_subrange(bytes.as_slice(), spans[3].0, spans[3].1));
        proof {
            assert(raw_body@ == part_at(bytes@, h.end as int, 0));
            assert(raw_ws@ == part_at(bytes@, h.end as int, 1));
            assert(raw_valid@ == part_at(bytes@, h.end as int, 2));
            assert(raw_aux@ == part_at(bytes@, h.end as int, 3));
        }
        let body = match TransactionBody::from_bytes(slice_to_vec(raw_body.as_slice())) {
            Ok(body) => body,
            Err(e) => {
                return Err(TxError::Body(e));
            },
        };
        let witness_set = match FixedTxWitnessesSet::from_bytes(raw_ws) {
            Ok(ws) => ws,
            Err(e) => {
                return Err(TxError::WitnessSet(e));
            },
        };
        let is_valid = match bool::from_bytes(raw_valid) {
            Ok(valid) => valid,
            Err(_) => {
                return Err(TxError::Validity);
            },
        };
        if raw_aux.len() == 1 && raw_aux[0] == 0xf6 {
            assert(raw_aux@ =~= seq![0xf6u8]);
            Self::new_with_original_bytes(body, raw_body, witness_set, is_valid, None, None)
        } else {
            let auxiliary_data = match AuxiliaryData::from_bytes(slice_to_vec(raw_aux.as_slice())) {
                Ok(aux) => aux,
                Err(e) => {
                    return Err(TxError::AuxiliaryData(e));
                },
            };
            Self::new_with_original_bytes(
                body,
                raw_body,
                witness_set,
                is_valid,
                Some(auxiliary_data),
                Some(raw_aux),
            )
        }
    }

    /// The bytes of the whole transaction: body and auxiliary data as they
    /// were read, the witness collection as `raw_witness_set` gives it.
    pub fn to_bytes(&self) -> (r: Vec<u8>)
        ensures
            r@ == assembly_bytes(self@),
    {
        let mut out: Vec<u8> = Vec::new();
        push_head(&mut out, 4, 4);
        out.extend_from_slice(self.body_bytes.as_slice());
        let witnesses = self.witness_set.to_bytes();
        out.extend_from_slice(witnesses.as_slice());
        if self.is_valid {
            out.push(0xf5);
        } else {
            out.push(0xf4);
        }
        match &self.auxiliary_bytes {
            Some(b) => {
                out.extend_from_slice(b.as_slice());
            },
            None => {
                out.push(0xf6);
            },
        }
        assert(out@ =~= assembly_bytes(self@));
        out
    }

    /// The bytes of the whole transaction, in hexadecimal.
    pub fn to_hex(&self) -> (r: String)
        ensures
            encode_utf8(r@) == hex(assembly_bytes(self@)),
    {
        let bytes = self.to_bytes();
        to_hex(bytes.as_slice())
    }

    /// Assembles a transaction from the hexadecimal text of a whole
    /// transaction; text that is not hexadecimal is refused as no
    /// transaction.
    pub fn from_hex(text: &str) -> (r: Result<FixedTransaction, TxError>)
        ensures
            match r {
                Ok(tx) => unhex(encode_utf8(text@)) matches Some(b) && assembly_of(b) == Ok::<
                    FixedTransactionV,
                    TxError,
                >(tx@) && consistent(tx@),
                Err(e) => match unhex(encode_utf8(text@)) {
                    Some(b) => assembly_of(b) == Err::<FixedTransactionV, TxError>(e),
                    None => e == TxError::Transaction,
                },
            },
    {
        match from_hex(text) {
            Some(bytes) => Self::from_bytes(bytes),
            None => Err(TxError::Transaction),
        }
    }

    pub fn body(&self) -> (r: TransactionBody)
        ensures
            r@ == self@.body,
    {
        self.body.clone()
    }

    pub fn raw_body(&self) -> (r: Vec<u8>)
        ensures
            r@ == self@.body_bytes,
    {
        slice_to_vec(self.body_bytes.as_slice())
    }

    /// Replaces the body and its bytes. The hash stays the digest of the
    /// bytes given at construction, and the witness collection keeps its
    /// policy. Where the bytes are refused nothing changes.
    pub fn set_body(&mut self, raw_body: &[u8]) -> (r: Result<(), TxError>)
        ensures
            match r {
                Ok(_) => of_bytes::<TransactionBody>(raw_body@) matches Ok(body) && final(self)@
                    == changed(old(self)@, Change::SetBody { body, raw: raw_body@ }),
                Err(e) => of_bytes::<TransactionBody>(raw_body@) matches Err(d) && e
                    == TxError::Body(d) && final(self)@ == old(self)@,
            },
            final(self)@.tx_hash == old(self)@.tx_hash,
    {
        let body = match TransactionBody::from_bytes(slice_to_vec(raw_body)) {
            Ok(body) => body,
            Err(e) => {
                return Err(TxError::Body(e));
            },
        };
        self.body = body;
        self.body_bytes = slice_to_vec(raw_body);
        Ok(())
    }

    /// Replaces the witness collection by the one read from bytes, with no
    /// regard to the sets of the body: its policy is its own. Kept for
    /// callers of old; prefer the operations that add witnesses.
    pub fn set_witness_set(&mut self, raw_witness_set: &[u8]) -> (r: Result<(), TxError>)
        ensures
            match r {
                Ok(_) => fixed_witnesses_of(raw_witness_set@) matches Ok(ws) && final(self)@
                    == changed(old(self)@, Change::SetWitnesses { witness_set: ws }),
                Err(e) => fixed_witnesses_of(raw_witness_set@) matches Err(d) && e
                    == TxError::WitnessSet(d) && final(self)@ == old(self)@,
            },
            final(self)@.tx_hash == old(self)@.tx_hash,
    {
        let witness_set = match FixedTxWitnessesSet::from_bytes(slice_to_vec(raw_witness_set)) {
            Ok(ws) => ws,
            Err(e) => {
                return Err(TxError::WitnessSet(e));
            },
        };
        self.witness_set = witness_set;
        Ok(())
    }

    pub fn witness_set(&self) -> (r: TransactionWitnessSet)
        ensures
            r@ == self@.witness_set.fields,
    {
        self.witness_set.tx_witnesses_set()
    }

    /// The bytes of the witness collection, every set in the form of the
    /// policy: fields that were not touched and are in that form as they
    /// were read, the others in canonical form.
    pub fn raw_witness_set(&self) -> (r: Vec<u8>)
        ensures
            r@ == witness_bytes(self@.witness_set),
    {
        self.witness_set.to_bytes()
    }

    pub fn set_is_valid(&mut self, valid: bool)
        ensures
            final(self)@ == changed(old(self)@, Change::SetValid { valid }),
    {
        self.is_valid = valid
    }

    pub fn is_valid(&self) -> (r: bool)
        ensures
            r == self@.is_valid,
    {
        self.is_valid
    }

    /// Replaces the auxiliary data and its bytes together. Where the bytes
    /// are refused nothing changes.
    pub fn set_auxiliary_data(&mut self, raw_auxiliary_data: &[u8]) -> (r: Result<(), TxError>)
        ensures
            match r {
                Ok(_) => of_bytes::<AuxiliaryData>(raw_auxiliary_data@) matches Ok(aux)
                    && final(self)@ == changed(
                    old(self)@,
                    Change::SetAuxiliary { auxiliary_data: aux, raw: raw_auxiliary_data@ },
                ),
                Err(e) => of_bytes::<AuxiliaryData>(raw_auxiliary_data@) matches Err(d) && e
                    == TxError::AuxiliaryData(d) && final(self)@ == old(self)@,
            },
            final(self)@.tx_hash == old(self)@.tx_hash,
    {
        let auxiliary_data = match AuxiliaryData::from_bytes(slice_to_vec(raw_auxiliary_data)) {
            Ok(aux) => aux,
            Err(e) => {
                return Err(TxError::AuxiliaryData(e));
            },
        };
        self.auxiliary_data = Some(auxiliary_data);
        self.auxiliary_bytes = Some(slice_to_vec(raw_auxiliary_data));
        Ok(())
    }

    pub fn auxiliary_data(&self) -> (r: Option<AuxiliaryData>)
        ensures
            opt_view(r) == self@.auxiliary_data,
    {
        match &self.auxiliary_data {
            Some(a) => Some(a.clone()),
            None => None,
        }
    }

    pub fn raw_auxiliary_data(&self) -> (r: Option<Vec<u8>>)
        ensures
            opt_bytes(r) == self@.auxiliary_bytes,
    {
        match &self.auxiliary_bytes {
            Some(b) => Some(slice_to_vec(b.as_slice())),
            None => None,
        }
    }

    /// The hash that signatures are made over: the digest of the body
    /// bytes given at construction.
    pub fn transaction_hash(&self) -> (r: TransactionHash)
        ensures
            r.bytes@ == self@.tx_hash,
    {
        self.tx_hash
    }

    /// Puts a key witness into the witness collection.
    pub fn add_vkey_witness(&mut self, vkey_witness: &Vkeywitness)
        ensures
            final(self)@ == changed(
                old(self)@,
                Change::AddWitness { key: 0, elem: Vkeywitness::tree(vkey_witness@) },
            ),
            final(self)@.tx_hash == old(self)@.tx_hash,
            kept_well(old(self)@.witness_set) ==> kept_well(final(self)@.witness_set),
    {
        proof {
            if kept_well(self@.witness_set) {
                lemma_with_element_kept(self@.witness_set, 0, Vkeywitness::tree(vkey_witness@));
            }
        }
        self.witness_set.add_vkey_witness(vkey_witness);
    }

    /// Puts a bootstrap witness into the witness collection.
    pub fn add_bootstrap_witness(&mut self, bootstrap_witness: &BootstrapWitness)
        ensures
            final(self)@ == changed(
                old(self)@,
                Change::AddWitness { key: 2, elem: BootstrapWitness::tree(bootstrap_witness@) },
            ),
            final(self)@.tx_hash == old(self)@.tx_hash,
            kept_well(old(self)@.witness_set) ==> kept_well(final(self)@.witness_set),
    {
        proof {
            if kept_well(self@.witness_set) {
                lemma_with_element_kept(
                    self@.witness_set,
                    2,
                    BootstrapWitness::tree(bootstrap_witness@),
                );
            }
        }
        self.witness_set.add_bootstrap_witness(bootstrap_witness);
    }

    /// Signs the transaction hash with a key and puts the witness into the
    /// witness collection. A key that cannot sign is refused, and nothing
    /// changes.
    pub fn sign_and_add_vkey_signature(&mut self, private_key: &PrivateKey) -> (r: Result<
        (),
        SigningError,
    >)
        ensures
            match r {
                Ok(_) => private_key.usable() && final(self)@ == changed(
                    old(self)@,
                    Change::AddWitness {
                        key: 0,
                        elem: Vkeywitness::tree(
                            vkey_witness_spec(old(self)@.tx_hash, *private_key),
                        ),
                    },
                ),
                Err(e) => !private_key.usable() && e == SigningError::InvalidScalar
                    && final(self)@ == old(self)@,
            },
            final(self)@.tx_hash == old(self)@.tx_hash,
    {
        if !private_key.is_usable() {
            return Err(SigningError::InvalidScalar);
        }
        let vkey_witness = make_vkey_witness(&self.tx_hash, private_key);
        self.witness_set.add_vkey_witness(&vkey_witness);
        Ok(())
    }

    /// Signs the transaction hash with a key of the hierarchical scheme,
    /// for an address of the first era, and puts the bootstrap witness into
    /// the witness collection. A key that cannot sign is refused, and
    /// nothing changes.
    pub fn sign_and_add_icarus_bootstrap_signature(
        &mut self,
        addr: &ByronAddress,
        private_key: &Bip32PrivateKey,
    ) -> (r: Result<(), SigningError>)
        ensures
            match r {
                Ok(_) => private_key.usable() && final(self)@ == changed(
                    old(self)@,
                    Change::AddWitness {
                        key: 2,
                        elem: BootstrapWitness::tree(
                            bootstrap_witness_spec(
                                old(self)@.tx_hash,
                                attributes_bytes(addr@),
                                private_key.bytes.bytes@,
                            ),
                        ),
                    },
                ),
                Err(e) => !private_key.usable() && e == SigningError::InvalidScalar
                    && final(self)@ == old(self)@,
            },
            final(self)@.tx_hash == old(self)@.tx_hash,
    {
        if !private_key.is_usable() {
            return Err(SigningError::InvalidScalar);
        }
        let bootstrap_witness = make_icarus_bootstrap_witness(&self.tx_hash, addr, private_key);
        self.witness_set.add_bootstrap_witness(&bootstrap_witness);
        Ok(())
    }

    /// Signs the transaction hash with a key of the first wallets' scheme,
    /// for an address of the first era, and puts the bootstrap witness into
    /// the witness collection. A key that cannot sign is refused, and
    /// nothing changes.
    pub fn sign_and_add_daedalus_bootstrap_signature(
        &mut self,
        addr: &ByronAddress,
        private_key: &LegacyDaedalusPrivateKey,
    ) -> (r: Result<(), SigningError>)
        ensures
            match r {
                Ok(_) => private_key.usable() && final(self)@ == changed(
                    old(self)@,
                    Change::AddWitness {
                        key: 2,
                        elem: BootstrapWitness::tree(
                            bootstrap_witness_spec(
                                old(self)@.tx_hash,
                                attributes_bytes(addr@),
                                private_key.bytes.bytes@,
                            ),
                        ),
                    },
                ),
                Err(e) => !private_key.usable() && e == SigningError::InvalidScalar
                    && final(self)@ == old(self)@,
            },
            final(self)@.tx_hash == old(self)@.tx_hash,
    {
        if !private_key.is_usable() {
            return Err(SigningError::InvalidScalar);
        }
        let bootstrap_witness = make_daedalus_bootstrap_witness(&self.tx_hash, addr, private_key);
        self.witness_set.add_bootstrap_witness(&bootstrap_witness);
        Ok(())
    }

    pub fn body_bytes_ref(&self) -> (r: &Vec<u8>)
        ensures
            r@ == self@.body_bytes,
    {
        &self.body_bytes
    }

    pub fn witnesses_set_ref(&self) -> (r: &FixedTxWitnessesSet)
        ensures
            r@ == self@.witness_set,
    {
        &self.witness_set
    }

    pub fn auxiliary_bytes_ref(&self) -> (r: Option<&Vec<u8>>)
        ensures
            match r {
                Some(b) => self@.auxiliary_bytes == Some(b@),
                None => self@.auxiliary_bytes is None,
            },
    {
        self.auxiliary_bytes.as_ref()
    }
}

impl Clone for FixedTransaction {
    fn clone(&self) -> (r: Self)
        ensures
            r@ == self@,
    {
        FixedTransaction {
            body: self.body.clone(),
            body_bytes: slice_to_vec(self.body_bytes.as_slice()),
            tx_hash: self.tx_hash,
            witness_set: self.witness_set.clone(),
            is_valid: self.is_valid,
            auxiliary_data: match &self.auxiliary_data {
                Some(a) => Some(a.clone()),
                None => None,
            },
            auxiliary_bytes: match &self.auxiliary_bytes {
                Some(b) => Some(slice_to_vec(b.as_slice())),
                None => None,
            },
        }
    }
}

} // verus!
