use tx_assembly::address::ByronAddress;
use tx_assembly::cbor::decode::from_bytes as item_from_bytes;
use tx_assembly::cbor::head::read_head;
use tx_assembly::cbor::item::Cbor;
use tx_assembly::cbor::span::item_spans;
use tx_assembly::codec::{Codec, DecodeError};
use tx_assembly::crypto::{Bip32PrivateKey, LegacyDaedalusPrivateKey, PrivateKey, SigningError};
use tx_assembly::fixed_transaction::{FixedTransaction, TxError};
use tx_assembly::fixed_witnesses::FixedTxWitnessesSet;
use tx_assembly::hex::{from_hex, to_hex};
use tx_assembly::primitives::{FixedBytes, Hash28};
use tx_assembly::tag_state::{has_transaction_set_tag_internal, TransactionSetsState};
use tx_assembly::transaction::{has_transaction_set_tag, Transaction};
use tx_assembly::witness::{BootstrapWitness, Vkeywitness};

const TX_ONE: &str = "84a4008182582038e88b8b95dc13639c2c0adc6a159316bd795da6672d4025f5f2bc50f122438f010181a20058390013ca2480e9651a5c504b36eda271ec171cdd404cfe349097524a48bd8bee57ce33c7c1f711bc5801986d89dd68078f5922b83812cc86f65f011b0000000253f7736e021a00029d59048184108200581c1033bbc7db733c057fed63fa085113dfb570566eb708d548d2f7cce800f6a1008182582072fe72c3f2506a2b88cf9c6388535d98f90d481aa734e0e3553792cb9984ffcc5840509a64b3e450f8b338ba3f759e8cf91273493d425a027a7373071c166de6ab83ed3af6b98415c6372906aeaba9269ecf1c40dccbebf8050b4e9ad5e2a5346503f5f6";

const TX_TWO: &str = "84a400818258201e3f301eee4c02377c137eff0260a33b67ea421e3524ce8818e4c5184fa440d2000181a2005839002d745f050a8f7e263f4d0749a82284ed9cc065018c1f4f6a7c1b764882293a49e3ef29a4f9c32e4c18f202f5324182db7790f48dccf7a6dd011b0000000253e3e5ad021a0002a281048183098200581c82293a49e3ef29a4f9c32e4c18f202f5324182db7790f48dccf7a6dd8200581c1033bbc7db733c057fed63fa085113dfb570566eb708d548d2f7cce8a0f5f6";

/// The bytes of the body and of the witness set of a transaction.
fn parts(tx_hex: &str) -> (Vec<u8>, Vec<u8>) {
    let bytes = from_hex(tx_hex).unwrap();
    let head = read_head(&bytes, 0).unwrap();
    let spans = item_spans(&bytes, head.end, 4).unwrap();
    (bytes[spans[0].0..spans[0].1].to_vec(), bytes[spans[1].0..spans[1].1].to_vec())
}

/// The body with its inputs under the set tag.
fn tagged_body(body: &[u8]) -> Vec<u8> {
    assert_eq!(&body[0..3], &[0xa4, 0x00, 0x81]);
    let mut out = vec![0xa4, 0x00, 0xd9, 0x01, 0x02];
    out.extend_from_slice(&body[2..]);
    out
}

fn digest(data: &[u8]) -> Vec<u8> {
    let mut out = [0u8; 32];
    cryptoxide::blake2b::Blake2b::blake2b(&mut out, data, &[]);
    out.to_vec()
}

fn some_witness(x: u8) -> Vkeywitness {
    Vkeywitness::new(&FixedBytes { bytes: [x; 32] }, &FixedBytes { bytes: [x; 64] })
}

fn witness_bytes(x: u8) -> Vec<u8> {
    let mut out = vec![0x82, 0x58, 0x20];
    out.extend_from_slice(&[x; 32]);
    out.extend_from_slice(&[0x58, 0x40]);
    out.extend_from_slice(&[x; 64]);
    out
}

#[test]
fn build_from_body_and_witness_set() {
    let (body, witnesses) = parts(TX_ONE);
    let tx = FixedTransaction::new(&body, &witnesses, true).unwrap();
    assert_eq!(tx.transaction_hash().to_bytes(), digest(&body));
    assert_eq!(tx.witness_set().vkeys().unwrap().len(), 1);
    assert_eq!(tx.raw_body(), body);
    assert_eq!(tx.raw_witness_set(), witnesses);
    assert!(tx.is_valid());
    assert!(tx.auxiliary_data().is_none());
    assert!(tx.raw_auxiliary_data().is_none());
    assert_eq!(tx.body_bytes_ref(), &body);
    assert!(tx.auxiliary_bytes_ref().is_none());
    assert_eq!(tx.witnesses_set_ref().to_bytes(), witnesses);
    assert_eq!(tx.body().to_bytes(), body);
}

#[test]
fn hash_is_the_known_digest() {
    let (body, _) = parts(TX_ONE);
    let tx = FixedTransaction::new_from_body_bytes(&body).unwrap();
    assert_ne!(tx.transaction_hash().to_bytes(), body);
    assert_eq!(tx.transaction_hash().to_bytes().len(), 32);
    assert_eq!(
        to_hex(&digest(&[])),
        "0e5751c026e543b2e8ab2eb06099daa1d1e5df47778f7787faab45cdf12fe3a8"
    );
}

#[test]
fn sign_and_add_key_witness() {
    let (body, _) = parts(TX_ONE);
    let mut tx = FixedTransaction::new_from_body_bytes(&body).unwrap();
    assert!(tx.is_valid());
    assert!(tx.witness_set().vkeys().is_none());
    assert_eq!(tx.raw_witness_set(), vec![0xa0]);
    let key = PrivateKey::from_normal_bytes(&[7u8; 32]).unwrap();
    assert_eq!(tx.sign_and_add_vkey_signature(&key), Ok(()));
    let vkeys = tx.witness_set().vkeys().unwrap();
    assert_eq!(vkeys.len(), 1);
    let witness = vkeys.get(0);
    let hash = tx.transaction_hash().to_bytes();
    assert_eq!(witness.vkey, key.to_public());
    assert!(witness.vkey.verify(&hash, &witness.signature));
    assert!(cryptoxide::ed25519::verify(&hash, &witness.vkey.bytes, &witness.signature.bytes));
    assert!(!witness.vkey.verify(&body, &witness.signature));
    assert_eq!(hash, digest(&body));
}

#[test]
fn sign_with_extended_key() {
    let (body, _) = parts(TX_TWO);
    let mut tx = FixedTransaction::new_from_body_bytes(&body).unwrap();
    let mut raw = [9u8; 64];
    raw[0] = 8;
    raw[31] = 0x40;
    let key = PrivateKey::from_extended_bytes(&raw).unwrap();
    tx.sign_and_add_vkey_signature(&key).unwrap();
    let witness = tx.witness_set().vkeys().unwrap().get(0);
    assert_eq!(witness.vkey.bytes, cryptoxide::ed25519::extended_to_public(&raw));
    assert!(witness.vkey.verify(&tx.transaction_hash().to_bytes(), &witness.signature));
}

#[test]
fn replaced_body_keeps_the_hash() {
    let (body_one, witnesses) = parts(TX_ONE);
    let (body_two, _) = parts(TX_TWO);
    let mut tx = FixedTransaction::new(&body_one, &witnesses, true).unwrap();
    let hash = tx.transaction_hash();
    assert_eq!(tx.set_body(&body_two), Ok(()));
    assert_eq!(tx.raw_body(), body_two);
    assert_eq!(tx.body().to_bytes(), body_two);
    assert_eq!(tx.transaction_hash(), hash);
    assert_eq!(tx.transaction_hash().to_bytes(), digest(&body_one));
    assert_ne!(tx.transaction_hash().to_bytes(), digest(&body_two));
    assert_eq!(tx.set_body(&[0xff]), Err(TxError::Body(DecodeError::NotAnItem)));
    assert_eq!(tx.raw_body(), body_two);
}

#[test]
fn mutations_keep_the_hash() {
    let (body, witnesses) = parts(TX_ONE);
    let mut tx = FixedTransaction::new(&body, &witnesses, false).unwrap();
    assert!(!tx.is_valid());
    let hash = tx.transaction_hash();
    tx.add_vkey_witness(&some_witness(1));
    tx.set_is_valid(true);
    tx.set_auxiliary_data(&[0xa0]).unwrap();
    tx.add_vkey_witness(&some_witness(2));
    tx.sign_and_add_vkey_signature(&PrivateKey::from_normal_bytes(&[3u8; 32]).unwrap()).unwrap();
    assert_eq!(tx.transaction_hash(), hash);
    assert_eq!(tx.transaction_hash().to_bytes(), digest(&body));
    assert!(tx.is_valid());
    assert_eq!(tx.witness_set().vkeys().unwrap().len(), 4);
    assert_eq!(tx.raw_auxiliary_data(), Some(vec![0xa0]));
    assert_eq!(tx.auxiliary_data().unwrap().to_bytes(), vec![0xa0]);
}

#[test]
fn untagged_sets_stay_untagged() {
    let (body, witnesses) = parts(TX_ONE);
    let mut tx = FixedTransaction::new(&body, &witnesses, true).unwrap();
    assert_eq!(
        has_transaction_set_tag_internal(&tx.body(), Some(&tx.witness_set())),
        TransactionSetsState::AllSetsHaveNoTag
    );
    tx.add_vkey_witness(&some_witness(5));
    let raw = tx.raw_witness_set();
    let mut expected = vec![0xa1, 0x00, 0x82];
    expected.extend_from_slice(&witnesses[3..]);
    expected.extend_from_slice(&witness_bytes(5));
    assert_eq!(raw, expected);
    assert!(!tx.witness_set().vkeys().unwrap().tagged);
    assert_eq!(
        has_transaction_set_tag_internal(&tx.body(), Some(&tx.witness_set())),
        TransactionSetsState::AllSetsHaveNoTag
    );
}

#[test]
fn tagged_body_makes_new_witnesses_tagged() {
    let (body, _) = parts(TX_ONE);
    let body = tagged_body(&body);
    let mut tx = FixedTransaction::new_from_body_bytes(&body).unwrap();
    assert_eq!(
        has_transaction_set_tag_internal(&tx.body(), None),
        TransactionSetsState::MixedSets
    );
    tx.add_vkey_witness(&some_witness(5));
    let mut expected = vec![0xa1, 0x00, 0xd9, 0x01, 0x02, 0x81];
    expected.extend_from_slice(&witness_bytes(5));
    assert_eq!(tx.raw_witness_set(), expected);
    assert!(tx.witness_set().vkeys().unwrap().tagged);
}

#[test]
fn all_tagged_sets_stay_tagged() {
    // A body whose only set, the inputs, is tagged.
    let body = from_hex(
        "a300d90102818258201e3f301eee4c02377c137eff0260a33b67ea421e3524ce8818e4c5184fa440d200018002182a",
    ).unwrap();
    let mut witnesses = vec![0xa1, 0x00, 0xd9, 0x01, 0x02, 0x81];
    witnesses.extend_from_slice(&witness_bytes(1));
    let mut tx = FixedTransaction::new(&body, &witnesses, true).unwrap();
    assert_eq!(
        has_transaction_set_tag_internal(&tx.body(), Some(&tx.witness_set())),
        TransactionSetsState::AllSetsHaveTag
    );
    assert_eq!(tx.body().fee().unwrap().value, 42);
    assert_eq!(tx.body().inputs().unwrap().len(), 1);
    assert!(tx.body().certs().is_none());
    tx.add_vkey_witness(&some_witness(2));
    let mut expected = vec![0xa1, 0x00, 0xd9, 0x01, 0x02, 0x82];
    expected.extend_from_slice(&witness_bytes(1));
    expected.extend_from_slice(&witness_bytes(2));
    assert_eq!(tx.raw_witness_set(), expected);
    assert_eq!(
        has_transaction_set_tag_internal(&tx.body(), Some(&tx.witness_set())),
        TransactionSetsState::AllSetsHaveTag
    );
    let none = FixedTransaction::new_from_body_bytes(&body).unwrap();
    assert_eq!(
        has_transaction_set_tag_internal(&none.body(), None),
        TransactionSetsState::AllSetsHaveTag
    );
}

#[test]
fn state_of_whole_transactions() {
    assert_eq!(
        has_transaction_set_tag(from_hex(TX_ONE).unwrap()),
        Ok(TransactionSetsState::AllSetsHaveNoTag)
    );
    assert_eq!(
        has_transaction_set_tag(from_hex(TX_TWO).unwrap()),
        Ok(TransactionSetsState::AllSetsHaveNoTag)
    );
    assert_eq!(has_transaction_set_tag(vec![0x80]), Err(DecodeError::WrongShape));
    assert_eq!(has_transaction_set_tag(vec![0x81]), Err(DecodeError::NotAnItem));
}

#[test]
fn untouched_fields_keep_their_bytes() {
    let (body, _) = parts(TX_ONE);
    // Key witnesses in an array of indefinite length, with a two-byte head
    // for the key: not canonical, and kept as it is.
    let mut witnesses = vec![0xa1, 0x00, 0x9f];
    witnesses.extend_from_slice(&witness_bytes(1));
    witnesses.push(0xff);
    let mut tx = FixedTransaction::new(&body, &witnesses, true).unwrap();
    assert_eq!(tx.raw_witness_set(), witnesses);
    assert_eq!(tx.witness_set().vkeys().unwrap().len(), 1);
    let addr = ByronAddress::new(&Hash28 { bytes: [3; 28] }, &Cbor::Pairs(vec![]), 0);
    let mut raw = [5u8; 96];
    raw[0] = 0;
    raw[31] = 0x45;
    let key = Bip32PrivateKey::from_bytes(&raw).unwrap();
    tx.sign_and_add_icarus_bootstrap_signature(&addr, &key).unwrap();
    let after = tx.raw_witness_set();
    assert_eq!(after[0], 0xa2);
    assert_eq!(&after[1..witnesses.len()], &witnesses[1..]);
    assert_eq!(&after[witnesses.len()..witnesses.len() + 2], &[0x02, 0x81]);
    assert_eq!(tx.witness_set().vkeys().unwrap().len(), 1);
    let bootstraps = tx.witness_set().bootstraps().unwrap();
    assert_eq!(bootstraps.len(), 1);
    assert!(!bootstraps.tagged);
    tx.add_vkey_witness(&some_witness(2));
    let last = tx.raw_witness_set();
    assert_eq!(&last[0..3], &[0xa2, 0x00, 0x82]);
    assert_eq!(tx.witness_set().vkeys().unwrap().len(), 2);
    assert_eq!(tx.witness_set().bootstraps().unwrap().len(), 1);
}

#[test]
fn bootstrap_witnesses_of_both_schemes() {
    let (body, _) = parts(TX_ONE);
    let mut tx = FixedTransaction::new_from_body_bytes(&body).unwrap();
    let addr = ByronAddress::new(
        &Hash28 { bytes: [3; 28] },
        &Cbor::Pairs(vec![(Cbor::Uint(2), Cbor::Bytes(vec![0x41, 0x2a]))]),
        0,
    );
    let mut raw = [5u8; 96];
    raw[0] = 8;
    raw[31] = 0x7f;
    for (i, b) in raw.iter_mut().enumerate().skip(64) {
        *b = i as u8;
    }
    let icarus = Bip32PrivateKey::from_bytes(&raw).unwrap();
    let daedalus = LegacyDaedalusPrivateKey::from_bytes(&[0x7fu8; 96]).unwrap();
    tx.sign_and_add_icarus_bootstrap_signature(&addr, &icarus).unwrap();
    tx.sign_and_add_daedalus_bootstrap_signature(&addr, &daedalus).unwrap();
    let bootstraps = tx.witness_set().bootstraps().unwrap();
    assert_eq!(bootstraps.len(), 2);
    let hash = tx.transaction_hash().to_bytes();
    let first = bootstraps.get(0);
    assert_eq!(first.chain_code.bytes.to_vec(), raw[64..96].to_vec());
    assert_eq!(first.attributes, vec![0xa1, 0x02, 0x42, 0x41, 0x2a]);
    assert_eq!(first.attributes, addr.attributes());
    let mut extended = [0u8; 64];
    extended.copy_from_slice(&raw[0..64]);
    assert_eq!(first.vkey.bytes, cryptoxide::ed25519::extended_to_public(&extended));
    assert_eq!(
        first.signature.bytes,
        cryptoxide::ed25519::signature_extended(&hash, &extended)
    );
    assert!(first.vkey.verify(&hash, &first.signature));
    let second = bootstraps.get(1);
    assert_eq!(second.chain_code.bytes, [0x7f; 32]);
    assert_eq!(second.vkey.bytes, cryptoxide::ed25519::extended_to_public(&[0x7f; 64]));
    assert!(second.vkey.verify(&hash, &second.signature));
    assert_ne!(first, second);
    assert_eq!(tx.raw_witness_set()[0..2], [0xa1, 0x02]);
}

#[test]
fn add_bootstrap_witness_by_value() {
    let (body, witnesses) = parts(TX_ONE);
    let mut tx = FixedTransaction::new(&body, &witnesses, true).unwrap();
    let b = BootstrapWitness::new(
        &FixedBytes { bytes: [1; 32] },
        &FixedBytes { bytes: [2; 64] },
        &FixedBytes { bytes: [3; 32] },
        &vec![0xa0],
    );
    tx.add_bootstrap_witness(&b);
    tx.add_bootstrap_witness(&b);
    let set = tx.witness_set().bootstraps().unwrap();
    assert_eq!(set.len(), 2);
    assert_eq!(set.get(0), b);
    assert_eq!(set.get(1), b);
    let fresh = FixedTxWitnessesSet::from_bytes(tx.raw_witness_set()).unwrap();
    assert_eq!(fresh.tx_witnesses_set(), tx.witness_set());
}

#[test]
fn refused_parts_are_named() {
    let (body, witnesses) = parts(TX_ONE);
    let bad = vec![0x1c];
    assert_eq!(
        FixedTransaction::new(&bad, &witnesses, true).err(),
        Some(TxError::Body(DecodeError::NotAnItem))
    );
    assert_eq!(
        FixedTransaction::new(&bad, &bad, true).err(),
        Some(TxError::Body(DecodeError::NotAnItem))
    );
    assert_eq!(
        FixedTransaction::new(&[0xa0], &witnesses, true).err(),
        Some(TxError::Body(DecodeError::WrongShape))
    );
    assert_eq!(
        FixedTransaction::new(&body, &bad, true).err(),
        Some(TxError::WitnessSet(DecodeError::NotAnItem))
    );
    assert_eq!(
        FixedTransaction::new(&body, &[0xa1, 0x08, 0x80], true).err(),
        Some(TxError::WitnessSet(DecodeError::WrongShape))
    );
    assert_eq!(
        FixedTransaction::new(&body, &[0xa2, 0x00, 0x80, 0x00, 0x80], true).err(),
        Some(TxError::WitnessSet(DecodeError::WrongShape))
    );
    assert_eq!(
        FixedTransaction::new_with_auxiliary(&body, &witnesses, &bad, true).err(),
        Some(TxError::AuxiliaryData(DecodeError::NotAnItem))
    );
    assert_eq!(
        FixedTransaction::new_with_auxiliary(&body, &witnesses, &[0x01], true).err(),
        Some(TxError::AuxiliaryData(DecodeError::WrongShape))
    );
    assert_eq!(
        FixedTransaction::new_with_auxiliary(&body, &bad, &bad, true).err(),
        Some(TxError::WitnessSet(DecodeError::NotAnItem))
    );
    assert_eq!(
        FixedTransaction::new_from_body_bytes(&bad).err(),
        Some(TxError::Body(DecodeError::NotAnItem))
    );
    // A body without a fee.
    assert_eq!(
        FixedTransaction::new_from_body_bytes(&[0xa2, 0x00, 0x80, 0x01, 0x80]).err(),
        Some(TxError::Body(DecodeError::WrongShape))
    );
}

#[test]
fn auxiliary_data_with_its_bytes() {
    let (body, witnesses) = parts(TX_ONE);
    // A map written with a two-byte head: kept as given.
    let aux = vec![0xb8, 0x01, 0x01, 0x61, 0x61];
    let mut tx = FixedTransaction::new_with_auxiliary(&body, &witnesses, &aux, false).unwrap();
    assert_eq!(tx.raw_auxiliary_data(), Some(aux.clone()));
    assert_eq!(tx.auxiliary_bytes_ref(), Some(&aux));
    assert_eq!(tx.auxiliary_data().unwrap().to_bytes(), vec![0xa1, 0x01, 0x61, 0x61]);
    assert_eq!(tx.transaction_hash().to_bytes(), digest(&body));
    assert_eq!(
        tx.set_auxiliary_data(&[0xff]),
        Err(TxError::AuxiliaryData(DecodeError::NotAnItem))
    );
    assert_eq!(tx.raw_auxiliary_data(), Some(aux));
    assert_eq!(tx.set_auxiliary_data(&[0x82, 0xa0, 0x80]), Ok(()));
    assert_eq!(tx.raw_auxiliary_data(), Some(vec![0x82, 0xa0, 0x80]));
}

#[test]
fn replaced_witness_set() {
    let (body, witnesses) = parts(TX_ONE);
    let mut tx = FixedTransaction::new_from_body_bytes(&body).unwrap();
    assert_eq!(tx.set_witness_set(&witnesses), Ok(()));
    assert_eq!(tx.raw_witness_set(), witnesses);
    assert_eq!(
        tx.set_witness_set(&[0x80]),
        Err(TxError::WitnessSet(DecodeError::WrongShape))
    );
    assert_eq!(tx.raw_witness_set(), witnesses);
    // The set that is put in place has a policy of its own: its sets are
    // bare, so a new one is bare too.
    let bootstrap = BootstrapWitness::new(
        &FixedBytes { bytes: [1; 32] },
        &FixedBytes { bytes: [2; 64] },
        &FixedBytes { bytes: [3; 32] },
        &vec![0xa0],
    );
    tx.add_bootstrap_witness(&bootstrap);
    assert!(!tx.witness_set().bootstraps().unwrap().tagged);
    // One with a tagged set asks for tagged sets, and so does an empty one.
    let mut tagged = vec![0xa1, 0x00, 0xd9, 0x01, 0x02, 0x81];
    tagged.extend_from_slice(&witness_bytes(1));
    assert_eq!(tx.set_witness_set(&tagged), Ok(()));
    assert_eq!(tx.raw_witness_set(), tagged);
    tx.add_bootstrap_witness(&bootstrap);
    assert!(tx.witness_set().bootstraps().unwrap().tagged);
    assert_eq!(tx.set_witness_set(&[0xa0]), Ok(()));
    tx.add_bootstrap_witness(&bootstrap);
    assert!(tx.witness_set().bootstraps().unwrap().tagged);
}

#[test]
fn sets_of_both_forms_are_written_in_one() {
    let (body, _) = parts(TX_ONE);
    let body = tagged_body(&body);
    // Bare key witnesses in an array of indefinite length, and a bare empty
    // set of scripts.
    let mut witnesses = vec![0xa2, 0x00, 0x9f];
    witnesses.extend_from_slice(&witness_bytes(1));
    witnesses.extend_from_slice(&[0xff, 0x01, 0x80]);
    let mut tx = FixedTransaction::new(&body, &witnesses, true).unwrap();
    assert_eq!(
        has_transaction_set_tag_internal(&tx.body(), Some(&tx.witness_set())),
        TransactionSetsState::MixedSets
    );
    // The witness set is held as it was read, and written under the tag.
    assert!(!tx.witness_set().vkeys().unwrap().tagged);
    let mut expected = vec![0xa2, 0x00, 0xd9, 0x01, 0x02, 0x81];
    expected.extend_from_slice(&witness_bytes(1));
    expected.extend_from_slice(&[0x01, 0xd9, 0x01, 0x02, 0x80]);
    assert_eq!(tx.raw_witness_set(), expected);
    tx.add_vkey_witness(&some_witness(2));
    let mut grown = vec![0xa2, 0x00, 0xd9, 0x01, 0x02, 0x82];
    grown.extend_from_slice(&witness_bytes(1));
    grown.extend_from_slice(&witness_bytes(2));
    grown.extend_from_slice(&[0x01, 0xd9, 0x01, 0x02, 0x80]);
    assert_eq!(tx.raw_witness_set(), grown);
    // What is written reads back with every set under the tag, and holds
    // the same witnesses.
    let back = FixedTxWitnessesSet::from_bytes(tx.raw_witness_set()).unwrap();
    assert!(back.tx_witnesses_set().vkeys().unwrap().tagged);
    assert_eq!(&back, tx.witnesses_set_ref());
    assert_eq!(back.to_bytes(), grown);
    // A collection read by itself with bare sets only writes them as read.
    let alone = FixedTxWitnessesSet::from_bytes(witnesses.clone()).unwrap();
    assert_eq!(alone.to_bytes(), witnesses);
}

#[test]
fn clone_is_independent() {
    let (body, witnesses) = parts(TX_ONE);
    let tx = FixedTransaction::new(&body, &witnesses, true).unwrap();
    let mut copy = tx.clone();
    copy.add_vkey_witness(&some_witness(9));
    copy.set_is_valid(false);
    assert_eq!(tx.witness_set().vkeys().unwrap().len(), 1);
    assert_eq!(copy.witness_set().vkeys().unwrap().len(), 2);
    assert!(tx.is_valid());
    assert_eq!(tx.raw_witness_set(), witnesses);
}

#[test]
fn keys_are_refused_by_length_and_scalar() {
    assert_eq!(PrivateKey::from_normal_bytes(&[0u8; 31]), Err(SigningError::WrongLength));
    assert_eq!(PrivateKey::from_extended_bytes(&[0u8; 32]), Err(SigningError::WrongLength));
    assert_eq!(Bip32PrivateKey::from_bytes(&[0u8; 64]), Err(SigningError::WrongLength));
    assert_eq!(Bip32PrivateKey::from_bytes(&[0u8; 96]), Err(SigningError::InvalidScalar));
    let mut raw = [0u8; 96];
    raw[31] = 0x40;
    assert!(Bip32PrivateKey::from_bytes(&raw).is_ok());
    raw[0] = 1;
    assert_eq!(Bip32PrivateKey::from_bytes(&raw), Err(SigningError::InvalidScalar));
    raw[0] = 0;
    raw[31] = 0xc0;
    assert_eq!(Bip32PrivateKey::from_bytes(&raw), Err(SigningError::InvalidScalar));
    assert_eq!(
        LegacyDaedalusPrivateKey::from_bytes(&[0u8; 95]),
        Err(SigningError::WrongLength)
    );
    assert!(LegacyDaedalusPrivateKey::from_bytes(&[0u8; 96]).is_ok());
    assert_eq!(
        LegacyDaedalusPrivateKey::from_bytes(&[0xffu8; 96]),
        Err(SigningError::InvalidScalar)
    );
    assert_eq!(PrivateKey::from_extended_bytes(&[0x80u8; 64]), Err(SigningError::InvalidScalar));
    assert!(PrivateKey::from_extended_bytes(&[0x7fu8; 64]).is_ok());
}

#[test]
fn keys_that_cannot_sign_change_nothing() {
    let (body, witnesses) = parts(TX_ONE);
    let mut tx = FixedTransaction::new(&body, &witnesses, true).unwrap();
    let addr = ByronAddress::new(&Hash28 { bytes: [3; 28] }, &Cbor::Pairs(vec![]), 0);
    let unusable = PrivateKey::Extended(FixedBytes { bytes: [0xff; 64] });
    assert_eq!(tx.sign_and_add_vkey_signature(&unusable), Err(SigningError::InvalidScalar));
    let icarus = Bip32PrivateKey { bytes: FixedBytes { bytes: [0xff; 96] } };
    assert_eq!(
        tx.sign_and_add_icarus_bootstrap_signature(&addr, &icarus),
        Err(SigningError::InvalidScalar)
    );
    let daedalus = LegacyDaedalusPrivateKey { bytes: FixedBytes { bytes: [0x80; 96] } };
    assert_eq!(
        tx.sign_and_add_daedalus_bootstrap_signature(&addr, &daedalus),
        Err(SigningError::InvalidScalar)
    );
    assert_eq!(tx.raw_witness_set(), witnesses);
    assert_eq!(tx.witness_set().vkeys().unwrap().len(), 1);
    assert!(tx.witness_set().bootstraps().is_none());
}

#[test]
fn verification_takes_any_bytes() {
    let key = FixedBytes { bytes: [0xffu8; 32] };
    let signature = FixedBytes { bytes: [0xffu8; 64] };
    assert!(!key.verify(b"message", &signature));
    let zero = FixedBytes { bytes: [0u8; 32] };
    assert!(!zero.verify(b"", &FixedBytes { bytes: [0u8; 64] }));
}

#[test]
fn signatures_agree_with_the_primitive() {
    let seed = [11u8; 32];
    let key = PrivateKey::from_normal_bytes(&seed).unwrap();
    let (pair, public) = cryptoxide::ed25519::keypair(&seed);
    assert_eq!(key.to_public().bytes, public);
    let message = b"message";
    let signature = key.sign(message);
    assert_eq!(signature.bytes, cryptoxide::ed25519::signature(message, &pair));
    assert!(key.to_public().verify(message, &signature));
    assert!(!key.to_public().verify(b"other", &signature));
    assert_ne!(signature.bytes.to_vec(), pair.to_vec());
}

#[test]
fn whole_transaction_round_trip() {
    let bytes = from_hex(TX_ONE).unwrap();
    let tx = Transaction::from_bytes(bytes.clone()).unwrap();
    assert!(tx.is_valid());
    assert!(tx.auxiliary_data().is_none());
    assert_eq!(tx.witness_set().vkeys().unwrap().len(), 1);
    assert_eq!(tx.to_bytes(), bytes);
    assert_eq!(Transaction::from_json(&tx.to_json().unwrap()).unwrap(), tx);
    assert!(item_from_bytes(&bytes).is_some());
}

#[test]
fn whole_assembly_from_bytes_and_back() {
    let bytes = from_hex(TX_ONE).unwrap();
    let (body, witnesses) = parts(TX_ONE);
    let tx = FixedTransaction::from_bytes(bytes.clone()).unwrap();
    assert_eq!(tx.raw_body(), body);
    assert_eq!(tx.raw_witness_set(), witnesses);
    assert!(tx.is_valid());
    assert!(tx.raw_auxiliary_data().is_none());
    assert_eq!(tx.transaction_hash().to_bytes(), digest(&body));
    assert_eq!(tx.to_bytes(), bytes);
    assert_eq!(tx.to_hex(), TX_ONE);
    assert_eq!(FixedTransaction::from_hex(TX_ONE).unwrap(), tx);
    assert_eq!(tx, FixedTransaction::new(&body, &witnesses, true).unwrap());
    assert_ne!(tx, FixedTransaction::new(&body, &witnesses, false).unwrap());
    // Not canonical inside, kept as it is: an indefinite witness list and
    // auxiliary data with a long head.
    let mut other = vec![0x84];
    other.extend_from_slice(&body);
    other.extend_from_slice(&[0xa1, 0x00, 0x9f]);
    other.extend_from_slice(&witness_bytes(4));
    other.push(0xff);
    other.push(0xf4);
    other.extend_from_slice(&[0xb8, 0x00]);
    let kept = FixedTransaction::from_bytes(other.clone()).unwrap();
    assert!(!kept.is_valid());
    assert_eq!(kept.raw_auxiliary_data(), Some(vec![0xb8, 0x00]));
    assert_eq!(kept.to_bytes(), other);
}

#[test]
fn whole_assembly_refused() {
    assert_eq!(FixedTransaction::from_bytes(vec![]).err(), Some(TxError::Transaction));
    assert_eq!(FixedTransaction::from_bytes(vec![0x83, 0, 0, 0]).err(), Some(TxError::Transaction));
    assert_eq!(
        FixedTransaction::from_bytes(vec![0x9f, 0, 0, 0, 0, 0xff]).err(),
        Some(TxError::Transaction)
    );
    assert_eq!(FixedTransaction::from_bytes(vec![0x84, 0, 0, 0]).err(), Some(TxError::Transaction));
    assert_eq!(
        FixedTransaction::from_bytes(vec![0x84, 0, 0, 0, 0, 0]).err(),
        Some(TxError::Transaction)
    );
    assert_eq!(
        FixedTransaction::from_bytes(vec![0x84, 0, 0, 0, 0]).err(),
        Some(TxError::Body(DecodeError::WrongShape))
    );
    let (body, witnesses) = parts(TX_ONE);
    let mut bytes = vec![0x84];
    bytes.extend_from_slice(&body);
    bytes.extend_from_slice(&[0x80, 0xf5, 0xf6]);
    assert_eq!(
        FixedTransaction::from_bytes(bytes).err(),
        Some(TxError::WitnessSet(DecodeError::WrongShape))
    );
    let mut bytes = vec![0x84];
    bytes.extend_from_slice(&body);
    bytes.extend_from_slice(&witnesses);
    bytes.extend_from_slice(&[0x01, 0xf6]);
    assert_eq!(FixedTransaction::from_bytes(bytes).err(), Some(TxError::Validity));
    let mut bytes = vec![0x84];
    bytes.extend_from_slice(&body);
    bytes.extend_from_slice(&witnesses);
    bytes.extend_from_slice(&[0xf5, 0x01]);
    assert_eq!(
        FixedTransaction::from_bytes(bytes).err(),
        Some(TxError::AuxiliaryData(DecodeError::WrongShape))
    );
    assert_eq!(FixedTransaction::from_hex("zz").err(), Some(TxError::Transaction));
}

#[test]
fn same_witnesses_in_any_order_and_form() {
    let (body, _) = parts(TX_ONE);
    let mut one = FixedTransaction::new_from_body_bytes(&body).unwrap();
    one.add_vkey_witness(&some_witness(1));
    one.add_vkey_witness(&some_witness(2));
    one.add_vkey_witness(&some_witness(1));
    let mut two = FixedTransaction::new_from_body_bytes(&tagged_body(&body)).unwrap();
    two.set_body(&body).unwrap();
    two.add_vkey_witness(&some_witness(1));
    two.add_vkey_witness(&some_witness(1));
    two.add_vkey_witness(&some_witness(2));
    assert_ne!(one.raw_witness_set(), two.raw_witness_set());
    assert!(one.witnesses_set_ref() == two.witnesses_set_ref());
    let mut three = FixedTransaction::new_from_body_bytes(&body).unwrap();
    three.add_vkey_witness(&some_witness(1));
    three.add_vkey_witness(&some_witness(2));
    assert!(one.witnesses_set_ref() != three.witnesses_set_ref());
    three.add_vkey_witness(&some_witness(2));
    assert!(one.witnesses_set_ref() != three.witnesses_set_ref());
    let empty = FixedTxWitnessesSet::new_empty();
    let none = FixedTxWitnessesSet::from_bytes(vec![0xa1, 0x00, 0x80]).unwrap();
    assert!(empty == none);
    assert!(empty != *one.witnesses_set_ref());
}

#[test]
fn nested_sets_are_looked_at() {
    // A body with bare inputs whose one proposal changes the committee and
    // names the members to remove in a tagged set.
    let mut body = from_hex(
        "a4008182582000000000000000000000000000000000000000000000000000000000000000000001800200",
    )
    .unwrap();
    body.extend_from_slice(&[0x14, 0x81, 0x84, 0x00, 0x41, 0x00]);
    body.extend_from_slice(&[0x85, 0x04, 0xf6, 0xd9, 0x01, 0x02, 0x80, 0xa0, 0x00]);
    body.push(0xf6);
    let tx = FixedTransaction::new_from_body_bytes(&body).unwrap();
    assert_eq!(
        has_transaction_set_tag_internal(&tx.body(), None),
        TransactionSetsState::MixedSets
    );
    // The same with the members in a bare set.
    let bare: Vec<u8> = body.iter().copied().collect::<Vec<u8>>();
    let at = bare.len() - 7;
    let mut bare_body = bare[..at].to_vec();
    bare_body.extend_from_slice(&[0x80, 0xa0, 0x00, 0xf6]);
    let tx = FixedTransaction::new_from_body_bytes(&bare_body).unwrap();
    assert_eq!(
        has_transaction_set_tag_internal(&tx.body(), None),
        TransactionSetsState::AllSetsHaveNoTag
    );
}

#[test]
fn body_fields_are_held_to_their_shapes() {
    fn refused(body: &[u8]) {
        assert_eq!(
            FixedTransaction::new_from_body_bytes(body).err(),
            Some(TxError::Body(DecodeError::WrongShape))
        );
    }
    // Inputs, outputs and fee, all empty or zero.
    let least = vec![0xa3, 0x00, 0x80, 0x01, 0x80, 0x02, 0x00];
    assert!(FixedTransaction::new_from_body_bytes(&least).is_ok());
    // The fee as text.
    refused(&[0xa3, 0x00, 0x80, 0x01, 0x80, 0x02, 0x60]);
    // The fee twice.
    refused(&[0xa4, 0x00, 0x80, 0x01, 0x80, 0x02, 0x00, 0x02, 0x00]);
    // A key that no body has.
    refused(&[0xa4, 0x00, 0x80, 0x01, 0x80, 0x02, 0x00, 0x17, 0x00]);
    refused(&[0xa4, 0x00, 0x80, 0x01, 0x80, 0x02, 0x00, 0x0a, 0x00]);
    // A key that is no number.
    refused(&[0xa4, 0x00, 0x80, 0x01, 0x80, 0x02, 0x00, 0x60, 0x00]);
    // An input of three parts.
    refused(&[0xa3, 0x00, 0x81, 0x83, 0x00, 0x00, 0x00, 0x01, 0x80, 0x02, 0x00]);
    // An output that is a number.
    refused(&[0xa3, 0x00, 0x80, 0x01, 0x81, 0x00, 0x02, 0x00]);
    // A digest of the auxiliary data of 31 bytes.
    let mut short = vec![0xa4, 0x00, 0x80, 0x01, 0x80, 0x02, 0x00, 0x07, 0x58, 0x1f];
    short.extend_from_slice(&[0u8; 31]);
    refused(&short);
    let mut whole = vec![0xa4, 0x00, 0x80, 0x01, 0x80, 0x02, 0x00, 0x07, 0x58, 0x20];
    whole.extend_from_slice(&[0u8; 32]);
    let tx = FixedTransaction::new_from_body_bytes(&whole).unwrap();
    assert_eq!(tx.raw_body(), whole);
    assert_eq!(tx.body().fee().map(|c| c.value), Some(0));
    // No set under the tag anywhere: new witnesses are written bare.
    assert_eq!(
        has_transaction_set_tag_internal(&tx.body(), None),
        TransactionSetsState::AllSetsHaveNoTag
    );
}
