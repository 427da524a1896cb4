//! Byte-preserving assembly and signing of ledger transactions.
//!
//! A transaction is assembled from the bytes of its body and of its witness
//! set. The bytes are kept: the hash that signatures are made over is the
//! digest of the body bytes as given. The sets of the witness set are
//! written in one form, bare or under the set tag, that is resolved once
//! from the sets of the body and of the witness set; a field that is in
//! that form is written back as it was read until it receives a witness.

pub mod address;
pub mod ascii;
pub mod assembly_laws;
pub mod body;
pub mod cbor;
pub mod certificates;
pub mod codec;
pub mod crypto;
pub mod equality;
pub mod fields;
pub mod fixed_transaction;
pub mod fixed_witnesses;
pub mod hex;
pub mod pool;
pub mod primitives;
pub mod tag_state;
pub mod text;
pub mod transaction;
pub mod witness;
