//! The digest and signature primitives, and the keys they work on.

use crate::primitives::{ChainCode, Ed25519Signature, FixedBytes, PublicKey};
use vstd::prelude::*;

verus! {

/// The 32-byte BLAKE2b digest of a byte string, unkeyed.
pub uninterp spec fn blake2b256_digest(data: Seq<u8>) -> Seq<u8>;

/// The key pair and the public key that Ed25519 derives from a 32-byte
/// private key.
pub uninterp spec fn ed25519_keypair(private_key: Seq<u8>) -> (Seq<u8>, Seq<u8>);

/// The Ed25519 signature of a message under a key pair.
pub uninterp spec fn ed25519_signature(message: Seq<u8>, keypair: Seq<u8>) -> Seq<u8>;

/// The public key of a 64-byte extended secret key.
pub uninterp spec fn ed25519_extended_public(extended: Seq<u8>) -> Seq<u8>;

/// The Ed25519 signature of a message under a 64-byte extended secret key.
pub uninterp spec fn ed25519_extended_signature(message: Seq<u8>, extended: Seq<u8>) -> Seq<u8>;

/// Whether a signature verifies for a message under a public key.
pub uninterp spec fn ed25519_verifies(
    message: Seq<u8>,
    public_key: Seq<u8>,
    signature: Seq<u8>,
) -> bool;

/// `cryptoxide::blake2b::Blake2b::blake2b` with a 32-byte output and no key:
/// the digest is a function of the input alone.
#[verifier::external_body]
pub(crate) fn blake2b256(data: &[u8]) -> (r: [u8; 32])
    ensures
        r@ == blake2b256_digest(data@),
{
    let mut out = [0u8; 32];
    cryptoxide::blake2b::Blake2b::blake2b(&mut out, data, &[]);
    out
}

/// `cryptoxide::ed25519::keypair`: the key pair and the public key are a
/// function of the private key alone.
#[verifier::external_body]
pub(crate) fn keypair(private_key: &[u8; 32]) -> (r: ([u8; 64], [u8; 32]))
    ensures
        (r.0@, r.1@) == ed25519_keypair(private_key@),
{
    cryptoxide::ed25519::keypair(private_key)
}

/// `cryptoxide::ed25519::signature`: the signature is a function of the
/// message and the key pair alone.
#[verifier::external_body]
pub(crate) fn signature(message: &[u8], keypair: &[u8; 64]) -> (r: [u8; 64])
    ensures
        r@ == ed25519_signature(message@, keypair@),
{
    cryptoxide::ed25519::signature(message, keypair)
}

/// `cryptoxide::ed25519::extended_to_public`: the public key is a function
/// of the extended secret key alone. The scalar multiplication behind it
/// asks for a scalar whose highest bit is clear, byte 31 below 128.
#[verifier::external_body]
pub(crate) fn extended_public(extended: &[u8; 64]) -> (r: [u8; 32])
    requires
        extended@[31] < 128,
    ensures
        r@ == ed25519_extended_public(extended@),
{
    cryptoxide::ed25519::extended_to_public(extended)
}

/// `cryptoxide::ed25519::signature_extended`: the signature is a function of
/// the message and the extended secret key alone. It multiplies by the
/// scalar of the key, so it asks for byte 31 below 128 as well.
#[verifier::external_body]
pub(crate) fn extended_signature(message: &[u8], extended: &[u8; 64]) -> (r: [u8; 64])
    requires
        extended@[31] < 128,
    ensures
        r@ == ed25519_extended_signature(message@, extended@),
{
    cryptoxide::ed25519::signature_extended(message, extended)
}

/// `cryptoxide::ed25519::verify`: the verdict is a function of the message,
/// the public key and the signature alone.
#[verifier::external_body]
pub(crate) fn verify(message: &[u8], public_key: &[u8; 32], signature: &[u8; 64]) -> (r: bool)
    ensures
        r == ed25519_verifies(message@, public_key@, signature@),
{
    cryptoxide::ed25519::verify(message, public_key, signature)
}

/// Copies `N` bytes that start at `from` into an array.
pub(crate) fn array_from<const N: usize>(bytes: &[u8], from: usize) -> (r: [u8; N])
    requires
        from + N <= bytes.len(),
    ensures
        r@ == bytes@.subrange(from as int, from + N),
{
    let mut out = [0u8; N];
    let mut i: usize = 0;
    while i < N
        invariant
            from + N <= bytes.len(),
            i <= N,
            forall|j: int| 0 <= j < i ==> out@[j] == bytes@[from + j],
        decreases N - i,
    {
        out[i] = bytes[from + i];
        i += 1;
    }
    assert(out@ =~= bytes@.subrange(from as int, from + N));
    out
}

/// Why key material was refused.
#[derive(Clone, Copy, Debug, PartialEq, Eq, Structural)]
pub enum SigningError {
    /// The key has not the length of its kind.
    WrongLength,
    /// The scalar of an extended key has not the bits that its kind asks
    /// for.
    InvalidScalar,
}

/// A signing key: the 32 bytes of a plain Ed25519 key, or the 64 bytes of
/// an extended one.
#[derive(Clone, Copy, Debug, PartialEq, Eq)]
pub enum PrivateKey {
    Normal(FixedBytes<32>),
    Extended(FixedBytes<64>),
}

impl PrivateKey {
    /// The key can sign: every plain key, and an extended key whose scalar
    /// has its highest bit clear.
    pub open spec fn usable(self) -> bool {
        match self {
            PrivateKey::Normal(_) => true,
            PrivateKey::Extended(k) => k.bytes@[31] < 128,
        }
    }

    /// Whether the key can sign.
    pub fn is_usable(&self) -> (r: bool)
        ensures
            r == self.usable(),
    {
        match self {
            PrivateKey::Normal(_) => true,
            PrivateKey::Extended(k) => k.bytes[31] < 128,
        }
    }

    /// The public key that belongs to the key.
    pub open spec fn public_spec(self) -> Seq<u8> {
        match self {
            PrivateKey::Normal(k) => ed25519_keypair(k.bytes@).1,
            PrivateKey::Extended(k) => ed25519_extended_public(k.bytes@),
        }
    }

    /// The signature of a message under the key.
    pub open spec fn signature_spec(self, message: Seq<u8>) -> Seq<u8> {
        match self {
            PrivateKey::Normal(k) => ed25519_signature(message, ed25519_keypair(k.bytes@).0),
            PrivateKey::Extended(k) => ed25519_extended_signature(message, k.bytes@),
        }
    }

    /// A plain key from its 32 bytes.
    pub fn from_normal_bytes(bytes: &[u8]) -> (r: Result<PrivateKey, SigningError>)
        ensures
            match r {
                Ok(k) => bytes@.len() == 32 && (k matches PrivateKey::Normal(b) && b.bytes@
                    == bytes@),
                Err(e) => bytes@.len() != 32 && e == SigningError::WrongLength,
            },
    {
        if bytes.len() == 32 {
            let a: [u8; 32] = array_from(bytes, 0);
            assert(bytes@.subrange(0, 32) =~= bytes@);
            Ok(PrivateKey::Normal(FixedBytes { bytes: a }))
        } else {
            Err(SigningError::WrongLength)
        }
    }

    /// An extended key from its 64 bytes, of which byte 31 is below 128.
    pub fn from_extended_bytes(bytes: &[u8]) -> (r: Result<PrivateKey, SigningError>)
        ensures
            match r {
                Ok(k) => bytes@.len() == 64 && bytes@[31] < 128 && k.usable() && (
                k matches PrivateKey::Extended(b) && b.bytes@ == bytes@),
                Err(e) => if bytes@.len() != 64 {
                    e == SigningError::WrongLength
                } else {
                    e == SigningError::InvalidScalar && bytes@[31] >= 128
                },
            },
    {
        if bytes.len() != 64 {
            return Err(SigningError::WrongLength);
        }
        if bytes[31] >= 128 {
            return Err(SigningError::InvalidScalar);
        }
        let a: [u8; 64] = array_from(bytes, 0);
        assert(bytes@.subrange(0, 64) =~= bytes@);
        Ok(PrivateKey::Extended(FixedBytes { bytes: a }))
    }

    /// The public key of a key that can sign.
    pub fn to_public(&self) -> (r: PublicKey)
        requires
            self.usable(),
        ensures
            r.bytes@ == self.public_spec(),
    {
        match self {
            PrivateKey::Normal(k) => {
                let pair = keypair(&k.bytes);
                FixedBytes { bytes: pair.1 }
            },
            PrivateKey::Extended(k) => FixedBytes { bytes: extended_public(&k.bytes) },
        }
    }

    /// The signature of a message under a key that can sign.
    pub fn sign(&self, message: &[u8]) -> (r: Ed25519Signature)
        requires
            self.usable(),
        ensures
            r.bytes@ == self.signature_spec(message@),
    {
        match self {
            PrivateKey::Normal(k) => {
                let pair = keypair(&k.bytes);
                FixedBytes { bytes: signature(message, &pair.0) }
            },
            PrivateKey::Extended(k) => FixedBytes { bytes: extended_signature(message, &k.bytes) },
        }
    }
}

impl FixedBytes<32> {
    /// Whether a signature verifies for a message under this public key.
    pub fn verify(&self, data: &[u8], signature: &Ed25519Signature) -> (r: bool)
        ensures
            r == ed25519_verifies(data@, self.bytes@, signature.bytes@),
    {
        verify(data, &self.bytes, &signature.bytes)
    }
}

/// Whether 96 bytes are an extended key with its chain code as hierarchical
/// derivation makes them: the three lowest bits of the scalar clear, and of
/// its two highest bits only the lower set.
pub open spec fn bip32_ok(b: Seq<u8>) -> bool {
    b.len() == 96 && b[0] % 8 == 0 && b[31] / 64 == 1
}

/// An extended key with its chain code, of the hierarchical scheme.
#[derive(Clone, Copy, Debug, PartialEq, Eq)]
pub struct Bip32PrivateKey {
    pub bytes: FixedBytes<96>,
}

impl Bip32PrivateKey {
    /// The key can sign: the scalar has its highest bit clear.
    pub open spec fn usable(self) -> bool {
        self.bytes.bytes@[31] < 128
    }

    /// Whether the key can sign.
    pub fn is_usable(&self) -> (r: bool)
        ensures
            r == self.usable(),
    {
        self.bytes.bytes[31] < 128
    }

    /// The key held in 96 bytes whose scalar has the bits of the scheme.
    pub fn from_bytes(bytes: &[u8]) -> (r: Result<Bip32PrivateKey, SigningError>)
        ensures
            match r {
                Ok(k) => bip32_ok(bytes@) && k.bytes.bytes@ == bytes@ && k.usable(),
                Err(e) => !bip32_ok(bytes@) && (e == SigningError::WrongLength <==> bytes@.len()
                    != 96),
            },
    {
        if bytes.len() != 96 {
            return Err(SigningError::WrongLength);
        }
        if bytes[0] % 8 != 0 || bytes[31] / 64 != 1 {
            return Err(SigningError::InvalidScalar);
        }
        let a: [u8; 96] = array_from(bytes, 0);
        assert(bytes@.subrange(0, 96) =~= bytes@);
        Ok(Bip32PrivateKey { bytes: FixedBytes { bytes: a } })
    }

    /// The extended key without its chain code.
    pub fn to_raw_key(&self) -> (r: PrivateKey)
        ensures
            r matches PrivateKey::Extended(k) && k.bytes@ == self.bytes.bytes@.subrange(0, 64),
            r.usable() == self.usable(),
    {
        let a: [u8; 64] = array_from(self.bytes.bytes.as_slice(), 0);
        PrivateKey::Extended(FixedBytes { bytes: a })
    }

    pub fn chaincode(&self) -> (r: ChainCode)
        ensures
            r.bytes@ == self.bytes.bytes@.subrange(64, 96),
    {
        let a: [u8; 32] = array_from(self.bytes.bytes.as_slice(), 64);
        FixedBytes { bytes: a }
    }
}

/// An extended key with its chain code, of the first wallets' scheme.
#[derive(Clone, Copy, Debug, PartialEq, Eq)]
pub struct LegacyDaedalusPrivateKey {
    pub bytes: FixedBytes<96>,
}

impl LegacyDaedalusPrivateKey {
    /// The key can sign: the scalar has its highest bit clear.
    pub open spec fn usable(self) -> bool {
        self.bytes.bytes@[31] < 128
    }

    /// Whether the key can sign.
    pub fn is_usable(&self) -> (r: bool)
        ensures
            r == self.usable(),
    {
        self.bytes.bytes[31] < 128
    }

    /// The key held in 96 bytes, of which byte 31 is below 128.
    pub fn from_bytes(bytes: &[u8]) -> (r: Result<LegacyDaedalusPrivateKey, SigningError>)
        ensures
            match r {
                Ok(k) => bytes@.len() == 96 && k.bytes.bytes@ == bytes@ && k.usable(),
                Err(e) => if bytes@.len() != 96 {
                    e == SigningError::WrongLength
                } else {
                    e == SigningError::InvalidScalar && bytes@[31] >= 128
                },
            },
    {
        if bytes.len() != 96 {
            return Err(SigningError::WrongLength);
        }
        if bytes[31] >= 128 {
            return Err(SigningError::InvalidScalar);
        }
        let a: [u8; 96] = array_from(bytes, 0);
        assert(bytes@.subrange(0, 96) =~= bytes@);
        Ok(LegacyDaedalusPrivateKey { bytes: FixedBytes { bytes: a } })
    }

    /// The extended key without its chain code.
    pub fn to_raw_key(&self) -> (r: PrivateKey)
        ensures
            r matches PrivateKey::Extended(k) && k.bytes@ == self.bytes.bytes@.subrange(0, 64),
            r.usable() == self.usable(),
    {
        let a: [u8; 64] = array_from(self.bytes.bytes.as_slice(), 0);
        PrivateKey::Extended(FixedBytes { bytes: a })
    }

    pub fn chaincode(&self) -> (r: ChainCode)
        ensures
            r.bytes@ == self.bytes.bytes@.subrange(64, 96),
    {
        let a: [u8; 32] = array_from(self.bytes.bytes.as_slice(), 64);
        FixedBytes { bytes: a }
    }
}

} // verus!
