//! Hashes, amounts and credentials.

use crate::cbor::item::{item_views, Cbor, CborV};
use crate::cbor::laws::{lemma_wf_short, wf};
use crate::codec::{
    array_item, bytes_item, bytes_of, elems_of, lemma_array_with, read_bytes, read_elems, read_uint,
    text_of, uint_of, Codec, DecodeError,
};
use crate::crypto::array_from;
use vstd::prelude::*;
use vstd::slice::slice_to_vec;
use vstd::string::StrSliceExecFns;
use vstd::utf8::{encode_utf8, encode_utf8_valid_utf8, valid_utf8};

verus! {

/// A byte string of fixed length: a digest, a key or an address.
#[derive(Clone, Copy, Debug, PartialEq, Eq)]
pub struct FixedBytes<const N: usize> {
    pub bytes: [u8; N],
}

/// A digest of 28 bytes.
pub type Hash28 = FixedBytes<28>;

/// A digest of 32 bytes.
pub type Hash32 = FixedBytes<32>;

pub type Ed25519KeyHash = Hash28;

pub type ScriptHash = Hash28;

pub type GenesisHash = Hash28;

pub type GenesisDelegateHash = Hash28;

pub type VRFKeyHash = Hash32;

pub type AnchorDataHash = Hash32;

pub type PoolMetadataHash = Hash32;

pub type TransactionHash = Hash32;

/// A verification key.
pub type PublicKey = FixedBytes<32>;

pub type Vkey = FixedBytes<32>;

/// A signature.
pub type Ed25519Signature = FixedBytes<64>;

/// The chain code of an extended key.
pub type ChainCode = FixedBytes<32>;

/// An address of the Internet, version 4.
pub type Ipv4 = FixedBytes<4>;

/// An address of the Internet, version 6.
pub type Ipv6 = FixedBytes<16>;

impl<const N: usize> View for FixedBytes<N> {
    type V = FixedBytes<N>;

    open spec fn view(&self) -> FixedBytes<N> {
        *self
    }
}

impl<const N: usize> FixedBytes<N> {
    /// Holds the bytes if there are exactly `N` of them.
    pub fn from_bytes(bytes: Vec<u8>) -> (r: Result<Self, DecodeError>)
        ensures
            match r {
                Ok(h) => bytes@.len() == N && h.bytes@ == bytes@,
                Err(e) => bytes@.len() != N && e == DecodeError::OutOfRange,
            },
    {
        if bytes.len() == N {
            let a: [u8; N] = array_from(bytes.as_slice(), 0);
            assert(bytes@.subrange(0, N as int) =~= bytes@);
            Ok(FixedBytes { bytes: a })
        } else {
            Err(DecodeError::OutOfRange)
        }
    }

    /// Holds the bytes if there are exactly `N` of them.
    pub fn new(bytes: Vec<u8>) -> (r: Result<Self, DecodeError>)
        ensures
            match r {
                Ok(h) => bytes@.len() == N && h.bytes@ == bytes@,
                Err(e) => bytes@.len() != N && e == DecodeError::OutOfRange,
            },
    {
        Self::from_bytes(bytes)
    }

    pub fn to_bytes(&self) -> (r: Vec<u8>)
        ensures
            r@ == self.bytes@,
    {
        slice_to_vec(self.bytes.as_slice())
    }
}

impl<const N: usize> Codec for FixedBytes<N> {
    open spec fn tree(v: FixedBytes<N>) -> CborV {
        CborV::Bytes(v.bytes@)
    }

    open spec fn of_tree(t: CborV) -> Option<FixedBytes<N>> {
        match bytes_of::<N>(t) {
            Some(bytes) => Some(FixedBytes { bytes }),
            None => None,
        }
    }

    open spec fn valid(v: FixedBytes<N>) -> bool {
        true
    }

    proof fn lemma_tree_round_trip(v: FixedBytes<N>) {
        lemma_array_with(v.bytes);
    }

    proof fn lemma_read_exact(t: CborV) {
        crate::codec::lemma_array_of::<N>(t->Bytes_0);
    }

    fn dup(&self) -> (r: Self) {
        *self
    }

    fn to_item(&self) -> (r: Cbor) {
        bytes_item(self.bytes.as_slice())
    }

    fn from_item(item: &Cbor) -> (r: Option<FixedBytes<N>>) {
        match read_bytes::<N>(item) {
            Some(bytes) => Some(FixedBytes { bytes }),
            None => None,
        }
    }
}

impl Codec for Vec<u8> {
    open spec fn tree(v: Seq<u8>) -> CborV {
        CborV::Bytes(v)
    }

    open spec fn of_tree(t: CborV) -> Option<Seq<u8>> {
        match t {
            CborV::Bytes(b) => Some(b),
            _ => None,
        }
    }

    open spec fn valid(v: Seq<u8>) -> bool {
        v.len() <= u64::MAX
    }

    proof fn lemma_tree_round_trip(v: Seq<u8>) {
    }

    proof fn lemma_read_exact(t: CborV) {
    }

    fn dup(&self) -> (r: Self) {
        slice_to_vec(self.as_slice())
    }

    fn to_item(&self) -> (r: Cbor) {
        bytes_item(self.as_slice())
    }

    fn from_item(item: &Cbor) -> (r: Option<Vec<u8>>) {
        match item {
            Cbor::Bytes(b) => Some(slice_to_vec(b.as_slice())),
            _ => None,
        }
    }
}

impl Codec for bool {
    open spec fn tree(v: bool) -> CborV {
        CborV::Simple(
            if v {
                21
            } else {
                20
            },
        )
    }

    open spec fn of_tree(t: CborV) -> Option<bool> {
        match t {
            CborV::Simple(s) => if s == 20 {
                Some(false)
            } else if s == 21 {
                Some(true)
            } else {
                None
            },
            _ => None,
        }
    }

    open spec fn valid(v: bool) -> bool {
        true
    }

    proof fn lemma_tree_round_trip(v: bool) {
    }

    proof fn lemma_read_exact(t: CborV) {
    }

    fn dup(&self) -> (r: Self) {
        *self
    }

    fn to_item(&self) -> (r: Cbor) {
        if *self {
            Cbor::Simple(21)
        } else {
            Cbor::Simple(20)
        }
    }

    fn from_item(item: &Cbor) -> (r: Option<bool>) {
        match item {
            Cbor::Simple(s) => if *s == 20 {
                Some(false)
            } else if *s == 21 {
                Some(true)
            } else {
                None
            },
            _ => None,
        }
    }
}

impl Codec for u16 {
    open spec fn tree(v: u16) -> CborV {
        CborV::Uint(v as u64)
    }

    open spec fn of_tree(t: CborV) -> Option<u16> {
        match uint_of(t) {
            Some(n) => if n <= u16::MAX {
                Some(n as u16)
            } else {
                None
            },
            None => None,
        }
    }

    open spec fn valid(v: u16) -> bool {
        true
    }

    proof fn lemma_tree_round_trip(v: u16) {
    }

    proof fn lemma_read_exact(t: CborV) {
    }

    fn dup(&self) -> (r: Self) {
        *self
    }

    fn to_item(&self) -> (r: Cbor) {
        Cbor::Uint(*self as u64)
    }

    fn from_item(item: &Cbor) -> (r: Option<u16>) {
        match read_uint(item) {
            Some(n) => if n <= u16::MAX as u64 {
                Some(n as u16)
            } else {
                None
            },
            None => None,
        }
    }
}

impl Codec for u32 {
    open spec fn tree(v: u32) -> CborV {
        CborV::Uint(v as u64)
    }

    open spec fn of_tree(t: CborV) -> Option<u32> {
        match uint_of(t) {
            Some(n) => if n <= u32::MAX {
                Some(n as u32)
            } else {
                None
            },
            None => None,
        }
    }

    open spec fn valid(v: u32) -> bool {
        true
    }

    proof fn lemma_tree_round_trip(v: u32) {
    }

    proof fn lemma_read_exact(t: CborV) {
    }

    fn dup(&self) -> (r: Self) {
        *self
    }

    fn to_item(&self) -> (r: Cbor) {
        Cbor::Uint(*self as u64)
    }

    fn from_item(item: &Cbor) -> (r: Option<u32>) {
        match read_uint(item) {
            Some(n) => if n <= u32::MAX as u64 {
                Some(n as u32)
            } else {
                None
            },
            None => None,
        }
    }
}

/// Who may act for a stake or a vote: the holder of a key, or a script.
#[derive(Clone, Copy, Debug, PartialEq, Eq)]
pub enum Credential {
    Key(Hash28),
    Script(Hash28),
}

impl View for Credential {
    type V = Credential;

    open spec fn view(&self) -> Credential {
        *self
    }
}

impl Credential {
    pub fn from_keyhash(hash: &Ed25519KeyHash) -> (r: Credential)
        ensures
            r == Credential::Key(*hash),
    {
        Credential::Key(*hash)
    }

    pub fn from_scripthash(hash: &ScriptHash) -> (r: Credential)
        ensures
            r == Credential::Script(*hash),
    {
        Credential::Script(*hash)
    }
}

impl Codec for Credential {
    open spec fn tree(v: Credential) -> CborV {
        match v {
            Credential::Key(h) => CborV::Array(seq![CborV::Uint(0), Hash28::tree(h)]),
            Credential::Script(h) => CborV::Array(seq![CborV::Uint(1), Hash28::tree(h)]),
        }
    }

    open spec fn of_tree(t: CborV) -> Option<Credential> {
        match elems_of(t) {
            Some(e) => if e.len() == 2 {
                match (uint_of(e[0]), Hash28::of_tree(e[1])) {
                    (Some(k), Some(h)) => if k == 0 {
                        Some(Credential::Key(h))
                    } else if k == 1 {
                        Some(Credential::Script(h))
                    } else {
                        None
                    },
                    _ => None,
                }
            } else {
                None
            },
            None => None,
        }
    }

    open spec fn valid(v: Credential) -> bool {
        true
    }

    proof fn lemma_tree_round_trip(v: Credential) {
        match v {
            Credential::Key(h) => Hash28::lemma_tree_round_trip(h),
            Credential::Script(h) => Hash28::lemma_tree_round_trip(h),
        }
        lemma_wf_short(Self::tree(v)->Array_0);
    }

    proof fn lemma_read_exact(t: CborV) {
        let e = t->Array_0;
        assert(wf(e[1]));
        Hash28::lemma_read_exact(e[1]);
        assert(Self::tree(Self::of_tree(t)->0)->Array_0 =~= e);
    }

    fn dup(&self) -> (r: Self) {
        *self
    }

    fn to_item(&self) -> (r: Cbor) {
        let (k, h) = match self {
            Credential::Key(h) => (0u64, h),
            Credential::Script(h) => (1u64, h),
        };
        let mut v: Vec<Cbor> = Vec::new();
        v.push(Cbor::Uint(k));
        v.push(h.to_item());
        proof {
            assert(item_views(v@) =~= seq![CborV::Uint(k), Hash28::tree(*h)]);
        }
        array_item(v)
    }

    fn from_item(item: &Cbor) -> (r: Option<Credential>) {
        let e = match read_elems(item) {
            Some(e) => e,
            None => {
                return None;
            },
        };
        if e.len() != 2 {
            return None;
        }
        let k = read_uint(&e[0]);
        let h = Hash28::from_item(&e[1]);
        match (k, h) {
            (Some(k), Some(h)) => if k == 0 {
                Some(Credential::Key(h))
            } else if k == 1 {
                Some(Credential::Script(h))
            } else {
                None
            },
            _ => None,
        }
    }
}

/// An amount of the ledger's smallest unit, or any other unsigned number.
#[derive(Clone, Copy, Debug, PartialEq, Eq)]
pub struct BigNum {
    pub value: u64,
}

pub type Coin = BigNum;

/// The number of an epoch.
pub type Epoch = u32;

impl View for BigNum {
    type V = BigNum;

    open spec fn view(&self) -> BigNum {
        *self
    }
}

impl From<u64> for BigNum {
    fn from(value: u64) -> (r: BigNum) {
        BigNum { value }
    }
}

impl vstd::std_specs::convert::FromSpecImpl<u64> for BigNum {
    open spec fn obeys_from_spec() -> bool {
        true
    }

    open spec fn from_spec(value: u64) -> BigNum {
        BigNum { value }
    }
}

impl Codec for BigNum {
    open spec fn tree(v: BigNum) -> CborV {
        CborV::Uint(v.value)
    }

    open spec fn of_tree(t: CborV) -> Option<BigNum> {
        match uint_of(t) {
            Some(value) => Some(BigNum { value }),
            None => None,
        }
    }

    open spec fn valid(v: BigNum) -> bool {
        true
    }

    proof fn lemma_tree_round_trip(v: BigNum) {
    }

    proof fn lemma_read_exact(t: CborV) {
    }

    fn dup(&self) -> (r: Self) {
        *self
    }

    fn to_item(&self) -> (r: Cbor) {
        Cbor::Uint(self.value)
    }

    fn from_item(item: &Cbor) -> (r: Option<BigNum>) {
        match read_uint(item) {
            Some(value) => Some(BigNum { value }),
            None => None,
        }
    }
}

/// A signed number between -2^64 and 2^64 - 1.
#[derive(Clone, Copy, Debug, PartialEq, Eq)]
pub struct Int {
    pub value: i128,
}

pub type DeltaCoin = Int;

impl View for Int {
    type V = Int;

    open spec fn view(&self) -> Int {
        *self
    }
}

impl Int {
    pub fn new(x: &BigNum) -> (r: Int)
        ensures
            r.value == x.value,
    {
        Int { value: x.value as i128 }
    }
}

impl Codec for Int {
    open spec fn tree(v: Int) -> CborV {
        if v.value >= 0 {
            CborV::Uint(v.value as u64)
        } else {
            CborV::Nint((-1 - v.value) as u64)
        }
    }

    open spec fn of_tree(t: CborV) -> Option<Int> {
        match t {
            CborV::Uint(n) => Some(Int { value: n as i128 }),
            CborV::Nint(n) => Some(Int { value: (-1 - n) as i128 }),
            _ => None,
        }
    }

    open spec fn valid(v: Int) -> bool {
        -0x1_0000_0000_0000_0000 <= v.value < 0x1_0000_0000_0000_0000
    }

    proof fn lemma_tree_round_trip(v: Int) {
    }

    proof fn lemma_read_exact(t: CborV) {
    }

    fn dup(&self) -> (r: Self) {
        *self
    }

    fn to_item(&self) -> (r: Cbor) {
        if self.value >= 0 {
            Cbor::Uint(self.value as u64)
        } else {
            Cbor::Nint((-1 - self.value) as u64)
        }
    }

    fn from_item(item: &Cbor) -> (r: Option<Int>) {
        match item {
            Cbor::Uint(n) => Some(Int { value: *n as i128 }),
            Cbor::Nint(n) => Some(Int { value: -1 - (*n as i128) }),
            _ => None,
        }
    }
}

/// A ratio of two unsigned numbers.
#[derive(Clone, Copy, Debug, PartialEq, Eq)]
pub struct UnitInterval {
    pub numerator: BigNum,
    pub denominator: BigNum,
}

impl View for UnitInterval {
    type V = UnitInterval;

    open spec fn view(&self) -> UnitInterval {
        *self
    }
}

impl UnitInterval {
    pub fn new(numerator: &BigNum, denominator: &BigNum) -> (r: UnitInterval)
        ensures
            r == (UnitInterval { numerator: *numerator, denominator: *denominator }),
    {
        UnitInterval { numerator: *numerator, denominator: *denominator }
    }
}

impl Codec for UnitInterval {
    open spec fn tree(v: UnitInterval) -> CborV {
        CborV::Tag(
            30,
            Box::new(
                CborV::Array(
                    seq![CborV::Uint(v.numerator.value), CborV::Uint(v.denominator.value)],
                ),
            ),
        )
    }

    open spec fn of_tree(t: CborV) -> Option<UnitInterval> {
        match t {
            CborV::Tag(tag, inner) => match elems_of(*inner) {
                Some(e) => if tag == 30 && e.len() == 2 {
                    match (uint_of(e[0]), uint_of(e[1])) {
                        (Some(n), Some(d)) => Some(
                            UnitInterval {
                                numerator: BigNum { value: n },
                                denominator: BigNum { value: d },
                            },
                        ),
                        _ => None,
                    }
                } else {
                    None
                },
                None => None,
            },
            _ => None,
        }
    }

    open spec fn valid(v: UnitInterval) -> bool {
        true
    }

    proof fn lemma_tree_round_trip(v: UnitInterval) {
        let t = Self::tree(v);
        lemma_wf_short(t->Tag_1->Array_0);
    }

    proof fn lemma_read_exact(t: CborV) {
        let e = t->Tag_1->Array_0;
        assert(Self::tree(Self::of_tree(t)->0)->Tag_1->Array_0 =~= e);
    }

    fn dup(&self) -> (r: Self) {
        *self
    }

    fn to_item(&self) -> (r: Cbor) {
        let mut v: Vec<Cbor> = Vec::new();
        v.push(Cbor::Uint(self.numerator.value));
        v.push(Cbor::Uint(self.denominator.value));
        proof {
            assert(item_views(v@) =~= seq![
                CborV::Uint(self.numerator.value),
                CborV::Uint(self.denominator.value),
            ]);
        }
        let r = Cbor::Tag(30, Box::new(array_item(v)));
        proof {
            crate::cbor::item::lemma_view_of_lists(r);
        }
        r
    }

    fn from_item(item: &Cbor) -> (r: Option<UnitInterval>) {
        proof {
            crate::cbor::item::lemma_view_of_lists(*item);
        }
        match item {
            Cbor::Tag(tag, inner) => {
                let e = match read_elems(&**inner) {
                    Some(e) => e,
                    None => {
                        return None;
                    },
                };
                if *tag != 30 || e.len() != 2 {
                    return None;
                }
                match (read_uint(&e[0]), read_uint(&e[1])) {
                    (Some(n), Some(d)) => Some(
                        UnitInterval {
                            numerator: BigNum { value: n },
                            denominator: BigNum { value: d },
                        },
                    ),
                    _ => None,
                }
            },
            _ => None,
        }
    }
}

/// Text of at most 128 bytes of UTF-8: a URL or a DNS name.
#[derive(Debug, PartialEq, Eq)]
pub struct Text128 {
    pub bytes: Vec<u8>,
}

pub type URL = Text128;

pub type DNSRecordAorAAAA = Text128;

pub type DNSRecordSRV = Text128;

impl View for Text128 {
    type V = Seq<u8>;

    open spec fn view(&self) -> Seq<u8> {
        self.bytes@
    }
}

impl Text128 {
    /// Holds the text if its UTF-8 encoding has at most 128 bytes.
    pub fn new(text: String) -> (r: Result<Text128, DecodeError>)
        ensures
            match r {
                Ok(t) => t@ == encode_utf8(text@) && Self::valid(t@),
                Err(e) => e == DecodeError::OutOfRange && encode_utf8(text@).len() > 128,
            },
    {
        let bytes = text.as_str().as_bytes_vec();
        proof {
            encode_utf8_valid_utf8(text@);
        }
        if bytes.len() <= 128 {
            Ok(Text128 { bytes })
        } else {
            Err(DecodeError::OutOfRange)
        }
    }
}

impl Clone for Text128 {
    fn clone(&self) -> (r: Self)
        ensures
            r@ == self@,
    {
        Text128 { bytes: slice_to_vec(self.bytes.as_slice()) }
    }
}

impl Codec for Text128 {
    open spec fn tree(v: Seq<u8>) -> CborV {
        CborV::Text(v)
    }

    open spec fn of_tree(t: CborV) -> Option<Seq<u8>> {
        text_of(t)
    }

    open spec fn valid(v: Seq<u8>) -> bool {
        v.len() <= 128 && valid_utf8(v)
    }

    proof fn lemma_tree_round_trip(v: Seq<u8>) {
    }

    proof fn lemma_read_exact(t: CborV) {
    }

    fn dup(&self) -> (r: Self) {
        self.clone()
    }

    fn to_item(&self) -> (r: Cbor) {
        Cbor::Text(slice_to_vec(self.bytes.as_slice()))
    }

    fn from_item(item: &Cbor) -> (r: Option<Text128>) {
        match item {
            Cbor::Text(b) => if b.len() <= 128 {
                Some(Text128 { bytes: slice_to_vec(b.as_slice()) })
            } else {
                None
            },
            _ => None,
        }
    }
}

/// A pointer to a document and the digest of its content.
#[derive(Debug, PartialEq, Eq)]
pub struct Anchor {
    pub url: URL,
    pub data_hash: Hash32,
}

pub type PoolMetadata = Anchor;

/// What an `Anchor` holds.
pub struct AnchorV {
    pub url: Seq<u8>,
    pub data_hash: Hash32,
}

impl View for Anchor {
    type V = AnchorV;

    open spec fn view(&self) -> AnchorV {
        AnchorV { url: self.url@, data_hash: self.data_hash }
    }
}

impl Anchor {
    pub fn new(url: &URL, data_hash: &Hash32) -> (r: Anchor)
        ensures
            r@ == (AnchorV { url: url@, data_hash: *data_hash }),
    {
        Anchor { url: url.clone(), data_hash: *data_hash }
    }
}

impl Clone for Anchor {
    fn clone(&self) -> (r: Self)
        ensures
            r@ == self@,
    {
        Anchor { url: self.url.clone(), data_hash: self.data_hash }
    }
}

impl Codec for Anchor {
    open spec fn tree(v: AnchorV) -> CborV {
        CborV::Array(seq![CborV::Text(v.url), CborV::Bytes(v.data_hash.bytes@)])
    }

    open spec fn of_tree(t: CborV) -> Option<AnchorV> {
        match elems_of(t) {
            Some(e) => if e.len() == 2 {
                match (text_of(e[0]), Hash32::of_tree(e[1])) {
                    (Some(url), Some(data_hash)) => Some(AnchorV { url, data_hash }),
                    _ => None,
                }
            } else {
                None
            },
            None => None,
        }
    }

    open spec fn valid(v: AnchorV) -> bool {
        Text128::valid(v.url)
    }

    proof fn lemma_tree_round_trip(v: AnchorV) {
        Hash32::lemma_tree_round_trip(v.data_hash);
        lemma_wf_short(Self::tree(v)->Array_0);
    }

    proof fn lemma_read_exact(t: CborV) {
        let e = t->Array_0;
        assert(wf(e[0]) && wf(e[1]));
        Hash32::lemma_read_exact(e[1]);
        assert(Self::tree(Self::of_tree(t)->0)->Array_0 =~= e);
    }

    fn dup(&self) -> (r: Self) {
        self.clone()
    }

    fn to_item(&self) -> (r: Cbor) {
        let mut v: Vec<Cbor> = Vec::new();
        v.push(self.url.to_item());
        v.push(self.data_hash.to_item());
        proof {
            assert(item_views(v@) =~= seq![
                CborV::Text(self.url@),
                CborV::Bytes(self.data_hash.bytes@),
            ]);
        }
        array_item(v)
    }

    fn from_item(item: &Cbor) -> (r: Option<Anchor>) {
        let e = match read_elems(item) {
            Some(e) => e,
            None => {
                return None;
            },
        };
        if e.len() != 2 {
            return None;
        }
        match (Text128::from_item(&e[0]), Hash32::from_item(&e[1])) {
            (Some(url), Some(data_hash)) => Some(Anchor { url, data_hash }),
            _ => None,
        }
    }
}

/// To whom a vote is delegated.
#[derive(Clone, Copy, Debug, PartialEq, Eq)]
pub enum DRep {
    KeyHash(Hash28),
    ScriptHash(Hash28),
    AlwaysAbstain,
    AlwaysNoConfidence,
}

impl View for DRep {
    type V = DRep;

    open spec fn view(&self) -> DRep {
        *self
    }
}

impl DRep {
    pub fn new_key_hash(hash: &Ed25519KeyHash) -> (r: DRep)
        ensures
            r == DRep::KeyHash(*hash),
    {
        DRep::KeyHash(*hash)
    }

    pub fn new_script_hash(hash: &ScriptHash) -> (r: DRep)
        ensures
            r == DRep::ScriptHash(*hash),
    {
        DRep::ScriptHash(*hash)
    }

    pub fn new_always_abstain() -> (r: DRep)
        ensures
            r == DRep::AlwaysAbstain,
    {
        DRep::AlwaysAbstain
    }

    pub fn new_always_no_confidence() -> (r: DRep)
        ensures
            r == DRep::AlwaysNoConfidence,
    {
        DRep::AlwaysNoConfidence
    }
}

impl Codec for DRep {
    open spec fn tree(v: DRep) -> CborV {
        match v {
            DRep::KeyHash(h) => CborV::Array(seq![CborV::Uint(0), Hash28::tree(h)]),
            DRep::ScriptHash(h) => CborV::Array(seq![CborV::Uint(1), Hash28::tree(h)]),
            DRep::AlwaysAbstain => CborV::Array(seq![CborV::Uint(2)]),
            DRep::AlwaysNoConfidence => CborV::Array(seq![CborV::Uint(3)]),
        }
    }

    open spec fn of_tree(t: CborV) -> Option<DRep> {
        match elems_of(t) {
            Some(e) => if e.len() == 2 {
                match (uint_of(e[0]), Hash28::of_tree(e[1])) {
                    (Some(k), Some(h)) => if k == 0 {
                        Some(DRep::KeyHash(h))
                    } else if k == 1 {
                        Some(DRep::ScriptHash(h))
                    } else {
                        None
                    },
                    _ => None,
                }
            } else if e.len() == 1 {
                match uint_of(e[0]) {
                    Some(k) => if k == 2 {
                        Some(DRep::AlwaysAbstain)
                    } else if k == 3 {
                        Some(DRep::AlwaysNoConfidence)
                    } else {
                        None
                    },
                    None => None,
                }
            } else {
                None
            },
            None => None,
        }
    }

    open spec fn valid(v: DRep) -> bool {
        true
    }

    proof fn lemma_tree_round_trip(v: DRep) {
        match v {
            DRep::KeyHash(h) => Hash28::lemma_tree_round_trip(h),
            DRep::ScriptHash(h) => Hash28::lemma_tree_round_trip(h),
            _ => {},
        }
        lemma_wf_short(Self::tree(v)->Array_0);
    }

    proof fn lemma_read_exact(t: CborV) {
        let e = t->Array_0;
        if e.len() == 2 {
            assert(wf(e[1]));
            Hash28::lemma_read_exact(e[1]);
        }
        assert(Self::tree(Self::of_tree(t)->0)->Array_0 =~= e);
    }

    fn dup(&self) -> (r: Self) {
        *self
    }

    fn to_item(&self) -> (r: Cbor) {
        let mut v: Vec<Cbor> = Vec::new();
        match self {
            DRep::KeyHash(h) => {
                v.push(Cbor::Uint(0));
                v.push(h.to_item());
                proof {
                    assert(item_views(v@) =~= seq![CborV::Uint(0), Hash28::tree(*h)]);
                }
            },
            DRep::ScriptHash(h) => {
                v.push(Cbor::Uint(1));
                v.push(h.to_item());
                proof {
                    assert(item_views(v@) =~= seq![CborV::Uint(1), Hash28::tree(*h)]);
                }
            },
            DRep::AlwaysAbstain => {
                v.push(Cbor::Uint(2));
                proof {
                    assert(item_views(v@) =~= seq![CborV::Uint(2)]);
                }
            },
            DRep::AlwaysNoConfidence => {
                v.push(Cbor::Uint(3));
                proof {
                    assert(item_views(v@) =~= seq![CborV::Uint(3)]);
                }
            },
        }
        array_item(v)
    }

    fn from_item(item: &Cbor) -> (r: Option<DRep>) {
        let e = match read_elems(item) {
            Some(e) => e,
            None => {
                return None;
            },
        };
        if e.len() == 2 {
            match (read_uint(&e[0]), Hash28::from_item(&e[1])) {
                (Some(k), Some(h)) => if k == 0 {
                    Some(DRep::KeyHash(h))
                } else if k == 1 {
                    Some(DRep::ScriptHash(h))
                } else {
                    None
                },
                _ => None,
            }
        } else if e.len() == 1 {
            match read_uint(&e[0]) {
                Some(k) => if k == 2 {
                    Some(DRep::AlwaysAbstain)
                } else if k == 3 {
                    Some(DRep::AlwaysNoConfidence)
                } else {
                    None
                },
                None => None,
            }
        } else {
            None
        }
    }
}

} // verus!
