//! Addresses of the first era, as far as witnesses need them: the
//! attributes that a bootstrap witness repeats.

use crate::cbor::decode::{from_bytes, whole_item};
use crate::cbor::encode::{encode, to_bytes};
use crate::cbor::item::{item_views, lemma_view_of_lists, Cbor, CborV};
use crate::cbor::laws::{lemma_round_trip, lemma_wf_short, wf};
use crate::codec::{array_item, read_sized, sized_of, Codec};
use crate::primitives::Hash28;
use vstd::prelude::*;

verus! {

/// One step of the checksum: the register shifted right by `bits` places,
/// with the polynomial folded in wherever a one falls out.
pub open spec fn crc_shift(crc: u32, bits: nat) -> u32
    decreases bits,
{
    if bits == 0 {
        crc
    } else {
        crc_shift(
            if crc & 1 == 1 {
                (crc >> 1) ^ 0xEDB8_8320
            } else {
                crc >> 1
            },
            (bits - 1) as nat,
        )
    }
}

/// The checksum register after the bytes from `from` on have gone through.
pub open spec fn crc_fold(crc: u32, s: Seq<u8>, from: int) -> u32
    decreases s.len() - from,
{
    if from < 0 || from >= s.len() {
        crc
    } else {
        crc_fold(crc_shift(crc ^ (s[from] as u32), 8), s, from + 1)
    }
}

/// The CRC-32 checksum of a byte string (reflected, polynomial 0xEDB88320,
/// register and result inverted).
pub open spec fn crc32_spec(s: Seq<u8>) -> u32 {
    crc_fold(0xFFFF_FFFF, s, 0) ^ 0xFFFF_FFFF
}

/// The CRC-32 checksum of a byte string.
pub fn crc32(bytes: &[u8]) -> (r: u32)
    ensures
        r == crc32_spec(bytes@),
{
    let mut crc: u32 = 0xFFFF_FFFF;
    let mut i: usize = 0;
    while i < bytes.len()
        invariant
            i <= bytes.len(),
            crc_fold(crc, bytes@, i as int) == crc_fold(0xFFFF_FFFF, bytes@, 0),
        decreases bytes.len() - i,
    {
        let start: u32 = crc ^ (bytes[i] as u32);
        let mut reg: u32 = start;
        let mut k: u8 = 0;
        while k < 8
            invariant
                k <= 8,
                crc_shift(reg, (8 - k) as nat) == crc_shift(start, 8),
            decreases 8 - k,
        {
            reg = if reg & 1 == 1 {
                (reg >> 1) ^ 0xEDB8_8320
            } else {
                reg >> 1
            };
            k += 1;
        }
        crc = reg;
        i += 1;
    }
    crc ^ 0xFFFF_FFFF
}

/// An address of the first era, as the bytes of its inner item: the digest
/// it is rooted in, its attributes and its kind.
#[derive(Debug, PartialEq, Eq)]
pub struct ByronAddress {
    pub payload: Vec<u8>,
}

impl View for ByronAddress {
    type V = Seq<u8>;

    open spec fn view(&self) -> Seq<u8> {
        self.payload@
    }
}

impl Clone for ByronAddress {
    fn clone(&self) -> (r: Self)
        ensures
            r@ == self@,
    {
        ByronAddress { payload: vstd::slice::slice_to_vec(self.payload.as_slice()) }
    }
}

/// The inner item of an address.
pub open spec fn payload_tree(root: Hash28, attributes: CborV, address_type: u64) -> CborV {
    CborV::Array(seq![Hash28::tree(root), attributes, CborV::Uint(address_type)])
}

/// The root, the attributes and the kind that an inner item holds: an
/// array of a digest of 28 bytes, a map and an unsigned integer.
pub open spec fn payload_of(t: CborV) -> Option<(Hash28, CborV, u64)> {
    match sized_of(t, 3) {
        Some(e) => match (Hash28::of_tree(e[0]), e[2]) {
            (Some(root), CborV::Uint(address_type)) => if e[1] is Pairs {
                Some((root, e[1], address_type))
            } else {
                None
            },
            _ => None,
        },
        None => None,
    }
}

/// The root, the attributes and the kind that the bytes of an inner item
/// hold.
pub open spec fn address_parts(p: Seq<u8>) -> Option<(Hash28, CborV, u64)> {
    match whole_item(p) {
        Some(t) => payload_of(t),
        None => None,
    }
}

/// The canonical bytes of the attributes of an address; none where the
/// bytes are no inner item of an address.
pub open spec fn attributes_bytes(p: Seq<u8>) -> Seq<u8> {
    match address_parts(p) {
        Some((_, attributes, _)) => encode(attributes),
        None => Seq::empty(),
    }
}

fn read_payload(item: &Cbor) -> (r: Option<(Hash28, Cbor, u64)>)
    ensures
        match r {
            Some((root, attributes, address_type)) => payload_of(item@) == Some(
                (root, attributes@, address_type),
            ),
            None => payload_of(item@) is None,
        },
{
    let f = match read_sized(item, 3) {
        Some(f) => f,
        None => {
            return None;
        },
    };
    let root = match Hash28::from_item(&f[0]) {
        Some(root) => root,
        None => {
            return None;
        },
    };
    let address_type = match &f[2] {
        Cbor::Uint(n) => *n,
        _ => {
            return None;
        },
    };
    match &f[1] {
        Cbor::Pairs(_) => Some((root, f[1].clone(), address_type)),
        _ => None,
    }
}

fn read_parts(payload: &[u8]) -> (r: Option<(Hash28, Cbor, u64)>)
    ensures
        match r {
            Some((root, attributes, address_type)) => address_parts(payload@) == Some(
                (root, attributes@, address_type),
            ),
            None => address_parts(payload@) is None,
        },
{
    match from_bytes(payload) {
        Some(item) => read_payload(&item),
        None => None,
    }
}

impl ByronAddress {
    /// The address with the given root, attributes and kind, its inner item
    /// in canonical bytes.
    pub fn new(root: &Hash28, attributes: &Cbor, address_type: u64) -> (r: ByronAddress)
        ensures
            r@ == encode(payload_tree(*root, attributes@, address_type)),
    {
        let mut v: Vec<Cbor> = Vec::new();
        v.push(root.to_item());
        v.push(attributes.clone());
        v.push(Cbor::Uint(address_type));
        proof {
            assert(item_views(v@) =~= payload_tree(*root, attributes@, address_type)->Array_0);
        }
        ByronAddress { payload: to_bytes(&array_item(v)) }
    }

    /// The digest that the address is rooted in.
    pub fn root(&self) -> (r: Option<Hash28>)
        ensures
            r == match address_parts(self@) {
                Some((root, _, _)) => Some(root),
                None => None,
            },
    {
        match read_parts(self.payload.as_slice()) {
            Some((root, _, _)) => Some(root),
            None => None,
        }
    }

    /// The kind of the address.
    pub fn address_type(&self) -> (r: Option<u64>)
        ensures
            r == match address_parts(self@) {
                Some((_, _, address_type)) => Some(address_type),
                None => None,
            },
    {
        match read_parts(self.payload.as_slice()) {
            Some((_, _, address_type)) => Some(address_type),
            None => None,
        }
    }

    /// The canonical bytes of the attributes, as a bootstrap witness
    /// repeats them.
    pub fn attributes(&self) -> (r: Vec<u8>)
        ensures
            r@ == attributes_bytes(self@),
    {
        match read_parts(self.payload.as_slice()) {
            Some((_, attributes, _)) => to_bytes(&attributes),
            None => Vec::new(),
        }
    }
}

impl Codec for ByronAddress {
    /// The inner item as bytes under tag 24, then the checksum of those
    /// bytes.
    open spec fn tree(v: Seq<u8>) -> CborV {
        CborV::Array(
            seq![
                CborV::Tag(24, Box::new(CborV::Bytes(v))),
                CborV::Uint(crc32_spec(v) as u64),
            ],
        )
    }

    open spec fn of_tree(t: CborV) -> Option<Seq<u8>> {
        match sized_of(t, 2) {
            Some(e) => match (e[0], e[1]) {
                (CborV::Tag(tag, inner), CborV::Uint(crc)) => match *inner {
                    CborV::Bytes(p) => if tag == 24 && crc == crc32_spec(p) && address_parts(p)
                        is Some {
                        Some(p)
                    } else {
                        None
                    },
                    _ => None,
                },
                _ => None,
            },
            None => None,
        }
    }

    open spec fn valid(v: Seq<u8>) -> bool {
        address_parts(v) is Some && v.len() <= u64::MAX
    }

    proof fn lemma_tree_round_trip(v: Seq<u8>) {
        assert(wf(CborV::Bytes(v)));
        assert(wf(CborV::Tag(24, Box::new(CborV::Bytes(v)))));
        lemma_wf_short(Self::tree(v)->Array_0);
    }

    proof fn lemma_read_exact(t: CborV) {
        let e = t->Array_0;
        assert(wf(e[0]));
        let p = Self::of_tree(t)->0;
        assert(wf(CborV::Bytes(p)));
        assert(Self::tree(p)->Array_0 =~= e);
    }

    fn dup(&self) -> (r: Self) {
        self.clone()
    }

    fn to_item(&self) -> (r: Cbor) {
        let crc = crc32(self.payload.as_slice());
        let tagged = Cbor::Tag(
            24,
            Box::new(Cbor::Bytes(vstd::slice::slice_to_vec(self.payload.as_slice()))),
        );
        proof {
            lemma_view_of_lists(tagged);
        }
        let mut v: Vec<Cbor> = Vec::new();
        v.push(tagged);
        v.push(Cbor::Uint(crc as u64));
        proof {
            assert(item_views(v@) =~= Self::tree(self@)->Array_0);
        }
        array_item(v)
    }

    fn from_item(item: &Cbor) -> (r: Option<ByronAddress>) {
        let e = match read_sized(item, 2) {
            Some(e) => e,
            None => {
                return None;
            },
        };
        proof {
            lemma_view_of_lists(e[0]);
        }
        let (tag, inner) = match &e[0] {
            Cbor::Tag(tag, inner) => (*tag, inner),
            _ => {
                return None;
            },
        };
        let crc = match &e[1] {
            Cbor::Uint(crc) => *crc,
            _ => {
                return None;
            },
        };
        let p = match &**inner {
            Cbor::Bytes(p) => p,
            _ => {
                return None;
            },
        };
        if tag != 24 || crc != crc32(p.as_slice()) as u64 {
            return None;
        }
        match read_parts(p.as_slice()) {
            Some(_) => Some(ByronAddress { payload: vstd::slice::slice_to_vec(p.as_slice()) }),
            None => None,
        }
    }
}

/// An address made of a root, a map of attributes and a kind is valid, and
/// its attributes are those it was made of.
pub proof fn law_address_parts(root: Hash28, attributes: CborV, address_type: u64)
    requires
        attributes is Pairs,
        wf(attributes),
    ensures
        address_parts(encode(payload_tree(root, attributes, address_type))) == Some(
            (root, attributes, address_type),
        ),
        attributes_bytes(encode(payload_tree(root, attributes, address_type))) == encode(
            attributes,
        ),
{
    let t = payload_tree(root, attributes, address_type);
    Hash28::lemma_tree_round_trip(root);
    lemma_wf_short(t->Array_0);
    lemma_round_trip(t);
}

} // verus!
