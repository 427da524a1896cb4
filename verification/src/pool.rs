//! Stake pools: their relays, owners, reward address and registration.

use crate::cbor::item::{item_views, Cbor, CborV};
use crate::cbor::laws::{lemma_wf_short, wf};
use crate::codec::{
    all_valid, array_item, elems_of, index_of, items_of, lemma_trees_round_trip, null, of_trees,
    opt_from_item, opt_of_tree, opt_to_item, opt_tree, opt_view, read_elems, read_index,
    read_record, record_of, trees, values_of, views, Codec, SetV, TaggedSet,
};
use crate::primitives::{
    Anchor, AnchorV, BigNum, Coin, Credential, DNSRecordAorAAAA, DNSRecordSRV, Ed25519KeyHash,
    FixedBytes, Hash28, Hash32, Ipv4, Ipv6, PoolMetadata, Text128, UnitInterval, VRFKeyHash,
};
use vstd::prelude::*;

verus! {


/// A relay reached at an address and a port.
#[derive(Clone, Copy, Debug, PartialEq, Eq)]
pub struct SingleHostAddr {
    pub port: Option<u16>,
    pub ipv4: Option<Ipv4>,
    pub ipv6: Option<Ipv6>,
}

impl View for SingleHostAddr {
    type V = SingleHostAddr;

    open spec fn view(&self) -> SingleHostAddr {
        *self
    }
}

impl SingleHostAddr {
    pub fn new(port: Option<u16>, ipv4: Option<Ipv4>, ipv6: Option<Ipv6>) -> (r: Self)
        ensures
            r@ == (SingleHostAddr {
                port: opt_view(port),
                ipv4: opt_view(ipv4),
                ipv6: opt_view(ipv6),
            }),
    {
        SingleHostAddr {
            port: port,
            ipv4: ipv4,
            ipv6: ipv6,
        }
    }
}

impl Codec for SingleHostAddr {
    open spec fn tree(v: SingleHostAddr) -> CborV {
        CborV::Array(
            seq![
                CborV::Uint(0),
                opt_tree::<u16>(v.port),
                opt_tree::<Ipv4>(v.ipv4),
                opt_tree::<Ipv6>(v.ipv6),
            ],
        )
    }

    open spec fn of_tree(t: CborV) -> Option<SingleHostAddr> {
        match record_of(t, 0, 4) {
            Some(e) => match (
                opt_of_tree::<u16>(e[1]),
                opt_of_tree::<Ipv4>(e[2]),
                opt_of_tree::<Ipv6>(e[3]),
            ) {
                (Some(port), Some(ipv4), Some(ipv6)) => Some(SingleHostAddr { port, ipv4, ipv6 }),
                _ => None,
            },
            None => None,
        }
    }

    open spec fn valid(v: SingleHostAddr) -> bool {
        true
    }

    proof fn lemma_tree_round_trip(v: SingleHostAddr) {
        if let Some(a) = v.port {
            u16::lemma_tree_round_trip(a);
        }
        if let Some(a) = v.ipv4 {
            Ipv4::lemma_tree_round_trip(a);
        }
        if let Some(a) = v.ipv6 {
            Ipv6::lemma_tree_round_trip(a);
        }
        lemma_wf_short(Self::tree(v)->Array_0);
    }

    proof fn lemma_read_exact(t: CborV) {
        let e = t->Array_0;
        assert(wf(e[0]));
        assert(wf(e[1]));
        if e[1] != null() {
            u16::lemma_read_exact(e[1]);
        }
        assert(wf(e[2]));
        if e[2] != null() {
            Ipv4::lemma_read_exact(e[2]);
        }
        assert(wf(e[3]));
        if e[3] != null() {
            Ipv6::lemma_read_exact(e[3]);
        }
        assert(Self::tree(Self::of_tree(t)->0)->Array_0 =~= e);
    }

    fn dup(&self) -> (r: Self) {
        *self
    }

    fn to_item(&self) -> (r: Cbor) {
        let mut v: Vec<Cbor> = Vec::new();
        v.push(Cbor::Uint(0));
        v.push(opt_to_item(&self.port));
        v.push(opt_to_item(&self.ipv4));
        v.push(opt_to_item(&self.ipv6));
        proof {
            assert(item_views(v@) =~= Self::tree(self@)->Array_0);
        }
        array_item(v)
    }

    fn from_item(item: &Cbor) -> (r: Option<SingleHostAddr>) {
        let e = match read_record(item, 0, 4) {
            Some(e) => e,
            None => {
                return None;
            },
        };
        match (
            opt_from_item::<u16>(&e[1]),
            opt_from_item::<Ipv4>(&e[2]),
            opt_from_item::<Ipv6>(&e[3]),
        ) {
            (Some(port), Some(ipv4), Some(ipv6)) => Some(SingleHostAddr { port, ipv4, ipv6 }),
            _ => None,
        }
    }
}

/// A relay reached at a DNS name and a port.
#[derive(Debug, PartialEq, Eq)]
pub struct SingleHostName {
    pub port: Option<u16>,
    pub dns_name: DNSRecordAorAAAA,
}

/// What a `SingleHostName` holds.
pub struct SingleHostNameV {
    pub port: Option<u16>,
    pub dns_name: Seq<u8>,
}

impl View for SingleHostName {
    type V = SingleHostNameV;

    open spec fn view(&self) -> SingleHostNameV {
        SingleHostNameV {
            port: opt_view(self.port),
            dns_name: self.dns_name@,
        }
    }
}

impl Clone for SingleHostName {
    fn clone(&self) -> (r: Self)
        ensures
            r@ == self@,
    {
        SingleHostName {
            port: self.port,
            dns_name: self.dns_name.dup(),
        }
    }
}

impl SingleHostName {
    pub fn new(port: Option<u16>, dns_name: &DNSRecordAorAAAA) -> (r: Self)
        ensures
            r@ == (SingleHostNameV {
                port: opt_view(port),
                dns_name: dns_name@,
            }),
    {
        SingleHostName {
            port: port,
            dns_name: dns_name.dup(),
        }
    }
}

impl Codec for SingleHostName {
    open spec fn tree(v: SingleHostNameV) -> CborV {
        CborV::Array(
            seq![
                CborV::Uint(1),
                opt_tree::<u16>(v.port),
                Text128::tree(v.dns_name),
            ],
        )
    }

    open spec fn of_tree(t: CborV) -> Option<SingleHostNameV> {
        match record_of(t, 1, 3) {
            Some(e) => match (
                opt_of_tree::<u16>(e[1]),
                Text128::of_tree(e[2]),
            ) {
                (Some(port), Some(dns_name)) => Some(SingleHostNameV { port, dns_name }),
                _ => None,
            },
            None => None,
        }
    }

    open spec fn valid(v: SingleHostNameV) -> bool {
        &&& Text128::valid(v.dns_name)
    }

    proof fn lemma_tree_round_trip(v: SingleHostNameV) {
        if let Some(a) = v.port {
            u16::lemma_tree_round_trip(a);
        }
        Text128::lemma_tree_round_trip(v.dns_name);
        lemma_wf_short(Self::tree(v)->Array_0);
    }

    proof fn lemma_read_exact(t: CborV) {
        let e = t->Array_0;
        assert(wf(e[0]));
        assert(wf(e[1]));
        if e[1] != null() {
            u16::lemma_read_exact(e[1]);
        }
        assert(wf(e[2]));
        Text128::lemma_read_exact(e[2]);
        assert(Self::tree(Self::of_tree(t)->0)->Array_0 =~= e);
    }

    fn dup(&self) -> (r: Self) {
        self.clone()
    }

    fn to_item(&self) -> (r: Cbor) {
        let mut v: Vec<Cbor> = Vec::new();
        v.push(Cbor::Uint(1));
        v.push(opt_to_item(&self.port));
        v.push(self.dns_name.to_item());
        proof {
            assert(item_views(v@) =~= Self::tree(self@)->Array_0);
        }
        array_item(v)
    }

    fn from_item(item: &Cbor) -> (r: Option<SingleHostName>) {
        let e = match read_record(item, 1, 3) {
            Some(e) => e,
            None => {
                return None;
            },
        };
        match (
            opt_from_item::<u16>(&e[1]),
            Text128::from_item(&e[2]),
        ) {
            (Some(port), Some(dns_name)) => Some(SingleHostName { port, dns_name }),
            _ => None,
        }
    }
}

/// A relay found through a DNS service record.
#[derive(Debug, PartialEq, Eq)]
pub struct MultiHostName {
    pub dns_name: DNSRecordSRV,
}

/// What a `MultiHostName` holds.
pub struct MultiHostNameV {
    pub dns_name: Seq<u8>,
}

impl View for MultiHostName {
    type V = MultiHostNameV;

    open spec fn view(&self) -> MultiHostNameV {
        MultiHostNameV {
            dns_name: self.dns_name@,
        }
    }
}

impl Clone for MultiHostName {
    fn clone(&self) -> (r: Self)
        ensures
            r@ == self@,
    {
        MultiHostName {
            dns_name: self.dns_name.dup(),
        }
    }
}

impl MultiHostName {
    pub fn new(dns_name: &DNSRecordSRV) -> (r: Self)
        ensures
            r@ == (MultiHostNameV {
                dns_name: dns_name@,
            }),
    {
        MultiHostName {
            dns_name: dns_name.dup(),
        }
    }
}

impl Codec for MultiHostName {
    open spec fn tree(v: MultiHostNameV) -> CborV {
        CborV::Array(
            seq![
                CborV::Uint(2),
                Text128::tree(v.dns_name),
            ],
        )
    }

    open spec fn of_tree(t: CborV) -> Option<MultiHostNameV> {
        match record_of(t, 2, 2) {
            Some(e) => match (
                Text128::of_tree(e[1]),
            ) {
                (Some(dns_name),) => Some(MultiHostNameV { dns_name }),
                _ => None,
            },
            None => None,
        }
    }

    open spec fn valid(v: MultiHostNameV) -> bool {
        &&& Text128::valid(v.dns_name)
    }

    proof fn lemma_tree_round_trip(v: MultiHostNameV) {
        Text128::lemma_tree_round_trip(v.dns_name);
        lemma_wf_short(Self::tree(v)->Array_0);
    }

    proof fn lemma_read_exact(t: CborV) {
        let e = t->Array_0;
        assert(wf(e[0]));
        assert(wf(e[1]));
        Text128::lemma_read_exact(e[1]);
        assert(Self::tree(Self::of_tree(t)->0)->Array_0 =~= e);
    }

    fn dup(&self) -> (r: Self) {
        self.clone()
    }

    fn to_item(&self) -> (r: Cbor) {
        let mut v: Vec<Cbor> = Vec::new();
        v.push(Cbor::Uint(2));
        v.push(self.dns_name.to_item());
        proof {
            assert(item_views(v@) =~= Self::tree(self@)->Array_0);
        }
        array_item(v)
    }

    fn from_item(item: &Cbor) -> (r: Option<MultiHostName>) {
        let e = match read_record(item, 2, 2) {
            Some(e) => e,
            None => {
                return None;
            },
        };
        match (
            Text128::from_item(&e[1]),
        ) {
            (Some(dns_name),) => Some(MultiHostName { dns_name }),
            _ => None,
        }
    }
}

/// How a pool can be reached.
#[derive(Debug, PartialEq, Eq)]
pub enum Relay {
    SingleHostAddr(SingleHostAddr),
    SingleHostName(SingleHostName),
    MultiHostName(MultiHostName),
}

/// What a `Relay` holds.
pub enum RelayV {
    SingleHostAddr(SingleHostAddr),
    SingleHostName(SingleHostNameV),
    MultiHostName(MultiHostNameV),
}

impl View for Relay {
    type V = RelayV;

    open spec fn view(&self) -> RelayV {
        match self {
            Relay::SingleHostAddr(x) => RelayV::SingleHostAddr(*x),
            Relay::SingleHostName(x) => RelayV::SingleHostName(x@),
            Relay::MultiHostName(x) => RelayV::MultiHostName(x@),
        }
    }
}

impl Clone for Relay {
    fn clone(&self) -> (r: Self)
        ensures
            r@ == self@,
    {
        match self {
            Relay::SingleHostAddr(x) => Relay::SingleHostAddr(*x),
            Relay::SingleHostName(x) => Relay::SingleHostName(x.clone()),
            Relay::MultiHostName(x) => Relay::MultiHostName(x.clone()),
        }
    }
}

impl Relay {
    pub fn new_single_host_addr(x: &SingleHostAddr) -> (r: Relay)
        ensures
            r@ == RelayV::SingleHostAddr(*x),
    {
        Relay::SingleHostAddr(*x)
    }

    pub fn new_single_host_name(x: &SingleHostName) -> (r: Relay)
        ensures
            r@ == RelayV::SingleHostName(x@),
    {
        Relay::SingleHostName(x.clone())
    }

    pub fn new_multi_host_name(x: &MultiHostName) -> (r: Relay)
        ensures
            r@ == RelayV::MultiHostName(x@),
    {
        Relay::MultiHostName(x.clone())
    }
}

impl Codec for Relay {
    open spec fn tree(v: RelayV) -> CborV {
        match v {
            RelayV::SingleHostAddr(x) => SingleHostAddr::tree(x),
            RelayV::SingleHostName(x) => SingleHostName::tree(x),
            RelayV::MultiHostName(x) => MultiHostName::tree(x),
        }
    }

    open spec fn of_tree(t: CborV) -> Option<RelayV> {
        match index_of(t) {
            Some(k) => if k == 0 {
                match SingleHostAddr::of_tree(t) {
                    Some(x) => Some(RelayV::SingleHostAddr(x)),
                    None => None,
                }
            } else if k == 1 {
                match SingleHostName::of_tree(t) {
                    Some(x) => Some(RelayV::SingleHostName(x)),
                    None => None,
                }
            } else if k == 2 {
                match MultiHostName::of_tree(t) {
                    Some(x) => Some(RelayV::MultiHostName(x)),
                    None => None,
                }
            } else {
                None
            },
            None => None,
        }
    }

    open spec fn valid(v: RelayV) -> bool {
        match v {
            RelayV::SingleHostAddr(x) => SingleHostAddr::valid(x),
            RelayV::SingleHostName(x) => SingleHostName::valid(x),
            RelayV::MultiHostName(x) => MultiHostName::valid(x),
        }
    }

    proof fn lemma_tree_round_trip(v: RelayV) {
        match v {
            RelayV::SingleHostAddr(x) => SingleHostAddr::lemma_tree_round_trip(x),
            RelayV::SingleHostName(x) => SingleHostName::lemma_tree_round_trip(x),
            RelayV::MultiHostName(x) => MultiHostName::lemma_tree_round_trip(x),
        }
    }

    proof fn lemma_read_exact(t: CborV) {
        let k = index_of(t)->0;
        if k == 0 {
            SingleHostAddr::lemma_read_exact(t);
        } else if k == 1 {
            SingleHostName::lemma_read_exact(t);
        } else {
            MultiHostName::lemma_read_exact(t);
        }
    }

    fn dup(&self) -> (r: Self) {
        self.clone()
    }

    fn to_item(&self) -> (r: Cbor) {
        match self {
            Relay::SingleHostAddr(x) => x.to_item(),
            Relay::SingleHostName(x) => x.to_item(),
            Relay::MultiHostName(x) => x.to_item(),
        }
    }

    fn from_item(item: &Cbor) -> (r: Option<Relay>) {
        match read_index(item) {
            Some(k) => if k == 0 {
                match SingleHostAddr::from_item(item) {
                    Some(x) => Some(Relay::SingleHostAddr(x)),
                    None => None,
                }
            } else if k == 1 {
                match SingleHostName::from_item(item) {
                    Some(x) => Some(Relay::SingleHostName(x)),
                    None => None,
                }
            } else if k == 2 {
                match MultiHostName::from_item(item) {
                    Some(x) => Some(Relay::MultiHostName(x)),
                    None => None,
                }
            } else {
                None
            },
            None => None,
        }
    }
}

/// The relays of a pool, in the order given.
#[derive(Debug, PartialEq, Eq)]
pub struct Relays {
    pub relays: Vec<Relay>,
}

impl View for Relays {
    type V = Seq<RelayV>;

    open spec fn view(&self) -> Seq<RelayV> {
        views(self.relays@)
    }
}

impl Clone for Relays {
    fn clone(&self) -> (r: Self)
        ensures
            r@ == self@,
    {
        let mut out: Vec<Relay> = Vec::new();
        let mut i: usize = 0;
        while i < self.relays.len()
            invariant
                i <= self.relays.len(),
                out.len() == i,
                forall|j: int| 0 <= j < i ==> out@[j]@ == self.relays@[j]@,
            decreases self.relays.len() - i,
        {
            out.push(self.relays[i].clone());
            i += 1;
        }
        assert(views(out@) =~= views(self.relays@));
        Relays { relays: out }
    }
}

impl Relays {
    pub fn new() -> (r: Relays)
        ensures
            r@ == Seq::<RelayV>::empty(),
    {
        let r = Relays { relays: Vec::new() };
        assert(r@ =~= Seq::<RelayV>::empty());
        r
    }

    pub fn len(&self) -> (n: usize)
        ensures
            n == self@.len(),
    {
        self.relays.len()
    }

    pub fn add(&mut self, relay: &Relay)
        ensures
            final(self)@ == old(self)@.push(relay@),
    {
        self.relays.push(relay.clone());
        assert(self@ =~= old(self)@.push(relay@));
    }
}

impl Codec for Relays {
    open spec fn tree(v: Seq<RelayV>) -> CborV {
        CborV::Array(trees::<Relay>(v))
    }

    open spec fn of_tree(t: CborV) -> Option<Seq<RelayV>> {
        match elems_of(t) {
            Some(e) => of_trees::<Relay>(e),
            None => None,
        }
    }

    open spec fn valid(v: Seq<RelayV>) -> bool {
        all_valid::<Relay>(v) && v.len() <= u64::MAX
    }

    proof fn lemma_tree_round_trip(v: Seq<RelayV>) {
        lemma_trees_round_trip::<Relay>(v);
    }

    proof fn lemma_read_exact(t: CborV) {
        crate::codec::lemma_trees_read_exact::<Relay>(t->Array_0);
    }

    fn dup(&self) -> (r: Self) {
        self.clone()
    }

    fn to_item(&self) -> (r: Cbor) {
        array_item(items_of(&self.relays))
    }

    fn from_item(item: &Cbor) -> (r: Option<Relays>) {
        match read_elems(item) {
            Some(e) => match values_of::<Relay>(e) {
                Some(relays) => Some(Relays { relays }),
                None => None,
            },
            None => None,
        }
    }
}

pub type Ed25519KeyHashes = TaggedSet<Ed25519KeyHash>;

/// The two networks and their numbers.
#[derive(Clone, Copy, Debug, PartialEq, Eq)]
pub struct NetworkInfo {
    pub network_id: u8,
    pub protocol_magic: u32,
}

impl NetworkInfo {
    pub fn new(network_id: u8, protocol_magic: u32) -> (r: NetworkInfo)
        ensures
            r == (NetworkInfo { network_id, protocol_magic }),
    {
        NetworkInfo { network_id, protocol_magic }
    }

    pub fn network_id(&self) -> (r: u8)
        ensures
            r == self.network_id,
    {
        self.network_id
    }

    pub fn protocol_magic(&self) -> (r: u32)
        ensures
            r == self.protocol_magic,
    {
        self.protocol_magic
    }

    pub fn testnet() -> (r: NetworkInfo)
        ensures
            r == (NetworkInfo { network_id: 0, protocol_magic: 1097911063 }),
    {
        NetworkInfo { network_id: 0, protocol_magic: 1097911063 }
    }

    pub fn mainnet() -> (r: NetworkInfo)
        ensures
            r == (NetworkInfo { network_id: 1, protocol_magic: 764824073 }),
    {
        NetworkInfo { network_id: 1, protocol_magic: 764824073 }
    }
}

/// Where rewards are paid: a network and the credential that may withdraw.
#[derive(Clone, Copy, Debug, PartialEq, Eq)]
pub struct RewardAddress {
    pub network: u8,
    pub payment: Credential,
}

impl View for RewardAddress {
    type V = RewardAddress;

    open spec fn view(&self) -> RewardAddress {
        *self
    }
}

/// The first byte of a reward address: 0xe0 for a key, 0xf0 for a script,
/// with the network in the low half.
pub open spec fn reward_header(v: RewardAddress) -> u8 {
    match v.payment {
        Credential::Key(_) => (0xe0 + v.network % 16) as u8,
        Credential::Script(_) => (0xf0 + v.network % 16) as u8,
    }
}

/// The 29 bytes of a reward address.
pub open spec fn reward_bytes(v: RewardAddress) -> Seq<u8> {
    let hash = match v.payment {
        Credential::Key(h) => h,
        Credential::Script(h) => h,
    };
    seq![reward_header(v)] + hash.bytes@
}

/// The reward address that 29 bytes spell.
pub open spec fn reward_of_bytes(b: Seq<u8>) -> Option<RewardAddress> {
    if b.len() == 29 && b[0] / 16 == 14 {
        Some(
            RewardAddress {
                network: b[0] % 16,
                payment: Credential::Key(
                    FixedBytes { bytes: crate::codec::array_with::<28>(b.subrange(1, 29)) },
                ),
            },
        )
    } else if b.len() == 29 && b[0] / 16 == 15 {
        Some(
            RewardAddress {
                network: b[0] % 16,
                payment: Credential::Script(
                    FixedBytes { bytes: crate::codec::array_with::<28>(b.subrange(1, 29)) },
                ),
            },
        )
    } else {
        None
    }
}

impl RewardAddress {
    pub fn new(network: u8, payment: &Credential) -> (r: RewardAddress)
        ensures
            r == (RewardAddress { network, payment: *payment }),
    {
        RewardAddress { network, payment: *payment }
    }

    /// The header byte and the 28 bytes of the credential's hash.
    pub fn to_address_bytes(&self) -> (r: Vec<u8>)
        ensures
            r@ == reward_bytes(*self),
    {
        let mut out: Vec<u8> = Vec::new();
        let hash = match self.payment {
            Credential::Key(h) => {
                out.push(0xe0 + self.network % 16);
                h
            },
            Credential::Script(h) => {
                out.push(0xf0 + self.network % 16);
                h
            },
        };
        out.extend_from_slice(hash.bytes.as_slice());
        assert(out@ =~= reward_bytes(*self));
        out
    }

    /// Reads the 29 bytes of a reward address.
    pub fn from_address_bytes(b: &[u8]) -> (r: Option<RewardAddress>)
        ensures
            r == reward_of_bytes(b@),
    {
        if b.len() != 29 {
            return None;
        }
        let kind = b[0] / 16;
        if kind != 14 && kind != 15 {
            return None;
        }
        let bytes: [u8; 28] = crate::crypto::array_from(b, 1);
        proof {
            crate::codec::lemma_array_with(bytes);
        }
        let hash = FixedBytes { bytes };
        if kind == 14 {
            Some(RewardAddress { network: b[0] % 16, payment: Credential::Key(hash) })
        } else {
            Some(RewardAddress { network: b[0] % 16, payment: Credential::Script(hash) })
        }
    }
}

impl Codec for RewardAddress {
    open spec fn tree(v: RewardAddress) -> CborV {
        CborV::Bytes(reward_bytes(v))
    }

    open spec fn of_tree(t: CborV) -> Option<RewardAddress> {
        match t {
            CborV::Bytes(b) => reward_of_bytes(b),
            _ => None,
        }
    }

    open spec fn valid(v: RewardAddress) -> bool {
        v.network < 16
    }

    proof fn lemma_tree_round_trip(v: RewardAddress) {
        let b = reward_bytes(v);
        let hash = match v.payment {
            Credential::Key(h) => h,
            Credential::Script(h) => h,
        };
        assert(b.subrange(1, 29) =~= hash.bytes@);
        crate::codec::lemma_array_with(hash.bytes);
    }

    proof fn lemma_read_exact(t: CborV) {
        let b = t->Bytes_0;
        let v = reward_of_bytes(b)->0;
        crate::codec::lemma_array_of::<28>(b.subrange(1, 29));
        assert(reward_bytes(v) =~= b);
    }

    fn dup(&self) -> (r: Self) {
        self.clone()
    }

    fn to_item(&self) -> (r: Cbor) {
        Cbor::Bytes(self.to_address_bytes())
    }

    fn from_item(item: &Cbor) -> (r: Option<RewardAddress>) {
        match item {
            Cbor::Bytes(b) => Self::from_address_bytes(b.as_slice()),
            _ => None,
        }
    }
}


/// What a pool registers: its keys, its terms, its owners and where to reach
/// it. Its item is the registration certificate that carries it.
#[derive(Debug, PartialEq, Eq)]
pub struct PoolParams {
    pub operator: Ed25519KeyHash,
    pub vrf_keyhash: VRFKeyHash,
    pub pledge: Coin,
    pub cost: Coin,
    pub margin: UnitInterval,
    pub reward_account: RewardAddress,
    pub pool_owners: Ed25519KeyHashes,
    pub relays: Relays,
    pub pool_metadata: Option<PoolMetadata>,
}

/// What a `PoolParams` holds.
pub struct PoolParamsV {
    pub operator: Ed25519KeyHash,
    pub vrf_keyhash: VRFKeyHash,
    pub pledge: Coin,
    pub cost: Coin,
    pub margin: UnitInterval,
    pub reward_account: RewardAddress,
    pub pool_owners: SetV<Hash28>,
    pub relays: Seq<RelayV>,
    pub pool_metadata: Option<AnchorV>,
}

impl View for PoolParams {
    type V = PoolParamsV;

    open spec fn view(&self) -> PoolParamsV {
        PoolParamsV {
            operator: self.operator,
            vrf_keyhash: self.vrf_keyhash,
            pledge: self.pledge,
            cost: self.cost,
            margin: self.margin,
            reward_account: self.reward_account,
            pool_owners: self.pool_owners@,
            relays: self.relays@,
            pool_metadata: opt_view(self.pool_metadata),
        }
    }
}

impl Clone for PoolParams {
    fn clone(&self) -> (r: Self)
        ensures
            r@ == self@,
    {
        PoolParams {
            operator: self.operator,
            vrf_keyhash: self.vrf_keyhash,
            pledge: self.pledge,
            cost: self.cost,
            margin: self.margin,
            reward_account: self.reward_account,
            pool_owners: self.pool_owners.dup(),
            relays: self.relays.dup(),
            pool_metadata: match &self.pool_metadata {
                Some(a) => Some(a.dup()),
                None => None,
            },
        }
    }
}

impl PoolParams {
    pub fn new(
        operator: &Ed25519KeyHash,
        vrf_keyhash: &VRFKeyHash,
        pledge: &Coin,
        cost: &Coin,
        margin: &UnitInterval,
        reward_account: &RewardAddress,
        pool_owners: &Ed25519KeyHashes,
        relays: &Relays,
        pool_metadata: Option<PoolMetadata>,
    ) -> (r: Self)
        ensures
            r@ == (PoolParamsV {
                operator: *operator,
                vrf_keyhash: *vrf_keyhash,
                pledge: *pledge,
                cost: *cost,
                margin: *margin,
                reward_account: *reward_account,
                pool_owners: pool_owners@,
                relays: relays@,
                pool_metadata: opt_view(pool_metadata),
            }),
    {
        PoolParams {
            operator: *operator,
            vrf_keyhash: *vrf_keyhash,
            pledge: *pledge,
            cost: *cost,
            margin: *margin,
            reward_account: *reward_account,
            pool_owners: pool_owners.dup(),
            relays: relays.dup(),
            pool_metadata: pool_metadata,
        }
    }
}

impl Codec for PoolParams {
    open spec fn tree(v: PoolParamsV) -> CborV {
        CborV::Array(
            seq![
                CborV::Uint(3),
                Hash28::tree(v.operator),
                Hash32::tree(v.vrf_keyhash),
                BigNum::tree(v.pledge),
                BigNum::tree(v.cost),
                UnitInterval::tree(v.margin),
                RewardAddress::tree(v.reward_account),
                Ed25519KeyHashes::tree(v.pool_owners),
                Relays::tree(v.relays),
                opt_tree::<Anchor>(v.pool_metadata),
            ],
        )
    }

    open spec fn of_tree(t: CborV) -> Option<PoolParamsV> {
        match record_of(t, 3, 10) {
            Some(e) => match (
                Hash28::of_tree(e[1]),
                Hash32::of_tree(e[2]),
                BigNum::of_tree(e[3]),
                BigNum::of_tree(e[4]),
                UnitInterval::of_tree(e[5]),
                RewardAddress::of_tree(e[6]),
                Ed25519KeyHashes::of_tree(e[7]),
                Relays::of_tree(e[8]),
                opt_of_tree::<Anchor>(e[9]),
            ) {
                (
                    Some(operator),
                    Some(vrf_keyhash),
                    Some(pledge),
                    Some(cost),
                    Some(margin),
                    Some(reward_account),
                    Some(pool_owners),
                    Some(relays),
                    Some(pool_metadata),
                ) => Some(
                    PoolParamsV {
                        operator,
                        vrf_keyhash,
                        pledge,
                        cost,
                        margin,
                        reward_account,
                        pool_owners,
                        relays,
                        pool_metadata,
                    },
                ),
                _ => None,
            },
            None => None,
        }
    }

    open spec fn valid(v: PoolParamsV) -> bool {
        &&& RewardAddress::valid(v.reward_account)
        &&& Ed25519KeyHashes::valid(v.pool_owners)
        &&& Relays::valid(v.relays)
        &&& (v.pool_metadata matches Some(a) ==> Anchor::valid(a))
    }

    proof fn lemma_tree_round_trip(v: PoolParamsV) {
        Hash28::lemma_tree_round_trip(v.operator);
        Hash32::lemma_tree_round_trip(v.vrf_keyhash);
        BigNum::lemma_tree_round_trip(v.pledge);
        BigNum::lemma_tree_round_trip(v.cost);
        UnitInterval::lemma_tree_round_trip(v.margin);
        RewardAddress::lemma_tree_round_trip(v.reward_account);
        Ed25519KeyHashes::lemma_tree_round_trip(v.pool_owners);
        Relays::lemma_tree_round_trip(v.relays);
        if let Some(a) = v.pool_metadata {
            Anchor::lemma_tree_round_trip(a);
        }
        lemma_wf_short(Self::tree(v)->Array_0);
    }

    proof fn lemma_read_exact(t: CborV) {
        let e = t->Array_0;
        assert(wf(e[0]));
        assert(wf(e[1]));
        Hash28::lemma_read_exact(e[1]);
        assert(wf(e[2]));
        Hash32::lemma_read_exact(e[2]);
        assert(wf(e[3]));
        BigNum::lemma_read_exact(e[3]);
        assert(wf(e[4]));
        BigNum::lemma_read_exact(e[4]);
        assert(wf(e[5]));
        UnitInterval::lemma_read_exact(e[5]);
        assert(wf(e[6]));
        RewardAddress::lemma_read_exact(e[6]);
        assert(wf(e[7]));
        Ed25519KeyHashes::lemma_read_exact(e[7]);
        assert(wf(e[8]));
        Relays::lemma_read_exact(e[8]);
        assert(wf(e[9]));
        if e[9] != null() {
            Anchor::lemma_read_exact(e[9]);
        }
        assert(Self::tree(Self::of_tree(t)->0)->Array_0 =~= e);
    }

    fn dup(&self) -> (r: Self) {
        self.clone()
    }

    fn to_item(&self) -> (r: Cbor) {
        let mut v: Vec<Cbor> = Vec::new();
        v.push(Cbor::Uint(3));
        v.push(self.operator.to_item());
        v.push(self.vrf_keyhash.to_item());
        v.push(self.pledge.to_item());
        v.push(self.cost.to_item());
        v.push(self.margin.to_item());
        v.push(self.reward_account.to_item());
        v.push(self.pool_owners.to_item());
        v.push(self.relays.to_item());
        v.push(opt_to_item(&self.pool_metadata));
        proof {
            assert(item_views(v@) =~= Self::tree(self@)->Array_0);
        }
        array_item(v)
    }

    fn from_item(item: &Cbor) -> (r: Option<PoolParams>) {
        let e = match read_record(item, 3, 10) {
            Some(e) => e,
            None => {
                return None;
            },
        };
        match (
            Hash28::from_item(&e[1]),
            Hash32::from_item(&e[2]),
            BigNum::from_item(&e[3]),
            BigNum::from_item(&e[4]),
            UnitInterval::from_item(&e[5]),
            RewardAddress::from_item(&e[6]),
            Ed25519KeyHashes::from_item(&e[7]),
            Relays::from_item(&e[8]),
            opt_from_item::<Anchor>(&e[9]),
        ) {
            (
                Some(operator),
                Some(vrf_keyhash),
                Some(pledge),
                Some(cost),
                Some(margin),
                Some(reward_account),
                Some(pool_owners),
                Some(relays),
                Some(pool_metadata),
            ) => Some(
                PoolParams {
                    operator,
                    vrf_keyhash,
                    pledge,
                    cost,
                    margin,
                    reward_account,
                    pool_owners,
                    relays,
                    pool_metadata,
                },
            ),
            _ => None,
        }
    }
}

/// Registers a pool, or changes what it registered.
#[derive(Debug, PartialEq, Eq)]
pub struct PoolRegistration {
    pub pool_params: PoolParams,
}

impl View for PoolRegistration {
    type V = PoolParamsV;

    open spec fn view(&self) -> PoolParamsV {
        self.pool_params@
    }
}

impl Clone for PoolRegistration {
    fn clone(&self) -> (r: Self)
        ensures
            r@ == self@,
    {
        PoolRegistration { pool_params: self.pool_params.clone() }
    }
}

impl PoolRegistration {
    pub fn new(pool_params: &PoolParams) -> (r: PoolRegistration)
        ensures
            r@ == pool_params@,
    {
        PoolRegistration { pool_params: pool_params.clone() }
    }

    pub fn pool_params(&self) -> (r: PoolParams)
        ensures
            r@ == self@,
    {
        self.pool_params.clone()
    }
}

impl Codec for PoolRegistration {
    open spec fn tree(v: PoolParamsV) -> CborV {
        PoolParams::tree(v)
    }

    open spec fn of_tree(t: CborV) -> Option<PoolParamsV> {
        PoolParams::of_tree(t)
    }

    open spec fn valid(v: PoolParamsV) -> bool {
        PoolParams::valid(v)
    }

    proof fn lemma_tree_round_trip(v: PoolParamsV) {
        PoolParams::lemma_tree_round_trip(v);
    }

    proof fn lemma_read_exact(t: CborV) {
        PoolParams::lemma_read_exact(t);
    }

    fn dup(&self) -> (r: Self) {
        self.clone()
    }

    fn to_item(&self) -> (r: Cbor) {
        self.pool_params.to_item()
    }

    fn from_item(item: &Cbor) -> (r: Option<PoolRegistration>) {
        match PoolParams::from_item(item) {
            Some(pool_params) => Some(PoolRegistration { pool_params }),
            None => None,
        }
    }
}

} // verus!

