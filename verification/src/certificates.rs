//! The certificates that a transaction may carry: one record type each, and
//! their union.

use crate::cbor::encode::encode;
use crate::cbor::item::{item_views, lemma_view_of_lists, pair_views, Cbor, CborV};
use crate::cbor::laws::{lemma_wf_short, wf};
use crate::codec::{
    array_item, elems_of, index_of, law_bytes_round_trip, law_text_round_trip, null, of_bytes,
    of_text, opt_from_item, opt_of_tree, opt_to_item, opt_tree, opt_view, read_elems, read_index,
    read_record, record_of, uint_of, Codec, TaggedSet,
};
use crate::pool::{PoolParamsV, PoolRegistration};
use crate::primitives::{
    Anchor, AnchorV, BigNum, Coin, Credential, DRep, DeltaCoin, Ed25519KeyHash, Epoch,
    GenesisDelegateHash, GenesisHash, Hash28, Hash32, Int, VRFKeyHash,
};
use crate::text::grammar::render;
use vstd::prelude::*;

verus! {

/// Registers a stake credential, with the deposit named or not.
#[derive(Clone, Copy, Debug, PartialEq, Eq)]
pub struct StakeRegistration {
    pub stake_credential: Credential,
    pub coin: Option<Coin>,
}

impl View for StakeRegistration {
    type V = StakeRegistration;

    open spec fn view(&self) -> StakeRegistration {
        *self
    }
}

impl StakeRegistration {
    pub fn new(stake_credential: &Credential) -> (r: Self)
        ensures
            r == (StakeRegistration { stake_credential: *stake_credential, coin: None }),
    {
        StakeRegistration { stake_credential: *stake_credential, coin: None }
    }

    pub fn new_with_coin(stake_credential: &Credential, coin: &Coin) -> (r: Self)
        ensures
            r == (StakeRegistration { stake_credential: *stake_credential, coin: Some(*coin) }),
    {
        StakeRegistration { stake_credential: *stake_credential, coin: Some(*coin) }
    }
}

impl Codec for StakeRegistration {
    open spec fn tree(v: StakeRegistration) -> CborV {
        match v.coin {
            None => CborV::Array(seq![CborV::Uint(0), Credential::tree(v.stake_credential)]),
            Some(c) => CborV::Array(
                seq![CborV::Uint(7), Credential::tree(v.stake_credential), BigNum::tree(c)],
            ),
        }
    }

    open spec fn of_tree(t: CborV) -> Option<StakeRegistration> {
        match record_of(t, 0, 2) {
            Some(e) => match Credential::of_tree(e[1]) {
                Some(stake_credential) => Some(
                    StakeRegistration { stake_credential, coin: None },
                ),
                None => None,
            },
            None => match record_of(t, 7, 3) {
                Some(e) => match (Credential::of_tree(e[1]), BigNum::of_tree(e[2])) {
                    (Some(stake_credential), Some(c)) => Some(
                        StakeRegistration { stake_credential, coin: Some(c) },
                    ),
                    _ => None,
                },
                None => None,
            },
        }
    }

    open spec fn valid(v: StakeRegistration) -> bool {
        true
    }

    proof fn lemma_tree_round_trip(v: StakeRegistration) {
        Credential::lemma_tree_round_trip(v.stake_credential);
        lemma_wf_short(Self::tree(v)->Array_0);
    }

    proof fn lemma_read_exact(t: CborV) {
        let e = t->Array_0;
        assert(wf(e[1]));
        Credential::lemma_read_exact(e[1]);
        if e.len() == 3 {
            assert(wf(e[2]));
        }
        assert(Self::tree(Self::of_tree(t)->0)->Array_0 =~= e);
    }

    fn dup(&self) -> (r: Self) {
        *self
    }

    fn to_item(&self) -> (r: Cbor) {
        let mut v: Vec<Cbor> = Vec::new();
        match self.coin {
            None => {
                v.push(Cbor::Uint(0));
                v.push(self.stake_credential.to_item());
            },
            Some(c) => {
                v.push(Cbor::Uint(7));
                v.push(self.stake_credential.to_item());
                v.push(c.to_item());
            },
        }
        proof {
            assert(item_views(v@) =~= Self::tree(self@)->Array_0);
        }
        array_item(v)
    }

    fn from_item(item: &Cbor) -> (r: Option<StakeRegistration>) {
        match read_record(item, 0, 2) {
            Some(e) => match Credential::from_item(&e[1]) {
                Some(stake_credential) => Some(
                    StakeRegistration { stake_credential, coin: None },
                ),
                None => None,
            },
            None => match read_record(item, 7, 3) {
                Some(e) => match (Credential::from_item(&e[1]), BigNum::from_item(&e[2])) {
                    (Some(stake_credential), Some(c)) => Some(
                        StakeRegistration { stake_credential, coin: Some(c) },
                    ),
                    _ => None,
                },
                None => None,
            },
        }
    }
}

/// Retires a stake credential, with the refund named or not.
#[derive(Clone, Copy, Debug, PartialEq, Eq)]
pub struct StakeDeregistration {
    pub stake_credential: Credential,
    pub coin: Option<Coin>,
}

impl View for StakeDeregistration {
    type V = StakeDeregistration;

    open spec fn view(&self) -> StakeDeregistration {
        *self
    }
}

impl StakeDeregistration {
    pub fn new(stake_credential: &Credential) -> (r: Self)
        ensures
            r == (StakeDeregistration { stake_credential: *stake_credential, coin: None }),
    {
        StakeDeregistration { stake_credential: *stake_credential, coin: None }
    }

    pub fn new_with_coin(stake_credential: &Credential, coin: &Coin) -> (r: Self)
        ensures
            r == (StakeDeregistration { stake_credential: *stake_credential, coin: Some(*coin) }),
    {
        StakeDeregistration { stake_credential: *stake_credential, coin: Some(*coin) }
    }
}

impl Codec for StakeDeregistration {
    open spec fn tree(v: StakeDeregistration) -> CborV {
        match v.coin {
            None => CborV::Array(seq![CborV::Uint(1), Credential::tree(v.stake_credential)]),
            Some(c) => CborV::Array(
                seq![CborV::Uint(8), Credential::tree(v.stake_credential), BigNum::tree(c)],
            ),
        }
    }

    open spec fn of_tree(t: CborV) -> Option<StakeDeregistration> {
        match record_of(t, 1, 2) {
            Some(e) => match Credential::of_tree(e[1]) {
                Some(stake_credential) => Some(
                    StakeDeregistration { stake_credential, coin: None },
                ),
                None => None,
            },
            None => match record_of(t, 8, 3) {
                Some(e) => match (Credential::of_tree(e[1]), BigNum::of_tree(e[2])) {
                    (Some(stake_credential), Some(c)) => Some(
                        StakeDeregistration { stake_credential, coin: Some(c) },
                    ),
                    _ => None,
                },
                None => None,
            },
        }
    }

    open spec fn valid(v: StakeDeregistration) -> bool {
        true
    }

    proof fn lemma_tree_round_trip(v: StakeDeregistration) {
        Credential::lemma_tree_round_trip(v.stake_credential);
        lemma_wf_short(Self::tree(v)->Array_0);
    }

    proof fn lemma_read_exact(t: CborV) {
        let e = t->Array_0;
        assert(wf(e[1]));
        Credential::lemma_read_exact(e[1]);
        if e.len() == 3 {
            assert(wf(e[2]));
        }
        assert(Self::tree(Self::of_tree(t)->0)->Array_0 =~= e);
    }

    fn dup(&self) -> (r: Self) {
        *self
    }

    fn to_item(&self) -> (r: Cbor) {
        let mut v: Vec<Cbor> = Vec::new();
        match self.coin {
            None => {
                v.push(Cbor::Uint(1));
                v.push(self.stake_credential.to_item());
            },
            Some(c) => {
                v.push(Cbor::Uint(8));
                v.push(self.stake_credential.to_item());
                v.push(c.to_item());
            },
        }
        proof {
            assert(item_views(v@) =~= Self::tree(self@)->Array_0);
        }
        array_item(v)
    }

    fn from_item(item: &Cbor) -> (r: Option<StakeDeregistration>) {
        match read_record(item, 1, 2) {
            Some(e) => match Credential::from_item(&e[1]) {
                Some(stake_credential) => Some(
                    StakeDeregistration { stake_credential, coin: None },
                ),
                None => None,
            },
            None => match read_record(item, 8, 3) {
                Some(e) => match (Credential::from_item(&e[1]), BigNum::from_item(&e[2])) {
                    (Some(stake_credential), Some(c)) => Some(
                        StakeDeregistration { stake_credential, coin: Some(c) },
                    ),
                    _ => None,
                },
                None => None,
            },
        }
    }
}

/// Hands the stake of a credential to a pool.
#[derive(Clone, Copy, Debug, PartialEq, Eq)]
pub struct StakeDelegation {
    pub stake_credential: Credential,
    pub pool_keyhash: Ed25519KeyHash,
}

impl View for StakeDelegation {
    type V = StakeDelegation;

    open spec fn view(&self) -> StakeDelegation {
        *self
    }
}

impl StakeDelegation {
    pub fn new(stake_credential: &Credential, pool_keyhash: &Ed25519KeyHash) -> (r: Self)
        ensures
            r@ == (StakeDelegation {
                stake_credential: *stake_credential,
                pool_keyhash: *pool_keyhash,
            }),
    {
        StakeDelegation {
            stake_credential: *stake_credential,
            pool_keyhash: *pool_keyhash,
        }
    }
}

impl Codec for StakeDelegation {
    open spec fn tree(v: StakeDelegation) -> CborV {
        CborV::Array(
            seq![
                CborV::Uint(2),
                Credential::tree(v.stake_credential),
                Hash28::tree(v.pool_keyhash),
            ],
        )
    }

    open spec fn of_tree(t: CborV) -> Option<StakeDelegation> {
        match record_of(t, 2, 3) {
            Some(e) => match (
                Credential::of_tree(e[1]),
                Hash28::of_tree(e[2]),
            ) {
                (
                    Some(stake_credential),
                    Some(pool_keyhash),
                ) => Some(
                    StakeDelegation {
                        stake_credential,
                        pool_keyhash,
                    },
                ),
                _ => None,
            },
            None => None,
        }
    }

    open spec fn valid(v: StakeDelegation) -> bool {
        true
    }

    proof fn lemma_tree_round_trip(v: StakeDelegation) {
        Credential::lemma_tree_round_trip(v.stake_credential);
        Hash28::lemma_tree_round_trip(v.pool_keyhash);
        lemma_wf_short(Self::tree(v)->Array_0);
    }

    proof fn lemma_read_exact(t: CborV) {
        let e = t->Array_0;
        assert(wf(e[0]));
        assert(wf(e[1]));
        Credential::lemma_read_exact(e[1]);
        assert(wf(e[2]));
        Hash28::lemma_read_exact(e[2]);
        assert(Self::tree(Self::of_tree(t)->0)->Array_0 =~= e);
    }

    fn dup(&self) -> (r: Self) {
        *self
    }

    fn to_item(&self) -> (r: Cbor) {
        let mut v: Vec<Cbor> = Vec::new();
        v.push(Cbor::Uint(2));
        v.push(self.stake_credential.to_item());
        v.push(self.pool_keyhash.to_item());
        proof {
            assert(item_views(v@) =~= Self::tree(self@)->Array_0);
        }
        array_item(v)
    }

    fn from_item(item: &Cbor) -> (r: Option<StakeDelegation>) {
        let e = match read_record(item, 2, 3) {
            Some(e) => e,
            None => {
                return None;
            },
        };
        match (
            Credential::from_item(&e[1]),
            Hash28::from_item(&e[2]),
        ) {
            (
                Some(stake_credential),
                Some(pool_keyhash),
            ) => Some(
                StakeDelegation {
                    stake_credential,
                    pool_keyhash,
                },
            ),
            _ => None,
        }
    }
}

/// Retires a pool at an epoch.
#[derive(Clone, Copy, Debug, PartialEq, Eq)]
pub struct PoolRetirement {
    pub pool_keyhash: Ed25519KeyHash,
    pub epoch: Epoch,
}

impl View for PoolRetirement {
    type V = PoolRetirement;

    open spec fn view(&self) -> PoolRetirement {
        *self
    }
}

impl PoolRetirement {
    pub fn new(pool_keyhash: &Ed25519KeyHash, epoch: Epoch) -> (r: Self)
        ensures
            r@ == (PoolRetirement {
                pool_keyhash: *pool_keyhash,
                epoch: epoch,
            }),
    {
        PoolRetirement {
            pool_keyhash: *pool_keyhash,
            epoch: epoch,
        }
    }
}

impl Codec for PoolRetirement {
    open spec fn tree(v: PoolRetirement) -> CborV {
        CborV::Array(
            seq![
                CborV::Uint(4),
                Hash28::tree(v.pool_keyhash),
                u32::tree(v.epoch),
            ],
        )
    }

    open spec fn of_tree(t: CborV) -> Option<PoolRetirement> {
        match record_of(t, 4, 3) {
            Some(e) => match (
                Hash28::of_tree(e[1]),
                u32::of_tree(e[2]),
            ) {
                (Some(pool_keyhash), Some(epoch)) => Some(PoolRetirement { pool_keyhash, epoch }),
                _ => None,
            },
            None => None,
        }
    }

    open spec fn valid(v: PoolRetirement) -> bool {
        true
    }

    proof fn lemma_tree_round_trip(v: PoolRetirement) {
        Hash28::lemma_tree_round_trip(v.pool_keyhash);
        u32::lemma_tree_round_trip(v.epoch);
        lemma_wf_short(Self::tree(v)->Array_0);
    }

    proof fn lemma_read_exact(t: CborV) {
        let e = t->Array_0;
        assert(wf(e[0]));
        assert(wf(e[1]));
        Hash28::lemma_read_exact(e[1]);
        assert(wf(e[2]));
        u32::lemma_read_exact(e[2]);
        assert(Self::tree(Self::of_tree(t)->0)->Array_0 =~= e);
    }

    fn dup(&self) -> (r: Self) {
        *self
    }

    fn to_item(&self) -> (r: Cbor) {
        let mut v: Vec<Cbor> = Vec::new();
        v.push(Cbor::Uint(4));
        v.push(self.pool_keyhash.to_item());
        v.push(self.epoch.to_item());
        proof {
            assert(item_views(v@) =~= Self::tree(self@)->Array_0);
        }
        array_item(v)
    }

    fn from_item(item: &Cbor) -> (r: Option<PoolRetirement>) {
        let e = match read_record(item, 4, 3) {
            Some(e) => e,
            None => {
                return None;
            },
        };
        match (
            Hash28::from_item(&e[1]),
            u32::from_item(&e[2]),
        ) {
            (Some(pool_keyhash), Some(epoch)) => Some(PoolRetirement { pool_keyhash, epoch }),
            _ => None,
        }
    }
}

/// Delegates a genesis key.
#[derive(Clone, Copy, Debug, PartialEq, Eq)]
pub struct GenesisKeyDelegation {
    pub genesishash: GenesisHash,
    pub genesis_delegate_hash: GenesisDelegateHash,
    pub vrf_keyhash: VRFKeyHash,
}

impl View for GenesisKeyDelegation {
    type V = GenesisKeyDelegation;

    open spec fn view(&self) -> GenesisKeyDelegation {
        *self
    }
}

impl GenesisKeyDelegation {
    pub fn new(
        genesishash: &GenesisHash,
        genesis_delegate_hash: &GenesisDelegateHash,
        vrf_keyhash: &VRFKeyHash,
    ) -> (r: Self)
        ensures
            r@ == (GenesisKeyDelegation {
                genesishash: *genesishash,
                genesis_delegate_hash: *genesis_delegate_hash,
                vrf_keyhash: *vrf_keyhash,
            }),
    {
        GenesisKeyDelegation {
            genesishash: *genesishash,
            genesis_delegate_hash: *genesis_delegate_hash,
            vrf_keyhash: *vrf_keyhash,
        }
    }
}

impl Codec for GenesisKeyDelegation {
    open spec fn tree(v: GenesisKeyDelegation) -> CborV {
        CborV::Array(
            seq![
                CborV::Uint(5),
                Hash28::tree(v.genesishash),
                Hash28::tree(v.genesis_delegate_hash),
                Hash32::tree(v.vrf_keyhash),
            ],
        )
    }

    open spec fn of_tree(t: CborV) -> Option<GenesisKeyDelegation> {
        match record_of(t, 5, 4) {
            Some(e) => match (
                Hash28::of_tree(e[1]),
                Hash28::of_tree(e[2]),
                Hash32::of_tree(e[3]),
            ) {
                (
                    Some(genesishash),
                    Some(genesis_delegate_hash),
                    Some(vrf_keyhash),
                ) => Some(
                    GenesisKeyDelegation {
                        genesishash,
                        genesis_delegate_hash,
                        vrf_keyhash,
                    },
                ),
                _ => None,
            },
            None => None,
        }
    }

    open spec fn valid(v: GenesisKeyDelegation) -> bool {
        true
    }

    proof fn lemma_tree_round_trip(v: GenesisKeyDelegation) {
        Hash28::lemma_tree_round_trip(v.genesishash);
        Hash28::lemma_tree_round_trip(v.genesis_delegate_hash);
        Hash32::lemma_tree_round_trip(v.vrf_keyhash);
        lemma_wf_short(Self::tree(v)->Array_0);
    }

    proof fn lemma_read_exact(t: CborV) {
        let e = t->Array_0;
        assert(wf(e[0]));
        assert(wf(e[1]));
        Hash28::lemma_read_exact(e[1]);
        assert(wf(e[2]));
        Hash28::lemma_read_exact(e[2]);
        assert(wf(e[3]));
        Hash32::lemma_read_exact(e[3]);
        assert(Self::tree(Self::of_tree(t)->0)->Array_0 =~= e);
    }

    fn dup(&self) -> (r: Self) {
        *self
    }

    fn to_item(&self) -> (r: Cbor) {
        let mut v: Vec<Cbor> = Vec::new();
        v.push(Cbor::Uint(5));
        v.push(self.genesishash.to_item());
        v.push(self.genesis_delegate_hash.to_item());
        v.push(self.vrf_keyhash.to_item());
        proof {
            assert(item_views(v@) =~= Self::tree(self@)->Array_0);
        }
        array_item(v)
    }

    fn from_item(item: &Cbor) -> (r: Option<GenesisKeyDelegation>) {
        let e = match read_record(item, 5, 4) {
            Some(e) => e,
            None => {
                return None;
            },
        };
        match (
            Hash28::from_item(&e[1]),
            Hash28::from_item(&e[2]),
            Hash32::from_item(&e[3]),
        ) {
            (
                Some(genesishash),
                Some(genesis_delegate_hash),
                Some(vrf_keyhash),
            ) => Some(
                GenesisKeyDelegation {
                    genesishash,
                    genesis_delegate_hash,
                    vrf_keyhash,
                },
            ),
            _ => None,
        }
    }
}

/// Hands the vote of a credential to a representative.
#[derive(Clone, Copy, Debug, PartialEq, Eq)]
pub struct VoteDelegation {
    pub stake_credential: Credential,
    pub drep: DRep,
}

impl View for VoteDelegation {
    type V = VoteDelegation;

    open spec fn view(&self) -> VoteDelegation {
        *self
    }
}

impl VoteDelegation {
    pub fn new(stake_credential: &Credential, drep: &DRep) -> (r: Self)
        ensures
            r@ == (VoteDelegation {
                stake_credential: *stake_credential,
                drep: *drep,
            }),
    {
        VoteDelegation {
            stake_credential: *stake_credential,
            drep: *drep,
        }
    }
}

impl Codec for VoteDelegation {
    open spec fn tree(v: VoteDelegation) -> CborV {
        CborV::Array(
            seq![
                CborV::Uint(9),
                Credential::tree(v.stake_credential),
                DRep::tree(v.drep),
            ],
        )
    }

    open spec fn of_tree(t: CborV) -> Option<VoteDelegation> {
        match record_of(t, 9, 3) {
            Some(e) => match (
                Credential::of_tree(e[1]),
                DRep::of_tree(e[2]),
            ) {
                (
                    Some(stake_credential),
                    Some(drep),
                ) => Some(
                    VoteDelegation {
                        stake_credential,
                        drep,
                    },
                ),
                _ => None,
            },
            None => None,
        }
    }

    open spec fn valid(v: VoteDelegation) -> bool {
        true
    }

    proof fn lemma_tree_round_trip(v: VoteDelegation) {
        Credential::lemma_tree_round_trip(v.stake_credential);
        DRep::lemma_tree_round_trip(v.drep);
        lemma_wf_short(Self::tree(v)->Array_0);
    }

    proof fn lemma_read_exact(t: CborV) {
        let e = t->Array_0;
        assert(wf(e[0]));
        assert(wf(e[1]));
        Credential::lemma_read_exact(e[1]);
        assert(wf(e[2]));
        DRep::lemma_read_exact(e[2]);
        assert(Self::tree(Self::of_tree(t)->0)->Array_0 =~= e);
    }

    fn dup(&self) -> (r: Self) {
        *self
    }

    fn to_item(&self) -> (r: Cbor) {
        let mut v: Vec<Cbor> = Vec::new();
        v.push(Cbor::Uint(9));
        v.push(self.stake_credential.to_item());
        v.push(self.drep.to_item());
        proof {
            assert(item_views(v@) =~= Self::tree(self@)->Array_0);
        }
        array_item(v)
    }

    fn from_item(item: &Cbor) -> (r: Option<VoteDelegation>) {
        let e = match read_record(item, 9, 3) {
            Some(e) => e,
            None => {
                return None;
            },
        };
        match (
            Credential::from_item(&e[1]),
            DRep::from_item(&e[2]),
        ) {
            (
                Some(stake_credential),
                Some(drep),
            ) => Some(
                VoteDelegation {
                    stake_credential,
                    drep,
                },
            ),
            _ => None,
        }
    }
}

/// Hands stake to a pool and vote to a representative.
#[derive(Clone, Copy, Debug, PartialEq, Eq)]
pub struct StakeAndVoteDelegation {
    pub stake_credential: Credential,
    pub pool_keyhash: Ed25519KeyHash,
    pub drep: DRep,
}

impl View for StakeAndVoteDelegation {
    type V = StakeAndVoteDelegation;

    open spec fn view(&self) -> StakeAndVoteDelegation {
        *self
    }
}

impl StakeAndVoteDelegation {
    pub fn new(
        stake_credential: &Credential,
        pool_keyhash: &Ed25519KeyHash,
        drep: &DRep,
    ) -> (r: Self)
        ensures
            r@ == (StakeAndVoteDelegation {
                stake_credential: *stake_credential,
                pool_keyhash: *pool_keyhash,
                drep: *drep,
            }),
    {
        StakeAndVoteDelegation {
            stake_credential: *stake_credential,
            pool_keyhash: *pool_keyhash,
            drep: *drep,
        }
    }
}

impl Codec for StakeAndVoteDelegation {
    open spec fn tree(v: StakeAndVoteDelegation) -> CborV {
        CborV::Array(
            seq![
                CborV::Uint(10),
                Credential::tree(v.stake_credential),
                Hash28::tree(v.pool_keyhash),
                DRep::tree(v.drep),
            ],
        )
    }

    open spec fn of_tree(t: CborV) -> Option<StakeAndVoteDelegation> {
        match record_of(t, 10, 4) {
            Some(e) => match (
                Credential::of_tree(e[1]),
                Hash28::of_tree(e[2]),
                DRep::of_tree(e[3]),
            ) {
                (
                    Some(stake_credential),
                    Some(pool_keyhash),
                    Some(drep),
                ) => Some(
                    StakeAndVoteDelegation {
                        stake_credential,
                        pool_keyhash,
                        drep,
                    },
                ),
                _ => None,
            },
            None => None,
        }
    }

    open spec fn valid(v: StakeAndVoteDelegation) -> bool {
        true
    }

    proof fn lemma_tree_round_trip(v: StakeAndVoteDelegation) {
        Credential::lemma_tree_round_trip(v.stake_credential);
        Hash28::lemma_tree_round_trip(v.pool_keyhash);
        DRep::lemma_tree_round_trip(v.drep);
        lemma_wf_short(Self::tree(v)->Array_0);
    }

    proof fn lemma_read_exact(t: CborV) {
        let e = t->Array_0;
        assert(wf(e[0]));
        assert(wf(e[1]));
        Credential::lemma_read_exact(e[1]);
        assert(wf(e[2]));
        Hash28::lemma_read_exact(e[2]);
        assert(wf(e[3]));
        DRep::lemma_read_exact(e[3]);
        assert(Self::tree(Self::of_tree(t)->0)->Array_0 =~= e);
    }

    fn dup(&self) -> (r: Self) {
        *self
    }

    fn to_item(&self) -> (r: Cbor) {
        let mut v: Vec<Cbor> = Vec::new();
        v.push(Cbor::Uint(10));
        v.push(self.stake_credential.to_item());
        v.push(self.pool_keyhash.to_item());
        v.push(self.drep.to_item());
        proof {
            assert(item_views(v@) =~= Self::tree(self@)->Array_0);
        }
        array_item(v)
    }

    fn from_item(item: &Cbor) -> (r: Option<StakeAndVoteDelegation>) {
        let e = match read_record(item, 10, 4) {
            Some(e) => e,
            None => {
                return None;
            },
        };
        match (
            Credential::from_item(&e[1]),
            Hash28::from_item(&e[2]),
            DRep::from_item(&e[3]),
        ) {
            (
                Some(stake_credential),
                Some(pool_keyhash),
                Some(drep),
            ) => Some(
                StakeAndVoteDelegation {
                    stake_credential,
                    pool_keyhash,
                    drep,
                },
            ),
            _ => None,
        }
    }
}

/// Registers a credential and hands its stake to a pool.
#[derive(Clone, Copy, Debug, PartialEq, Eq)]
pub struct StakeRegistrationAndDelegation {
    pub stake_credential: Credential,
    pub pool_keyhash: Ed25519KeyHash,
    pub coin: Coin,
}

impl View for StakeRegistrationAndDelegation {
    type V = StakeRegistrationAndDelegation;

    open spec fn view(&self) -> StakeRegistrationAndDelegation {
        *self
    }
}

impl StakeRegistrationAndDelegation {
    pub fn new(
        stake_credential: &Credential,
        pool_keyhash: &Ed25519KeyHash,
        coin: &Coin,
    ) -> (r: Self)
        ensures
            r@ == (StakeRegistrationAndDelegation {
                stake_credential: *stake_credential,
                pool_keyhash: *pool_keyhash,
                coin: *coin,
            }),
    {
        StakeRegistrationAndDelegation {
            stake_credential: *stake_credential,
            pool_keyhash: *pool_keyhash,
            coin: *coin,
        }
    }
}

impl Codec for StakeRegistrationAndDelegation {
    open spec fn tree(v: StakeRegistrationAndDelegation) -> CborV {
        CborV::Array(
            seq![
                CborV::Uint(11),
                Credential::tree(v.stake_credential),
                Hash28::tree(v.pool_keyhash),
                BigNum::tree(v.coin),
            ],
        )
    }

    open spec fn of_tree(t: CborV) -> Option<StakeRegistrationAndDelegation> {
        match record_of(t, 11, 4) {
            Some(e) => match (
                Credential::of_tree(e[1]),
                Hash28::of_tree(e[2]),
                BigNum::of_tree(e[3]),
            ) {
                (
                    Some(stake_credential),
                    Some(pool_keyhash),
                    Some(coin),
                ) => Some(
                    StakeRegistrationAndDelegation {
                        stake_credential,
                        pool_keyhash,
                        coin,
                    },
                ),
                _ => None,
            },
            None => None,
        }
    }

    open spec fn valid(v: StakeRegistrationAndDelegation) -> bool {
        true
    }

    proof fn lemma_tree_round_trip(v: StakeRegistrationAndDelegation) {
        Credential::lemma_tree_round_trip(v.stake_credential);
        Hash28::lemma_tree_round_trip(v.pool_keyhash);
        BigNum::lemma_tree_round_trip(v.coin);
        lemma_wf_short(Self::tree(v)->Array_0);
    }

    proof fn lemma_read_exact(t: CborV) {
        let e = t->Array_0;
        assert(wf(e[0]));
        assert(wf(e[1]));
        Credential::lemma_read_exact(e[1]);
        assert(wf(e[2]));
        Hash28::lemma_read_exact(e[2]);
        assert(wf(e[3]));
        BigNum::lemma_read_exact(e[3]);
        assert(Self::tree(Self::of_tree(t)->0)->Array_0 =~= e);
    }

    fn dup(&self) -> (r: Self) {
        *self
    }

    fn to_item(&self) -> (r: Cbor) {
        let mut v: Vec<Cbor> = Vec::new();
        v.push(Cbor::Uint(11));
        v.push(self.stake_credential.to_item());
        v.push(self.pool_keyhash.to_item());
        v.push(self.coin.to_item());
        proof {
            assert(item_views(v@) =~= Self::tree(self@)->Array_0);
        }
        array_item(v)
    }

    fn from_item(item: &Cbor) -> (r: Option<StakeRegistrationAndDelegation>) {
        let e = match read_record(item, 11, 4) {
            Some(e) => e,
            None => {
                return None;
            },
        };
        match (
            Credential::from_item(&e[1]),
            Hash28::from_item(&e[2]),
            BigNum::from_item(&e[3]),
        ) {
            (
                Some(stake_credential),
                Some(pool_keyhash),
                Some(coin),
            ) => Some(
                StakeRegistrationAndDelegation {
                    stake_credential,
                    pool_keyhash,
                    coin,
                },
            ),
            _ => None,
        }
    }
}

/// Registers a credential and hands its vote to a representative.
#[derive(Clone, Copy, Debug, PartialEq, Eq)]
pub struct VoteRegistrationAndDelegation {
    pub stake_credential: Credential,
    pub drep: DRep,
    pub coin: Coin,
}

impl View for VoteRegistrationAndDelegation {
    type V = VoteRegistrationAndDelegation;

    open spec fn view(&self) -> VoteRegistrationAndDelegation {
        *self
    }
}

impl VoteRegistrationAndDelegation {
    pub fn new(stake_credential: &Credential, drep: &DRep, coin: &Coin) -> (r: Self)
        ensures
            r@ == (VoteRegistrationAndDelegation {
                stake_credential: *stake_credential,
                drep: *drep,
                coin: *coin,
            }),
    {
        VoteRegistrationAndDelegation {
            stake_credential: *stake_credential,
            drep: *drep,
            coin: *coin,
        }
    }
}

impl Codec for VoteRegistrationAndDelegation {
    open spec fn tree(v: VoteRegistrationAndDelegation) -> CborV {
        CborV::Array(
            seq![
                CborV::Uint(12),
                Credential::tree(v.stake_credential),
                DRep::tree(v.drep),
                BigNum::tree(v.coin),
            ],
        )
    }

    open spec fn of_tree(t: CborV) -> Option<VoteRegistrationAndDelegation> {
        match record_of(t, 12, 4) {
            Some(e) => match (
                Credential::of_tree(e[1]),
                DRep::of_tree(e[2]),
                BigNum::of_tree(e[3]),
            ) {
                (
                    Some(stake_credential),
                    Some(drep),
                    Some(coin),
                ) => Some(
                    VoteRegistrationAndDelegation {
                        stake_credential,
                        drep,
                        coin,
                    },
                ),
                _ => None,
            },
            None => None,
        }
    }

    open spec fn valid(v: VoteRegistrationAndDelegation) -> bool {
        true
    }

    proof fn lemma_tree_round_trip(v: VoteRegistrationAndDelegation) {
        Credential::lemma_tree_round_trip(v.stake_credential);
        DRep::lemma_tree_round_trip(v.drep);
        BigNum::lemma_tree_round_trip(v.coin);
        lemma_wf_short(Self::tree(v)->Array_0);
    }

    proof fn lemma_read_exact(t: CborV) {
        let e = t->Array_0;
        assert(wf(e[0]));
        assert(wf(e[1]));
        Credential::lemma_read_exact(e[1]);
        assert(wf(e[2]));
        DRep::lemma_read_exact(e[2]);
        assert(wf(e[3]));
        BigNum::lemma_read_exact(e[3]);
        assert(Self::tree(Self::of_tree(t)->0)->Array_0 =~= e);
    }

    fn dup(&self) -> (r: Self) {
        *self
    }

    fn to_item(&self) -> (r: Cbor) {
        let mut v: Vec<Cbor> = Vec::new();
        v.push(Cbor::Uint(12));
        v.push(self.stake_credential.to_item());
        v.push(self.drep.to_item());
        v.push(self.coin.to_item());
        proof {
            assert(item_views(v@) =~= Self::tree(self@)->Array_0);
        }
        array_item(v)
    }

    fn from_item(item: &Cbor) -> (r: Option<VoteRegistrationAndDelegation>) {
        let e = match read_record(item, 12, 4) {
            Some(e) => e,
            None => {
                return None;
            },
        };
        match (
            Credential::from_item(&e[1]),
            DRep::from_item(&e[2]),
            BigNum::from_item(&e[3]),
        ) {
            (
                Some(stake_credential),
                Some(drep),
                Some(coin),
            ) => Some(
                VoteRegistrationAndDelegation {
                    stake_credential,
                    drep,
                    coin,
                },
            ),
            _ => None,
        }
    }
}

/// Registers a credential and hands stake to a pool and vote to a
/// representative.
#[derive(Clone, Copy, Debug, PartialEq, Eq)]
pub struct StakeVoteRegistrationAndDelegation {
    pub stake_credential: Credential,
    pub pool_keyhash: Ed25519KeyHash,
    pub drep: DRep,
    pub coin: Coin,
}

impl View for StakeVoteRegistrationAndDelegation {
    type V = StakeVoteRegistrationAndDelegation;

    open spec fn view(&self) -> StakeVoteRegistrationAndDelegation {
        *self
    }
}

impl StakeVoteRegistrationAndDelegation {
    pub fn new(
        stake_credential: &Credential,
        pool_keyhash: &Ed25519KeyHash,
        drep: &DRep,
        coin: &Coin,
    ) -> (r: Self)
        ensures
            r@ == (StakeVoteRegistrationAndDelegation {
                stake_credential: *stake_credential,
                pool_keyhash: *pool_keyhash,
                drep: *drep,
                coin: *coin,
            }),
    {
        StakeVoteRegistrationAndDelegation {
            stake_credential: *stake_credential,
            pool_keyhash: *pool_keyhash,
            drep: *drep,
            coin: *coin,
        }
    }
}

impl Codec for StakeVoteRegistrationAndDelegation {
    open spec fn tree(v: StakeVoteRegistrationAndDelegation) -> CborV {
        CborV::Array(
            seq![
                CborV::Uint(13),
                Credential::tree(v.stake_credential),
                Hash28::tree(v.pool_keyhash),
                DRep::tree(v.drep),
                BigNum::tree(v.coin),
            ],
        )
    }

    open spec fn of_tree(t: CborV) -> Option<StakeVoteRegistrationAndDelegation> {
        match record_of(t, 13, 5) {
            Some(e) => match (
                Credential::of_tree(e[1]),
                Hash28::of_tree(e[2]),
                DRep::of_tree(e[3]),
                BigNum::of_tree(e[4]),
            ) {
                (
                    Some(stake_credential),
                    Some(pool_keyhash),
                    Some(drep),
                    Some(coin),
                ) => Some(
                    StakeVoteRegistrationAndDelegation {
                        stake_credential,
                        pool_keyhash,
                        drep,
                        coin,
                    },
                ),
                _ => None,
            },
            None => None,
        }
    }

    open spec fn valid(v: StakeVoteRegistrationAndDelegation) -> bool {
        true
    }

    proof fn lemma_tree_round_trip(v: StakeVoteRegistrationAndDelegation) {
        Credential::lemma_tree_round_trip(v.stake_credential);
        Hash28::lemma_tree_round_trip(v.pool_keyhash);
        DRep::lemma_tree_round_trip(v.drep);
        BigNum::lemma_tree_round_trip(v.coin);
        lemma_wf_short(Self::tree(v)->Array_0);
    }

    proof fn lemma_read_exact(t: CborV) {
        let e = t->Array_0;
        assert(wf(e[0]));
        assert(wf(e[1]));
        Credential::lemma_read_exact(e[1]);
        assert(wf(e[2]));
        Hash28::lemma_read_exact(e[2]);
        assert(wf(e[3]));
        DRep::lemma_read_exact(e[3]);
        assert(wf(e[4]));
        BigNum::lemma_read_exact(e[4]);
        assert(Self::tree(Self::of_tree(t)->0)->Array_0 =~= e);
    }

    fn dup(&self) -> (r: Self) {
        *self
    }

    fn to_item(&self) -> (r: Cbor) {
        let mut v: Vec<Cbor> = Vec::new();
        v.push(Cbor::Uint(13));
        v.push(self.stake_credential.to_item());
        v.push(self.pool_keyhash.to_item());
        v.push(self.drep.to_item());
        v.push(self.coin.to_item());
        proof {
            assert(item_views(v@) =~= Self::tree(self@)->Array_0);
        }
        array_item(v)
    }

    fn from_item(item: &Cbor) -> (r: Option<StakeVoteRegistrationAndDelegation>) {
        let e = match read_record(item, 13, 5) {
            Some(e) => e,
            None => {
                return None;
            },
        };
        match (
            Credential::from_item(&e[1]),
            Hash28::from_item(&e[2]),
            DRep::from_item(&e[3]),
            BigNum::from_item(&e[4]),
        ) {
            (
                Some(stake_credential),
                Some(pool_keyhash),
                Some(drep),
                Some(coin),
            ) => Some(
                StakeVoteRegistrationAndDelegation {
                    stake_credential,
                    pool_keyhash,
                    drep,
                    coin,
                },
            ),
            _ => None,
        }
    }
}

/// Authorises a hot credential for a committee member.
#[derive(Clone, Copy, Debug, PartialEq, Eq)]
pub struct CommitteeHotAuth {
    pub committee_cold_credential: Credential,
    pub committee_hot_credential: Credential,
}

impl View for CommitteeHotAuth {
    type V = CommitteeHotAuth;

    open spec fn view(&self) -> CommitteeHotAuth {
        *self
    }
}

impl CommitteeHotAuth {
    pub fn new(
        committee_cold_credential: &Credential,
        committee_hot_credential: &Credential,
    ) -> (r: Self)
        ensures
            r@ == (CommitteeHotAuth {
                committee_cold_credential: *committee_cold_credential,
                committee_hot_credential: *committee_hot_credential,
            }),
    {
        CommitteeHotAuth {
            committee_cold_credential: *committee_cold_credential,
            committee_hot_credential: *committee_hot_credential,
        }
    }
}

impl Codec for CommitteeHotAuth {
    open spec fn tree(v: CommitteeHotAuth) -> CborV {
        CborV::Array(
            seq![
                CborV::Uint(14),
                Credential::tree(v.committee_cold_credential),
                Credential::tree(v.committee_hot_credential),
            ],
        )
    }

    open spec fn of_tree(t: CborV) -> Option<CommitteeHotAuth> {
        match record_of(t, 14, 3) {
            Some(e) => match (
                Credential::of_tree(e[1]),
                Credential::of_tree(e[2]),
            ) {
                (
                    Some(committee_cold_credential),
                    Some(committee_hot_credential),
                ) => Some(
                    CommitteeHotAuth {
                        committee_cold_credential,
                        committee_hot_credential,
                    },
                ),
                _ => None,
            },
            None => None,
        }
    }

    open spec fn valid(v: CommitteeHotAuth) -> bool {
        true
    }

    proof fn lemma_tree_round_trip(v: CommitteeHotAuth) {
        Credential::lemma_tree_round_trip(v.committee_cold_credential);
        Credential::lemma_tree_round_trip(v.committee_hot_credential);
        lemma_wf_short(Self::tree(v)->Array_0);
    }

    proof fn lemma_read_exact(t: CborV) {
        let e = t->Array_0;
        assert(wf(e[0]));
        assert(wf(e[1]));
        Credential::lemma_read_exact(e[1]);
        assert(wf(e[2]));
        Credential::lemma_read_exact(e[2]);
        assert(Self::tree(Self::of_tree(t)->0)->Array_0 =~= e);
    }

    fn dup(&self) -> (r: Self) {
        *self
    }

    fn to_item(&self) -> (r: Cbor) {
        let mut v: Vec<Cbor> = Vec::new();
        v.push(Cbor::Uint(14));
        v.push(self.committee_cold_credential.to_item());
        v.push(self.committee_hot_credential.to_item());
        proof {
            assert(item_views(v@) =~= Self::tree(self@)->Array_0);
        }
        array_item(v)
    }

    fn from_item(item: &Cbor) -> (r: Option<CommitteeHotAuth>) {
        let e = match read_record(item, 14, 3) {
            Some(e) => e,
            None => {
                return None;
            },
        };
        match (
            Credential::from_item(&e[1]),
            Credential::from_item(&e[2]),
        ) {
            (
                Some(committee_cold_credential),
                Some(committee_hot_credential),
            ) => Some(
                CommitteeHotAuth {
                    committee_cold_credential,
                    committee_hot_credential,
                },
            ),
            _ => None,
        }
    }
}

/// Resigns a committee member.
#[derive(Debug, PartialEq, Eq)]
pub struct CommitteeColdResign {
    pub committee_cold_credential: Credential,
    pub anchor: Option<Anchor>,
}

/// What a `CommitteeColdResign` holds.
pub struct CommitteeColdResignV {
    pub committee_cold_credential: Credential,
    pub anchor: Option<AnchorV>,
}

impl View for CommitteeColdResign {
    type V = CommitteeColdResignV;

    open spec fn view(&self) -> CommitteeColdResignV {
        CommitteeColdResignV {
            committee_cold_credential: self.committee_cold_credential,
            anchor: opt_view(self.anchor),
        }
    }
}

impl Clone for CommitteeColdResign {
    fn clone(&self) -> (r: Self)
        ensures
            r@ == self@,
    {
        CommitteeColdResign {
            committee_cold_credential: self.committee_cold_credential,
            anchor: match &self.anchor {
                Some(a) => Some(a.dup()),
                None => None,
            },
        }
    }
}

impl CommitteeColdResign {
    pub fn new(committee_cold_credential: &Credential) -> (r: Self)
        ensures
            r@ == (CommitteeColdResignV {
                committee_cold_credential: *committee_cold_credential,
                anchor: None,
            }),
    {
        CommitteeColdResign {
            committee_cold_credential: *committee_cold_credential,
            anchor: None,
        }
    }

    pub fn new_with_anchor(committee_cold_credential: &Credential, anchor: &Anchor) -> (r: Self)
        ensures
            r@ == (CommitteeColdResignV {
                committee_cold_credential: *committee_cold_credential,
                anchor: Some(anchor@),
            }),
    {
        CommitteeColdResign {
            committee_cold_credential: *committee_cold_credential,
            anchor: Some(anchor.dup()),
        }
    }
}

impl Codec for CommitteeColdResign {
    open spec fn tree(v: CommitteeColdResignV) -> CborV {
        CborV::Array(
            seq![
                CborV::Uint(15),
                Credential::tree(v.committee_cold_credential),
                opt_tree::<Anchor>(v.anchor),
            ],
        )
    }

    open spec fn of_tree(t: CborV) -> Option<CommitteeColdResignV> {
        match record_of(t, 15, 3) {
            Some(e) => match (
                Credential::of_tree(e[1]),
                opt_of_tree::<Anchor>(e[2]),
            ) {
                (
                    Some(committee_cold_credential),
                    Some(anchor),
                ) => Some(
                    CommitteeColdResignV {
                        committee_cold_credential,
                        anchor,
                    },
                ),
                _ => None,
            },
            None => None,
        }
    }

    open spec fn valid(v: CommitteeColdResignV) -> bool {
        &&& (v.anchor matches Some(a) ==> Anchor::valid(a))
    }

    proof fn lemma_tree_round_trip(v: CommitteeColdResignV) {
        Credential::lemma_tree_round_trip(v.committee_cold_credential);
        if let Some(a) = v.anchor {
            Anchor::lemma_tree_round_trip(a);
        }
        lemma_wf_short(Self::tree(v)->Array_0);
    }

    proof fn lemma_read_exact(t: CborV) {
        let e = t->Array_0;
        assert(wf(e[0]));
        assert(wf(e[1]));
        Credential::lemma_read_exact(e[1]);
        assert(wf(e[2]));
        if e[2] != null() {
            Anchor::lemma_read_exact(e[2]);
        }
        assert(Self::tree(Self::of_tree(t)->0)->Array_0 =~= e);
    }

    fn dup(&self) -> (r: Self) {
        self.clone()
    }

    fn to_item(&self) -> (r: Cbor) {
        let mut v: Vec<Cbor> = Vec::new();
        v.push(Cbor::Uint(15));
        v.push(self.committee_cold_credential.to_item());
        v.push(opt_to_item(&self.anchor));
        proof {
            assert(item_views(v@) =~= Self::tree(self@)->Array_0);
        }
        array_item(v)
    }

    fn from_item(item: &Cbor) -> (r: Option<CommitteeColdResign>) {
        let e = match read_record(item, 15, 3) {
            Some(e) => e,
            None => {
                return None;
            },
        };
        match (
            Credential::from_item(&e[1]),
            opt_from_item::<Anchor>(&e[2]),
        ) {
            (
                Some(committee_cold_credential),
                Some(anchor),
            ) => Some(
                CommitteeColdResign {
                    committee_cold_credential,
                    anchor,
                },
            ),
            _ => None,
        }
    }
}

/// Registers a representative with a deposit.
#[derive(Debug, PartialEq, Eq)]
pub struct DrepRegistration {
    pub voting_credential: Credential,
    pub coin: Coin,
    pub anchor: Option<Anchor>,
}

/// What a `DrepRegistration` holds.
pub struct DrepRegistrationV {
    pub voting_credential: Credential,
    pub coin: Coin,
    pub anchor: Option<AnchorV>,
}

impl View for DrepRegistration {
    type V = DrepRegistrationV;

    open spec fn view(&self) -> DrepRegistrationV {
        DrepRegistrationV {
            voting_credential: self.voting_credential,
            coin: self.coin,
            anchor: opt_view(self.anchor),
        }
    }
}

impl Clone for DrepRegistration {
    fn clone(&self) -> (r: Self)
        ensures
            r@ == self@,
    {
        DrepRegistration {
            voting_credential: self.voting_credential,
            coin: self.coin,
            anchor: match &self.anchor {
                Some(a) => Some(a.dup()),
                None => None,
            },
        }
    }
}

impl DrepRegistration {
    pub fn new(voting_credential: &Credential, coin: &Coin) -> (r: Self)
        ensures
            r@ == (DrepRegistrationV {
                voting_credential: *voting_credential,
                coin: *coin,
                anchor: None,
            }),
    {
        DrepRegistration {
            voting_credential: *voting_credential,
            coin: *coin,
            anchor: None,
        }
    }

    pub fn new_with_anchor(
        voting_credential: &Credential,
        coin: &Coin,
        anchor: &Anchor,
    ) -> (r: Self)
        ensures
            r@ == (DrepRegistrationV {
                voting_credential: *voting_credential,
                coin: *coin,
                anchor: Some(anchor@),
            }),
    {
        DrepRegistration {
            voting_credential: *voting_credential,
            coin: *coin,
            anchor: Some(anchor.dup()),
        }
    }
}

impl Codec for DrepRegistration {
    open spec fn tree(v: DrepRegistrationV) -> CborV {
        CborV::Array(
            seq![
                CborV::Uint(16),
                Credential::tree(v.voting_credential),
                BigNum::tree(v.coin),
                opt_tree::<Anchor>(v.anchor),
            ],
        )
    }

    open spec fn of_tree(t: CborV) -> Option<DrepRegistrationV> {
        match record_of(t, 16, 4) {
            Some(e) => match (
                Credential::of_tree(e[1]),
                BigNum::of_tree(e[2]),
                opt_of_tree::<Anchor>(e[3]),
            ) {
                (
                    Some(voting_credential),
                    Some(coin),
                    Some(anchor),
                ) => Some(
                    DrepRegistrationV {
                        voting_credential,
                        coin,
                        anchor,
                    },
                ),
                _ => None,
            },
            None => None,
        }
    }

    open spec fn valid(v: DrepRegistrationV) -> bool {
        &&& (v.anchor matches Some(a) ==> Anchor::valid(a))
    }

    proof fn lemma_tree_round_trip(v: DrepRegistrationV) {
        Credential::lemma_tree_round_trip(v.voting_credential);
        BigNum::lemma_tree_round_trip(v.coin);
        if let Some(a) = v.anchor {
            Anchor::lemma_tree_round_trip(a);
        }
        lemma_wf_short(Self::tree(v)->Array_0);
    }

    proof fn lemma_read_exact(t: CborV) {
        let e = t->Array_0;
        assert(wf(e[0]));
        assert(wf(e[1]));
        Credential::lemma_read_exact(e[1]);
        assert(wf(e[2]));
        BigNum::lemma_read_exact(e[2]);
        assert(wf(e[3]));
        if e[3] != null() {
            Anchor::lemma_read_exact(e[3]);
        }
        assert(Self::tree(Self::of_tree(t)->0)->Array_0 =~= e);
    }

    fn dup(&self) -> (r: Self) {
        self.clone()
    }

    fn to_item(&self) -> (r: Cbor) {
        let mut v: Vec<Cbor> = Vec::new();
        v.push(Cbor::Uint(16));
        v.push(self.voting_credential.to_item());
        v.push(self.coin.to_item());
        v.push(opt_to_item(&self.anchor));
        proof {
            assert(item_views(v@) =~= Self::tree(self@)->Array_0);
        }
        array_item(v)
    }

    fn from_item(item: &Cbor) -> (r: Option<DrepRegistration>) {
        let e = match read_record(item, 16, 4) {
            Some(e) => e,
            None => {
                return None;
            },
        };
        match (
            Credential::from_item(&e[1]),
            BigNum::from_item(&e[2]),
            opt_from_item::<Anchor>(&e[3]),
        ) {
            (
                Some(voting_credential),
                Some(coin),
                Some(anchor),
            ) => Some(
                DrepRegistration {
                    voting_credential,
                    coin,
                    anchor,
                },
            ),
            _ => None,
        }
    }
}

/// Retires a representative and returns the deposit.
#[derive(Clone, Copy, Debug, PartialEq, Eq)]
pub struct DrepDeregistration {
    pub voting_credential: Credential,
    pub coin: Coin,
}

impl View for DrepDeregistration {
    type V = DrepDeregistration;

    open spec fn view(&self) -> DrepDeregistration {
        *self
    }
}

impl DrepDeregistration {
    pub fn new(voting_credential: &Credential, coin: &Coin) -> (r: Self)
        ensures
            r@ == (DrepDeregistration {
                voting_credential: *voting_credential,
                coin: *coin,
            }),
    {
        DrepDeregistration {
            voting_credential: *voting_credential,
            coin: *coin,
        }
    }
}

impl Codec for DrepDeregistration {
    open spec fn tree(v: DrepDeregistration) -> CborV {
        CborV::Array(
            seq![
                CborV::Uint(17),
                Credential::tree(v.voting_credential),
                BigNum::tree(v.coin),
            ],
        )
    }

    open spec fn of_tree(t: CborV) -> Option<DrepDeregistration> {
        match record_of(t, 17, 3) {
            Some(e) => match (
                Credential::of_tree(e[1]),
                BigNum::of_tree(e[2]),
            ) {
                (
                    Some(voting_credential),
                    Some(coin),
                ) => Some(
                    DrepDeregistration {
                        voting_credential,
                        coin,
                    },
                ),
                _ => None,
            },
            None => None,
        }
    }

    open spec fn valid(v: DrepDeregistration) -> bool {
        true
    }

    proof fn lemma_tree_round_trip(v: DrepDeregistration) {
        Credential::lemma_tree_round_trip(v.voting_credential);
        BigNum::lemma_tree_round_trip(v.coin);
        lemma_wf_short(Self::tree(v)->Array_0);
    }

    proof fn lemma_read_exact(t: CborV) {
        let e = t->Array_0;
        assert(wf(e[0]));
        assert(wf(e[1]));
        Credential::lemma_read_exact(e[1]);
        assert(wf(e[2]));
        BigNum::lemma_read_exact(e[2]);
        assert(Self::tree(Self::of_tree(t)->0)->Array_0 =~= e);
    }

    fn dup(&self) -> (r: Self) {
        *self
    }

    fn to_item(&self) -> (r: Cbor) {
        let mut v: Vec<Cbor> = Vec::new();
        v.push(Cbor::Uint(17));
        v.push(self.voting_credential.to_item());
        v.push(self.coin.to_item());
        proof {
            assert(item_views(v@) =~= Self::tree(self@)->Array_0);
        }
        array_item(v)
    }

    fn from_item(item: &Cbor) -> (r: Option<DrepDeregistration>) {
        let e = match read_record(item, 17, 3) {
            Some(e) => e,
            None => {
                return None;
            },
        };
        match (
            Credential::from_item(&e[1]),
            BigNum::from_item(&e[2]),
        ) {
            (
                Some(voting_credential),
                Some(coin),
            ) => Some(
                DrepDeregistration {
                    voting_credential,
                    coin,
                },
            ),
            _ => None,
        }
    }
}

/// Changes what a representative points to.
#[derive(Debug, PartialEq, Eq)]
pub struct DrepUpdate {
    pub voting_credential: Credential,
    pub anchor: Option<Anchor>,
}

/// What a `DrepUpdate` holds.
pub struct DrepUpdateV {
    pub voting_credential: Credential,
    pub anchor: Option<AnchorV>,
}

impl View for DrepUpdate {
    type V = DrepUpdateV;

    open spec fn view(&self) -> DrepUpdateV {
        DrepUpdateV {
            voting_credential: self.voting_credential,
            anchor: opt_view(self.anchor),
        }
    }
}

impl Clone for DrepUpdate {
    fn clone(&self) -> (r: Self)
        ensures
            r@ == self@,
    {
        DrepUpdate {
            voting_credential: self.voting_credential,
            anchor: match &self.anchor {
                Some(a) => Some(a.dup()),
                None => None,
            },
        }
    }
}

impl DrepUpdate {
    pub fn new(voting_credential: &Credential) -> (r: Self)
        ensures
            r@ == (DrepUpdateV {
                voting_credential: *voting_credential,
                anchor: None,
            }),
    {
        DrepUpdate {
            voting_credential: *voting_credential,
            anchor: None,
        }
    }

    pub fn new_with_anchor(voting_credential: &Credential, anchor: &Anchor) -> (r: Self)
        ensures
            r@ == (DrepUpdateV {
                voting_credential: *voting_credential,
                anchor: Some(anchor@),
            }),
    {
        DrepUpdate {
            voting_credential: *voting_credential,
            anchor: Some(anchor.dup()),
        }
    }
}

impl Codec for DrepUpdate {
    open spec fn tree(v: DrepUpdateV) -> CborV {
        CborV::Array(
            seq![
                CborV::Uint(18),
                Credential::tree(v.voting_credential),
                opt_tree::<Anchor>(v.anchor),
            ],
        )
    }

    open spec fn of_tree(t: CborV) -> Option<DrepUpdateV> {
        match record_of(t, 18, 3) {
            Some(e) => match (
                Credential::of_tree(e[1]),
                opt_of_tree::<Anchor>(e[2]),
            ) {
                (
                    Some(voting_credential),
                    Some(anchor),
                ) => Some(
                    DrepUpdateV {
                        voting_credential,
                        anchor,
                    },
                ),
                _ => None,
            },
            None => None,
        }
    }

    open spec fn valid(v: DrepUpdateV) -> bool {
        &&& (v.anchor matches Some(a) ==> Anchor::valid(a))
    }

    proof fn lemma_tree_round_trip(v: DrepUpdateV) {
        Credential::lemma_tree_round_trip(v.voting_credential);
        if let Some(a) = v.anchor {
            Anchor::lemma_tree_round_trip(a);
        }
        lemma_wf_short(Self::tree(v)->Array_0);
    }

    proof fn lemma_read_exact(t: CborV) {
        let e = t->Array_0;
        assert(wf(e[0]));
        assert(wf(e[1]));
        Credential::lemma_read_exact(e[1]);
        assert(wf(e[2]));
        if e[2] != null() {
            Anchor::lemma_read_exact(e[2]);
        }
        assert(Self::tree(Self::of_tree(t)->0)->Array_0 =~= e);
    }

    fn dup(&self) -> (r: Self) {
        self.clone()
    }

    fn to_item(&self) -> (r: Cbor) {
        let mut v: Vec<Cbor> = Vec::new();
        v.push(Cbor::Uint(18));
        v.push(self.voting_credential.to_item());
        v.push(opt_to_item(&self.anchor));
        proof {
            assert(item_views(v@) =~= Self::tree(self@)->Array_0);
        }
        array_item(v)
    }

    fn from_item(item: &Cbor) -> (r: Option<DrepUpdate>) {
        let e = match read_record(item, 18, 3) {
            Some(e) => e,
            None => {
                return None;
            },
        };
        match (
            Credential::from_item(&e[1]),
            opt_from_item::<Anchor>(&e[2]),
        ) {
            (
                Some(voting_credential),
                Some(anchor),
            ) => Some(
                DrepUpdate {
                    voting_credential,
                    anchor,
                },
            ),
            _ => None,
        }
    }
}

/// The pot that an instantaneous reward is taken from.
#[derive(Clone, Copy, Debug, PartialEq, Eq)]
pub enum MIRPot {
    Reserves,
    Treasury,
}

/// Amounts by credential, in the order the credentials were first given.
#[derive(Debug, PartialEq, Eq)]
pub struct MIRToStakeCredentials {
    pub entries: Vec<(Credential, DeltaCoin)>,
}

impl View for MIRToStakeCredentials {
    type V = Seq<(Credential, Int)>;

    open spec fn view(&self) -> Seq<(Credential, Int)> {
        self.entries@
    }
}

impl Clone for MIRToStakeCredentials {
    fn clone(&self) -> (r: Self)
        ensures
            r@ == self@,
    {
        MIRToStakeCredentials { entries: vstd::slice::slice_to_vec(self.entries.as_slice()) }
    }
}

/// The first place at or after `from` whose credential is `key`.
pub open spec fn place_of(m: Seq<(Credential, Int)>, key: Credential, from: int) -> Option<int>
    decreases m.len() - from,
{
    if from < 0 || from >= m.len() {
        None
    } else if m[from].0 == key {
        Some(from)
    } else {
        place_of(m, key, from + 1)
    }
}

fn same_hash(a: &Hash28, b: &Hash28) -> (r: bool)
    ensures
        r == (*a == *b),
{
    let mut i: usize = 0;
    while i < 28
        invariant
            i <= 28,
            forall|j: int| 0 <= j < i ==> a.bytes@[j] == b.bytes@[j],
        decreases 28 - i,
    {
        if a.bytes[i] != b.bytes[i] {
            return false;
        }
        i += 1;
    }
    assert(a.bytes =~= b.bytes);
    true
}

/// Whether two credentials are the same.
pub fn same_credential(a: &Credential, b: &Credential) -> (r: bool)
    ensures
        r == (*a == *b),
{
    match (a, b) {
        (Credential::Key(x), Credential::Key(y)) => same_hash(x, y),
        (Credential::Script(x), Credential::Script(y)) => same_hash(x, y),
        _ => false,
    }
}

impl MIRToStakeCredentials {
    pub fn new() -> (r: MIRToStakeCredentials)
        ensures
            r@ == Seq::<(Credential, Int)>::empty(),
    {
        MIRToStakeCredentials { entries: Vec::new() }
    }

    pub fn len(&self) -> (n: usize)
        ensures
            n == self@.len(),
    {
        self.entries.len()
    }

    /// Sets the amount of a credential: in place where the credential is
    /// held already, at the end where it is new. Returns the amount held
    /// before.
    pub fn insert(&mut self, cred: &Credential, delta: &DeltaCoin) -> (r: Option<DeltaCoin>)
        ensures
            match place_of(old(self)@, *cred, 0) {
                Some(i) => final(self)@ == old(self)@.update(i, (*cred, *delta)) && r == Some(
                    old(self)@[i].1,
                ),
                None => final(self)@ == old(self)@.push((*cred, *delta)) && r is None,
            },
    {
        let mut i: usize = 0;
        while i < self.entries.len()
            invariant
                i <= self.entries.len(),
                self.entries@ == old(self).entries@,
                place_of(old(self)@, *cred, 0) == place_of(old(self)@, *cred, i as int),
            decreases self.entries.len() - i,
        {
            if same_credential(&self.entries[i].0, cred) {
                let before = self.entries[i].1;
                self.entries.set(i, (*cred, *delta));
                return Some(before);
            }
            i += 1;
        }
        self.entries.push((*cred, *delta));
        None
    }
}

/// The entries of a map item, each as a credential and an amount.
pub open spec fn entry_trees(m: Seq<(Credential, Int)>) -> Seq<(CborV, CborV)> {
    Seq::new(m.len(), |i: int| (Credential::tree(m[i].0), Int::tree(m[i].1)))
}

/// Every entry is a credential and an amount.
pub open spec fn all_entries(ps: Seq<(CborV, CborV)>) -> bool {
    forall|i: int|
        0 <= i < ps.len() ==> Credential::of_tree((#[trigger] ps[i]).0) is Some && Int::of_tree(
            ps[i].1,
        ) is Some
}

/// The credentials and amounts that the entries of a map item stand for.
pub open spec fn entries_of(ps: Seq<(CborV, CborV)>) -> Option<Seq<(Credential, Int)>> {
    if all_entries(ps) {
        Some(
            Seq::new(
                ps.len(),
                |i: int| (Credential::of_tree(ps[i].0)->0, Int::of_tree(ps[i].1)->0),
            ),
        )
    } else {
        None
    }
}

impl Codec for MIRToStakeCredentials {
    open spec fn tree(v: Seq<(Credential, Int)>) -> CborV {
        CborV::Pairs(entry_trees(v))
    }

    open spec fn of_tree(t: CborV) -> Option<Seq<(Credential, Int)>> {
        match t {
            CborV::Pairs(ps) => entries_of(ps),
            _ => None,
        }
    }

    open spec fn valid(v: Seq<(Credential, Int)>) -> bool {
        v.len() <= u64::MAX && forall|i: int| 0 <= i < v.len() ==> Int::valid((#[trigger] v[i]).1)
    }

    proof fn lemma_tree_round_trip(v: Seq<(Credential, Int)>) {
        let ps = entry_trees(v);
        assert forall|i: int| 0 <= i < ps.len() implies Credential::of_tree((#[trigger] ps[i]).0)
            == Some(v[i].0) && Int::of_tree(ps[i].1) == Some(v[i].1) && wf(ps[i].0) && wf(
            ps[i].1,
        ) by {
            Credential::lemma_tree_round_trip(v[i].0);
            Int::lemma_tree_round_trip(v[i].1);
        }
        assert(entries_of(ps)->0 =~= v);
    }

    proof fn lemma_read_exact(t: CborV) {
        let ps = t->Pairs_0;
        let v = entries_of(ps)->0;
        assert forall|i: int| 0 <= i < ps.len() implies Credential::tree((#[trigger] v[i]).0)
            == ps[i].0 && Int::tree(v[i].1) == ps[i].1 && Int::valid(v[i].1) by {
            assert(wf(ps[i].0) && wf(ps[i].1));
            assert(Credential::of_tree(ps[i].0) is Some);
            Credential::lemma_read_exact(ps[i].0);
            Int::lemma_read_exact(ps[i].1);
        }
        assert(entry_trees(v) =~= ps);
    }

    fn dup(&self) -> (r: Self) {
        self.clone()
    }

    fn to_item(&self) -> (r: Cbor) {
        let mut out: Vec<(Cbor, Cbor)> = Vec::new();
        let mut i: usize = 0;
        while i < self.entries.len()
            invariant
                i <= self.entries.len(),
                out.len() == i,
                forall|j: int|
                    0 <= j < i ==> out@[j].0@ == Credential::tree(self.entries@[j].0) && out@[j].1@
                        == Int::tree(self.entries@[j].1),
            decreases self.entries.len() - i,
        {
            out.push((self.entries[i].0.to_item(), self.entries[i].1.to_item()));
            i += 1;
        }
        let r = Cbor::Pairs(out);
        proof {
            lemma_view_of_lists(r);
            assert(pair_views(out@) =~= entry_trees(self@));
        }
        r
    }

    fn from_item(item: &Cbor) -> (r: Option<MIRToStakeCredentials>) {
        proof {
            lemma_view_of_lists(*item);
        }
        match item {
            Cbor::Pairs(ps) => {
                let mut out: Vec<(Credential, DeltaCoin)> = Vec::new();
                let mut i: usize = 0;
                while i < ps.len()
                    invariant
                        item@ == CborV::Pairs(pair_views(ps@)),
                        i <= ps.len(),
                        out.len() == i,
                        forall|j: int|
                            0 <= j < i ==> Credential::of_tree(ps@[j].0@) == Some(out@[j].0)
                                && Int::of_tree(ps@[j].1@) == Some(out@[j].1),
                    decreases ps.len() - i,
                {
                    match (Credential::from_item(&ps[i].0), Int::from_item(&ps[i].1)) {
                        (Some(c), Some(d)) => {
                            out.push((c, d));
                        },
                        _ => {
                            proof {
                                let pv = pair_views(ps@);
                                assert(Credential::of_tree(pv[i as int].0) is None || Int::of_tree(
                                    pv[i as int].1,
                                ) is None);
                            }
                            return None;
                        },
                    }
                    i += 1;
                }
                proof {
                    let pv = pair_views(ps@);
                    assert forall|j: int| 0 <= j < pv.len() implies Credential::of_tree(
                        (#[trigger] pv[j]).0,
                    ) is Some && Int::of_tree(pv[j].1) is Some by {
                        assert(Credential::of_tree(ps@[j].0@) == Some(out@[j].0));
                    }
                    assert(entries_of(pv)->0 =~= out@);
                }
                Some(MIRToStakeCredentials { entries: out })
            },
            _ => None,
        }
    }
}

/// Whom an instantaneous reward goes to: the other pot, or credentials.
#[derive(Debug, PartialEq, Eq)]
pub enum MIREnum {
    ToOtherPot(Coin),
    ToStakeCredentials(MIRToStakeCredentials),
}

/// What a `MIREnum` holds.
pub enum MIREnumV {
    ToOtherPot(BigNum),
    ToStakeCredentials(Seq<(Credential, Int)>),
}

/// A move of funds out of a pot.
#[derive(Debug, PartialEq, Eq)]
pub struct MoveInstantaneousReward {
    pub pot: MIRPot,
    pub variant: MIREnum,
}

/// What a `MoveInstantaneousReward` holds.
pub struct MoveInstantaneousRewardV {
    pub pot: MIRPot,
    pub variant: MIREnumV,
}

impl View for MoveInstantaneousReward {
    type V = MoveInstantaneousRewardV;

    open spec fn view(&self) -> MoveInstantaneousRewardV {
        MoveInstantaneousRewardV {
            pot: self.pot,
            variant: match self.variant {
                MIREnum::ToOtherPot(c) => MIREnumV::ToOtherPot(c),
                MIREnum::ToStakeCredentials(m) => MIREnumV::ToStakeCredentials(m@),
            },
        }
    }
}

impl Clone for MoveInstantaneousReward {
    fn clone(&self) -> (r: Self)
        ensures
            r@ == self@,
    {
        MoveInstantaneousReward {
            pot: self.pot,
            variant: match &self.variant {
                MIREnum::ToOtherPot(c) => MIREnum::ToOtherPot(*c),
                MIREnum::ToStakeCredentials(m) => MIREnum::ToStakeCredentials(m.clone()),
            },
        }
    }
}

impl MoveInstantaneousReward {
    pub fn new_to_other_pot(pot: MIRPot, amount: &Coin) -> (r: Self)
        ensures
            r@ == (MoveInstantaneousRewardV { pot, variant: MIREnumV::ToOtherPot(*amount) }),
    {
        MoveInstantaneousReward { pot, variant: MIREnum::ToOtherPot(*amount) }
    }

    pub fn new_to_stake_creds(pot: MIRPot, amounts: &MIRToStakeCredentials) -> (r: Self)
        ensures
            r@ == (MoveInstantaneousRewardV {
                pot,
                variant: MIREnumV::ToStakeCredentials(amounts@),
            }),
    {
        MoveInstantaneousReward { pot, variant: MIREnum::ToStakeCredentials(amounts.clone()) }
    }
}

/// The number a pot is written as.
pub open spec fn pot_number(pot: MIRPot) -> u64 {
    match pot {
        MIRPot::Reserves => 0,
        MIRPot::Treasury => 1,
    }
}

impl Codec for MoveInstantaneousReward {
    open spec fn tree(v: MoveInstantaneousRewardV) -> CborV {
        CborV::Array(
            seq![
                CborV::Uint(pot_number(v.pot)),
                match v.variant {
                    MIREnumV::ToOtherPot(c) => BigNum::tree(c),
                    MIREnumV::ToStakeCredentials(m) => MIRToStakeCredentials::tree(m),
                },
            ],
        )
    }

    open spec fn of_tree(t: CborV) -> Option<MoveInstantaneousRewardV> {
        match elems_of(t) {
            Some(e) => if e.len() == 2 {
                let variant = match e[1] {
                    CborV::Uint(c) => Some(MIREnumV::ToOtherPot(BigNum { value: c })),
                    _ => match MIRToStakeCredentials::of_tree(e[1]) {
                        Some(m) => Some(MIREnumV::ToStakeCredentials(m)),
                        None => None,
                    },
                };
                match (uint_of(e[0]), variant) {
                    (Some(k), Some(variant)) => if k == 0 {
                        Some(MoveInstantaneousRewardV { pot: MIRPot::Reserves, variant })
                    } else if k == 1 {
                        Some(MoveInstantaneousRewardV { pot: MIRPot::Treasury, variant })
                    } else {
                        None
                    },
                    _ => None,
                }
            } else {
                None
            },
            None => None,
        }
    }

    open spec fn valid(v: MoveInstantaneousRewardV) -> bool {
        match v.variant {
            MIREnumV::ToOtherPot(_) => true,
            MIREnumV::ToStakeCredentials(m) => MIRToStakeCredentials::valid(m),
        }
    }

    proof fn lemma_tree_round_trip(v: MoveInstantaneousRewardV) {
        match v.variant {
            MIREnumV::ToOtherPot(_) => {},
            MIREnumV::ToStakeCredentials(m) => MIRToStakeCredentials::lemma_tree_round_trip(m),
        }
        lemma_wf_short(Self::tree(v)->Array_0);
    }

    proof fn lemma_read_exact(t: CborV) {
        let e = t->Array_0;
        assert(wf(e[0]) && wf(e[1]));
        if !(e[1] is Uint) {
            MIRToStakeCredentials::lemma_read_exact(e[1]);
        }
        assert(Self::tree(Self::of_tree(t)->0)->Array_0 =~= e);
    }

    fn dup(&self) -> (r: Self) {
        self.clone()
    }

    fn to_item(&self) -> (r: Cbor) {
        let mut v: Vec<Cbor> = Vec::new();
        match self.pot {
            MIRPot::Reserves => v.push(Cbor::Uint(0)),
            MIRPot::Treasury => v.push(Cbor::Uint(1)),
        }
        match &self.variant {
            MIREnum::ToOtherPot(c) => v.push(c.to_item()),
            MIREnum::ToStakeCredentials(m) => v.push(m.to_item()),
        }
        proof {
            assert(item_views(v@) =~= Self::tree(self@)->Array_0);
        }
        array_item(v)
    }

    fn from_item(item: &Cbor) -> (r: Option<MoveInstantaneousReward>) {
        let e = match read_elems(item) {
            Some(e) => e,
            None => {
                return None;
            },
        };
        if e.len() != 2 {
            return None;
        }
        let variant = match &e[1] {
            Cbor::Uint(c) => Some(MIREnum::ToOtherPot(BigNum { value: *c })),
            _ => match MIRToStakeCredentials::from_item(&e[1]) {
                Some(m) => Some(MIREnum::ToStakeCredentials(m)),
                None => None,
            },
        };
        match (crate::codec::read_uint(&e[0]), variant) {
            (Some(k), Some(variant)) => if k == 0 {
                Some(MoveInstantaneousReward { pot: MIRPot::Reserves, variant })
            } else if k == 1 {
                Some(MoveInstantaneousReward { pot: MIRPot::Treasury, variant })
            } else {
                None
            },
            _ => None,
        }
    }
}

/// The certificate that carries a move of funds out of a pot.
#[derive(Debug, PartialEq, Eq)]
pub struct MoveInstantaneousRewardsCert {
    pub move_instantaneous_reward: MoveInstantaneousReward,
}

impl View for MoveInstantaneousRewardsCert {
    type V = MoveInstantaneousRewardV;

    open spec fn view(&self) -> MoveInstantaneousRewardV {
        self.move_instantaneous_reward@
    }
}

impl Clone for MoveInstantaneousRewardsCert {
    fn clone(&self) -> (r: Self)
        ensures
            r@ == self@,
    {
        MoveInstantaneousRewardsCert {
            move_instantaneous_reward: self.move_instantaneous_reward.clone(),
        }
    }
}

impl MoveInstantaneousRewardsCert {
    pub fn new(move_instantaneous_reward: &MoveInstantaneousReward) -> (r: Self)
        ensures
            r@ == move_instantaneous_reward@,
    {
        MoveInstantaneousRewardsCert {
            move_instantaneous_reward: move_instantaneous_reward.clone(),
        }
    }
}

impl Codec for MoveInstantaneousRewardsCert {
    open spec fn tree(v: MoveInstantaneousRewardV) -> CborV {
        CborV::Array(seq![CborV::Uint(6), MoveInstantaneousReward::tree(v)])
    }

    open spec fn of_tree(t: CborV) -> Option<MoveInstantaneousRewardV> {
        match record_of(t, 6, 2) {
            Some(e) => MoveInstantaneousReward::of_tree(e[1]),
            None => None,
        }
    }

    open spec fn valid(v: MoveInstantaneousRewardV) -> bool {
        MoveInstantaneousReward::valid(v)
    }

    proof fn lemma_tree_round_trip(v: MoveInstantaneousRewardV) {
        MoveInstantaneousReward::lemma_tree_round_trip(v);
        lemma_wf_short(Self::tree(v)->Array_0);
    }

    proof fn lemma_read_exact(t: CborV) {
        let e = t->Array_0;
        assert(wf(e[0]) && wf(e[1]));
        MoveInstantaneousReward::lemma_read_exact(e[1]);
        assert(Self::tree(Self::of_tree(t)->0)->Array_0 =~= e);
    }

    fn dup(&self) -> (r: Self) {
        self.clone()
    }

    fn to_item(&self) -> (r: Cbor) {
        let mut v: Vec<Cbor> = Vec::new();
        v.push(Cbor::Uint(6));
        v.push(self.move_instantaneous_reward.to_item());
        proof {
            assert(item_views(v@) =~= Self::tree(self@)->Array_0);
        }
        array_item(v)
    }

    fn from_item(item: &Cbor) -> (r: Option<MoveInstantaneousRewardsCert>) {
        let e = match read_record(item, 6, 2) {
            Some(e) => e,
            None => {
                return None;
            },
        };
        match MoveInstantaneousReward::from_item(&e[1]) {
            Some(move_instantaneous_reward) => Some(
                MoveInstantaneousRewardsCert { move_instantaneous_reward },
            ),
            None => None,
        }
    }
}


/// A certificate of any kind.
#[derive(Debug, PartialEq, Eq)]
pub enum Certificate {
    StakeRegistration(StakeRegistration),
    StakeDeregistration(StakeDeregistration),
    StakeDelegation(StakeDelegation),
    PoolRegistration(PoolRegistration),
    PoolRetirement(PoolRetirement),
    GenesisKeyDelegation(GenesisKeyDelegation),
    MoveInstantaneousRewardsCert(MoveInstantaneousRewardsCert),
    VoteDelegation(VoteDelegation),
    StakeAndVoteDelegation(StakeAndVoteDelegation),
    StakeRegistrationAndDelegation(StakeRegistrationAndDelegation),
    VoteRegistrationAndDelegation(VoteRegistrationAndDelegation),
    StakeVoteRegistrationAndDelegation(StakeVoteRegistrationAndDelegation),
    CommitteeHotAuth(CommitteeHotAuth),
    CommitteeColdResign(CommitteeColdResign),
    DrepRegistration(DrepRegistration),
    DrepDeregistration(DrepDeregistration),
    DrepUpdate(DrepUpdate),
}

/// What a `Certificate` holds.
pub enum CertificateV {
    StakeRegistration(StakeRegistration),
    StakeDeregistration(StakeDeregistration),
    StakeDelegation(StakeDelegation),
    PoolRegistration(PoolParamsV),
    PoolRetirement(PoolRetirement),
    GenesisKeyDelegation(GenesisKeyDelegation),
    MoveInstantaneousRewardsCert(MoveInstantaneousRewardV),
    VoteDelegation(VoteDelegation),
    StakeAndVoteDelegation(StakeAndVoteDelegation),
    StakeRegistrationAndDelegation(StakeRegistrationAndDelegation),
    VoteRegistrationAndDelegation(VoteRegistrationAndDelegation),
    StakeVoteRegistrationAndDelegation(StakeVoteRegistrationAndDelegation),
    CommitteeHotAuth(CommitteeHotAuth),
    CommitteeColdResign(CommitteeColdResignV),
    DrepRegistration(DrepRegistrationV),
    DrepDeregistration(DrepDeregistration),
    DrepUpdate(DrepUpdateV),
}

impl View for Certificate {
    type V = CertificateV;

    open spec fn view(&self) -> CertificateV {
        match self {
            Certificate::StakeRegistration(x) => CertificateV::StakeRegistration(x@),
            Certificate::StakeDeregistration(x) => CertificateV::StakeDeregistration(x@),
            Certificate::StakeDelegation(x) => CertificateV::StakeDelegation(x@),
            Certificate::PoolRegistration(x) => CertificateV::PoolRegistration(x@),
            Certificate::PoolRetirement(x) => CertificateV::PoolRetirement(x@),
            Certificate::GenesisKeyDelegation(x) => CertificateV::GenesisKeyDelegation(x@),
            Certificate::MoveInstantaneousRewardsCert(x) => {
                CertificateV::MoveInstantaneousRewardsCert(x@)
            },
            Certificate::VoteDelegation(x) => CertificateV::VoteDelegation(x@),
            Certificate::StakeAndVoteDelegation(x) => CertificateV::StakeAndVoteDelegation(x@),
            Certificate::StakeRegistrationAndDelegation(x) => {
                CertificateV::StakeRegistrationAndDelegation(x@)
            },
            Certificate::VoteRegistrationAndDelegation(x) => {
                CertificateV::VoteRegistrationAndDelegation(x@)
            },
            Certificate::StakeVoteRegistrationAndDelegation(x) => {
                CertificateV::StakeVoteRegistrationAndDelegation(x@)
            },
            Certificate::CommitteeHotAuth(x) => CertificateV::CommitteeHotAuth(x@),
            Certificate::CommitteeColdResign(x) => CertificateV::CommitteeColdResign(x@),
            Certificate::DrepRegistration(x) => CertificateV::DrepRegistration(x@),
            Certificate::DrepDeregistration(x) => CertificateV::DrepDeregistration(x@),
            Certificate::DrepUpdate(x) => CertificateV::DrepUpdate(x@),
        }
    }
}

impl Clone for Certificate {
    fn clone(&self) -> (r: Self)
        ensures
            r@ == self@,
    {
        match self {
            Certificate::StakeRegistration(x) => Certificate::StakeRegistration(*x),
            Certificate::StakeDeregistration(x) => Certificate::StakeDeregistration(*x),
            Certificate::StakeDelegation(x) => Certificate::StakeDelegation(*x),
            Certificate::PoolRegistration(x) => Certificate::PoolRegistration(x.clone()),
            Certificate::PoolRetirement(x) => Certificate::PoolRetirement(*x),
            Certificate::GenesisKeyDelegation(x) => Certificate::GenesisKeyDelegation(*x),
            Certificate::MoveInstantaneousRewardsCert(x) => {
                Certificate::MoveInstantaneousRewardsCert(x.clone())
            },
            Certificate::VoteDelegation(x) => Certificate::VoteDelegation(*x),
            Certificate::StakeAndVoteDelegation(x) => Certificate::StakeAndVoteDelegation(*x),
            Certificate::StakeRegistrationAndDelegation(x) => {
                Certificate::StakeRegistrationAndDelegation(*x)
            },
            Certificate::VoteRegistrationAndDelegation(x) => {
                Certificate::VoteRegistrationAndDelegation(*x)
            },
            Certificate::StakeVoteRegistrationAndDelegation(x) => {
                Certificate::StakeVoteRegistrationAndDelegation(*x)
            },
            Certificate::CommitteeHotAuth(x) => Certificate::CommitteeHotAuth(*x),
            Certificate::CommitteeColdResign(x) => Certificate::CommitteeColdResign(x.clone()),
            Certificate::DrepRegistration(x) => Certificate::DrepRegistration(x.clone()),
            Certificate::DrepDeregistration(x) => Certificate::DrepDeregistration(*x),
            Certificate::DrepUpdate(x) => Certificate::DrepUpdate(x.clone()),
        }
    }
}

impl Certificate {
    pub fn new_stake_registration(x: &StakeRegistration) -> (r: Certificate)
        ensures
            r@ == CertificateV::StakeRegistration(x@),
    {
        Certificate::StakeRegistration(*x)
    }

    pub fn as_stake_registration(&self) -> (r: Option<StakeRegistration>)
        ensures
            opt_view(r) == (match self@ {
                CertificateV::StakeRegistration(x) => Some(x),
                _ => None,
            }),
    {
        match self {
            Certificate::StakeRegistration(x) => Some(*x),
            _ => None,
        }
    }

    pub fn new_stake_deregistration(x: &StakeDeregistration) -> (r: Certificate)
        ensures
            r@ == CertificateV::StakeDeregistration(x@),
    {
        Certificate::StakeDeregistration(*x)
    }

    pub fn as_stake_deregistration(&self) -> (r: Option<StakeDeregistration>)
        ensures
            opt_view(r) == (match self@ {
                CertificateV::StakeDeregistration(x) => Some(x),
                _ => None,
            }),
    {
        match self {
            Certificate::StakeDeregistration(x) => Some(*x),
            _ => None,
        }
    }

    pub fn new_stake_delegation(x: &StakeDelegation) -> (r: Certificate)
        ensures
            r@ == CertificateV::StakeDelegation(x@),
    {
        Certificate::StakeDelegation(*x)
    }

    pub fn as_stake_delegation(&self) -> (r: Option<StakeDelegation>)
        ensures
            opt_view(r) == (match self@ {
                CertificateV::StakeDelegation(x) => Some(x),
                _ => None,
            }),
    {
        match self {
            Certificate::StakeDelegation(x) => Some(*x),
            _ => None,
        }
    }

    pub fn new_pool_registration(x: &PoolRegistration) -> (r: Certificate)
        ensures
            r@ == CertificateV::PoolRegistration(x@),
    {
        Certificate::PoolRegistration(x.clone())
    }

    pub fn as_pool_registration(&self) -> (r: Option<PoolRegistration>)
        ensures
            opt_view(r) == (match self@ {
                CertificateV::PoolRegistration(x) => Some(x),
                _ => None,
            }),
    {
        match self {
            Certificate::PoolRegistration(x) => Some(x.clone()),
            _ => None,
        }
    }

    pub fn new_pool_retirement(x: &PoolRetirement) -> (r: Certificate)
        ensures
            r@ == CertificateV::PoolRetirement(x@),
    {
        Certificate::PoolRetirement(*x)
    }

    pub fn as_pool_retirement(&self) -> (r: Option<PoolRetirement>)
        ensures
            opt_view(r) == (match self@ {
                CertificateV::PoolRetirement(x) => Some(x),
                _ => None,
            }),
    {
        match self {
            Certificate::PoolRetirement(x) => Some(*x),
            _ => None,
        }
    }

    pub fn new_genesis_key_delegation(x: &GenesisKeyDelegation) -> (r: Certificate)
        ensures
            r@ == CertificateV::GenesisKeyDelegation(x@),
    {
        Certificate::GenesisKeyDelegation(*x)
    }

    pub fn as_genesis_key_delegation(&self) -> (r: Option<GenesisKeyDelegation>)
        ensures
            opt_view(r) == (match self@ {
                CertificateV::GenesisKeyDelegation(x) => Some(x),
                _ => None,
            }),
    {
        match self {
            Certificate::GenesisKeyDelegation(x) => Some(*x),
            _ => None,
        }
    }

    pub fn new_move_instantaneous_rewards_cert(x: &MoveInstantaneousRewardsCert) -> (r: Certificate)
        ensures
            r@ == CertificateV::MoveInstantaneousRewardsCert(x@),
    {
        Certificate::MoveInstantaneousRewardsCert(x.clone())
    }

    pub fn as_move_instantaneous_rewards_cert(&self) -> (r: Option<MoveInstantaneousRewardsCert>)
        ensures
            opt_view(r) == (match self@ {
                CertificateV::MoveInstantaneousRewardsCert(x) => Some(x),
                _ => None,
            }),
    {
        match self {
            Certificate::MoveInstantaneousRewardsCert(x) => Some(x.clone()),
            _ => None,
        }
    }

    pub fn new_vote_delegation(x: &VoteDelegation) -> (r: Certificate)
        ensures
            r@ == CertificateV::VoteDelegation(x@),
    {
        Certificate::VoteDelegation(*x)
    }

    pub fn as_vote_delegation(&self) -> (r: Option<VoteDelegation>)
        ensures
            opt_view(r) == (match self@ {
                CertificateV::VoteDelegation(x) => Some(x),
                _ => None,
            }),
    {
        match self {
            Certificate::VoteDelegation(x) => Some(*x),
            _ => None,
        }
    }

    pub fn new_stake_and_vote_delegation(x: &StakeAndVoteDelegation) -> (r: Certificate)
        ensures
            r@ == CertificateV::StakeAndVoteDelegation(x@),
    {
        Certificate::StakeAndVoteDelegation(*x)
    }

    pub fn as_stake_and_vote_delegation(&self) -> (r: Option<StakeAndVoteDelegation>)
        ensures
            opt_view(r) == (match self@ {
                CertificateV::StakeAndVoteDelegation(x) => Some(x),
                _ => None,
            }),
    {
        match self {
            Certificate::StakeAndVoteDelegation(x) => Some(*x),
            _ => None,
        }
    }

    pub fn new_stake_registration_and_delegation(
        x: &StakeRegistrationAndDelegation,
    ) -> (r: Certificate)
        ensures
            r@ == CertificateV::StakeRegistrationAndDelegation(x@),
    {
        Certificate::StakeRegistrationAndDelegation(*x)
    }

    pub fn as_stake_registration_and_delegation(
        &self,
    ) -> (r: Option<StakeRegistrationAndDelegation>)
        ensures
            opt_view(r) == (match self@ {
                CertificateV::StakeRegistrationAndDelegation(x) => Some(x),
                _ => None,
            }),
    {
        match self {
            Certificate::StakeRegistrationAndDelegation(x) => Some(*x),
            _ => None,
        }
    }

    pub fn new_vote_registration_and_delegation(
        x: &VoteRegistrationAndDelegation,
    ) -> (r: Certificate)
        ensures
            r@ == CertificateV::VoteRegistrationAndDelegation(x@),
    {
        Certificate::VoteRegistrationAndDelegation(*x)
    }

    pub fn as_vote_registration_and_delegation(&self) -> (r: Option<VoteRegistrationAndDelegation>)
        ensures
            opt_view(r) == (match self@ {
                CertificateV::VoteRegistrationAndDelegation(x) => Some(x),
                _ => None,
            }),
    {
        match self {
            Certificate::VoteRegistrationAndDelegation(x) => Some(*x),
            _ => None,
        }
    }

    pub fn new_stake_vote_registration_and_delegation(
        x: &StakeVoteRegistrationAndDelegation,
    ) -> (r: Certificate)
        ensures
            r@ == CertificateV::StakeVoteRegistrationAndDelegation(x@),
    {
        Certificate::StakeVoteRegistrationAndDelegation(*x)
    }

    pub fn as_stake_vote_registration_and_delegation(
        &self,
    ) -> (r: Option<StakeVoteRegistrationAndDelegation>)
        ensures
            opt_view(r) == (match self@ {
                CertificateV::StakeVoteRegistrationAndDelegation(x) => Some(x),
                _ => None,
            }),
    {
        match self {
            Certificate::StakeVoteRegistrationAndDelegation(x) => Some(*x),
            _ => None,
        }
    }

    pub fn new_committee_hot_auth(x: &CommitteeHotAuth) -> (r: Certificate)
        ensures
            r@ == CertificateV::CommitteeHotAuth(x@),
    {
        Certificate::CommitteeHotAuth(*x)
    }

    pub fn as_committee_hot_key_registration(&self) -> (r: Option<CommitteeHotAuth>)
        ensures
            opt_view(r) == (match self@ {
                CertificateV::CommitteeHotAuth(x) => Some(x),
                _ => None,
            }),
    {
        match self {
            Certificate::CommitteeHotAuth(x) => Some(*x),
            _ => None,
        }
    }

    pub fn new_committee_cold_resign(x: &CommitteeColdResign) -> (r: Certificate)
        ensures
            r@ == CertificateV::CommitteeColdResign(x@),
    {
        Certificate::CommitteeColdResign(x.clone())
    }

    pub fn as_committee_hot_key_deregistration(&self) -> (r: Option<CommitteeColdResign>)
        ensures
            opt_view(r) == (match self@ {
                CertificateV::CommitteeColdResign(x) => Some(x),
                _ => None,
            }),
    {
        match self {
            Certificate::CommitteeColdResign(x) => Some(x.clone()),
            _ => None,
        }
    }

    pub fn new_drep_registration(x: &DrepRegistration) -> (r: Certificate)
        ensures
            r@ == CertificateV::DrepRegistration(x@),
    {
        Certificate::DrepRegistration(x.clone())
    }

    pub fn as_drep_registration(&self) -> (r: Option<DrepRegistration>)
        ensures
            opt_view(r) == (match self@ {
                CertificateV::DrepRegistration(x) => Some(x),
                _ => None,
            }),
    {
        match self {
            Certificate::DrepRegistration(x) => Some(x.clone()),
            _ => None,
        }
    }

    pub fn new_drep_deregistration(x: &DrepDeregistration) -> (r: Certificate)
        ensures
            r@ == CertificateV::DrepDeregistration(x@),
    {
        Certificate::DrepDeregistration(*x)
    }

    pub fn as_drep_deregistration(&self) -> (r: Option<DrepDeregistration>)
        ensures
            opt_view(r) == (match self@ {
                CertificateV::DrepDeregistration(x) => Some(x),
                _ => None,
            }),
    {
        match self {
            Certificate::DrepDeregistration(x) => Some(*x),
            _ => None,
        }
    }

    pub fn new_drep_update(x: &DrepUpdate) -> (r: Certificate)
        ensures
            r@ == CertificateV::DrepUpdate(x@),
    {
        Certificate::DrepUpdate(x.clone())
    }

    pub fn as_drep_update(&self) -> (r: Option<DrepUpdate>)
        ensures
            opt_view(r) == (match self@ {
                CertificateV::DrepUpdate(x) => Some(x),
                _ => None,
            }),
    {
        match self {
            Certificate::DrepUpdate(x) => Some(x.clone()),
            _ => None,
        }
    }
}

impl Codec for Certificate {
    open spec fn tree(v: CertificateV) -> CborV {
        match v {
            CertificateV::StakeRegistration(x) => StakeRegistration::tree(x),
            CertificateV::StakeDeregistration(x) => StakeDeregistration::tree(x),
            CertificateV::StakeDelegation(x) => StakeDelegation::tree(x),
            CertificateV::PoolRegistration(x) => PoolRegistration::tree(x),
            CertificateV::PoolRetirement(x) => PoolRetirement::tree(x),
            CertificateV::GenesisKeyDelegation(x) => GenesisKeyDelegation::tree(x),
            CertificateV::MoveInstantaneousRewardsCert(x) => MoveInstantaneousRewardsCert::tree(x),
            CertificateV::VoteDelegation(x) => VoteDelegation::tree(x),
            CertificateV::StakeAndVoteDelegation(x) => StakeAndVoteDelegation::tree(x),
            CertificateV::StakeRegistrationAndDelegation(x) => {
                StakeRegistrationAndDelegation::tree(x)
            },
            CertificateV::VoteRegistrationAndDelegation(x) => {
                VoteRegistrationAndDelegation::tree(x)
            },
            CertificateV::StakeVoteRegistrationAndDelegation(x) => {
                StakeVoteRegistrationAndDelegation::tree(x)
            },
            CertificateV::CommitteeHotAuth(x) => CommitteeHotAuth::tree(x),
            CertificateV::CommitteeColdResign(x) => CommitteeColdResign::tree(x),
            CertificateV::DrepRegistration(x) => DrepRegistration::tree(x),
            CertificateV::DrepDeregistration(x) => DrepDeregistration::tree(x),
            CertificateV::DrepUpdate(x) => DrepUpdate::tree(x),
        }
    }

    open spec fn of_tree(t: CborV) -> Option<CertificateV> {
        match index_of(t) {
            Some(k) => if k == 0 || k == 7 {
                match StakeRegistration::of_tree(t) {
                    Some(x) => Some(CertificateV::StakeRegistration(x)),
                    None => None,
                }
            } else if k == 1 || k == 8 {
                match StakeDeregistration::of_tree(t) {
                    Some(x) => Some(CertificateV::StakeDeregistration(x)),
                    None => None,
                }
            } else if k == 2 {
                match StakeDelegation::of_tree(t) {
                    Some(x) => Some(CertificateV::StakeDelegation(x)),
                    None => None,
                }
            } else if k == 3 {
                match PoolRegistration::of_tree(t) {
                    Some(x) => Some(CertificateV::PoolRegistration(x)),
                    None => None,
                }
            } else if k == 4 {
                match PoolRetirement::of_tree(t) {
                    Some(x) => Some(CertificateV::PoolRetirement(x)),
                    None => None,
                }
            } else if k == 5 {
                match GenesisKeyDelegation::of_tree(t) {
                    Some(x) => Some(CertificateV::GenesisKeyDelegation(x)),
                    None => None,
                }
            } else if k == 6 {
                match MoveInstantaneousRewardsCert::of_tree(t) {
                    Some(x) => Some(CertificateV::MoveInstantaneousRewardsCert(x)),
                    None => None,
                }
            } else if k == 9 {
                match VoteDelegation::of_tree(t) {
                    Some(x) => Some(CertificateV::VoteDelegation(x)),
                    None => None,
                }
            } else if k == 10 {
                match StakeAndVoteDelegation::of_tree(t) {
                    Some(x) => Some(CertificateV::StakeAndVoteDelegation(x)),
                    None => None,
                }
            } else if k == 11 {
                match StakeRegistrationAndDelegation::of_tree(t) {
                    Some(x) => Some(CertificateV::StakeRegistrationAndDelegation(x)),
                    None => None,
                }
            } else if k == 12 {
                match VoteRegistrationAndDelegation::of_tree(t) {
                    Some(x) => Some(CertificateV::VoteRegistrationAndDelegation(x)),
                    None => None,
                }
            } else if k == 13 {
                match StakeVoteRegistrationAndDelegation::of_tree(t) {
                    Some(x) => Some(CertificateV::StakeVoteRegistrationAndDelegation(x)),
                    None => None,
                }
            } else if k == 14 {
                match CommitteeHotAuth::of_tree(t) {
                    Some(x) => Some(CertificateV::CommitteeHotAuth(x)),
                    None => None,
                }
            } else if k == 15 {
                match CommitteeColdResign::of_tree(t) {
                    Some(x) => Some(CertificateV::CommitteeColdResign(x)),
                    None => None,
                }
            } else if k == 16 {
                match DrepRegistration::of_tree(t) {
                    Some(x) => Some(CertificateV::DrepRegistration(x)),
                    None => None,
                }
            } else if k == 17 {
                match DrepDeregistration::of_tree(t) {
                    Some(x) => Some(CertificateV::DrepDeregistration(x)),
                    None => None,
                }
            } else if k == 18 {
                match DrepUpdate::of_tree(t) {
                    Some(x) => Some(CertificateV::DrepUpdate(x)),
                    None => None,
                }
            } else {
                None
            },
            None => None,
        }
    }

    open spec fn valid(v: CertificateV) -> bool {
        match v {
            CertificateV::StakeRegistration(x) => StakeRegistration::valid(x),
            CertificateV::StakeDeregistration(x) => StakeDeregistration::valid(x),
            CertificateV::StakeDelegation(x) => StakeDelegation::valid(x),
            CertificateV::PoolRegistration(x) => PoolRegistration::valid(x),
            CertificateV::PoolRetirement(x) => PoolRetirement::valid(x),
            CertificateV::GenesisKeyDelegation(x) => GenesisKeyDelegation::valid(x),
            CertificateV::MoveInstantaneousRewardsCert(x) => MoveInstantaneousRewardsCert::valid(x),
            CertificateV::VoteDelegation(x) => VoteDelegation::valid(x),
            CertificateV::StakeAndVoteDelegation(x) => StakeAndVoteDelegation::valid(x),
            CertificateV::StakeRegistrationAndDelegation(x) => {
                StakeRegistrationAndDelegation::valid(x)
            },
            CertificateV::VoteRegistrationAndDelegation(x) => {
                VoteRegistrationAndDelegation::valid(x)
            },
            CertificateV::StakeVoteRegistrationAndDelegation(x) => {
                StakeVoteRegistrationAndDelegation::valid(x)
            },
            CertificateV::CommitteeHotAuth(x) => CommitteeHotAuth::valid(x),
            CertificateV::CommitteeColdResign(x) => CommitteeColdResign::valid(x),
            CertificateV::DrepRegistration(x) => DrepRegistration::valid(x),
            CertificateV::DrepDeregistration(x) => DrepDeregistration::valid(x),
            CertificateV::DrepUpdate(x) => DrepUpdate::valid(x),
        }
    }

    proof fn lemma_tree_round_trip(v: CertificateV) {
        match v {
            CertificateV::StakeRegistration(x) => StakeRegistration::lemma_tree_round_trip(x),
            CertificateV::StakeDeregistration(x) => StakeDeregistration::lemma_tree_round_trip(x),
            CertificateV::StakeDelegation(x) => StakeDelegation::lemma_tree_round_trip(x),
            CertificateV::PoolRegistration(x) => PoolRegistration::lemma_tree_round_trip(x),
            CertificateV::PoolRetirement(x) => PoolRetirement::lemma_tree_round_trip(x),
            CertificateV::GenesisKeyDelegation(x) => GenesisKeyDelegation::lemma_tree_round_trip(x),
            CertificateV::MoveInstantaneousRewardsCert(x) => {
                MoveInstantaneousRewardsCert::lemma_tree_round_trip(x)
            },
            CertificateV::VoteDelegation(x) => VoteDelegation::lemma_tree_round_trip(x),
            CertificateV::StakeAndVoteDelegation(x) => {
                StakeAndVoteDelegation::lemma_tree_round_trip(x)
            },
            CertificateV::StakeRegistrationAndDelegation(x) => {
                StakeRegistrationAndDelegation::lemma_tree_round_trip(x)
            },
            CertificateV::VoteRegistrationAndDelegation(x) => {
                VoteRegistrationAndDelegation::lemma_tree_round_trip(x)
            },
            CertificateV::StakeVoteRegistrationAndDelegation(x) => {
                StakeVoteRegistrationAndDelegation::lemma_tree_round_trip(x)
            },
            CertificateV::CommitteeHotAuth(x) => CommitteeHotAuth::lemma_tree_round_trip(x),
            CertificateV::CommitteeColdResign(x) => CommitteeColdResign::lemma_tree_round_trip(x),
            CertificateV::DrepRegistration(x) => DrepRegistration::lemma_tree_round_trip(x),
            CertificateV::DrepDeregistration(x) => DrepDeregistration::lemma_tree_round_trip(x),
            CertificateV::DrepUpdate(x) => DrepUpdate::lemma_tree_round_trip(x),
        }
    }

    proof fn lemma_read_exact(t: CborV) {
        let k = index_of(t)->0;
        if k == 0 || k == 7 {
            StakeRegistration::lemma_read_exact(t);
        } else if k == 1 || k == 8 {
            StakeDeregistration::lemma_read_exact(t);
        } else if k == 2 {
            StakeDelegation::lemma_read_exact(t);
        } else if k == 3 {
            PoolRegistration::lemma_read_exact(t);
        } else if k == 4 {
            PoolRetirement::lemma_read_exact(t);
        } else if k == 5 {
            GenesisKeyDelegation::lemma_read_exact(t);
        } else if k == 6 {
            MoveInstantaneousRewardsCert::lemma_read_exact(t);
        } else if k == 9 {
            VoteDelegation::lemma_read_exact(t);
        } else if k == 10 {
            StakeAndVoteDelegation::lemma_read_exact(t);
        } else if k == 11 {
            StakeRegistrationAndDelegation::lemma_read_exact(t);
        } else if k == 12 {
            VoteRegistrationAndDelegation::lemma_read_exact(t);
        } else if k == 13 {
            StakeVoteRegistrationAndDelegation::lemma_read_exact(t);
        } else if k == 14 {
            CommitteeHotAuth::lemma_read_exact(t);
        } else if k == 15 {
            CommitteeColdResign::lemma_read_exact(t);
        } else if k == 16 {
            DrepRegistration::lemma_read_exact(t);
        } else if k == 17 {
            DrepDeregistration::lemma_read_exact(t);
        } else if k == 18 {
            DrepUpdate::lemma_read_exact(t);
        }
    }

    fn dup(&self) -> (r: Self) {
        self.clone()
    }

    fn to_item(&self) -> (r: Cbor) {
        match self {
            Certificate::StakeRegistration(x) => x.to_item(),
            Certificate::StakeDeregistration(x) => x.to_item(),
            Certificate::StakeDelegation(x) => x.to_item(),
            Certificate::PoolRegistration(x) => x.to_item(),
            Certificate::PoolRetirement(x) => x.to_item(),
            Certificate::GenesisKeyDelegation(x) => x.to_item(),
            Certificate::MoveInstantaneousRewardsCert(x) => x.to_item(),
            Certificate::VoteDelegation(x) => x.to_item(),
            Certificate::StakeAndVoteDelegation(x) => x.to_item(),
            Certificate::StakeRegistrationAndDelegation(x) => x.to_item(),
            Certificate::VoteRegistrationAndDelegation(x) => x.to_item(),
            Certificate::StakeVoteRegistrationAndDelegation(x) => x.to_item(),
            Certificate::CommitteeHotAuth(x) => x.to_item(),
            Certificate::CommitteeColdResign(x) => x.to_item(),
            Certificate::DrepRegistration(x) => x.to_item(),
            Certificate::DrepDeregistration(x) => x.to_item(),
            Certificate::DrepUpdate(x) => x.to_item(),
        }
    }

    fn from_item(item: &Cbor) -> (r: Option<Certificate>) {
        match read_index(item) {
            Some(k) => if k == 0 || k == 7 {
                match StakeRegistration::from_item(item) {
                    Some(x) => Some(Certificate::StakeRegistration(x)),
                    None => None,
                }
            } else if k == 1 || k == 8 {
                match StakeDeregistration::from_item(item) {
                    Some(x) => Some(Certificate::StakeDeregistration(x)),
                    None => None,
                }
            } else if k == 2 {
                match StakeDelegation::from_item(item) {
                    Some(x) => Some(Certificate::StakeDelegation(x)),
                    None => None,
                }
            } else if k == 3 {
                match PoolRegistration::from_item(item) {
                    Some(x) => Some(Certificate::PoolRegistration(x)),
                    None => None,
                }
            } else if k == 4 {
                match PoolRetirement::from_item(item) {
                    Some(x) => Some(Certificate::PoolRetirement(x)),
                    None => None,
                }
            } else if k == 5 {
                match GenesisKeyDelegation::from_item(item) {
                    Some(x) => Some(Certificate::GenesisKeyDelegation(x)),
                    None => None,
                }
            } else if k == 6 {
                match MoveInstantaneousRewardsCert::from_item(item) {
                    Some(x) => Some(Certificate::MoveInstantaneousRewardsCert(x)),
                    None => None,
                }
            } else if k == 9 {
                match VoteDelegation::from_item(item) {
                    Some(x) => Some(Certificate::VoteDelegation(x)),
                    None => None,
                }
            } else if k == 10 {
                match StakeAndVoteDelegation::from_item(item) {
                    Some(x) => Some(Certificate::StakeAndVoteDelegation(x)),
                    None => None,
                }
            } else if k == 11 {
                match StakeRegistrationAndDelegation::from_item(item) {
                    Some(x) => Some(Certificate::StakeRegistrationAndDelegation(x)),
                    None => None,
                }
            } else if k == 12 {
                match VoteRegistrationAndDelegation::from_item(item) {
                    Some(x) => Some(Certificate::VoteRegistrationAndDelegation(x)),
                    None => None,
                }
            } else if k == 13 {
                match StakeVoteRegistrationAndDelegation::from_item(item) {
                    Some(x) => Some(Certificate::StakeVoteRegistrationAndDelegation(x)),
                    None => None,
                }
            } else if k == 14 {
                match CommitteeHotAuth::from_item(item) {
                    Some(x) => Some(Certificate::CommitteeHotAuth(x)),
                    None => None,
                }
            } else if k == 15 {
                match CommitteeColdResign::from_item(item) {
                    Some(x) => Some(Certificate::CommitteeColdResign(x)),
                    None => None,
                }
            } else if k == 16 {
                match DrepRegistration::from_item(item) {
                    Some(x) => Some(Certificate::DrepRegistration(x)),
                    None => None,
                }
            } else if k == 17 {
                match DrepDeregistration::from_item(item) {
                    Some(x) => Some(Certificate::DrepDeregistration(x)),
                    None => None,
                }
            } else if k == 18 {
                match DrepUpdate::from_item(item) {
                    Some(x) => Some(Certificate::DrepUpdate(x)),
                    None => None,
                }
            } else {
                None
            },
            None => None,
        }
    }
}

pub type Certificates = TaggedSet<Certificate>;

/// The bytes decode, as the record that the certificate wraps, to that
/// record.
pub open spec fn record_of_bytes(v: CertificateV, b: Seq<u8>) -> bool {
    match v {
        CertificateV::StakeRegistration(x) => {
            of_bytes::<StakeRegistration>(b) matches Ok(y) && y == x
        },
        CertificateV::StakeDeregistration(x) => {
            of_bytes::<StakeDeregistration>(b) matches Ok(y) && y == x
        },
        CertificateV::StakeDelegation(x) => of_bytes::<StakeDelegation>(b) matches Ok(y) && y == x,
        CertificateV::PoolRegistration(x) => {
            of_bytes::<PoolRegistration>(b) matches Ok(y) && y == x
        },
        CertificateV::PoolRetirement(x) => of_bytes::<PoolRetirement>(b) matches Ok(y) && y == x,
        CertificateV::GenesisKeyDelegation(x) => {
            of_bytes::<GenesisKeyDelegation>(b) matches Ok(y) && y == x
        },
        CertificateV::MoveInstantaneousRewardsCert(x) => {
            of_bytes::<MoveInstantaneousRewardsCert>(b) matches Ok(y) && y == x
        },
        CertificateV::VoteDelegation(x) => of_bytes::<VoteDelegation>(b) matches Ok(y) && y == x,
        CertificateV::StakeAndVoteDelegation(x) => {
            of_bytes::<StakeAndVoteDelegation>(b) matches Ok(y) && y == x
        },
        CertificateV::StakeRegistrationAndDelegation(x) => {
            of_bytes::<StakeRegistrationAndDelegation>(b) matches Ok(y) && y == x
        },
        CertificateV::VoteRegistrationAndDelegation(x) => {
            of_bytes::<VoteRegistrationAndDelegation>(b) matches Ok(y) && y == x
        },
        CertificateV::StakeVoteRegistrationAndDelegation(x) => {
            of_bytes::<StakeVoteRegistrationAndDelegation>(b) matches Ok(y) && y == x
        },
        CertificateV::CommitteeHotAuth(x) => {
            of_bytes::<CommitteeHotAuth>(b) matches Ok(y) && y == x
        },
        CertificateV::CommitteeColdResign(x) => {
            of_bytes::<CommitteeColdResign>(b) matches Ok(y) && y == x
        },
        CertificateV::DrepRegistration(x) => {
            of_bytes::<DrepRegistration>(b) matches Ok(y) && y == x
        },
        CertificateV::DrepDeregistration(x) => {
            of_bytes::<DrepDeregistration>(b) matches Ok(y) && y == x
        },
        CertificateV::DrepUpdate(x) => of_bytes::<DrepUpdate>(b) matches Ok(y) && y == x,
    }
}

/// The text decodes, as the record that the certificate wraps, to that
/// record.
pub open spec fn record_of_text(v: CertificateV, text: Seq<u8>) -> bool {
    match v {
        CertificateV::StakeRegistration(x) => {
            of_text::<StakeRegistration>(text) matches Ok(y) && y == x
        },
        CertificateV::StakeDeregistration(x) => {
            of_text::<StakeDeregistration>(text) matches Ok(y) && y == x
        },
        CertificateV::StakeDelegation(x) => {
            of_text::<StakeDelegation>(text) matches Ok(y) && y == x
        },
        CertificateV::PoolRegistration(x) => {
            of_text::<PoolRegistration>(text) matches Ok(y) && y == x
        },
        CertificateV::PoolRetirement(x) => of_text::<PoolRetirement>(text) matches Ok(y) && y == x,
        CertificateV::GenesisKeyDelegation(x) => {
            of_text::<GenesisKeyDelegation>(text) matches Ok(y) && y == x
        },
        CertificateV::MoveInstantaneousRewardsCert(x) => {
            of_text::<MoveInstantaneousRewardsCert>(text) matches Ok(y) && y == x
        },
        CertificateV::VoteDelegation(x) => of_text::<VoteDelegation>(text) matches Ok(y) && y == x,
        CertificateV::StakeAndVoteDelegation(x) => {
            of_text::<StakeAndVoteDelegation>(text) matches Ok(y) && y == x
        },
        CertificateV::StakeRegistrationAndDelegation(x) => {
            of_text::<StakeRegistrationAndDelegation>(text) matches Ok(y) && y == x
        },
        CertificateV::VoteRegistrationAndDelegation(x) => {
            of_text::<VoteRegistrationAndDelegation>(text) matches Ok(y) && y == x
        },
        CertificateV::StakeVoteRegistrationAndDelegation(x) => {
            of_text::<StakeVoteRegistrationAndDelegation>(text) matches Ok(y) && y == x
        },
        CertificateV::CommitteeHotAuth(x) => {
            of_text::<CommitteeHotAuth>(text) matches Ok(y) && y == x
        },
        CertificateV::CommitteeColdResign(x) => {
            of_text::<CommitteeColdResign>(text) matches Ok(y) && y == x
        },
        CertificateV::DrepRegistration(x) => {
            of_text::<DrepRegistration>(text) matches Ok(y) && y == x
        },
        CertificateV::DrepDeregistration(x) => {
            of_text::<DrepDeregistration>(text) matches Ok(y) && y == x
        },
        CertificateV::DrepUpdate(x) => of_text::<DrepUpdate>(text) matches Ok(y) && y == x,
    }
}

/// A certificate is written as the record that it wraps. So the canonical
/// bytes and the text of a valid certificate decode to the certificate, and
/// decode as the record to the record, whichever of the records it wraps.
pub proof fn law_certificate_round_trip(v: CertificateV)
    requires
        Certificate::valid(v),
    ensures
        of_bytes::<Certificate>(encode(Certificate::tree(v))) matches Ok(w) && w == v,
        of_text::<Certificate>(render(Certificate::tree(v))) matches Ok(w) && w == v,
        record_of_bytes(v, encode(Certificate::tree(v))),
        record_of_text(v, render(Certificate::tree(v))),
{
    law_bytes_round_trip::<Certificate>(v);
    law_text_round_trip::<Certificate>(v);
    match v {
        CertificateV::StakeRegistration(x) => {
            law_bytes_round_trip::<StakeRegistration>(x);
            law_text_round_trip::<StakeRegistration>(x);
        },
        CertificateV::StakeDeregistration(x) => {
            law_bytes_round_trip::<StakeDeregistration>(x);
            law_text_round_trip::<StakeDeregistration>(x);
        },
        CertificateV::StakeDelegation(x) => {
            law_bytes_round_trip::<StakeDelegation>(x);
            law_text_round_trip::<StakeDelegation>(x);
        },
        CertificateV::PoolRegistration(x) => {
            law_bytes_round_trip::<PoolRegistration>(x);
            law_text_round_trip::<PoolRegistration>(x);
        },
        CertificateV::PoolRetirement(x) => {
            law_bytes_round_trip::<PoolRetirement>(x);
            law_text_round_trip::<PoolRetirement>(x);
        },
        CertificateV::GenesisKeyDelegation(x) => {
            law_bytes_round_trip::<GenesisKeyDelegation>(x);
            law_text_round_trip::<GenesisKeyDelegation>(x);
        },
        CertificateV::MoveInstantaneousRewardsCert(x) => {
            law_bytes_round_trip::<MoveInstantaneousRewardsCert>(x);
            law_text_round_trip::<MoveInstantaneousRewardsCert>(x);
        },
        CertificateV::VoteDelegation(x) => {
            law_bytes_round_trip::<VoteDelegation>(x);
            law_text_round_trip::<VoteDelegation>(x);
        },
        CertificateV::StakeAndVoteDelegation(x) => {
            law_bytes_round_trip::<StakeAndVoteDelegation>(x);
            law_text_round_trip::<StakeAndVoteDelegation>(x);
        },
        CertificateV::StakeRegistrationAndDelegation(x) => {
            law_bytes_round_trip::<StakeRegistrationAndDelegation>(x);
            law_text_round_trip::<StakeRegistrationAndDelegation>(x);
        },
        CertificateV::VoteRegistrationAndDelegation(x) => {
            law_bytes_round_trip::<VoteRegistrationAndDelegation>(x);
            law_text_round_trip::<VoteRegistrationAndDelegation>(x);
        },
        CertificateV::StakeVoteRegistrationAndDelegation(x) => {
            law_bytes_round_trip::<StakeVoteRegistrationAndDelegation>(x);
            law_text_round_trip::<StakeVoteRegistrationAndDelegation>(x);
        },
        CertificateV::CommitteeHotAuth(x) => {
            law_bytes_round_trip::<CommitteeHotAuth>(x);
            law_text_round_trip::<CommitteeHotAuth>(x);
        },
        CertificateV::CommitteeColdResign(x) => {
            law_bytes_round_trip::<CommitteeColdResign>(x);
            law_text_round_trip::<CommitteeColdResign>(x);
        },
        CertificateV::DrepRegistration(x) => {
            law_bytes_round_trip::<DrepRegistration>(x);
            law_text_round_trip::<DrepRegistration>(x);
        },
        CertificateV::DrepDeregistration(x) => {
            law_bytes_round_trip::<DrepDeregistration>(x);
            law_text_round_trip::<DrepDeregistration>(x);
        },
        CertificateV::DrepUpdate(x) => {
            law_bytes_round_trip::<DrepUpdate>(x);
            law_text_round_trip::<DrepUpdate>(x);
        },
    }
}

} // verus!
