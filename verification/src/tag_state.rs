//! Which form the sets of a transaction are written in: all under the set
//! tag, all bare, or some of each.

use crate::body::TransactionBody;
use crate::cbor::item::{Cbor, CborV};
use crate::certificates::{Certificate, CertificateV, Certificates};
use crate::codec::{read_set, set_of, Codec};
use crate::fields::field_views;
use crate::witness::{is_set_key, TransactionWitnessSet};
use vstd::prelude::*;

verus! {

/// The form of the sets of a transaction.
#[derive(Clone, Copy, Debug, PartialEq, Eq, Structural)]
pub enum TransactionSetsState {
    /// At least one set, and every set under the set tag.
    AllSetsHaveTag,
    /// No set under the set tag.
    AllSetsHaveNoTag,
    /// Sets of both forms.
    MixedSets,
}

/// The form of a set item: `true` under the tag, `false` bare.
pub open spec fn set_form(t: CborV) -> Option<bool> {
    match set_of(t) {
        Some((tagged, _)) => Some(tagged),
        None => None,
    }
}

/// The form of the owners of a pool registration; none for other
/// certificates.
pub open spec fn owners_form(c: CertificateV) -> Option<bool> {
    match c {
        CertificateV::PoolRegistration(p) => Some(p.pool_owners.tagged),
        _ => None,
    }
}

/// Some pool registration among the certificates that `t` holds has its
/// owners written in the given form.
pub open spec fn owners_have(t: CborV, tagged: bool) -> bool {
    match Certificates::of_tree(t) {
        Some(cs) => exists|j: int|
            0 <= j < cs.items.len() && owners_form(#[trigger] cs.items[j]) == Some(tagged),
        None => false,
    }
}

/// The form of the set of members to remove, where a proposal is one to
/// change the committee: an array of four whose third element, the action,
/// is an array of five led by the number 4, with that set in third place.
/// None for other proposals.
pub open spec fn removal_form(p: CborV) -> Option<bool> {
    match p {
        CborV::Array(e) => if e.len() == 4 {
            match e[2] {
                CborV::Array(g) => if g.len() == 5 && g[0] == CborV::Uint(4) {
                    set_form(g[2])
                } else {
                    None
                },
                _ => None,
            }
        } else {
            None
        },
        _ => None,
    }
}

/// Some proposal among those that `t` holds changes the committee and has
/// its set of members to remove written in the given form.
pub open spec fn removals_have(t: CborV, tagged: bool) -> bool {
    match set_of(t) {
        Some((_, ps)) => exists|j: int|
            0 <= j < ps.len() && removal_form(#[trigger] ps[j]) == Some(tagged),
        None => false,
    }
}

/// Whether the body field for `key` is written as a set: inputs,
/// certificates, collateral, required signers, reference inputs, proposals.
pub open spec fn is_body_set_key(key: u64) -> bool {
    key == 0 || key == 4 || key == 13 || key == 14 || key == 18 || key == 20
}

/// The body field shows a set of the given form: the field itself, the
/// owners of a pool registration among its certificates, or the members to
/// remove of a proposal among its proposals.
pub open spec fn body_field_has(key: u64, t: CborV, tagged: bool) -> bool {
    ||| is_body_set_key(key) && set_form(t) == Some(tagged)
    ||| key == 4 && owners_have(t, tagged)
    ||| key == 20 && removals_have(t, tagged)
}

/// Some set of the body is of the given form.
pub open spec fn body_has(f: Seq<(u64, CborV)>, tagged: bool) -> bool {
    exists|i: int| 0 <= i < f.len() && body_field_has((#[trigger] f[i]).0, f[i].1, tagged)
}

/// Some set of the witness set is of the given form.
pub open spec fn witness_has(f: Seq<(u64, CborV)>, tagged: bool) -> bool {
    exists|i: int|
        0 <= i < f.len() && is_set_key((#[trigger] f[i]).0) && set_form(f[i].1) == Some(tagged)
}

/// Some set of the body, or of the witness set where one is given, is of
/// the given form.
pub open spec fn any_set_has(
    body: Seq<(u64, CborV)>,
    witnesses: Option<Seq<(u64, CborV)>>,
    tagged: bool,
) -> bool {
    body_has(body, tagged) || (witnesses matches Some(w) && witness_has(w, tagged))
}

/// The state that two findings make: mixed where both forms occur, tagged
/// where only tagged sets occur, untagged otherwise.
pub open spec fn state_of(tagged: bool, untagged: bool) -> TransactionSetsState {
    if tagged && untagged {
        TransactionSetsState::MixedSets
    } else if tagged {
        TransactionSetsState::AllSetsHaveTag
    } else {
        TransactionSetsState::AllSetsHaveNoTag
    }
}

/// The form of the sets of a body and, where one is given, a witness set.
pub open spec fn sets_state(
    body: Seq<(u64, CborV)>,
    witnesses: Option<Seq<(u64, CborV)>>,
) -> TransactionSetsState {
    state_of(any_set_has(body, witnesses, true), any_set_has(body, witnesses, false))
}

/// Whether new witnesses go under the set tag: in every state but the one
/// without tagged sets.
pub open spec fn tags_forced(state: TransactionSetsState) -> bool {
    state != TransactionSetsState::AllSetsHaveNoTag
}

fn form_of(item: &Cbor) -> (r: Option<bool>)
    ensures
        r == set_form(item@),
{
    match read_set(item) {
        Some((tagged, _)) => Some(tagged),
        None => None,
    }
}

fn owners_check(item: &Cbor, tagged: bool) -> (r: bool)
    ensures
        r == owners_have(item@, tagged),
{
    let certs = match Certificates::from_item(item) {
        Some(c) => c,
        None => {
            return false;
        },
    };
    let mut j: usize = 0;
    while j < certs.items.len()
        invariant
            Certificates::of_tree(item@) == Some(certs@),
            j <= certs.items.len(),
            forall|a: int| 0 <= a < j ==> owners_form(#[trigger] certs@.items[a]) != Some(tagged),
        decreases certs.items.len() - j,
    {
        match &certs.items[j] {
            Certificate::PoolRegistration(p) => {
                if p.pool_params.pool_owners.tagged == tagged {
                    assert(owners_form(certs@.items[j as int]) == Some(tagged));
                    return true;
                }
            },
            _ => {},
        }
        j += 1;
    }
    false
}

fn removal_form_of(item: &Cbor) -> (r: Option<bool>)
    ensures
        r == removal_form(item@),
{
    proof {
        crate::cbor::item::lemma_view_of_lists(*item);
    }
    match item {
        Cbor::Array(e) => {
            if e.len() != 4 {
                return None;
            }
            proof {
                crate::cbor::item::lemma_view_of_lists(e[2]);
            }
            match &e[2] {
                Cbor::Array(g) => {
                    if g.len() != 5 {
                        return None;
                    }
                    match &g[0] {
                        Cbor::Uint(k) => if *k == 4 {
                            form_of(&g[2])
                        } else {
                            None
                        },
                        _ => None,
                    }
                },
                _ => None,
            }
        },
        _ => None,
    }
}

fn removals_check(item: &Cbor, tagged: bool) -> (r: bool)
    ensures
        r == removals_have(item@, tagged),
{
    let proposals = match read_set(item) {
        Some((_, ps)) => ps,
        None => {
            return false;
        },
    };
    let ghost ps = crate::cbor::item::item_views(proposals@);
    let mut j: usize = 0;
    while j < proposals.len()
        invariant
            ps == crate::cbor::item::item_views(proposals@),
            set_of(item@) matches Some((_, x)) && x == ps,
            j <= proposals.len(),
            forall|a: int| 0 <= a < j ==> removal_form(#[trigger] ps[a]) != Some(tagged),
        decreases proposals.len() - j,
    {
        match removal_form_of(&proposals[j]) {
            Some(form) => {
                if form == tagged {
                    assert(removal_form(ps[j as int]) == Some(tagged));
                    return true;
                }
            },
            None => {},
        }
        j += 1;
    }
    false
}

fn body_scan(f: &Vec<(u64, Cbor)>, tagged: bool) -> (r: bool)
    ensures
        r == body_has(field_views(f@), tagged),
{
    let ghost v = field_views(f@);
    let mut i: usize = 0;
    while i < f.len()
        invariant
            v == field_views(f@),
            i <= f.len(),
            forall|a: int| 0 <= a < i ==> !body_field_has((#[trigger] v[a]).0, v[a].1, tagged),
        decreases f.len() - i,
    {
        let key = f[i].0;
        let is_set = key == 0 || key == 4 || key == 13 || key == 14 || key == 18 || key == 20;
        let here = match form_of(&f[i].1) {
            Some(form) => is_set && form == tagged,
            None => false,
        };
        if here || (key == 4 && owners_check(&f[i].1, tagged)) || (key == 20 && removals_check(
            &f[i].1,
            tagged,
        )) {
            assert(body_field_has(v[i as int].0, v[i as int].1, tagged));
            return true;
        }
        i += 1;
    }
    false
}

/// Whether some set of the witness set is of the given form.
pub(crate) fn witness_scan(f: &Vec<(u64, Cbor)>, tagged: bool) -> (r: bool)
    ensures
        r == witness_has(field_views(f@), tagged),
{
    let ghost v = field_views(f@);
    let mut i: usize = 0;
    while i < f.len()
        invariant
            v == field_views(f@),
            i <= f.len(),
            forall|a: int|
                0 <= a < i ==> !(is_set_key((#[trigger] v[a]).0) && set_form(v[a].1) == Some(
                    tagged,
                )),
        decreases f.len() - i,
    {
        let key = f[i].0;
        let is_set = key == 0 || key == 1 || key == 2 || key == 3 || key == 4 || key == 6 || key
            == 7;
        match form_of(&f[i].1) {
            Some(form) => {
                if is_set && form == tagged {
                    assert(is_set_key(v[i as int].0) && set_form(v[i as int].1) == Some(tagged));
                    return true;
                }
            },
            None => {},
        }
        i += 1;
    }
    false
}

/// Looks at every set of the body and, where one is given, of the witness
/// set, and says which forms occur.
pub fn has_transaction_set_tag_internal(
    body: &TransactionBody,
    witnesses: Option<&TransactionWitnessSet>,
) -> (r: TransactionSetsState)
    ensures
        r == sets_state(
            body@,
            match witnesses {
                Some(w) => Some(w@),
                None => None,
            },
        ),
{
    let (ws_tagged, ws_untagged) = match witnesses {
        Some(w) => (witness_scan(&w.fields, true), witness_scan(&w.fields, false)),
        None => (false, false),
    };
    let tagged = body_scan(&body.fields, true) || ws_tagged;
    let untagged = body_scan(&body.fields, false) || ws_untagged;
    if tagged && untagged {
        TransactionSetsState::MixedSets
    } else if tagged {
        TransactionSetsState::AllSetsHaveTag
    } else {
        TransactionSetsState::AllSetsHaveNoTag
    }
}

/// A body of the expected structure shows at least one set, its inputs, so
/// its state alone is never found by default.
pub proof fn law_body_shows_a_set(body: Seq<(u64, CborV)>)
    requires
        crate::body::body_ok(body),
    ensures
        body_has(body, true) || body_has(body, false),
{
    crate::fields::lemma_first_at(body, 0, 0);
    let i = crate::fields::first_at(body, 0, 0)->0;
    assert(crate::body::body_field_ok(body[i].0, body[i].1));
    let form = set_form(body[i].1)->0;
    assert(body_field_has(body[i].0, body[i].1, form));
}

} // verus!
