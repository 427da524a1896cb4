//! What holds of an assembly through every change made to it.

use crate::body::{AuxiliaryData, TransactionBody};
use crate::cbor::decode::{item_at, whole_item};
use crate::cbor::head::{head_at, head_bytes};
use crate::cbor::item::CborV;
use crate::cbor::laws::{lemma_item_moved, lemma_written_head, wf};
use crate::cbor::span::{item_span, run_end};
use crate::codec::{all_of, of_bytes, of_trees, set_tree, Codec, DecodeError, SetV};
use crate::equality::{
    law_same_witnesses_equivalence, same_assembly, same_elements, same_witnesses, witnesses_of_kind,
};
use crate::fields::{field, first_at, lemma_first_at};
use crate::crypto::blake2b256_digest;
use crate::fixed_transaction::{
    assembled, assembled_from_body, assembled_parts, assembled_with_auxiliary, assembly_bytes,
    assembly_of, auxiliary_part, changed, changed_all, consistent, is_four, part_at,
    validity_byte, Change, FixedTransactionV, TxError,
};
use crate::fixed_witnesses::{
    enforced, fixed_witnesses_of, formed, kept_well, law_witness_bytes_read, lemma_slot_after,
    uniform,
    lemma_with_element_fields, lemma_with_element_kept, lemma_with_element_valid, set_elems,
    slot_after, with_element, witness_bytes, FixedWitnessesV,
};
use crate::tag_state::{
    any_set_has, body_has, set_form, sets_state, tags_forced, witness_has, TransactionSetsState,
};
use crate::witness::{
    is_set_key, witness_field_ok, BootstrapWitness, BootstrapWitnessV, TransactionWitnessSet,
    Vkeywitness, Vkeywitnesses,
};
use vstd::prelude::*;

verus! {

/// Every change of the run puts a witness into a set of witnesses.
pub open spec fn only_witnesses(cs: Seq<Change>) -> bool {
    forall|i: int|
        0 <= i < cs.len() ==> (#[trigger] cs[i] matches Change::AddWitness { key, .. } && is_set_key(
            key,
        ))
}

/// The policy of the witness collection is the one that the sets of the
/// body and of the collection call for.
pub open spec fn resolved(v: FixedTransactionV) -> bool {
    v.witness_set.tag_policy == tags_forced(sets_state(v.body, Some(v.witness_set.fields)))
}

/// The state of the sets of an assembly.
pub open spec fn state(v: FixedTransactionV) -> TransactionSetsState {
    sets_state(v.body, Some(v.witness_set.fields))
}

/// The hash never changes: whatever is added, set or replaced, the body
/// too, the hash stays the one made at construction.
pub proof fn law_hash_stable(v: FixedTransactionV, cs: Seq<Change>)
    ensures
        changed_all(v, cs).tx_hash == v.tx_hash,
    decreases cs.len(),
{
    if cs.len() > 0 {
        law_hash_stable(v, cs.drop_last());
    }
}

/// However an assembly was built from body bytes, its hash is the digest
/// of those bytes, and stays so through every run of changes.
pub proof fn law_hash_is_digest(
    raw_body: Seq<u8>,
    raw_witness_set: Seq<u8>,
    raw_auxiliary_data: Seq<u8>,
    is_valid: bool,
    cs: Seq<Change>,
)
    ensures
        assembled(raw_body, raw_witness_set, is_valid) matches Ok(v) ==> changed_all(v, cs).tx_hash
            == blake2b256_digest(raw_body),
        assembled_with_auxiliary(raw_body, raw_witness_set, raw_auxiliary_data, is_valid) matches Ok(
            v,
        ) ==> changed_all(v, cs).tx_hash == blake2b256_digest(raw_body),
        assembled_from_body(raw_body) matches Ok(v) ==> changed_all(v, cs).tx_hash
            == blake2b256_digest(raw_body),
{
    if let Ok(v) = assembled(raw_body, raw_witness_set, is_valid) {
        law_hash_stable(v, cs);
    }
    if let Ok(v) = assembled_with_auxiliary(
        raw_body,
        raw_witness_set,
        raw_auxiliary_data,
        is_valid,
    ) {
        law_hash_stable(v, cs);
    }
    if let Ok(v) = assembled_from_body(raw_body) {
        law_hash_stable(v, cs);
    }
}

/// What a set of the witness collection shows after a set has received an
/// element: the form of the policy is shown, and the other form only where
/// it was shown before.
pub proof fn lemma_forms_after_add(w: FixedWitnessesV, key: u64, elem: CborV, tagged: bool)
    requires
        is_set_key(key),
    ensures
        witness_has(with_element(w, key, elem).fields, w.tag_policy),
        tagged != w.tag_policy && witness_has(with_element(w, key, elem).fields, tagged)
            ==> witness_has(w.fields, tagged),
{
    let f = w.fields;
    let g = with_element(w, key, elem).fields;
    lemma_first_at(f, key, 0);
    match first_at(f, key, 0) {
        Some(i) => {
            assert(is_set_key(g[i].0) && set_form(g[i].1) == Some(w.tag_policy));
            if tagged != w.tag_policy && witness_has(g, tagged) {
                let j = choose|j: int|
                    0 <= j < g.len() && is_set_key((#[trigger] g[j]).0) && set_form(g[j].1)
                        == Some(tagged);
                assert(j != i);
                assert(g[j] == f[j]);
                assert(is_set_key(f[j].0) && set_form(f[j].1) == Some(tagged));
            }
        },
        None => {
            let p = slot_after(f, key, 0);
            lemma_slot_after(f, key, 0);
            assert(is_set_key(g[p].0) && set_form(g[p].1) == Some(w.tag_policy));
            if tagged != w.tag_policy && witness_has(g, tagged) {
                let j = choose|j: int|
                    0 <= j < g.len() && is_set_key((#[trigger] g[j]).0) && set_form(g[j].1)
                        == Some(tagged);
                assert(j != p);
                let j0 = if j < p {
                    j
                } else {
                    j - 1
                };
                assert(g[j] == f[j0]);
                assert(is_set_key(f[j0].0) && set_form(f[j0].1) == Some(tagged));
            }
        },
    }
}

/// Where the sets are all of one form and the policy is the resolved one,
/// they stay of that form when a set of witnesses receives a witness.
pub proof fn lemma_add_keeps_state(v: FixedTransactionV, key: u64, elem: CborV)
    requires
        resolved(v),
        state(v) != TransactionSetsState::MixedSets,
        is_set_key(key),
    ensures
        state(changed(v, Change::AddWitness { key, elem })) == state(v),
        resolved(changed(v, Change::AddWitness { key, elem })),
{
    lemma_forms_after_add(v.witness_set, key, elem, true);
    lemma_forms_after_add(v.witness_set, key, elem, false);
}

/// Where the sets of an assembly are all of one form at construction, they
/// are all of that form after any number of witnesses has been added.
pub proof fn law_forms_stable(v: FixedTransactionV, cs: Seq<Change>)
    requires
        resolved(v),
        state(v) != TransactionSetsState::MixedSets,
        only_witnesses(cs),
    ensures
        state(changed_all(v, cs)) == state(v),
        resolved(changed_all(v, cs)),
        changed_all(v, cs).witness_set.tag_policy == v.witness_set.tag_policy,
    decreases cs.len(),
{
    if cs.len() > 0 {
        let init = cs.drop_last();
        assert forall|i: int| 0 <= i < init.len() implies (#[trigger] init[i] matches Change::AddWitness {
            key,
            ..
        } && is_set_key(key)) by {
            assert(init[i] == cs[i]);
        }
        law_forms_stable(v, init);
        let last = cs.last();
        assert(cs[cs.len() - 1] == last);
        match last {
            Change::AddWitness { key, elem } => {
                lemma_add_keeps_state(changed_all(v, init), key, elem);
            },
            _ => {},
        }
    }
}

/// The change adds a key witness or a bootstrap witness that can be
/// written.
pub open spec fn adds_witness(c: Change) -> bool {
    c matches Change::AddWitness { key, elem } && wf(elem) && (if key == 0 {
        Vkeywitness::of_tree(elem) is Some
    } else {
        key == 2 && BootstrapWitness::of_tree(elem) is Some
    })
}

/// Every change of the run adds a key witness or a bootstrap witness.
pub open spec fn adds_witnesses(cs: Seq<Change>) -> bool {
    forall|i: int| 0 <= i < cs.len() ==> adds_witness(#[trigger] cs[i])
}

/// The collection can take `n` more witnesses and still be written: the
/// number of its fields and of the elements of each of its sets stays
/// below the greatest length that a head can hold.
pub open spec fn room(w: FixedWitnessesV, n: nat) -> bool {
    &&& w.fields.len() + n < u64::MAX
    &&& forall|i: int|
        0 <= i < w.fields.len() ==> set_elems((#[trigger] w.fields[i]).1).len() + n < u64::MAX
}

/// A collection with room for one more witness than `n` has room for `n`
/// after it has received one.
proof fn lemma_room_after_add(w: FixedWitnessesV, key: u64, elem: CborV, n: nat)
    requires
        room(w, n + 1),
    ensures
        room(with_element(w, key, elem), n),
{
    let g = with_element(w, key, elem).fields;
    lemma_first_at(w.fields, key, 0);
    match first_at(w.fields, key, 0) {
        Some(i) => {
            assert forall|j: int| 0 <= j < g.len() implies set_elems((#[trigger] g[j]).1).len() + n
                < u64::MAX by {
                if j == i {
                    assert(set_elems(w.fields[i].1).len() + n + 1 < u64::MAX);
                } else {
                    assert(g[j] == w.fields[j]);
                }
            }
        },
        None => {
            let p = slot_after(w.fields, key, 0);
            lemma_slot_after(w.fields, key, 0);
            assert forall|j: int| 0 <= j < g.len() implies set_elems((#[trigger] g[j]).1).len() + n
                < u64::MAX by {
                if j < p {
                    assert(g[j] == w.fields[j]);
                } else if j > p {
                    assert(g[j] == w.fields[j - 1]);
                }
            }
        },
    }
}

/// A run of added witnesses leaves the body alone, the witness set of its
/// structure and the kept bytes with their fields.
proof fn lemma_adds_keep(v: FixedTransactionV, cs: Seq<Change>, n: nat)
    requires
        kept_well(v.witness_set),
        TransactionWitnessSet::valid(v.witness_set.fields),
        adds_witnesses(cs),
        room(v.witness_set, cs.len() + n),
    ensures
        changed_all(v, cs).body == v.body,
        kept_well(changed_all(v, cs).witness_set),
        TransactionWitnessSet::valid(changed_all(v, cs).witness_set.fields),
        room(changed_all(v, cs).witness_set, n),
    decreases cs.len(),
{
    if cs.len() > 0 {
        let init = cs.drop_last();
        assert forall|i: int| 0 <= i < init.len() implies adds_witness(#[trigger] init[i]) by {
            assert(init[i] == cs[i]);
        }
        lemma_adds_keep(v, init, n + 1);
        let w = changed_all(v, init).witness_set;
        assert(adds_witness(cs[cs.len() - 1]));
        match cs.last() {
            Change::AddWitness { key, elem } => {
                assert(w.fields.len() + n + 1 < u64::MAX);
                lemma_first_at(w.fields, key, 0);
                if key == 0 {
                    lemma_with_element_valid::<Vkeywitness>(w, key, elem);
                } else {
                    lemma_with_element_valid::<BootstrapWitness>(w, key, elem);
                }
                lemma_with_element_kept(w, key, elem);
                lemma_room_after_add(w, key, elem, n);
            },
            _ => {},
        }
    }
}

/// After any number of key witnesses and bootstrap witnesses has been
/// added to an assembly, the bytes of its witness collection hold a witness
/// set with the witnesses of the collection, and every set of it is in the
/// form that was resolved at construction.
pub proof fn law_policy_consistent(v: FixedTransactionV, cs: Seq<Change>)
    requires
        consistent(v),
        resolved(v),
        adds_witnesses(cs),
        room(v.witness_set, cs.len()),
    ensures
        of_bytes::<TransactionWitnessSet>(witness_bytes(changed_all(v, cs).witness_set)) matches Ok(
            f,
        ) && uniform(f, tags_forced(state(v))) && same_witnesses(
            f,
            changed_all(v, cs).witness_set.fields,
        ),
{
    assert forall|i: int| 0 <= i < cs.len() implies (#[trigger] cs[i] matches Change::AddWitness {
        key,
        ..
    } && is_set_key(key)) by {
        assert(adds_witness(cs[i]));
    }
    lemma_policy_kept(v, cs);
    lemma_adds_keep(v, cs, 0);
    law_reencoded_reads_back(changed_all(v, cs).witness_set);
}

/// An assembly built from parts has the policy that its sets call for, and
/// so has one built from a body alone, whose witness collection is empty.
pub proof fn law_built_is_resolved(
    body: Seq<(u64, CborV)>,
    raw_body: Seq<u8>,
    witnesses: FixedWitnessesV,
    is_valid: bool,
    auxiliary_data: Option<CborV>,
    auxiliary_bytes: Option<Seq<u8>>,
)
    ensures
        resolved(
            assembled_parts(body, raw_body, witnesses, is_valid, auxiliary_data, auxiliary_bytes),
        ),
        assembled_from_body(raw_body) matches Ok(v) ==> resolved(v),
{
}

/// Adding witnesses leaves the policy as it is.
pub proof fn lemma_policy_kept(v: FixedTransactionV, cs: Seq<Change>)
    requires
        only_witnesses(cs),
    ensures
        changed_all(v, cs).witness_set.tag_policy == v.witness_set.tag_policy,
    decreases cs.len(),
{
    if cs.len() > 0 {
        let init = cs.drop_last();
        assert forall|i: int| 0 <= i < init.len() implies (#[trigger] init[i] matches Change::AddWitness {
            key,
            ..
        } && is_set_key(key)) by {
            assert(init[i] == cs[i]);
        }
        lemma_policy_kept(v, init);
        assert(cs[cs.len() - 1] == cs.last());
    }
}

/// Where no set of the body or of the witness set is tagged when the
/// assembly is built, the state is the untagged one, the policy asks for
/// bare sets, and after any number of added witnesses a set that receives
/// one more is written bare.
pub proof fn law_untagged_preserved(
    v: FixedTransactionV,
    cs: Seq<Change>,
    key: u64,
    elem: CborV,
)
    requires
        resolved(v),
        !any_set_has(v.body, Some(v.witness_set.fields), true),
        only_witnesses(cs),
    ensures
        state(v) == TransactionSetsState::AllSetsHaveNoTag,
        !v.witness_set.tag_policy,
        field(with_element(changed_all(v, cs).witness_set, key, elem).fields, key) matches Some(t)
            && set_form(t) == Some(false),
{
    lemma_policy_kept(v, cs);
    lemma_with_element_fields(
        changed_all(v, cs).witness_set,
        key,
        elem,
        if key == 0 {
            1
        } else {
            0
        },
    );
}

/// Where some set of the body or of the witness set is tagged when the
/// assembly is built, the policy asks for tagged sets, and after any number
/// of added witnesses a set that receives one more is written under the set
/// tag. The witness set may be empty: a tagged set in the body is enough.
pub proof fn law_tagged_propagates(
    v: FixedTransactionV,
    cs: Seq<Change>,
    key: u64,
    elem: CborV,
)
    requires
        resolved(v),
        any_set_has(v.body, Some(v.witness_set.fields), true),
        only_witnesses(cs),
    ensures
        state(v) != TransactionSetsState::AllSetsHaveNoTag,
        v.witness_set.tag_policy,
        field(with_element(changed_all(v, cs).witness_set, key, elem).fields, key) matches Some(t)
            && set_form(t) == Some(true),
{
    lemma_policy_kept(v, cs);
    lemma_with_element_fields(
        changed_all(v, cs).witness_set,
        key,
        elem,
        if key == 0 {
            1
        } else {
            0
        },
    );
}

/// The same for an assembly built from a body alone: a tagged set in the
/// body makes every set of witnesses tagged, from the first witness on.
pub proof fn law_tagged_propagates_from_body(
    raw_body: Seq<u8>,
    cs: Seq<Change>,
    key: u64,
    elem: CborV,
)
    requires
        assembled_from_body(raw_body) matches Ok(v) && body_has(v.body, true),
        only_witnesses(cs),
    ensures
        assembled_from_body(raw_body) matches Ok(v) && v.witness_set.tag_policy && (field(
            with_element(changed_all(v, cs).witness_set, key, elem).fields,
            key,
        ) matches Some(t) && set_form(t) == Some(true)),
{
    let v = assembled_from_body(raw_body)->Ok_0;
    law_tagged_propagates(v, cs, key, elem);
}

/// What is written of a witness set of the expected structure is one.
pub proof fn lemma_enforced_valid(w: FixedWitnessesV)
    requires
        TransactionWitnessSet::valid(w.fields),
    ensures
        TransactionWitnessSet::valid(enforced(w).fields),
{
    let f = w.fields;
    let g = enforced(w).fields;
    assert forall|i: int| 0 <= i < g.len() implies witness_field_ok((#[trigger] g[i]).0, g[i].1)
        && wf(g[i].1) by {
        assert(witness_field_ok(f[i].0, f[i].1));
        assert(wf(f[i].1));
        assert(g[i].1 == formed(f[i].0, f[i].1, w.tag_policy));
    }
    assert forall|i: int, j: int| 0 <= i < j < g.len() implies (#[trigger] g[i]).0 != (
    #[trigger] g[j]).0 by {
        assert(f[i].0 != f[j].0);
    }
}

/// What is written holds the witnesses of the collection: the form of a
/// set is no part of what it holds.
pub proof fn lemma_enforced_same(w: FixedWitnessesV)
    ensures
        same_witnesses(enforced(w).fields, w.fields),
{
    let f = w.fields;
    let g = enforced(w).fields;
    assert forall|key: u64| key < 8 implies same_elements(
        #[trigger] witnesses_of_kind(g, key),
        witnesses_of_kind(f, key),
    ) by {
        lemma_first_at(f, key, 0);
        lemma_first_at(g, key, 0);
        match first_at(f, key, 0) {
            Some(i) => {
                assert(g[i].0 == key);
                match first_at(g, key, 0) {
                    Some(j) => {
                        if j < i {
                            assert(f[j].0 == g[j].0);
                        }
                        assert(j == i);
                        assert(g[i].1 == formed(key, f[i].1, w.tag_policy));
                    },
                    None => {},
                }
            },
            None => {
                match first_at(g, key, 0) {
                    Some(j) => {
                        assert(f[j].0 == g[j].0);
                    },
                    None => {},
                }
            },
        }
        assert(witnesses_of_kind(g, key) =~= witnesses_of_kind(f, key));
    }
}

/// The bytes of a witness collection read back as a witness set with the
/// witnesses of the collection, every set of it in the policy's form.
pub proof fn law_reencoded_reads_back(w: FixedWitnessesV)
    requires
        kept_well(w),
        TransactionWitnessSet::valid(w.fields),
    ensures
        of_bytes::<TransactionWitnessSet>(witness_bytes(w)) == Ok::<
            Seq<(u64, CborV)>,
            DecodeError,
        >(enforced(w).fields),
        uniform(enforced(w).fields, w.tag_policy),
        same_witnesses(enforced(w).fields, w.fields),
{
    law_witness_bytes_read(w);
    lemma_enforced_valid(w);
    lemma_enforced_same(w);
    TransactionWitnessSet::lemma_tree_round_trip(enforced(w).fields);
}

/// The key witnesses of a witness set, in order; none where it has no such
/// field.
pub open spec fn key_witnesses(f: Seq<(u64, CborV)>) -> Seq<Vkeywitness> {
    match field(f, 0) {
        Some(t) => match Vkeywitnesses::of_tree(t) {
            Some(set) => set.items,
            None => Seq::empty(),
        },
        None => Seq::empty(),
    }
}

/// The bootstrap witnesses of a witness set, in order; none where it has no
/// such field.
pub open spec fn bootstrap_witnesses(f: Seq<(u64, CborV)>) -> Seq<BootstrapWitnessV> {
    match field(f, 2) {
        Some(t) => match crate::witness::BootstrapWitnesses::of_tree(t) {
            Some(set) => set.items,
            None => Seq::empty(),
        },
        None => Seq::empty(),
    }
}

/// A set of values that receives the item of one more value is the set of
/// those values and that one, in the form given.
proof fn lemma_set_items<T: Codec>(t: CborV, elem: T::V, tagged: bool)
    requires
        is_set_of::<T>(t),
        T::of_tree(T::tree(elem)) == Some(elem),
    ensures
        crate::codec::TaggedSet::<T>::of_tree(set_tree(tagged, set_elems(t).push(T::tree(elem))))
            == Some(
            SetV::<T::V> {
                items: (crate::codec::TaggedSet::<T>::of_tree(t)->0).items.push(elem),
                tagged,
            },
        ),
{
    let elems = set_elems(t);
    let grown = elems.push(T::tree(elem));
    assert(all_of::<T>(elems));
    assert forall|j: int| 0 <= j < grown.len() implies T::of_tree(#[trigger] grown[j])
        is Some by {
        if j < elems.len() {
            assert(grown[j] == elems[j]);
        }
    }
    let old_items = (crate::codec::TaggedSet::<T>::of_tree(t)->0).items;
    let new_items = of_trees::<T>(grown)->0;
    assert forall|j: int| 0 <= j < new_items.len() implies new_items[j] == old_items.push(
        elem,
    )[j] by {
        if j < elems.len() {
            assert(grown[j] == elems[j]);
        }
    }
    assert(new_items =~= old_items.push(elem));
}

/// The item is a set of values of the type.
pub open spec fn is_set_of<T: Codec>(t: CborV) -> bool {
    crate::codec::TaggedSet::<T>::of_tree(t) is Some
}

/// A key witness that is added stands last among the key witnesses, after
/// those that were there, in their order; the bootstrap witnesses stay.
pub proof fn law_key_witness_appended(w: FixedWitnessesV, x: Vkeywitness)
    requires
        TransactionWitnessSet::valid(w.fields),
    ensures
        key_witnesses(with_element(w, 0, Vkeywitness::tree(x)).fields) == key_witnesses(
            w.fields,
        ).push(x),
        bootstrap_witnesses(with_element(w, 0, Vkeywitness::tree(x)).fields)
            == bootstrap_witnesses(w.fields),
{
    let elem = Vkeywitness::tree(x);
    lemma_with_element_fields(w, 0, elem, 2);
    Vkeywitness::lemma_tree_round_trip(x);
    lemma_first_at(w.fields, 0, 0);
    match first_at(w.fields, 0, 0) {
        Some(i) => {
            assert(witness_field_ok(w.fields[i].0, w.fields[i].1));
            lemma_set_items::<Vkeywitness>(w.fields[i].1, x, w.tag_policy);
        },
        None => {
            let grown = seq![elem];
            assert forall|j: int| 0 <= j < grown.len() implies Vkeywitness::of_tree(
                #[trigger] grown[j],
            ) is Some by {}
            assert(of_trees::<Vkeywitness>(grown)->0 =~= Seq::<Vkeywitness>::empty().push(x));
        },
    }
}

/// A bootstrap witness that is added stands last among the bootstrap
/// witnesses, after those that were there, in their order; the key
/// witnesses stay.
pub proof fn law_bootstrap_witness_appended(w: FixedWitnessesV, x: BootstrapWitnessV)
    requires
        TransactionWitnessSet::valid(w.fields),
        BootstrapWitness::valid(x),
    ensures
        bootstrap_witnesses(with_element(w, 2, BootstrapWitness::tree(x)).fields)
            == bootstrap_witnesses(w.fields).push(x),
        key_witnesses(with_element(w, 2, BootstrapWitness::tree(x)).fields) == key_witnesses(
            w.fields,
        ),
{
    let elem = BootstrapWitness::tree(x);
    lemma_with_element_fields(w, 2, elem, 0);
    BootstrapWitness::lemma_tree_round_trip(x);
    lemma_first_at(w.fields, 2, 0);
    match first_at(w.fields, 2, 0) {
        Some(i) => {
            assert(witness_field_ok(w.fields[i].0, w.fields[i].1));
            lemma_set_items::<BootstrapWitness>(w.fields[i].1, x, w.tag_policy);
        },
        None => {
            let grown = seq![elem];
            assert forall|j: int| 0 <= j < grown.len() implies BootstrapWitness::of_tree(
                #[trigger] grown[j],
            ) is Some by {}
            assert(of_trees::<BootstrapWitness>(grown)->0 =~= Seq::<BootstrapWitnessV>::empty().push(
                x,
            ));
        },
    }
}

/// A witness set that receives a key witness stays of its structure, keeps
/// its kept bytes in place, and its bytes read back as the grown set, as it
/// is written.
pub proof fn law_key_witness_reencoded(w: FixedWitnessesV, x: Vkeywitness)
    requires
        kept_well(w),
        TransactionWitnessSet::valid(w.fields),
        w.fields.len() < u64::MAX,
        first_at(w.fields, 0, 0) matches Some(i) ==> set_elems(w.fields[i].1).len() < u64::MAX,
    ensures
        of_bytes::<TransactionWitnessSet>(
            witness_bytes(with_element(w, 0, Vkeywitness::tree(x))),
        ) == Ok::<Seq<(u64, CborV)>, DecodeError>(
            enforced(with_element(w, 0, Vkeywitness::tree(x))).fields,
        ),
{
    let elem = Vkeywitness::tree(x);
    Vkeywitness::lemma_tree_round_trip(x);
    lemma_with_element_valid::<Vkeywitness>(w, 0, elem);
    lemma_with_element_kept(w, 0, elem);
    law_reencoded_reads_back(with_element(w, 0, elem));
}

/// A witness set that receives a bootstrap witness stays of its structure,
/// keeps its kept bytes in place, and its bytes read back as the grown set,
/// as it is written.
pub proof fn law_bootstrap_witness_reencoded(w: FixedWitnessesV, x: BootstrapWitnessV)
    requires
        kept_well(w),
        TransactionWitnessSet::valid(w.fields),
        BootstrapWitness::valid(x),
        w.fields.len() < u64::MAX,
        first_at(w.fields, 2, 0) matches Some(i) ==> set_elems(w.fields[i].1).len() < u64::MAX,
    ensures
        of_bytes::<TransactionWitnessSet>(
            witness_bytes(with_element(w, 2, BootstrapWitness::tree(x))),
        ) == Ok::<Seq<(u64, CborV)>, DecodeError>(
            enforced(with_element(w, 2, BootstrapWitness::tree(x))).fields,
        ),
{
    let elem = BootstrapWitness::tree(x);
    BootstrapWitness::lemma_tree_round_trip(x);
    lemma_with_element_valid::<BootstrapWitness>(w, 2, elem);
    lemma_with_element_kept(w, 2, elem);
    law_reencoded_reads_back(with_element(w, 2, elem));
}

/// Bytes that hold exactly one item are read as that item wherever they
/// stand.
proof fn lemma_whole_moved(b: Seq<u8>, s: Seq<u8>, q: int)
    requires
        whole_item(b) is Some,
        0 <= q,
        q + b.len() <= s.len(),
        s.subrange(q, q + b.len()) == b,
    ensures
        item_at(s, q) == Some((whole_item(b)->0, q + b.len())),
{
    assert(b.subrange(0, b.len() as int) =~= b);
    lemma_item_moved(b, 0, whole_item(b)->0, b.len() as int, s, q);
}

/// Four items in a row are a run of four, each with its span.
proof fn lemma_run_of_four(s: Seq<u8>, at0: int, at1: int, at2: int, at3: int, at4: int)
    requires
        item_at(s, at0) is Some && (item_at(s, at0)->0).1 == at1,
        item_at(s, at1) is Some && (item_at(s, at1)->0).1 == at2,
        item_at(s, at2) is Some && (item_at(s, at2)->0).1 == at3,
        item_at(s, at3) is Some && (item_at(s, at3)->0).1 == at4,
    ensures
        run_end(s, at0, 4) == Some(at4),
        item_span(s, at0, 0) == Some((at0, at1)),
        item_span(s, at0, 1) == Some((at1, at2)),
        item_span(s, at0, 2) == Some((at2, at3)),
        item_span(s, at0, 3) == Some((at3, at4)),
{
    reveal_with_fuel(run_end, 5);
    reveal_with_fuel(item_span, 5);
}

/// Where the parts of a text joined of five stand in it.
proof fn lemma_joined(h: Seq<u8>, a: Seq<u8>, b: Seq<u8>, c: Seq<u8>, d: Seq<u8>)
    ensures
        ({
            let s = h + a + b + c + d;
            let at0 = h.len() as int;
            let at1 = at0 + a.len();
            let at2 = at1 + b.len();
            let at3 = at2 + c.len();
            let at4 = at3 + d.len();
            &&& s.len() == at4
            &&& s == h + (a + b + c + d)
            &&& s.subrange(at0, at1) == a
            &&& s.subrange(at1, at2) == b
            &&& s.subrange(at2, at3) == c
            &&& s.subrange(at3, at4) == d
        }),
{
    let s = h + a + b + c + d;
    let at0 = h.len() as int;
    let at1 = at0 + a.len();
    let at2 = at1 + b.len();
    let at3 = at2 + c.len();
    let at4 = at3 + d.len();
    assert(s =~= h + (a + b + c + d));
    assert(s.subrange(at0, at1) =~= a);
    assert(s.subrange(at1, at2) =~= b);
    assert(s.subrange(at2, at3) =~= c);
    assert(s.subrange(at3, at4) =~= d);
}

/// Four stretches in a row that each hold exactly one item are a run of
/// four items with those stretches as its parts.
proof fn lemma_four_read(
    s: Seq<u8>,
    at0: int,
    a: Seq<u8>,
    b: Seq<u8>,
    c: Seq<u8>,
    d: Seq<u8>,
)
    requires
        whole_item(a) is Some,
        whole_item(b) is Some,
        whole_item(c) is Some,
        whole_item(d) is Some,
        0 <= at0,
        s.len() == at0 + a.len() + b.len() + c.len() + d.len(),
        s.subrange(at0, at0 + a.len()) == a,
        s.subrange(at0 + a.len(), at0 + a.len() + b.len()) == b,
        s.subrange(at0 + a.len() + b.len(), at0 + a.len() + b.len() + c.len()) == c,
        s.subrange(
            at0 + a.len() + b.len() + c.len(),
            at0 + a.len() + b.len() + c.len() + d.len(),
        ) == d,
    ensures
        run_end(s, at0, 4) == Some(s.len() as int),
        part_at(s, at0, 0) == a,
        part_at(s, at0, 1) == b,
        part_at(s, at0, 2) == c,
        part_at(s, at0, 3) == d,
{
    let at1 = at0 + a.len();
    let at2 = at1 + b.len();
    let at3 = at2 + c.len();
    let at4 = at3 + d.len();
    lemma_whole_moved(a, s, at0);
    lemma_whole_moved(b, s, at1);
    lemma_whole_moved(c, s, at2);
    lemma_whole_moved(d, s, at3);
    lemma_run_of_four(s, at0, at1, at2, at3, at4);
}

/// Bytes that begin with the head of an array of four read as that head.
proof fn lemma_head_of_four(s: Seq<u8>, rest: Seq<u8>)
    requires
        s == head_bytes(4, 4) + rest,
    ensures
        head_at(s, 0) matches Some(h) && h.major == 4 && h.info != 31 && h.arg == 4 && h.end
            == head_bytes(4, 4).len(),
{
    assert(s.subrange(0, s.len() as int) =~= s);
    lemma_written_head(4, 4, rest, s, 0);
}

/// Four stretches that each hold exactly one item, after the head of an
/// array of four, are an array of four with those stretches as its parts.
proof fn lemma_four_items(s: Seq<u8>, a: Seq<u8>, b: Seq<u8>, c: Seq<u8>, d: Seq<u8>)
    requires
        s == head_bytes(4, 4) + a + b + c + d,
        whole_item(a) is Some,
        whole_item(b) is Some,
        whole_item(c) is Some,
        whole_item(d) is Some,
    ensures
        is_four(s),
        part_at(s, head_at(s, 0)->0.end, 0) == a,
        part_at(s, head_at(s, 0)->0.end, 1) == b,
        part_at(s, head_at(s, 0)->0.end, 2) == c,
        part_at(s, head_at(s, 0)->0.end, 3) == d,
{
    let hb = head_bytes(4, 4);
    lemma_joined(hb, a, b, c, d);
    lemma_head_of_four(s, a + b + c + d);
    lemma_four_read(s, hb.len() as int, a, b, c, d);
}

/// Where the four parts of a whole transaction stand in its bytes, and
/// that they are read there.
proof fn lemma_assembly_parts(v: FixedTransactionV)
    requires
        consistent(v),
    ensures
        is_four(assembly_bytes(v)),
        part_at(assembly_bytes(v), head_at(assembly_bytes(v), 0)->0.end, 0) == v.body_bytes,
        part_at(assembly_bytes(v), head_at(assembly_bytes(v), 0)->0.end, 1) == witness_bytes(
            v.witness_set,
        ),
        part_at(assembly_bytes(v), head_at(assembly_bytes(v), 0)->0.end, 2) == seq![
            validity_byte(v.is_valid),
        ],
        part_at(assembly_bytes(v), head_at(assembly_bytes(v), 0)->0.end, 3) == auxiliary_part(v),
{
    let ws = witness_bytes(v.witness_set);
    let valid = seq![validity_byte(v.is_valid)];
    let aux = auxiliary_part(v);
    assert(whole_item(ws) is Some) by {
        law_witness_bytes_read(v.witness_set);
    }
    assert(whole_item(valid) is Some) by {
        assert(item_at(valid, 0) is Some && (item_at(valid, 0)->0).1 == 1);
    }
    assert(whole_item(aux) is Some) by {
        if v.auxiliary_bytes is None {
            assert(item_at(aux, 0) is Some && (item_at(aux, 0)->0).1 == 1);
        }
    }
    lemma_four_items(assembly_bytes(v), v.body_bytes, ws, valid, aux);
}

/// The validity byte reads as the marker it was written from.
proof fn lemma_validity_read(valid: bool)
    ensures
        of_bytes::<bool>(seq![validity_byte(valid)]) == Ok::<bool, DecodeError>(valid),
{
    let s = seq![validity_byte(valid)];
    assert(item_at(s, 0) is Some && (item_at(s, 0)->0).1 == 1);
}

/// Bytes that hold auxiliary data are not the one byte `null`.
proof fn lemma_auxiliary_not_null(b: Seq<u8>)
    requires
        of_bytes::<AuxiliaryData>(b) is Ok,
    ensures
        b != seq![0xf6u8],
{
    if b == seq![0xf6u8] {
        assert(item_at(b, 0) is Some && (item_at(b, 0)->0).0 == CborV::Simple(22));
    }
}

/// What a whole transaction assembles to once its four parts are known.
proof fn lemma_assembly_of_parts(
    s: Seq<u8>,
    body: Seq<(u64, CborV)>,
    ws: FixedWitnessesV,
    valid: bool,
    aux: Option<CborV>,
)
    requires
        is_four(s),
        of_bytes::<TransactionBody>(part_at(s, head_at(s, 0)->0.end, 0)) == Ok::<
            Seq<(u64, CborV)>,
            DecodeError,
        >(body),
        fixed_witnesses_of(part_at(s, head_at(s, 0)->0.end, 1)) == Ok::<
            FixedWitnessesV,
            DecodeError,
        >(ws),
        of_bytes::<bool>(part_at(s, head_at(s, 0)->0.end, 2)) == Ok::<bool, DecodeError>(valid),
        match aux {
            Some(a) => part_at(s, head_at(s, 0)->0.end, 3) != seq![0xf6u8] && of_bytes::<
                AuxiliaryData,
            >(part_at(s, head_at(s, 0)->0.end, 3)) == Ok::<CborV, DecodeError>(a),
            None => part_at(s, head_at(s, 0)->0.end, 3) == seq![0xf6u8],
        },
    ensures
        assembly_of(s) == Ok::<FixedTransactionV, TxError>(
            crate::fixed_transaction::assembled_parts(
                body,
                part_at(s, head_at(s, 0)->0.end, 0),
                ws,
                valid,
                aux,
                match aux {
                    Some(_) => Some(part_at(s, head_at(s, 0)->0.end, 3)),
                    None => None,
                },
            ),
        ),
{
}

/// The bytes of a whole transaction, written by an assembly whose parts
/// agree, assemble again to the same: the same body and bytes, the same
/// hash, the same witnesses, the same validity and auxiliary data.
pub proof fn law_assembly_round_trip(v: FixedTransactionV)
    requires
        consistent(v),
    ensures
        assembly_of(assembly_bytes(v)) matches Ok(w) && same_assembly(v, w),
{
    let s = assembly_bytes(v);
    lemma_assembly_parts(v);
    law_reencoded_reads_back(v.witness_set);
    lemma_validity_read(v.is_valid);
    let ws = fixed_witnesses_of(witness_bytes(v.witness_set))->Ok_0;
    assert(ws.fields == enforced(v.witness_set).fields);
    match v.auxiliary_bytes {
        Some(b) => {
            lemma_auxiliary_not_null(b);
        },
        None => {},
    }
    lemma_assembly_of_parts(s, v.body, ws, v.is_valid, v.auxiliary_data);
    law_same_witnesses_equivalence(
        ws.fields,
        v.witness_set.fields,
        v.witness_set.fields,
    );
}

} // verus!
