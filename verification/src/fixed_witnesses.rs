//! The witness collection that keeps the bytes it was read from: a witness
//! set, the bytes as read of each field that has not been touched, and the
//! form in which its sets are written. A field is written from its kept
//! bytes, but a set in another form than the policy's is written anew, in
//! the policy's form.

use crate::cbor::decode::{from_bytes, item_at, pairs_at, whole_item};
use crate::cbor::encode::{encode, encode_into};
use crate::cbor::head::{head_at, head_bytes, push_head, read_head};
use crate::cbor::item::{clone_items, item_views, Cbor, CborV};
use crate::cbor::laws::{
    lemma_item_alone, lemma_item_bounds, lemma_item_moved, lemma_read_container, lemma_read_written,
    lemma_split, lemma_written_head, wf,
};
use crate::cbor::span::{item_span, item_spans, lemma_pairs_run, lemma_pairs_to_break_run};
use crate::codec::{of_bytes, read_set, set_item, set_of, set_tree, Codec, DecodeError, TaggedSet};
use crate::fields::{field, field_trees, field_views, find_field, first_at};
use crate::tag_state::{witness_has, witness_scan};
use crate::witness::{
    is_set_key, witness_field_ok, BootstrapWitness, TransactionWitnessSet, Vkeywitness,
};
use vstd::prelude::*;
use vstd::slice::{slice_subrange, slice_to_vec};

verus! {

/// A witness set with the bytes its fields were read from.
#[derive(Debug)]
pub struct FixedTxWitnessesSet {
    /// The witness set.
    pub(crate) set: TransactionWitnessSet,
    /// For each field, in the same order, the bytes its value was read
    /// from; none once the field has received a witness, or where it was
    /// never read from bytes.
    pub(crate) raw: Vec<Option<Vec<u8>>>,
    /// Whether the sets are written under the set tag.
    pub(crate) tag_policy: bool,
}

/// What a `FixedTxWitnessesSet` holds.
pub struct FixedWitnessesV {
    pub fields: Seq<(u64, CborV)>,
    pub raw: Seq<Option<Seq<u8>>>,
    pub tag_policy: bool,
}

/// The views of the kept bytes.
pub open spec fn raw_views(r: Seq<Option<Vec<u8>>>) -> Seq<Option<Seq<u8>>> {
    Seq::new(
        r.len(),
        |i: int|
            match r[i] {
                Some(b) => Some(b@),
                None => None,
            },
    )
}

impl View for FixedTxWitnessesSet {
    type V = FixedWitnessesV;

    open(crate) spec fn view(&self) -> FixedWitnessesV {
        FixedWitnessesV {
            fields: self.set@,
            raw: raw_views(self.raw@),
            tag_policy: self.tag_policy,
        }
    }
}

/// The bytes that field `i` was read from are kept.
pub open spec fn part_kept(v: FixedWitnessesV, i: int) -> bool {
    0 <= i < v.raw.len() && v.raw[i] is Some
}

/// The bytes that field `i` is written as: the bytes it was read from where they
/// are kept, else the canonical bytes of its value.
pub open spec fn part_bytes(v: FixedWitnessesV, i: int) -> Seq<u8> {
    if part_kept(v, i) {
        v.raw[i]->0
    } else {
        encode(v.fields[i].1)
    }
}

/// The bytes of the fields from `from` on: each key, then its value.
pub open spec fn parts_bytes(v: FixedWitnessesV, from: int) -> Seq<u8>
    decreases v.fields.len() - from,
{
    if from < 0 || from >= v.fields.len() {
        Seq::empty()
    } else {
        head_bytes(0, v.fields[from].0) + part_bytes(v, from) + parts_bytes(v, from + 1)
    }
}

/// The bytes of the fields as they stand: a map of definite length with
/// the fields in their order.
pub open spec fn fields_bytes(v: FixedWitnessesV) -> Seq<u8> {
    head_bytes(5, v.fields.len() as u64) + parts_bytes(v, 0)
}

/// The value that a field is written as: a set in another form than the
/// policy's becomes the set of the same elements in the policy's form, and
/// every other value stays.
pub open spec fn formed(key: u64, t: CborV, policy: bool) -> CborV {
    match set_of(t) {
        Some((tagged, e)) => if is_set_key(key) && tagged != policy {
            set_tree(policy, e)
        } else {
            t
        },
        None => t,
    }
}

/// The collection as it is written: every field with the value it is
/// written as, and the kept bytes only of the fields whose value stays.
pub open spec fn enforced(v: FixedWitnessesV) -> FixedWitnessesV {
    FixedWitnessesV {
        fields: Seq::new(
            v.fields.len(),
            |i: int| (v.fields[i].0, formed(v.fields[i].0, v.fields[i].1, v.tag_policy)),
        ),
        raw: Seq::new(
            v.raw.len(),
            |i: int|
                if i < v.fields.len() && formed(v.fields[i].0, v.fields[i].1, v.tag_policy)
                    != v.fields[i].1 {
                    None
                } else {
                    v.raw[i]
                },
        ),
        tag_policy: v.tag_policy,
    }
}

/// Every set among the fields is in the given form.
pub open spec fn uniform(f: Seq<(u64, CborV)>, tagged: bool) -> bool {
    forall|i: int|
        0 <= i < f.len() && is_set_key((#[trigger] f[i]).0) ==> (set_of(f[i].1) matches Some(
            (form, _),
        ) ==> form == tagged)
}

/// The bytes that the collection is written as: a map of definite length
/// with the fields in their order, every set in the policy's form. A field
/// whose value stays is written from its kept bytes where it has them.
pub open spec fn witness_bytes(v: FixedWitnessesV) -> Seq<u8> {
    fields_bytes(enforced(v))
}

/// The kept bytes belong to the fields: there is a place for each field,
/// and bytes that are kept hold exactly the value of their field.
pub open spec fn kept_well(v: FixedWitnessesV) -> bool {
    &&& v.raw.len() == v.fields.len()
    &&& forall|i: int|
        0 <= i < v.raw.len() ==> ((#[trigger] v.raw[i]) is Some ==> whole_item(v.raw[i]->0)
            == Some(v.fields[i].1))
}

/// The elements of a set item; none where the item is no set.
pub open spec fn set_elems(t: CborV) -> Seq<CborV> {
    match set_of(t) {
        Some((_, e)) => e,
        None => Seq::empty(),
    }
}

/// The first place at or after `from` whose key is greater than `key`; the
/// end where there is none.
pub open spec fn slot_after(f: Seq<(u64, CborV)>, key: u64, from: int) -> int
    decreases f.len() - from,
{
    if from < 0 || from >= f.len() {
        f.len() as int
    } else if f[from].0 > key {
        from
    } else {
        slot_after(f, key, from + 1)
    }
}

/// The set that the field for `key` becomes when it receives `elem`: the
/// elements it held, then `elem`, in the form that the policy asks for.
pub open spec fn grown_set(v: FixedWitnessesV, key: u64, elem: CborV) -> CborV {
    match first_at(v.fields, key, 0) {
        Some(i) => set_tree(v.tag_policy, set_elems(v.fields[i].1).push(elem)),
        None => set_tree(v.tag_policy, seq![elem]),
    }
}

/// The collection after the set for `key` has received `elem`. Where the
/// field exists it is replaced in place and its kept bytes are dropped;
/// where it does not, it is put before the first field with a greater key.
pub open spec fn with_element(v: FixedWitnessesV, key: u64, elem: CborV) -> FixedWitnessesV {
    match first_at(v.fields, key, 0) {
        Some(i) => FixedWitnessesV {
            fields: v.fields.update(i, (key, grown_set(v, key, elem))),
            raw: if i < v.raw.len() {
                v.raw.update(i, None)
            } else {
                v.raw
            },
            tag_policy: v.tag_policy,
        },
        None => {
            let p = slot_after(v.fields, key, 0);
            FixedWitnessesV {
                fields: v.fields.insert(p, (key, grown_set(v, key, elem))),
                raw: if p <= v.raw.len() {
                    v.raw.insert(p, None)
                } else {
                    v.raw
                },
                tag_policy: v.tag_policy,
            }
        },
    }
}

/// The stretch of `s` that the value of the `i`-th entry covers, in a run
/// of entries that starts at `start`.
pub open spec fn value_part(s: Seq<u8>, start: int, i: int) -> Option<Seq<u8>> {
    match item_span(s, start, (2 * i + 1) as nat) {
        Some((a, b)) => Some(s.subrange(a, b)),
        None => None,
    }
}

/// Where the value of the `i`-th entry of a map stands in the bytes that
/// hold exactly that map, and that it reads there as that value.
pub proof fn lemma_entry_span(s: Seq<u8>, ps: Seq<(CborV, CborV)>, i: int) -> (span: (int, int))
    requires
        item_at(s, 0) == Some((CborV::Pairs(ps), s.len() as int)),
        0 <= i < ps.len(),
    ensures
        head_at(s, 0) is Some,
        2 * ps.len() <= s.len(),
        crate::cbor::span::run_end(s, head_at(s, 0)->0.end, 2 * ps.len()) is Some,
        item_span(s, head_at(s, 0)->0.end, (2 * i + 1) as nat) == Some(span),
        item_at(s, span.0) == Some((ps[i].1, span.1)),
{
    let h = head_at(s, 0)->0;
    if h.info == 31 {
        lemma_pairs_to_break_run(s, h.end, ps, s.len() as int, i)
    } else {
        crate::cbor::laws::lemma_pairs_bounds(s, h.end, h.arg as nat);
        lemma_pairs_run(s, h.end, h.arg as nat, ps, s.len() as int, i)
    }
}

/// The policy of a witness set taken by itself: its sets are written bare
/// only where it holds sets and none of them is under the set tag.
pub open spec fn own_policy(f: Seq<(u64, CborV)>) -> bool {
    witness_has(f, true) || !witness_has(f, false)
}

/// What bytes are read as: the witness set they hold, with the stretch of
/// each field's value kept, and the policy of the witness set by itself.
pub open spec fn fixed_witnesses_of(b: Seq<u8>) -> Result<FixedWitnessesV, DecodeError> {
    match of_bytes::<TransactionWitnessSet>(b) {
        Ok(fields) => Ok(
            FixedWitnessesV {
                fields,
                raw: Seq::new(fields.len(), |i: int| value_part(b, head_at(b, 0)->0.end, i)),
                tag_policy: own_policy(fields),
            },
        ),
        Err(e) => Err(e),
    }
}

/// The place for a new field lies within the fields, or at their end.
pub proof fn lemma_slot_after(f: Seq<(u64, CborV)>, key: u64, from: int)
    requires
        0 <= from <= f.len(),
    ensures
        from <= slot_after(f, key, from) <= f.len(),
    decreases f.len() - from,
{
    if from < f.len() && f[from].0 <= key {
        lemma_slot_after(f, key, from + 1);
    }
}

/// Receiving an element keeps the kept bytes with their fields.
pub proof fn lemma_with_element_kept(v: FixedWitnessesV, key: u64, elem: CborV)
    requires
        kept_well(v),
    ensures
        kept_well(with_element(v, key, elem)),
{
    let w = with_element(v, key, elem);
    crate::fields::lemma_first_at(v.fields, key, 0);
    match first_at(v.fields, key, 0) {
        Some(i) => {
            assert forall|j: int| 0 <= j < w.raw.len() && (#[trigger] w.raw[j]) is Some implies whole_item(
                w.raw[j]->0,
            ) == Some(w.fields[j].1) by {
                assert(j != i);
                assert(v.raw[j] is Some);
            }
        },
        None => {
            let p = slot_after(v.fields, key, 0);
            lemma_slot_after(v.fields, key, 0);
            assert forall|j: int| 0 <= j < w.raw.len() && (#[trigger] w.raw[j]) is Some implies whole_item(
                w.raw[j]->0,
            ) == Some(w.fields[j].1) by {
                if j < p {
                    assert(v.raw[j] is Some);
                } else {
                    assert(j > p);
                    assert(v.raw[j - 1] is Some);
                }
            }
        },
    }
}

/// Wherever the key and the bytes of field `i` stand, the reader reads
/// there the key and then the value of the field.
pub proof fn lemma_part_read(v: FixedWitnessesV, i: int, s: Seq<u8>, pos: int)
    requires
        kept_well(v),
        0 <= i < v.fields.len(),
        wf(v.fields[i].1),
        0 <= pos,
        pos + (head_bytes(0, v.fields[i].0) + part_bytes(v, i)).len() <= s.len(),
        s.subrange(pos, pos + (head_bytes(0, v.fields[i].0) + part_bytes(v, i)).len())
            == head_bytes(0, v.fields[i].0) + part_bytes(v, i),
    ensures
        head_bytes(0, v.fields[i].0).len() >= 1,
        part_bytes(v, i).len() >= 1,
        item_at(s, pos) == Some(
            (CborV::Uint(v.fields[i].0), pos + head_bytes(0, v.fields[i].0).len()),
        ),
        item_at(s, pos + head_bytes(0, v.fields[i].0).len()) == Some(
            (v.fields[i].1, pos + head_bytes(0, v.fields[i].0).len() + part_bytes(v, i).len()),
        ),
{
    let key = v.fields[i].0;
    let t = v.fields[i].1;
    let k = head_bytes(0, key);
    let p = part_bytes(v, i);
    lemma_split(s, pos, k, p);
    assert(encode(CborV::Uint(key)) == k);
    lemma_read_written(CborV::Uint(key), s, pos);
    lemma_item_bounds(s, pos);
    let q = pos + k.len();
    if part_kept(v, i) {
        let b = v.raw[i]->0;
        assert(whole_item(b) == Some(t));
        assert(b.subrange(0, b.len() as int) =~= b);
        lemma_item_moved(b, 0, t, b.len() as int, s, q);
    } else {
        lemma_read_written(t, s, q);
    }
    lemma_item_bounds(s, q);
}

/// Wherever the bytes of the fields from `from` on stand, the reader reads
/// there the entries of those fields.
pub proof fn lemma_parts_read(v: FixedWitnessesV, from: int, s: Seq<u8>, pos: int)
    requires
        kept_well(v),
        forall|i: int| 0 <= i < v.fields.len() ==> wf((#[trigger] v.fields[i]).1),
        0 <= from <= v.fields.len(),
        0 <= pos,
        pos + parts_bytes(v, from).len() <= s.len(),
        s.subrange(pos, pos + parts_bytes(v, from).len()) == parts_bytes(v, from),
    ensures
        pairs_at(s, pos, (v.fields.len() - from) as nat) == Some(
            (field_trees(v.fields).skip(from), pos + parts_bytes(v, from).len()),
        ),
    decreases v.fields.len() - from,
{
    let all = field_trees(v.fields);
    if from < v.fields.len() {
        let key = v.fields[from].0;
        let t = v.fields[from].1;
        let k = head_bytes(0, key);
        let p = part_bytes(v, from);
        let rest = parts_bytes(v, from + 1);
        assert(wf(v.fields[from].1));
        assert(parts_bytes(v, from) == k + p + rest);
        lemma_split(s, pos, k + p, rest);
        lemma_part_read(v, from, s, pos);
        lemma_parts_read(v, from + 1, s, pos + k.len() + p.len());
        let n = (v.fields.len() - from) as nat;
        let tail = pairs_at(s, pos + k.len() + p.len(), (n - 1) as nat);
        assert(tail == Some((all.skip(from + 1), pos + parts_bytes(v, from).len())));
        assert(all.skip(from) =~= seq![(CborV::Uint(key), t)] + all.skip(from + 1));
        assert(pairs_at(s, pos, n) == crate::cbor::decode::prepend(
            seq![(CborV::Uint(key), t)],
            tail,
        ));
    } else {
        assert(all.skip(from) =~= Seq::<(CborV, CborV)>::empty());
    }
}

/// The bytes of the fields as they stand hold exactly the map of the
/// fields: reading them gives back every field, touched or not.
pub proof fn lemma_fields_bytes_read(v: FixedWitnessesV)
    requires
        kept_well(v),
        v.fields.len() <= u64::MAX,
        forall|i: int| 0 <= i < v.fields.len() ==> wf((#[trigger] v.fields[i]).1),
    ensures
        whole_item(fields_bytes(v)) == Some(CborV::Pairs(field_trees(v.fields))),
{
    let s = fields_bytes(v);
    let n = v.fields.len();
    let hb = head_bytes(5, n as u64);
    assert(s.subrange(0, s.len() as int) =~= s);
    lemma_written_head(5, n as u64, parts_bytes(v, 0), s, 0);
    lemma_parts_read(v, 0, s, hb.len() as int);
    assert(field_trees(v.fields).skip(0) =~= field_trees(v.fields));
    lemma_read_container(
        s,
        0,
        head_at(s, 0)->0,
        CborV::Pairs(field_trees(v.fields)),
        s.len() as int,
    );
}

/// What is written keeps its kept bytes with their fields, has every set
/// in the policy's form, and holds well-formed values where the collection
/// does.
pub proof fn lemma_enforced(v: FixedWitnessesV)
    requires
        kept_well(v),
    ensures
        kept_well(enforced(v)),
        uniform(enforced(v).fields, v.tag_policy),
        enforced(v).fields.len() == v.fields.len(),
        (forall|i: int| 0 <= i < v.fields.len() ==> wf((#[trigger] v.fields[i]).1)) ==> (forall|
            i: int,
        | 0 <= i < v.fields.len() ==> wf((#[trigger] enforced(v).fields[i]).1)),
{
    let w = enforced(v);
    assert forall|i: int| 0 <= i < w.raw.len() && (#[trigger] w.raw[i]) is Some implies whole_item(
        w.raw[i]->0,
    ) == Some(w.fields[i].1) by {
        assert(v.raw[i] is Some);
    }
    assert forall|i: int| 0 <= i < w.fields.len() && is_set_key((#[trigger] w.fields[i]).0) implies (
    set_of(w.fields[i].1) matches Some((form, _)) ==> form == v.tag_policy) by {
        let t = v.fields[i].1;
        assert(w.fields[i].1 == formed(v.fields[i].0, t, v.tag_policy));
    }
    if forall|i: int| 0 <= i < v.fields.len() ==> wf((#[trigger] v.fields[i]).1) {
        assert forall|i: int| 0 <= i < v.fields.len() implies wf(
            (#[trigger] enforced(v).fields[i]).1,
        ) by {
            assert(wf(v.fields[i].1));
        }
    }
}

/// The bytes that a collection is written as hold exactly the map of its
/// fields, every set of them in the policy's form.
pub proof fn law_witness_bytes_read(v: FixedWitnessesV)
    requires
        kept_well(v),
        v.fields.len() <= u64::MAX,
        forall|i: int| 0 <= i < v.fields.len() ==> wf((#[trigger] v.fields[i]).1),
    ensures
        whole_item(witness_bytes(v)) == Some(CborV::Pairs(field_trees(enforced(v).fields))),
        uniform(enforced(v).fields, v.tag_policy),
{
    lemma_enforced(v);
    lemma_fields_bytes_read(enforced(v));
}

/// Where a set of witnesses receives one more witness, the witness set
/// stays of its structure and writable: no key twice, every field of the
/// structure its key asks for, every value well formed.
pub proof fn lemma_with_element_valid<T: Codec>(v: FixedWitnessesV, key: u64, elem: CborV)
    requires
        TransactionWitnessSet::valid(v.fields),
        v.fields.len() < u64::MAX,
        key == 0 || key == 2,
        forall|t: CborV|
            #![trigger witness_field_ok(key, t)]
            witness_field_ok(key, t) == (TaggedSet::<T>::of_tree(t) is Some),
        T::of_tree(elem) is Some,
        wf(elem),
        first_at(v.fields, key, 0) matches Some(i) ==> set_elems(v.fields[i].1).len() < u64::MAX,
    ensures
        TransactionWitnessSet::valid(with_element(v, key, elem).fields),
        witness_field_ok(key, grown_set(v, key, elem)),
        wf(grown_set(v, key, elem)),
{
    let w = with_element(v, key, elem);
    let g = grown_set(v, key, elem);
    crate::fields::lemma_first_at(v.fields, key, 0);
    let elems = match first_at(v.fields, key, 0) {
        Some(i) => set_elems(v.fields[i].1),
        None => Seq::<CborV>::empty(),
    };
    let grown = elems.push(elem);
    match first_at(v.fields, key, 0) {
        Some(i) => {
            assert(witness_field_ok(v.fields[i].0, v.fields[i].1));
            assert(wf(v.fields[i].1));
            assert(TaggedSet::<T>::of_tree(v.fields[i].1) is Some);
            assert(crate::codec::all_of::<T>(elems));
            assert(crate::cbor::laws::all_wf(elems)) by {
                match v.fields[i].1 {
                    CborV::Array(x) => {},
                    CborV::Tag(_, inner) => {
                        assert(wf(*inner));
                    },
                    _ => {},
                }
            }
        },
        None => {
            assert(grown =~= seq![elem]);
        },
    }
    assert forall|j: int| 0 <= j < grown.len() implies T::of_tree(#[trigger] grown[j]) is Some
        && wf(grown[j]) by {
        if j < elems.len() {
            assert(grown[j] == elems[j]);
        }
    }
    assert(crate::codec::all_of::<T>(grown));
    assert(wf(CborV::Array(grown)));
    assert(g == set_tree(v.tag_policy, grown));
    assert(wf(g));
    assert(TaggedSet::<T>::of_tree(g) is Some);
    match first_at(v.fields, key, 0) {
        Some(i) => {
            assert forall|a: int, b: int| 0 <= a < b < w.fields.len() implies (
            #[trigger] w.fields[a]).0 != (#[trigger] w.fields[b]).0 by {
                assert(w.fields[a].0 == v.fields[a].0);
                assert(w.fields[b].0 == v.fields[b].0);
            }
            assert forall|j: int| 0 <= j < w.fields.len() implies witness_field_ok(
                (#[trigger] w.fields[j]).0,
                w.fields[j].1,
            ) && wf(w.fields[j].1) by {
                if j != i {
                    assert(w.fields[j] == v.fields[j]);
                    assert(witness_field_ok(v.fields[j].0, v.fields[j].1));
                }
            }
        },
        None => {
            let p = slot_after(v.fields, key, 0);
            lemma_slot_after(v.fields, key, 0);
            assert forall|a: int, b: int| 0 <= a < b < w.fields.len() implies (
            #[trigger] w.fields[a]).0 != (#[trigger] w.fields[b]).0 by {
                let a0 = if a < p {
                    a
                } else {
                    a - 1
                };
                let b0 = if b < p {
                    b
                } else {
                    b - 1
                };
                if a != p && b != p {
                    assert(w.fields[a] == v.fields[a0]);
                    assert(w.fields[b] == v.fields[b0]);
                } else if a == p {
                    assert(w.fields[b] == v.fields[b0]);
                    assert(v.fields[b0].0 != key);
                } else {
                    assert(w.fields[a] == v.fields[a0]);
                    assert(v.fields[a0].0 != key);
                }
            }
            assert forall|j: int| 0 <= j < w.fields.len() implies witness_field_ok(
                (#[trigger] w.fields[j]).0,
                w.fields[j].1,
            ) && wf(w.fields[j].1) by {
                if j < p {
                    assert(w.fields[j] == v.fields[j]);
                    assert(witness_field_ok(v.fields[j].0, v.fields[j].1));
                } else if j > p {
                    assert(w.fields[j] == v.fields[j - 1]);
                    assert(witness_field_ok(v.fields[j - 1].0, v.fields[j - 1].1));
                }
            }
        },
    }
}

/// After a set has received an element, the field for its key holds the
/// grown set, and the field for every other key holds what it held.
pub proof fn lemma_with_element_fields(v: FixedWitnessesV, key: u64, elem: CborV, other: u64)
    requires
        other != key,
    ensures
        field(with_element(v, key, elem).fields, key) == Some(grown_set(v, key, elem)),
        field(with_element(v, key, elem).fields, other) == field(v.fields, other),
{
    let w = with_element(v, key, elem);
    crate::fields::lemma_first_at(v.fields, key, 0);
    crate::fields::lemma_first_at(v.fields, other, 0);
    crate::fields::lemma_first_at(w.fields, key, 0);
    crate::fields::lemma_first_at(w.fields, other, 0);
    match first_at(v.fields, key, 0) {
        Some(i) => {
            assert(w.fields[i].0 == key);
            match first_at(w.fields, key, 0) {
                Some(j) => {
                    if j < i {
                        assert(w.fields[j] == v.fields[j]);
                    }
                },
                None => {},
            }
            match (first_at(v.fields, other, 0), first_at(w.fields, other, 0)) {
                (Some(a), Some(b)) => {
                    assert(w.fields[a].0 == other);
                    assert(w.fields[b].0 == v.fields[b].0);
                },
                (Some(a), None) => {
                    assert(w.fields[a].0 == other);
                },
                (None, Some(b)) => {
                    assert(w.fields[b].0 == v.fields[b].0);
                },
                (None, None) => {},
            }
        },
        None => {
            let p = slot_after(v.fields, key, 0);
            lemma_slot_after(v.fields, key, 0);
            assert(w.fields[p].0 == key);
            match first_at(w.fields, key, 0) {
                Some(j) => {
                    if j < p {
                        assert(w.fields[j] == v.fields[j]);
                    }
                },
                None => {},
            }
            match (first_at(v.fields, other, 0), first_at(w.fields, other, 0)) {
                (Some(a), Some(b)) => {
                    let a1 = if a < p {
                        a
                    } else {
                        a + 1
                    };
                    assert(w.fields[a1] == v.fields[a]);
                    let b0 = if b < p {
                        b
                    } else {
                        b - 1
                    };
                    assert(w.fields[b] == v.fields[b0]);
                    if b0 < a {
                        assert(v.fields[b0].0 != other);
                    }
                    if a1 < b {
                        assert(w.fields[a1].0 != other);
                    }
                },
                (Some(a), None) => {
                    let a1 = if a < p {
                        a
                    } else {
                        a + 1
                    };
                    assert(w.fields[a1] == v.fields[a]);
                },
                (None, Some(b)) => {
                    let b0 = if b < p {
                        b
                    } else {
                        b - 1
                    };
                    assert(w.fields[b] == v.fields[b0]);
                },
                (None, None) => {},
            }
        },
    }
}

fn find_slot(f: &Vec<(u64, Cbor)>, key: u64) -> (r: usize)
    ensures
        r == slot_after(field_views(f@), key, 0),
        r <= f.len(),
{
    let mut i: usize = 0;
    while i < f.len()
        invariant
            i <= f.len(),
            slot_after(field_views(f@), key, 0) == slot_after(field_views(f@), key, i as int),
        decreases f.len() - i,
    {
        if f[i].0 > key {
            return i;
        }
        i += 1;
    }
    i
}

impl FixedTxWitnessesSet {
    /// A collection without fields, which writes its sets under the set
    /// tag until the policy is set.
    pub fn new_empty() -> (r: FixedTxWitnessesSet)
        ensures
            r@ == (FixedWitnessesV {
                fields: Seq::empty(),
                raw: Seq::empty(),
                tag_policy: true,
            }),
            kept_well(r@),
            r@.tag_policy == own_policy(r@.fields),
    {
        let r = FixedTxWitnessesSet {
            set: TransactionWitnessSet::new(),
            raw: Vec::new(),
            tag_policy: true,
        };
        assert(r@.raw =~= Seq::<Option<Seq<u8>>>::empty());
        r
    }

    /// Reads a witness set and keeps the bytes of each field's value. Until
    /// the policy is set, the sets are written bare where the witness set
    /// holds sets and none of them is under the set tag, else under the
    /// tag.
    pub fn from_bytes(bytes: Vec<u8>) -> (r: Result<FixedTxWitnessesSet, DecodeError>)
        ensures
            match r {
                Ok(f) => fixed_witnesses_of(bytes@) == Ok::<FixedWitnessesV, DecodeError>(f@)
                    && kept_well(f@) && TransactionWitnessSet::valid(f@.fields),
                Err(e) => fixed_witnesses_of(bytes@) == Err::<FixedWitnessesV, DecodeError>(e),
            },
    {
        let item = match from_bytes(bytes.as_slice()) {
            Some(item) => item,
            None => {
                return Err(DecodeError::NotAnItem);
            },
        };
        let set = match TransactionWitnessSet::from_item(&item) {
            Some(set) => set,
            None => {
                return Err(DecodeError::WrongShape);
            },
        };
        let n = set.fields.len();
        let ghost s = bytes@;
        let ghost ps = item@->Pairs_0;
        let h = match read_head(bytes.as_slice(), 0) {
            Some(h) => h,
            None => {
                return Err(DecodeError::NotAnItem);
            },
        };
        proof {
            assert(item_at(s, 0) == Some((item@, s.len() as int)));
            assert(item@ == CborV::Pairs(ps));
            assert(crate::fields::fields_of(ps) == Some(set@));
            assert((crate::fields::fields_of(ps)->0).len() == ps.len());
            assert(set@.len() == n);
            assert(ps.len() == n);
            if h.info != 31 {
                crate::cbor::laws::lemma_pairs_bounds(s, h.end as int, h.arg as nat);
            }
            if n > 0 {
                lemma_entry_span(s, ps, 0);
            }
        }
        let spans = match item_spans(bytes.as_slice(), h.end, 2 * n) {
            Some(spans) => spans,
            None => {
                return Err(DecodeError::NotAnItem);
            },
        };
        let mut raw: Vec<Option<Vec<u8>>> = Vec::new();
        let mut i: usize = 0;
        while i < n
            invariant
                s == bytes@,
                i <= n,
                spans.len() == 2 * n,
                raw.len() == i,
                forall|j: int|
                    0 <= j < 2 * n ==> item_span(s, h.end as int, j as nat) == Some(
                        ((#[trigger] spans@[j]).0 as int, spans@[j].1 as int),
                    ) && spans@[j].0 < spans@[j].1 <= bytes.len(),
                forall|j: int|
                    0 <= j < i ==> (#[trigger] raw_views(raw@)[j]) == value_part(
                        s,
                        h.end as int,
                        j,
                    ),
            decreases n - i,
        {
            let span = spans[2 * i + 1];
            let part = slice_to_vec(slice_subrange(bytes.as_slice(), span.0, span.1));
            proof {
                let old_views = raw_views(raw@);
                let new_views = raw_views(raw@.push(Some(part)));
                assert forall|j: int| 0 <= j < i implies new_views[j] == old_views[j] by {}
                assert(new_views[i as int] == Some(part@));
                assert(spans@[2 * i + 1] == span);
            }
            raw.push(Some(part));
            i += 1;
        }
        let tag_policy = witness_scan(&set.fields, true) || !witness_scan(&set.fields, false);
        let f = FixedTxWitnessesSet { set, raw, tag_policy };
        proof {
            assert(f@.raw =~= raw_views(raw@));
            assert forall|j: int| 0 <= j < n implies #[trigger] f@.raw[j] == value_part(
                s,
                h.end as int,
                j,
            ) && whole_item(f@.raw[j]->0) == Some(f@.fields[j].1) by {
                let sp = lemma_entry_span(s, ps, j);
                lemma_item_alone(s, sp.0, ps[j].1, sp.1);
                assert(ps[j].1 == f@.fields[j].1);
            }
            assert(f@.raw =~= fixed_witnesses_of(s)->Ok_0.raw);
            crate::cbor::laws::lemma_read_is_wf(s, 0);
            assert forall|j: int| 0 <= j < n implies wf((#[trigger] f@.fields[j]).1) by {
                assert(wf(ps[j].0) && wf(ps[j].1));
                assert(ps[j].1 == f@.fields[j].1);
            }
        }
        Ok(f)
    }

    /// The witness set, copied.
    pub fn tx_witnesses_set(&self) -> (r: TransactionWitnessSet)
        ensures
            r@ == self@.fields,
    {
        self.set.clone()
    }

    /// The witness set.
    pub fn tx_witnesses_set_ref(&self) -> (r: &TransactionWitnessSet)
        ensures
            r@ == self@.fields,
    {
        &self.set
    }

    /// Sets the form in which the sets are written.
    pub fn force_set_tags_for_new_witnesses(&mut self, set_tags: bool)
        ensures
            final(self)@ == (FixedWitnessesV { tag_policy: set_tags, ..old(self)@ }),
    {
        self.tag_policy = set_tags;
    }

    /// Puts an element into the set for `key`.
    fn add_element(&mut self, key: u64, elem: Cbor)
        ensures
            final(self)@ == with_element(old(self)@, key, elem@),
    {
        let ghost before = self@;
        match find_field(&self.set.fields, key) {
            Some(i) => {
                let mut elems: Vec<Cbor> = match read_set(&self.set.fields[i].1) {
                    Some((_, v)) => clone_items(v),
                    None => Vec::new(),
                };
                proof {
                    assert(item_views(elems@) =~= set_elems(before.fields[i as int].1));
                    assert(item_views(elems@.push(elem)) =~= item_views(elems@).push(elem@));
                }
                elems.push(elem);
                let item = set_item(self.tag_policy, elems);
                self.set.fields.set(i, (key, item));
                if i < self.raw.len() {
                    self.raw.set(i, None);
                }
                proof {
                    let after = with_element(before, key, elem@);
                    assert(self@.fields =~= after.fields);
                    assert(self@.raw =~= after.raw);
                }
            },
            None => {
                let p = find_slot(&self.set.fields, key);
                let mut elems: Vec<Cbor> = Vec::new();
                elems.push(elem);
                proof {
                    assert(item_views(elems@) =~= seq![elem@]);
                }
                let item = set_item(self.tag_policy, elems);
                self.set.fields.insert(p, (key, item));
                if p <= self.raw.len() {
                    self.raw.insert(p, None);
                }
                proof {
                    let after = with_element(before, key, elem@);
                    assert(self@.fields =~= after.fields);
                    assert(self@.raw =~= after.raw);
                }
            },
        }
    }

    /// Puts a key witness at the end of the key witnesses. The set is
    /// written in the form that the policy asks for from now on.
    pub fn add_vkey_witness(&mut self, vkey_witness: &Vkeywitness)
        ensures
            final(self)@ == with_element(old(self)@, 0, Vkeywitness::tree(vkey_witness@)),
    {
        self.add_element(0, vkey_witness.to_item());
    }

    /// Puts a bootstrap witness at the end of the bootstrap witnesses. The
    /// set is written in the form that the policy asks for from now on.
    pub fn add_bootstrap_witness(&mut self, bootstrap_witness: &BootstrapWitness)
        ensures
            final(self)@ == with_element(
                old(self)@,
                2,
                BootstrapWitness::tree(bootstrap_witness@),
            ),
    {
        self.add_element(2, bootstrap_witness.to_item());
    }

    /// The bytes of the collection, every set in the policy's form: fields
    /// that were not touched and are in that form as they were read, the
    /// others in canonical form.
    pub fn to_bytes(&self) -> (r: Vec<u8>)
        ensures
            r@ == witness_bytes(self@),
    {
        let mut out: Vec<u8> = Vec::new();
        let n = self.set.fields.len();
        push_head(&mut out, 5, n as u64);
        let ghost v = self@;
        let ghost w = enforced(self@);
        let ghost head = out@;
        let mut i: usize = 0;
        while i < n
            invariant
                v == self@,
                w == enforced(v),
                n == self.set.fields.len(),
                i <= n,
                out@ + parts_bytes(w, i as int) == head + parts_bytes(w, 0),
            decreases n - i,
        {
            let ghost before = out@;
            let key = self.set.fields[i].0;
            push_head(&mut out, 0, key);
            let anew = match read_set(&self.set.fields[i].1) {
                Some((tagged, elems)) => {
                    if key <= 7 && key != 5 && tagged != self.tag_policy {
                        let item = set_item(self.tag_policy, clone_items(elems));
                        encode_into(&item, &mut out);
                        true
                    } else {
                        false
                    }
                },
                None => false,
            };
            if !anew {
                let kept = if i < self.raw.len() {
                    match &self.raw[i] {
                        Some(b) => {
                            out.extend_from_slice(b.as_slice());
                            true
                        },
                        None => false,
                    }
                } else {
                    false
                };
                if !kept {
                    encode_into(&self.set.fields[i].1, &mut out);
                }
            }
            proof {
                let k = head_bytes(0, w.fields[i as int].0);
                let p = part_bytes(w, i as int);
                let rest = parts_bytes(w, i + 1);
                assert(w.fields[i as int].1 == formed(key, v.fields[i as int].1, v.tag_policy));
                assert(out@ == before + k + p);
                assert((before + k + p) + rest =~= before + (k + p + rest));
            }
            i += 1;
        }
        proof {
            assert(out@ + Seq::<u8>::empty() =~= out@);
            assert(out@ =~= witness_bytes(v));
        }
        out
    }
}

impl Clone for FixedTxWitnessesSet {
    fn clone(&self) -> (r: Self)
        ensures
            r@ == self@,
    {
        let mut raw: Vec<Option<Vec<u8>>> = Vec::new();
        let mut i: usize = 0;
        while i < self.raw.len()
            invariant
                i <= self.raw.len(),
                raw.len() == i,
                forall|j: int| 0 <= j < i ==> raw_views(raw@)[j] == raw_views(self.raw@)[j],
            decreases self.raw.len() - i,
        {
            let part = match &self.raw[i] {
                Some(b) => Some(slice_to_vec(b.as_slice())),
                None => None,
            };
            proof {
                let old_views = raw_views(raw@);
                let new_views = raw_views(raw@.push(part));
                assert forall|j: int| 0 <= j < i implies new_views[j] == old_views[j] by {}
                assert(new_views[i as int] == raw_views(self.raw@)[i as int]);
            }
            raw.push(part);
            i += 1;
        }
        proof {
            assert(raw_views(raw@) =~= raw_views(self.raw@));
        }
        FixedTxWitnessesSet { set: self.set.clone(), raw, tag_policy: self.tag_policy }
    }
}

} // verus!
