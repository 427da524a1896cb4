//! How a typed value goes to a data item and back, and from there to bytes
//! and to text.

use crate::ascii::ascii_string;
use crate::cbor::decode::{from_bytes, whole_item};
use crate::cbor::encode::{encode, to_bytes};
use crate::cbor::item::{item_views, lemma_view_of_lists, Cbor, CborV};
use crate::cbor::laws::{lemma_read_is_wf, lemma_round_trip, wf};
use crate::hex::{from_hex, hex, to_hex, unhex};
use crate::text::grammar::{render, whole_text};
use crate::text::laws::{lemma_render_ascii, lemma_text_is_wf, lemma_text_round_trip};
use crate::text::read::from_text;
use crate::text::write::to_text;
use vstd::prelude::*;
use vstd::utf8::encode_utf8;

verus! {

/// Why bytes or text were refused.
#[derive(Clone, Copy, Debug, PartialEq, Eq, Structural)]
pub enum DecodeError {
    /// The text is not an even number of hexadecimal digits.
    NotHex,
    /// The text is not the text form of a data item.
    NotText,
    /// The bytes are not exactly one well-formed data item.
    NotAnItem,
    /// The item is well formed but is not of the expected structure.
    WrongShape,
    /// A value handed to a constructor is out of its range.
    OutOfRange,
}

/// The array that holds the given bytes.
pub open spec fn array_with<const N: usize>(b: Seq<u8>) -> [u8; N] {
    choose|a: [u8; N]| a@ == b
}

/// An array whose first `k` bytes are those of `b`.
pub open spec fn array_upto<const N: usize>(b: Seq<u8>, k: nat) -> [u8; N]
    decreases k,
{
    if k == 0 {
        vstd::array::spec_array_fill_for_copy_type::<u8, N>(0u8)
    } else {
        vstd::array::spec_array_update(array_upto::<N>(b, (k - 1) as nat), k - 1, b[k - 1])
    }
}

proof fn lemma_array_upto<const N: usize>(b: Seq<u8>, k: nat)
    requires
        b.len() == N,
        k <= N,
    ensures
        array_upto::<N>(b, k)@.len() == N,
        forall|i: int| 0 <= i < k ==> array_upto::<N>(b, k)@[i] == b[i],
    decreases k,
{
    broadcast use vstd::array::array_len_matches_n;

    if k == 0 {
        vstd::array::array_len_matches_n(
            &vstd::array::spec_array_fill_for_copy_type::<u8, N>(0u8),
        );
    } else {
        lemma_array_upto::<N>(b, (k - 1) as nat);
        let before = array_upto::<N>(b, (k - 1) as nat);
        vstd::array::axiom_spec_array_update(before, k - 1, b[k - 1]);
    }
}

/// For every `N` bytes there is the array that holds them.
pub proof fn lemma_array_of<const N: usize>(b: Seq<u8>)
    requires
        b.len() == N,
    ensures
        array_with::<N>(b)@ == b,
{
    lemma_array_upto::<N>(b, N as nat);
    let a = array_upto::<N>(b, N as nat);
    assert(a@ =~= b);
}

/// The array that holds the bytes of an array is that array.
pub proof fn lemma_array_with<const N: usize>(a: [u8; N])
    ensures
        array_with::<N>(a@) == a,
{
    let c = array_with::<N>(a@);
    assert(c@ == a@);
    assert(c =~= a);
}

/// The number that an unsigned-integer item holds.
pub open spec fn uint_of(t: CborV) -> Option<u64> {
    match t {
        CborV::Uint(n) => Some(n),
        _ => None,
    }
}

/// The `N` bytes that a byte-string item of that length holds.
pub open spec fn bytes_of<const N: usize>(t: CborV) -> Option<[u8; N]> {
    match t {
        CborV::Bytes(b) => if b.len() == N {
            Some(array_with::<N>(b))
        } else {
            None
        },
        _ => None,
    }
}

/// The elements of an array item.
pub open spec fn elems_of(t: CborV) -> Option<Seq<CborV>> {
    match t {
        CborV::Array(v) => Some(v),
        _ => None,
    }
}

/// The item `null`.
pub open spec fn null() -> CborV {
    CborV::Simple(22)
}

/// The text that a text item of at most 128 bytes holds.
pub open spec fn text_of(t: CborV) -> Option<Seq<u8>> {
    match t {
        CborV::Text(b) => if b.len() <= 128 {
            Some(b)
        } else {
            None
        },
        _ => None,
    }
}

/// The elements of an array item of `n` elements whose first is the
/// unsigned integer `index`.
pub open spec fn record_of(t: CborV, index: u64, n: nat) -> Option<Seq<CborV>> {
    match t {
        CborV::Array(v) => if v.len() == n && n > 0 && v[0] == CborV::Uint(index) {
            Some(v)
        } else {
            None
        },
        _ => None,
    }
}

/// The elements of an array item of `n` elements.
pub open spec fn sized_of(t: CborV, n: nat) -> Option<Seq<CborV>> {
    match t {
        CborV::Array(v) => if v.len() == n {
            Some(v)
        } else {
            None
        },
        _ => None,
    }
}

/// The number that leads an array item.
pub open spec fn index_of(t: CborV) -> Option<u64> {
    match t {
        CborV::Array(v) => if v.len() > 0 {
            uint_of(v[0])
        } else {
            None
        },
        _ => None,
    }
}

/// A value or `null`.
pub open spec fn opt_tree<T: Codec>(v: Option<T::V>) -> CborV {
    match v {
        Some(x) => T::tree(x),
        None => null(),
    }
}

/// The value that an item holds, or none where the item is `null`.
pub open spec fn opt_of_tree<T: Codec>(t: CborV) -> Option<Option<T::V>> {
    if t == null() {
        Some(None)
    } else {
        match T::of_tree(t) {
            Some(x) => Some(Some(x)),
            None => None,
        }
    }
}

/// The view of an optional value.
pub open spec fn opt_view<T: View>(o: Option<T>) -> Option<T::V> {
    match o {
        Some(x) => Some(x@),
        None => None,
    }
}

/// A set of items: an array, bare or under tag 258.
pub open spec fn set_tree(tagged: bool, items: Seq<CborV>) -> CborV {
    if tagged {
        CborV::Tag(258, Box::new(CborV::Array(items)))
    } else {
        CborV::Array(items)
    }
}

/// Whether a set item is under tag 258, and its elements.
pub open spec fn set_of(t: CborV) -> Option<(bool, Seq<CborV>)> {
    match t {
        CborV::Array(v) => Some((false, v)),
        CborV::Tag(tag, inner) => match *inner {
            CborV::Array(v) => if tag == 258 {
                Some((true, v))
            } else {
                None
            },
            _ => None,
        },
        _ => None,
    }
}

/// The elements of an array item of `n` elements led by `index`.
pub fn read_record(item: &Cbor, index: u64, n: usize) -> (r: Option<&Vec<Cbor>>)
    ensures
        match r {
            Some(v) => record_of(item@, index, n as nat) == Some(item_views(v@)) && v.len() == n,
            None => record_of(item@, index, n as nat) is None,
        },
{
    proof {
        lemma_view_of_lists(*item);
    }
    match item {
        Cbor::Array(v) => {
            if v.len() == n && n > 0 {
                match &v[0] {
                    Cbor::Uint(k) => if *k == index {
                        Some(v)
                    } else {
                        None
                    },
                    _ => None,
                }
            } else {
                None
            }
        },
        _ => None,
    }
}

/// The elements of an array item of `n` elements.
pub fn read_sized(item: &Cbor, n: usize) -> (r: Option<&Vec<Cbor>>)
    ensures
        match r {
            Some(v) => sized_of(item@, n as nat) == Some(item_views(v@)) && v.len() == n,
            None => sized_of(item@, n as nat) is None,
        },
{
    proof {
        lemma_view_of_lists(*item);
    }
    match item {
        Cbor::Array(v) => if v.len() == n {
            Some(v)
        } else {
            None
        },
        _ => None,
    }
}

/// The number that leads an array item.
pub fn read_index(item: &Cbor) -> (r: Option<u64>)
    ensures
        r == index_of(item@),
{
    proof {
        lemma_view_of_lists(*item);
    }
    match item {
        Cbor::Array(v) => if v.len() > 0 {
            read_uint(&v[0])
        } else {
            None
        },
        _ => None,
    }
}

/// Whether a set item is under the set tag, and its elements.
pub fn read_set(item: &Cbor) -> (r: Option<(bool, &Vec<Cbor>)>)
    ensures
        match r {
            Some((tagged, v)) => set_of(item@) == Some((tagged, item_views(v@))),
            None => set_of(item@) is None,
        },
{
    proof {
        lemma_view_of_lists(*item);
    }
    match item {
        Cbor::Array(v) => Some((false, v)),
        Cbor::Tag(tag, inner) => {
            proof {
                lemma_view_of_lists(**inner);
            }
            match &**inner {
                Cbor::Array(v) => if *tag == 258 {
                    Some((true, v))
                } else {
                    None
                },
                _ => None,
            }
        },
        _ => None,
    }
}

/// The set item of the given form with the given elements.
pub fn set_item(tagged: bool, v: Vec<Cbor>) -> (r: Cbor)
    ensures
        r@ == set_tree(tagged, item_views(v@)),
{
    let a = array_item(v);
    if tagged {
        let r = Cbor::Tag(258, Box::new(a));
        proof {
            lemma_view_of_lists(r);
        }
        r
    } else {
        a
    }
}

/// The item of a value, or `null`.
pub fn opt_to_item<T: Codec>(v: &Option<T>) -> (r: Cbor)
    ensures
        r@ == opt_tree::<T>(opt_view(*v)),
{
    match v {
        Some(x) => x.to_item(),
        None => Cbor::Simple(22),
    }
}

/// The value that an item holds, or none where the item is `null`.
pub fn opt_from_item<T: Codec>(item: &Cbor) -> (r: Option<Option<T>>)
    ensures
        match r {
            Some(x) => opt_of_tree::<T>(item@) == Some(opt_view(x)),
            None => opt_of_tree::<T>(item@) is None,
        },
{
    if is_null(item) {
        Some(None)
    } else {
        match T::from_item(item) {
            Some(x) => Some(Some(x)),
            None => None,
        }
    }
}

/// The number that an unsigned-integer item holds.
pub fn read_uint(item: &Cbor) -> (r: Option<u64>)
    ensures
        r == uint_of(item@),
{
    match item {
        Cbor::Uint(n) => Some(*n),
        _ => None,
    }
}

/// The `N` bytes that a byte-string item of that length holds.
pub fn read_bytes<const N: usize>(item: &Cbor) -> (r: Option<[u8; N]>)
    ensures
        r == bytes_of::<N>(item@),
{
    match item {
        Cbor::Bytes(b) => {
            if b.len() == N {
                let a: [u8; N] = crate::crypto::array_from(b.as_slice(), 0);
                proof {
                    assert(b@.subrange(0, N as int) =~= b@);
                    lemma_array_with(a);
                }
                Some(a)
            } else {
                None
            }
        },
        _ => None,
    }
}

/// The elements of an array item.
pub fn read_elems(item: &Cbor) -> (r: Option<&Vec<Cbor>>)
    ensures
        match r {
            Some(v) => elems_of(item@) == Some(item_views(v@)),
            None => elems_of(item@) is None,
        },
{
    proof {
        lemma_view_of_lists(*item);
    }
    match item {
        Cbor::Array(v) => Some(v),
        _ => None,
    }
}

/// Whether the item is `null`.
pub fn is_null(item: &Cbor) -> (r: bool)
    ensures
        r == (item@ == null()),
{
    match item {
        Cbor::Simple(v) => *v == 22,
        _ => false,
    }
}

/// The byte-string item that holds the bytes.
pub fn bytes_item(b: &[u8]) -> (r: Cbor)
    ensures
        r@ == CborV::Bytes(b@),
{
    Cbor::Bytes(vstd::slice::slice_to_vec(b))
}

/// The array item with the given elements.
pub fn array_item(v: Vec<Cbor>) -> (r: Cbor)
    ensures
        r@ == CborV::Array(item_views(v@)),
{
    let r = Cbor::Array(v);
    proof {
        lemma_view_of_lists(r);
    }
    r
}

/// A type of values that travel as data items.
pub trait Codec: View + Sized {
    /// The data item that a value is written as.
    spec fn tree(v: Self::V) -> CborV;

    /// The value that a data item stands for, if it is of the type's
    /// structure.
    spec fn of_tree(t: CborV) -> Option<Self::V>;

    /// The values of the type that can be written and read back: lengths and
    /// numbers within the bounds that the structure sets.
    spec fn valid(v: Self::V) -> bool;

    /// A valid value is read back from the item it was written as, and that
    /// item is well formed.
    proof fn lemma_tree_round_trip(v: Self::V)
        requires
            Self::valid(v),
        ensures
            Self::of_tree(Self::tree(v)) == Some(v),
            wf(Self::tree(v)),
    ;

    /// A second value that holds the same.
    fn dup(&self) -> (r: Self)
        ensures
            r@ == self@,
    ;

    /// What is read from a well-formed item is valid, and is the value
    /// that is written as that item: reading loses nothing.
    proof fn lemma_read_exact(t: CborV)
        requires
            wf(t),
            Self::of_tree(t) is Some,
        ensures
            Self::valid(Self::of_tree(t)->0),
            Self::tree(Self::of_tree(t)->0) == t,
    ;

    fn to_item(&self) -> (r: Cbor)
        ensures
            r@ == Self::tree(self@),
    ;

    fn from_item(item: &Cbor) -> (r: Option<Self>)
        ensures
            match r {
                Some(x) => Self::of_tree(item@) == Some(x@),
                None => Self::of_tree(item@) is None,
            },
    ;

    /// The canonical bytes of the value.
    fn to_bytes(&self) -> (r: Vec<u8>)
        ensures
            r@ == encode(Self::tree(self@)),
    {
        to_bytes(&self.to_item())
    }

    /// Reads a value from bytes that hold exactly one item of its structure.
    fn from_bytes(bytes: Vec<u8>) -> (r: Result<Self, DecodeError>)
        ensures
            match r {
                Ok(x) => whole_item(bytes@) matches Some(t) && Self::of_tree(t) == Some(x@)
                    && Self::tree(x@) == t && Self::valid(x@),
                Err(e) => match whole_item(bytes@) {
                    None => e == DecodeError::NotAnItem,
                    Some(t) => e == DecodeError::WrongShape && Self::of_tree(t) is None,
                },
            },
    {
        match from_bytes(bytes.as_slice()) {
            None => Err(DecodeError::NotAnItem),
            Some(item) => match Self::from_item(&item) {
                None => Err(DecodeError::WrongShape),
                Some(x) => {
                    proof {
                        lemma_read_is_wf(bytes@, 0);
                        Self::lemma_read_exact(item@);
                    }
                    Ok(x)
                },
            },
        }
    }

    /// The canonical bytes of the value, in hexadecimal.
    fn to_hex(&self) -> (r: String)
        ensures
            encode_utf8(r@) == hex(encode(Self::tree(self@))),
    {
        let b = self.to_bytes();
        to_hex(b.as_slice())
    }

    /// The text form of the value. Always succeeds.
    fn to_json(&self) -> (r: Result<String, DecodeError>)
        ensures
            r matches Ok(text) && encode_utf8(text@) == render(Self::tree(self@)),
    {
        let item = self.to_item();
        let text = to_text(&item);
        proof {
            lemma_render_ascii(item@);
        }
        Ok(ascii_string(text))
    }

    /// Reads a value from its text form.
    fn from_json(json: &str) -> (r: Result<Self, DecodeError>)
        ensures
            match r {
                Ok(x) => whole_text(encode_utf8(json@)) matches Some(t) && Self::of_tree(t)
                    == Some(x@) && Self::tree(x@) == t && Self::valid(x@),
                Err(e) => match whole_text(encode_utf8(json@)) {
                    None => e == DecodeError::NotText,
                    Some(t) => e == DecodeError::WrongShape && Self::of_tree(t) is None,
                },
            },
    {
        let text = json.as_bytes();
        let size = text.len();
        match from_text(text) {
            None => Err(DecodeError::NotText),
            Some(item) => match Self::from_item(&item) {
                None => Err(DecodeError::WrongShape),
                Some(x) => {
                    proof {
                        assert(text@.len() == size);
                        lemma_text_is_wf(text@, 0);
                        Self::lemma_read_exact(item@);
                    }
                    Ok(x)
                },
            },
        }
    }

    /// Reads a value from the hexadecimal text of its bytes.
    fn from_hex(text: &str) -> (r: Result<Self, DecodeError>)
        ensures
            match r {
                Ok(x) => unhex(encode_utf8(text@)) matches Some(b) && whole_item(b) matches Some(t)
                    && Self::of_tree(t) == Some(x@) && Self::tree(x@) == t && Self::valid(x@),
                Err(e) => match unhex(encode_utf8(text@)) {
                    None => e == DecodeError::NotHex,
                    Some(b) => match whole_item(b) {
                        None => e == DecodeError::NotAnItem,
                        Some(t) => e == DecodeError::WrongShape && Self::of_tree(t) is None,
                    },
                },
            },
    {
        match from_hex(text) {
            None => Err(DecodeError::NotHex),
            Some(b) => Self::from_bytes(b),
        }
    }
}

/// The views of a run of values.
pub open spec fn views<T: View>(s: Seq<T>) -> Seq<T::V> {
    Seq::new(s.len(), |i: int| s[i]@)
}

/// The items that a run of values is written as.
pub open spec fn trees<T: Codec>(vs: Seq<T::V>) -> Seq<CborV> {
    Seq::new(vs.len(), |i: int| T::tree(vs[i]))
}

/// Every item of the run is of the type's structure.
pub open spec fn all_of<T: Codec>(ts: Seq<CborV>) -> bool {
    forall|i: int| 0 <= i < ts.len() ==> T::of_tree(#[trigger] ts[i]) is Some
}

/// The values that a run of items stands for, if each is of the type's
/// structure.
pub open spec fn of_trees<T: Codec>(ts: Seq<CborV>) -> Option<Seq<T::V>> {
    if all_of::<T>(ts) {
        Some(Seq::new(ts.len(), |i: int| T::of_tree(ts[i])->0))
    } else {
        None
    }
}

/// Every value of the run is valid.
pub open spec fn all_valid<T: Codec>(vs: Seq<T::V>) -> bool {
    forall|i: int| 0 <= i < vs.len() ==> T::valid(#[trigger] vs[i])
}

/// A run of valid values is read back from the items it was written as.
pub proof fn lemma_trees_round_trip<T: Codec>(vs: Seq<T::V>)
    requires
        all_valid::<T>(vs),
        vs.len() <= u64::MAX,
    ensures
        of_trees::<T>(trees::<T>(vs)) == Some(vs),
        wf(CborV::Array(trees::<T>(vs))),
{
    let ts = trees::<T>(vs);
    assert forall|i: int| 0 <= i < ts.len() implies T::of_tree(#[trigger] ts[i]) == Some(vs[i])
        && wf(ts[i]) by {
        T::lemma_tree_round_trip(vs[i]);
    }
    assert(of_trees::<T>(ts)->0 =~= vs);
}

/// A run of values read from well-formed items is valid, and is written as
/// those items.
pub proof fn lemma_trees_read_exact<T: Codec>(ts: Seq<CborV>)
    requires
        forall|i: int| 0 <= i < ts.len() ==> wf(#[trigger] ts[i]),
        of_trees::<T>(ts) is Some,
    ensures
        all_valid::<T>(of_trees::<T>(ts)->0),
        trees::<T>(of_trees::<T>(ts)->0) == ts,
{
    let vs = of_trees::<T>(ts)->0;
    assert forall|i: int| 0 <= i < vs.len() implies T::valid(#[trigger] vs[i]) && T::tree(vs[i])
        == ts[i] by {
        assert(wf(ts[i]));
        assert(T::of_tree(ts[i]) is Some);
        T::lemma_read_exact(ts[i]);
    }
    assert(trees::<T>(vs) =~= ts);
}

/// Writes each value of a run as an item.
pub fn items_of<T: Codec>(v: &Vec<T>) -> (r: Vec<Cbor>)
    ensures
        item_views(r@) == trees::<T>(views(v@)),
{
    let mut out: Vec<Cbor> = Vec::new();
    let mut i: usize = 0;
    while i < v.len()
        invariant
            i <= v.len(),
            out.len() == i,
            forall|j: int| 0 <= j < i ==> out@[j]@ == T::tree(v@[j]@),
        decreases v.len() - i,
    {
        out.push(v[i].to_item());
        i += 1;
    }
    assert(item_views(out@) =~= trees::<T>(views(v@)));
    out
}

/// Reads each item of a run as a value.
pub fn values_of<T: Codec>(items: &Vec<Cbor>) -> (r: Option<Vec<T>>)
    ensures
        match r {
            Some(x) => of_trees::<T>(item_views(items@)) == Some(views(x@)),
            None => of_trees::<T>(item_views(items@)) is None,
        },
{
    let mut out: Vec<T> = Vec::new();
    let mut i: usize = 0;
    while i < items.len()
        invariant
            i <= items.len(),
            out.len() == i,
            forall|j: int| 0 <= j < i ==> T::of_tree(items@[j]@) == Some(out@[j]@),
        decreases items.len() - i,
    {
        match T::from_item(&items[i]) {
            Some(x) => {
                out.push(x);
            },
            None => {
                proof {
                    let ts = item_views(items@);
                    assert(T::of_tree(ts[i as int]) is None);
                }
                return None;
            },
        }
        i += 1;
    }
    proof {
        let ts = item_views(items@);
        assert forall|j: int| 0 <= j < ts.len() implies T::of_tree(#[trigger] ts[j]) is Some by {
            assert(T::of_tree(items@[j]@) == Some(out@[j]@));
        }
        assert(of_trees::<T>(ts)->0 =~= views(out@));
    }
    Some(out)
}

/// A second run of values that hold the same.
pub fn dup_all<T: Codec>(v: &Vec<T>) -> (r: Vec<T>)
    ensures
        views(r@) == views(v@),
{
    let mut out: Vec<T> = Vec::new();
    let mut i: usize = 0;
    while i < v.len()
        invariant
            i <= v.len(),
            out.len() == i,
            forall|j: int| 0 <= j < i ==> out@[j]@ == v@[j]@,
        decreases v.len() - i,
    {
        out.push(v[i].dup());
        i += 1;
    }
    assert(views(out@) =~= views(v@));
    out
}

/// A set of values in the order written, with the form the set is written
/// in: a bare array, or an array under the set tag 258.
#[derive(Debug, PartialEq, Eq)]
pub struct TaggedSet<T> {
    pub items: Vec<T>,
    pub tagged: bool,
}

/// What a `TaggedSet` holds.
pub struct SetV<A> {
    pub items: Seq<A>,
    pub tagged: bool,
}

impl<T: View> View for TaggedSet<T> {
    type V = SetV<T::V>;

    open spec fn view(&self) -> SetV<T::V> {
        SetV { items: views(self.items@), tagged: self.tagged }
    }
}

impl<T: Codec> Clone for TaggedSet<T> {
    fn clone(&self) -> (r: Self)
        ensures
            r@ == self@,
    {
        TaggedSet { items: dup_all(&self.items), tagged: self.tagged }
    }
}

impl<T: Codec> TaggedSet<T> {
    /// An empty set, to be written under the set tag.
    pub fn new() -> (r: Self)
        ensures
            r@ == (SetV::<T::V> { items: Seq::empty(), tagged: true }),
    {
        let r = TaggedSet { items: Vec::new(), tagged: true };
        assert(r@.items =~= Seq::<T::V>::empty());
        r
    }

    pub fn len(&self) -> (n: usize)
        ensures
            n == self@.items.len(),
    {
        self.items.len()
    }

    /// The value at `index`, which must be below `len()`.
    pub fn get(&self, index: usize) -> (r: T)
        requires
            index < self@.items.len(),
        ensures
            r@ == self@.items[index as int],
    {
        self.items[index].dup()
    }

    /// Puts a value at the end.
    pub fn add(&mut self, item: &T)
        ensures
            final(self)@ == (SetV::<T::V> {
                items: old(self)@.items.push(item@),
                tagged: old(self)@.tagged,
            }),
    {
        self.items.push(item.dup());
        assert(self@.items =~= old(self)@.items.push(item@));
    }
}

impl<T: Codec> Codec for TaggedSet<T> {
    open spec fn tree(v: SetV<T::V>) -> CborV {
        set_tree(v.tagged, trees::<T>(v.items))
    }

    open spec fn of_tree(t: CborV) -> Option<SetV<T::V>> {
        match set_of(t) {
            Some((tagged, e)) => match of_trees::<T>(e) {
                Some(items) => Some(SetV { items, tagged }),
                None => None,
            },
            None => None,
        }
    }

    open spec fn valid(v: SetV<T::V>) -> bool {
        all_valid::<T>(v.items) && v.items.len() <= u64::MAX
    }

    proof fn lemma_tree_round_trip(v: SetV<T::V>) {
        lemma_trees_round_trip::<T>(v.items);
    }

    proof fn lemma_read_exact(t: CborV) {
        let e = (set_of(t)->0).1;
        match t {
            CborV::Tag(_, inner) => {
                assert(wf(*inner));
            },
            _ => {},
        }
        lemma_trees_read_exact::<T>(e);
    }

    fn dup(&self) -> (r: Self) {
        self.clone()
    }

    fn to_item(&self) -> (r: Cbor) {
        set_item(self.tagged, items_of(&self.items))
    }

    fn from_item(item: &Cbor) -> (r: Option<Self>) {
        match read_set(item) {
            Some((tagged, e)) => match values_of::<T>(e) {
                Some(items) => Some(TaggedSet { items, tagged }),
                None => None,
            },
            None => None,
        }
    }
}

/// What bytes decode to: the value of the one item they hold.
pub open spec fn of_bytes<T: Codec>(b: Seq<u8>) -> Result<T::V, DecodeError> {
    match whole_item(b) {
        None => Err(DecodeError::NotAnItem),
        Some(t) => match T::of_tree(t) {
            None => Err(DecodeError::WrongShape),
            Some(v) => Ok(v),
        },
    }
}

/// What hexadecimal text decodes to.
pub open spec fn of_hex<T: Codec>(text: Seq<u8>) -> Result<T::V, DecodeError> {
    match unhex(text) {
        None => Err(DecodeError::NotHex),
        Some(b) => of_bytes::<T>(b),
    }
}

/// What the text form decodes to.
pub open spec fn of_text<T: Codec>(text: Seq<u8>) -> Result<T::V, DecodeError> {
    match whole_text(text) {
        None => Err(DecodeError::NotText),
        Some(t) => match T::of_tree(t) {
            None => Err(DecodeError::WrongShape),
            Some(v) => Ok(v),
        },
    }
}

/// Decoding the text form of a valid value gives the value back.
pub proof fn law_text_round_trip<T: Codec>(v: T::V)
    requires
        T::valid(v),
    ensures
        of_text::<T>(render(T::tree(v))) == Ok::<T::V, DecodeError>(v),
{
    T::lemma_tree_round_trip(v);
    lemma_text_round_trip(T::tree(v));
}

/// What was read from bytes is read again from its canonical bytes: bytes
/// in another form than the canonical one stand for the same value.
pub proof fn law_read_again<T: Codec>(b: Seq<u8>)
    requires
        b.len() <= u64::MAX,
        of_bytes::<T>(b) is Ok,
    ensures
        T::valid(of_bytes::<T>(b)->Ok_0),
        T::tree(of_bytes::<T>(b)->Ok_0) == whole_item(b)->0,
        of_bytes::<T>(encode(T::tree(of_bytes::<T>(b)->Ok_0))) == of_bytes::<T>(b),
{
    let t = whole_item(b)->0;
    lemma_read_is_wf(b, 0);
    T::lemma_read_exact(t);
    law_bytes_round_trip::<T>(of_bytes::<T>(b)->Ok_0);
}

/// Decoding the canonical bytes of a valid value gives the value back.
pub proof fn law_bytes_round_trip<T: Codec>(v: T::V)
    requires
        T::valid(v),
    ensures
        of_bytes::<T>(encode(T::tree(v))) == Ok::<T::V, DecodeError>(v),
{
    T::lemma_tree_round_trip(v);
    lemma_round_trip(T::tree(v));
}

/// Decoding the hexadecimal text of a valid value gives the value back.
pub proof fn law_hex_round_trip<T: Codec>(v: T::V)
    requires
        T::valid(v),
    ensures
        of_hex::<T>(hex(encode(T::tree(v)))) == Ok::<T::V, DecodeError>(v),
{
    law_bytes_round_trip::<T>(v);
    crate::hex::lemma_unhex_hex(encode(T::tree(v)));
}

} // verus!
