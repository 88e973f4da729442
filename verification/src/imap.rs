//! Resource counts live in an `indexmap::IndexMap<String, u32>`: an ordered
//! map that keeps its entries in insertion order.
//!
//! Verus does not read the map's implementation, so its contents are named
//! by the uninterpreted function [`im_seq`]: the entries of the map, in
//! order, as pairs of a key's character sequence and its value. Each
//! operation the engine uses is declared here with a contract over
//! [`im_seq`] that states what the crate's documentation and source show.

use vstd::prelude::*;

verus! {

#[verifier::external_type_specification]
#[verifier::external_body]
#[verifier::reject_recursive_types(K)]
#[verifier::reject_recursive_types(V)]
#[verifier::reject_recursive_types(S)]
pub struct ExIndexMap<K, V, S>(indexmap::IndexMap<K, V, S>);

/// The entries of the map in insertion order, each key as its character
/// sequence.
pub uninterp spec fn im_seq(m: indexmap::IndexMap<String, u32>) -> Seq<(Seq<char>, u32)>;

/// The value stored under `id` in an association list, if any: the first
/// entry whose key matches.
pub open spec fn lookup(s: Seq<(Seq<char>, u32)>, id: Seq<char>) -> Option<u32>
    decreases s.len(),
{
    if s.len() == 0 {
        None
    } else if s[0].0 == id {
        Some(s[0].1)
    } else {
        lookup(s.drop_first(), id)
    }
}

/// An association list after storing `value` under `id`: an existing entry
/// keeps its place with the new value, a new entry is appended last.
pub open spec fn upsert(s: Seq<(Seq<char>, u32)>, id: Seq<char>, value: u32) -> Seq<
    (Seq<char>, u32),
>
    decreases s.len(),
{
    if s.len() == 0 {
        seq![(id, value)]
    } else if s[0].0 == id {
        seq![(id, value)] + s.drop_first()
    } else {
        seq![s[0]] + upsert(s.drop_first(), id, value)
    }
}

/// Storing under `id` changes the entry for `id` and nothing else.
pub proof fn lemma_lookup_upsert(
    s: Seq<(Seq<char>, u32)>,
    id: Seq<char>,
    value: u32,
    q: Seq<char>,
)
    ensures
        lookup(upsert(s, id, value), q) == if q == id {
            Some(value)
        } else {
            lookup(s, q)
        },
    decreases s.len(),
{
    reveal_with_fuel(lookup, 3);
    reveal_with_fuel(upsert, 2);
    if s.len() == 0 {
        let u = upsert(s, id, value);
        assert(u == seq![(id, value)]);
        assert(u.drop_first() =~= Seq::<(Seq<char>, u32)>::empty());
    } else if s[0].0 == id {
        let u = upsert(s, id, value);
        assert(u == seq![(id, value)] + s.drop_first());
        assert(u[0] == (id, value));
        assert(u.drop_first() =~= s.drop_first());
    } else {
        let u = upsert(s, id, value);
        assert(u == seq![s[0]] + upsert(s.drop_first(), id, value));
        assert(u[0] == s[0]);
        assert(u.drop_first() =~= upsert(s.drop_first(), id, value));
        lemma_lookup_upsert(s.drop_first(), id, value, q);
    }
}

/// An association list none of whose keys is `q` has no entry for `q`.
pub proof fn lemma_lookup_absent(s: Seq<(Seq<char>, u32)>, q: Seq<char>)
    requires
        forall|i: int| 0 <= i < s.len() ==> s[i].0 != q,
    ensures
        lookup(s, q) is None,
    decreases s.len(),
{
    if s.len() > 0 {
        lemma_lookup_absent(s.drop_first(), q);
    }
}

/// An association list one of whose keys is `q` has an entry for `q`.
pub proof fn lemma_lookup_present(s: Seq<(Seq<char>, u32)>, q: Seq<char>, k: int)
    requires
        0 <= k < s.len(),
        s[k].0 == q,
    ensures
        lookup(s, q) is Some,
    decreases s.len(),
{
    if s[0].0 != q {
        lemma_lookup_present(s.drop_first(), q, k - 1);
    }
}

/// Relies on `indexmap::IndexMap::new`: the new map is empty.
#[verifier::external_body]
pub(crate) fn im_new() -> (m: indexmap::IndexMap<String, u32>)
    ensures
        im_seq(m) == Seq::<(Seq<char>, u32)>::empty(),
{
    indexmap::IndexMap::new()
}

/// Relies on `indexmap::IndexMap::get`: the value stored for the key, if it
/// is present, else `None`.
#[verifier::external_body]
pub(crate) fn im_get(m: &indexmap::IndexMap<String, u32>, id: &str) -> (r: Option<u32>)
    ensures
        r == lookup(im_seq(*m), id@),
{
    m.get(id).copied()
}

/// Relies on `indexmap::IndexMap::insert`: an equivalent key keeps its place
/// in the order with its value updated; a new key is appended last.
#[verifier::external_body]
pub(crate) fn im_insert(m: &mut indexmap::IndexMap<String, u32>, id: String, value: u32)
    ensures
        im_seq(*final(m)) == upsert(im_seq(*old(m)), id@, value),
{
    m.insert(id, value);
}

/// Relies on `indexmap::IndexMap::iter`: yields every entry, in order.
#[verifier::external_body]
pub(crate) fn im_entries(m: &indexmap::IndexMap<String, u32>) -> (r: Vec<(String, u32)>)
    ensures
        r.deep_view() == im_seq(*m),
{
    m.iter().map(|(k, v)| (k.clone(), *v)).collect()
}

} // verus!
