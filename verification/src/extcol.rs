//! The two outside collections the scene leans on, with their contracts.
//!
//! The mesh registry keys meshes by their 64-bit name hash in a
//! `litemap::LiteMap` (a sorted-vector map), and the scene/physics bridge
//! keeps the bijection between composite instance ids and physics handle
//! pairs in a `bimap::BiHashMap`. Both types are opaque to the verifier;
//! their contents are named by an abstract `Map` model and every method the
//! library calls goes through a wrapper whose contract states, over that
//! model, what the crate's source shows.

use vstd::prelude::*;

verus! {

#[verifier::external_type_specification]
#[verifier::external_body]
#[verifier::reject_recursive_types(K)]
#[verifier::reject_recursive_types(V)]
#[verifier::reject_recursive_types(S)]
pub struct ExLiteMap<K: ?Sized, V: ?Sized, S>(litemap::LiteMap<K, V, S>);

/// The raw (index, generation) parts of one arena handle of the physics
/// engine.
pub type RawHandle = (u32, u32);

/// The raw handles of one physics object: its rigid body and its collider.
pub type PhysPair = (RawHandle, RawHandle);

#[verifier::external_type_specification]
#[verifier::external_body]
#[verifier::reject_recursive_types(L)]
#[verifier::reject_recursive_types(R)]
#[verifier::reject_recursive_types(LS)]
#[verifier::reject_recursive_types(RS)]
pub struct ExBiHashMap<L, R, LS, RS>(bimap::BiHashMap<L, R, LS, RS>);

/// What a mesh-index map holds: its key-to-value contents.
pub uninterp spec fn litemap_model(m: litemap::LiteMap<u64, usize>) -> Map<u64, usize>;

/// Relies on litemap::LiteMap::new_vec: a fresh map is empty.
#[verifier::external_body]
pub fn litemap_new() -> (r: litemap::LiteMap<u64, usize>)
    ensures
        litemap_model(r).dom() == Set::<u64>::empty(),
{
    litemap::LiteMap::new_vec()
}

/// Relies on litemap::LiteMap::insert: map insertion, handing back the value
/// the key held before, if any.
#[verifier::external_body]
pub fn litemap_insert(m: &mut litemap::LiteMap<u64, usize>, k: u64, v: usize) -> (r: Option<
    usize,
>)
    ensures
        litemap_model(*final(m)) == litemap_model(*old(m)).insert(k, v),
        r == if litemap_model(*old(m)).dom().contains(k) {
            Some(litemap_model(*old(m))[k])
        } else {
            None::<usize>
        },
{
    m.insert(k, v)
}

/// Relies on litemap::LiteMap::get: lookup of one key.
#[verifier::external_body]
pub fn litemap_get(m: &litemap::LiteMap<u64, usize>, k: u64) -> (r: Option<usize>)
    ensures
        r == if litemap_model(*m).dom().contains(k) {
            Some(litemap_model(*m)[k])
        } else {
            None::<usize>
        },
{
    m.get(&k).copied()
}

/// Relies on litemap::LiteMap::len: the number of keys held.
#[verifier::external_body]
pub fn litemap_len(m: &litemap::LiteMap<u64, usize>) -> (n: usize)
    ensures
        n == litemap_model(*m).dom().len(),
{
    m.len()
}

/// Relies on litemap::LiteMap::keys: every held key exactly once (the order
/// is the map's own and callers must not lean on it).
#[verifier::external_body]
pub fn litemap_keys(m: &litemap::LiteMap<u64, usize>) -> (r: Vec<u64>)
    ensures
        forall|k: u64| r@.contains(k) <==> litemap_model(*m).dom().contains(k),
        forall|i: int, j: int| 0 <= i < j < r@.len() ==> r@[i] != r@[j],
{
    m.keys().copied().collect()
}

/// What an object map holds: the bijection's contents as a map from
/// composite instance id to physics handle pair.
pub uninterp spec fn bimap_model(m: bimap::BiHashMap<u128, PhysPair>) -> Map<u128, PhysPair>;

/// Relies on bimap::BiHashMap::new: a fresh map is empty.
#[verifier::external_body]
pub fn bimap_new() -> (r: bimap::BiHashMap<u128, PhysPair>)
    ensures
        bimap_model(r).dom() == Set::<u128>::empty(),
{
    bimap::BiHashMap::new()
}

/// The contents after inserting a pair into the bijection: any pair sharing
/// the new left id or the new right handles is dropped first, then the new
/// pair is added.
pub open spec fn spec_bimap_inserted(
    m: Map<u128, PhysPair>,
    l: u128,
    r: PhysPair,
) -> Map<u128, PhysPair> {
    Map::new(
        |k: u128| k == l || (m.dom().contains(k) && m[k] != r),
        |k: u128|
            if k == l {
                r
            } else {
                m[k]
            },
    )
}

/// Relies on bimap::BiHashMap::insert: both directions are overwritten, so
/// any existing pair sharing the left id or the right handles is removed
/// before the new pair goes in.
#[verifier::external_body]
pub fn bimap_insert(m: &mut bimap::BiHashMap<u128, PhysPair>, l: u128, r: PhysPair)
    ensures
        bimap_model(*final(m)) == spec_bimap_inserted(bimap_model(*old(m)), l, r),
{
    m.insert(l, r);
}

/// Relies on bimap::BiHashMap::remove_by_left: the pair under the given id
/// leaves both directions and is handed back.
#[verifier::external_body]
pub fn bimap_remove_by_left(m: &mut bimap::BiHashMap<u128, PhysPair>, l: u128) -> (r: Option<
    PhysPair,
>)
    ensures
        bimap_model(*final(m)) == bimap_model(*old(m)).remove(l),
        r == if bimap_model(*old(m)).dom().contains(l) {
            Some(bimap_model(*old(m))[l])
        } else {
            None::<PhysPair>
        },
{
    m.remove_by_left(&l).map(|(_, pair)| pair)
}

/// Relies on bimap::BiHashMap::get_by_left: lookup of the handle pair an id
/// maps to.
#[verifier::external_body]
pub fn bimap_get_by_left(m: &bimap::BiHashMap<u128, PhysPair>, l: u128) -> (r: Option<PhysPair>)
    ensures
        r == if bimap_model(*m).dom().contains(l) {
            Some(bimap_model(*m)[l])
        } else {
            None::<PhysPair>
        },
{
    m.get_by_left(&l).copied()
}

/// Relies on bimap::BiHashMap::len: the number of pairs held.
#[verifier::external_body]
pub fn bimap_len(m: &bimap::BiHashMap<u128, PhysPair>) -> (n: usize)
    ensures
        n == bimap_model(*m).dom().len(),
{
    m.len()
}

} // verus!
