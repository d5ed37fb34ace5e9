//! Mesh keys and composite instance identifiers.
//!
//! A mesh is identified by a stable 64-bit key derived from its authoring
//! name by hashing; one placed instance of a mesh is identified by the pair
//! of that key and its current slot in the mesh's live instance array,
//! packed into a single 128-bit id.

use std::collections::hash_map::DefaultHasher;
use std::hash::Hasher;

use vstd::prelude::*;
use vstd::std_specs::hash::DefaultHasherAdditionalSpecFns;
use vstd::string::StringSliceAdditionalSpecFns;

verus! {

/// The key a mesh name hashes to. Equal byte strings always give equal keys;
/// distinct names colliding on one key is an accepted (undefended) risk.
pub open spec fn mesh_key_of(bytes: Seq<u8>) -> u64 {
    DefaultHasher::spec_finish(seq![bytes])
}

/// Hash a mesh name, given as its raw bytes, to its stable 64-bit key.
pub fn hash_bytes_to_u64(bytes: &[u8]) -> (r: u64)
    ensures
        r == mesh_key_of(bytes@),
{
    let mut hasher = DefaultHasher::new();
    hasher.write(bytes);
    hasher.finish()
}

/// Hash a mesh name to its stable 64-bit key.
pub fn hash_string_to_u64(s: &str) -> (r: u64)
    ensures
        r == mesh_key_of(s.spec_bytes()),
{
    hash_bytes_to_u64(s.as_bytes())
}

/// The composite id of one instance: mesh key in the high 64 bits, the
/// instance's current slot index in the low 64 bits.
pub open spec fn spec_pack_id(mesh_key: u64, slot: u64) -> u128 {
    ((mesh_key as u128) << 64) | (slot as u128)
}

/// The mesh key half of a composite id.
pub open spec fn spec_id_key(id: u128) -> u64 {
    (id >> 64) as u64
}

/// The slot half of a composite id.
pub open spec fn spec_id_slot(id: u128) -> u64 {
    id as u64
}

/// Pack a mesh key and a slot index into a composite instance id.
pub fn pack_id(mesh_key: u64, slot: u64) -> (id: u128)
    ensures
        id == spec_pack_id(mesh_key, slot),
{
    ((mesh_key as u128) << 64) | (slot as u128)
}

/// The mesh key a composite id addresses.
pub fn id_key(id: u128) -> (k: u64)
    ensures
        k == spec_id_key(id),
{
    (id >> 64) as u64
}

/// The slot a composite id addresses.
pub fn id_slot(id: u128) -> (s: u64)
    ensures
        s == spec_id_slot(id),
{
    id as u64
}

/// Packing a key and a slot and unpacking again gives the key and the slot
/// back: composite ids address exactly one (mesh, slot) pair.
pub proof fn lemma_pack_id_invertible(mesh_key: u64, slot: u64)
    ensures
        spec_id_key(spec_pack_id(mesh_key, slot)) == mesh_key,
        spec_id_slot(spec_pack_id(mesh_key, slot)) == slot,
{
    assert((((((mesh_key as u128) << 64) | (slot as u128)) >> 64) as u64) == mesh_key)
        by (bit_vector);
    assert(((((mesh_key as u128) << 64) | (slot as u128)) as u64) == slot) by (bit_vector);
}

} // verus!
