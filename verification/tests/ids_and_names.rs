//! Mesh keys, composite instance ids, and the node naming convention.

use std::collections::hash_map::DefaultHasher;
use std::hash::Hasher;

use scenecore::ids::{hash_bytes_to_u64, hash_string_to_u64, id_key, id_slot, pack_id};
use scenecore::ingest::split_node_name;

#[test]
fn mesh_keys_are_stable_and_name_derived() {
    assert_eq!(hash_string_to_u64("box"), hash_string_to_u64("box"));
    assert_eq!(hash_string_to_u64("box"), hash_bytes_to_u64(b"box"));
    assert_ne!(hash_string_to_u64("box"), hash_string_to_u64("ball"));

    // the key is the standard hasher's digest of the name bytes
    let mut h = DefaultHasher::new();
    h.write(b"box");
    assert_eq!(hash_string_to_u64("box"), h.finish());
}

#[test]
fn composite_ids_round_trip() {
    let key = hash_string_to_u64("ball");
    let id = pack_id(key, 7);
    assert_eq!(id_key(id), key);
    assert_eq!(id_slot(id), 7);

    assert_eq!(pack_id(0, 0), 0u128);
    assert_eq!(id_key(pack_id(u64::MAX, u64::MAX)), u64::MAX);
    assert_eq!(id_slot(pack_id(u64::MAX, u64::MAX)), u64::MAX);
    assert_ne!(pack_id(1, 2), pack_id(2, 1));
}

#[test]
fn node_names_split_on_the_first_dot() {
    assert_eq!(split_node_name(b"box.001"), Some(b"box".to_vec()));
    assert_eq!(split_node_name(b"box"), None);
    assert_eq!(split_node_name(b"a.b.c"), Some(b"a".to_vec()));
    assert_eq!(split_node_name(b".suffix"), Some(Vec::new()));
    assert_eq!(split_node_name(b""), None);
    assert_eq!(split_node_name(b"trailing."), Some(b"trailing".to_vec()));
}
