//! The keyed mesh registry.

use scenecore::instance::InstanceRaw;
use scenecore::registry::MeshRegistry;

fn rec(tag: u32) -> InstanceRaw {
    let mut model = [0u32; 16];
    model[0] = tag;
    InstanceRaw { model, normal: [0u32; 9] }
}

#[test]
fn meshes_are_addressable_by_key() {
    let mut reg = MeshRegistry::new();
    assert_eq!(reg.instance_count(7), None);

    reg.add_mesh(7, 36, vec![rec(1), rec(2)]);
    reg.add_mesh(9, 12, Vec::new());
    assert_eq!(reg.instance_count(7), Some(2));
    // a mesh without instances is still stored, drawing zero instances
    assert_eq!(reg.instance_count(9), Some(0));
    assert_eq!(reg.get_instance(7, 1), Some(rec(2)));
    assert_eq!(reg.get_instance(7, 2), None);

    let mut keys = reg.keys();
    keys.sort();
    assert_eq!(keys, vec![7, 9]);
    assert_eq!(reg.mesh_count(), 2);

    let mut draws = reg.draw_list();
    draws.sort();
    assert_eq!(draws, vec![(7, 36, 2), (9, 12, 0)]);
}

#[test]
fn re_registering_a_key_replaces_the_mesh() {
    let mut reg = MeshRegistry::new();
    reg.add_mesh(7, 36, vec![rec(1), rec(2)]);
    reg.add_mesh(7, 6, vec![rec(5)]);
    assert_eq!(reg.instance_count(7), Some(1));
    assert_eq!(reg.get_instance(7, 0), Some(rec(5)));
    assert_eq!(reg.keys().len(), 1);
}

#[test]
fn instance_mutation_by_key() {
    let mut reg = MeshRegistry::new();
    reg.add_mesh(7, 36, vec![rec(1)]);

    assert!(reg.add_instance(7, rec(2)).is_some());
    assert_eq!(reg.instance_count(7), Some(2));
    assert!(reg.add_instance(8, rec(2)).is_none());

    assert!(reg.update_instance(7, 0, rec(9)).is_some());
    assert_eq!(reg.get_instance(7, 0), Some(rec(9)));

    assert!(reg.remove_instance(7, 0).is_some());
    assert_eq!(reg.get_instance(7, 0), Some(rec(2)));
    assert!(reg.remove_instance(7, 5).is_none());

    assert!(reg.update_all_instances(7, vec![rec(3), rec(4), rec(5)]).is_some());
    assert_eq!(reg.instance_count(7), Some(3));
}
