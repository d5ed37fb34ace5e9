//! The scene/physics bridge: swap-remove re-keying, descending-order
//! culling, and projectile spawning.

use glam::{Mat4, Vec3};
use scenecore::ids::{hash_string_to_u64, pack_id};
use scenecore::instance::InstanceRaw;
use scenecore::scene::Scene;

fn vbits(v: Vec3) -> [u32; 3] {
    [v.x.to_bits(), v.y.to_bits(), v.z.to_bits()]
}

fn m4bits(m: Mat4) -> [u32; 16] {
    let mut out = [0u32; 16];
    for (i, f) in m.to_cols_array().iter().enumerate() {
        out[i] = f.to_bits();
    }
    out
}

fn rec_at(x: f32) -> InstanceRaw {
    let mut normal = [0u32; 9];
    normal[0] = 0x3F80_0000;
    normal[4] = 0x3F80_0000;
    normal[8] = 0x3F80_0000;
    InstanceRaw { model: m4bits(Mat4::from_translation(Vec3::new(x, 0.0, 0.0))), normal }
}

/// A unit triangle's collider geometry.
fn tri_geometry() -> (Vec<[u32; 3]>, Vec<u16>) {
    let positions = vec![
        vbits(Vec3::new(0.0, 0.0, 0.0)),
        vbits(Vec3::new(1.0, 0.0, 0.0)),
        vbits(Vec3::new(0.0, 1.0, 0.0)),
    ];
    (positions, vec![0u16, 1, 2])
}

#[test]
fn swap_remove_rekeys_the_last_slot() {
    let mut scene = Scene::new();
    let key = hash_string_to_u64("level");
    let initial = vec![rec_at(0.0), rec_at(1.0), rec_at(2.0), rec_at(3.0)];
    scene.add_color_mesh(key, 3, initial);

    let (positions, indices) = tri_geometry();
    let models: Vec<[u32; 16]> = (0..4)
        .map(|i| m4bits(Mat4::from_translation(Vec3::new(i as f32, 0.0, 0.0))))
        .collect();
    let built = scene.add_collider_instances(key, &positions, &indices, &models);
    assert_eq!(built, 4);
    for slot in 0..4u64 {
        assert!(scene.object_of(pack_id(key, slot)).is_some());
    }

    // remove slot 1 of 4: the object at slot 3 must become addressable at
    // slot 1, and slot 3 must stop resolving
    let moved = scene.object_of(pack_id(key, 3)).unwrap();
    let removed = scene.object_of(pack_id(key, 1)).unwrap();
    assert!(scene.remove_instance(key, 1).is_some());

    assert_eq!(scene.object_of(pack_id(key, 1)), Some(moved));
    assert_eq!(scene.object_of(pack_id(key, 3)), None);
    assert_ne!(moved, removed);
    assert_eq!(scene.mesh_instance_count(key), 3);
    // the moved object's body now carries the freed slot's id as its tag
    let poses = scenecore::physics::body_poses(&scene.physics.bodies);
    let tag = poses.iter().find(|p| p.0 == moved.0).map(|p| p.1);
    assert_eq!(tag, Some(pack_id(key, 1)));
    // the moved instance's record came along
    let r1 = scene.color_meshes.get_instance(key, 1).unwrap();
    assert_eq!(r1, rec_at(3.0));
}

#[test]
fn removing_the_last_slot_rekeys_nothing() {
    let mut scene = Scene::new();
    let key = hash_string_to_u64("level");
    scene.add_color_mesh(key, 3, vec![rec_at(0.0), rec_at(1.0)]);
    let (positions, indices) = tri_geometry();
    let models = vec![m4bits(Mat4::IDENTITY), m4bits(Mat4::IDENTITY)];
    scene.add_collider_instances(key, &positions, &indices, &models);

    let kept = scene.object_of(pack_id(key, 0)).unwrap();
    assert!(scene.remove_instance(key, 1).is_some());
    assert_eq!(scene.object_of(pack_id(key, 0)), Some(kept));
    assert_eq!(scene.object_of(pack_id(key, 1)), None);
}

#[test]
fn out_of_range_removal_is_a_no_op() {
    let mut scene = Scene::new();
    let key = hash_string_to_u64("level");
    scene.add_color_mesh(key, 3, vec![rec_at(0.0)]);
    assert!(scene.remove_instance(key, 5).is_none());
    assert!(scene.remove_instance(hash_string_to_u64("absent"), 0).is_none());
    assert_eq!(scene.mesh_instance_count(key), 1);
}

#[test]
fn culling_removes_exactly_the_instances_behind_the_camera() {
    let mut scene = Scene::new();
    let key = hash_string_to_u64("level");
    // [A, B, C, D] with B and D behind the camera (negative x, camera at
    // origin looking along +x)
    let a = rec_at(1.0);
    let b = rec_at(-1.0);
    let c = rec_at(2.0);
    let d = rec_at(-2.0);
    scene.add_color_mesh(key, 3, vec![a, b, c, d]);

    let cam = vbits(Vec3::ZERO);
    let fwd = vbits(Vec3::X);
    scene.cull_instances_behind_camera(&cam, &fwd);

    // descending-order removal leaves exactly [A, C]; ascending order on
    // the same raw flag list would have removed D and C instead
    assert_eq!(scene.mesh_instance_count(key), 2);
    assert_eq!(scene.color_meshes.get_instance(key, 0).unwrap(), a);
    assert_eq!(scene.color_meshes.get_instance(key, 1).unwrap(), c);
}

#[test]
fn culling_with_nothing_behind_changes_nothing() {
    let mut scene = Scene::new();
    let key = hash_string_to_u64("level");
    let recs = vec![rec_at(1.0), rec_at(2.0), rec_at(3.0)];
    scene.add_color_mesh(key, 3, recs.clone());
    let (positions, indices) = tri_geometry();
    let models = vec![m4bits(Mat4::IDENTITY); 3];
    scene.add_collider_instances(key, &positions, &indices, &models);

    let before: Vec<_> = (0..3u64).map(|s| scene.object_of(pack_id(key, s))).collect();
    let batches = scene.cull_instances_behind_camera(&vbits(Vec3::ZERO), &vbits(Vec3::X));
    assert!(batches.iter().all(|(_, ops)| ops.is_empty()));
    assert_eq!(scene.mesh_instance_count(key), 3);
    for (s, b) in before.iter().enumerate() {
        assert_eq!(scene.object_of(pack_id(key, s as u64)), *b);
        assert_eq!(scene.color_meshes.get_instance(key, s), Some(recs[s]));
    }
}

#[test]
fn out_of_range_collider_indices_build_nothing() {
    let mut scene = Scene::new();
    let key = hash_string_to_u64("level");
    scene.add_color_mesh(key, 3, vec![rec_at(0.0)]);
    let (positions, _) = tri_geometry();
    // index 7 addresses no position: the engine would fault on it, so the
    // whole mesh is skipped
    let bad_indices: Vec<u16> = vec![0, 1, 7];
    let built = scene.add_collider_instances(
        key,
        &positions,
        &bad_indices,
        &vec![m4bits(Mat4::IDENTITY)],
    );
    assert_eq!(built, 0);
    assert_eq!(scene.object_of(pack_id(key, 0)), None);
}

#[test]
fn culling_cascades_into_physics_removal() {
    let mut scene = Scene::new();
    let key = hash_string_to_u64("level");
    scene.add_color_mesh(key, 3, vec![rec_at(1.0), rec_at(-1.0)]);
    let (positions, indices) = tri_geometry();
    let models = vec![
        m4bits(Mat4::from_translation(Vec3::new(1.0, 0.0, 0.0))),
        m4bits(Mat4::from_translation(Vec3::new(-1.0, 0.0, 0.0))),
    ];
    scene.add_collider_instances(key, &positions, &indices, &models);

    scene.cull_instances_behind_camera(&vbits(Vec3::ZERO), &vbits(Vec3::X));
    assert_eq!(scene.mesh_instance_count(key), 1);
    // the culled instance's physics object is gone; the survivor's stayed
    assert!(scene.object_of(pack_id(key, 0)).is_some());
    assert!(scene.object_of(pack_id(key, 1)).is_none());
}

#[test]
fn spawned_projectile_is_mapped_and_tagged() {
    let mut scene = Scene::new();
    scene.init_ball(36);
    let key = hash_string_to_u64("ball");
    assert_eq!(scene.mesh_instance_count(key), 1);

    let (id, pair, _ops) = scene.spawn_ball_instance(
        &vbits(Vec3::new(0.0, 2.0, 0.0)),
        &vbits(Vec3::new(1.0, 0.0, 0.0)),
        15.0f32.to_bits(),
        0.5f32.to_bits(),
    );
    assert_eq!(id, pack_id(key, 1));
    assert_eq!(scene.mesh_instance_count(key), 2);
    assert_eq!(scene.object_of(id), Some(pair));
    // the new instance sits at the spawn position
    let rec = scene.color_meshes.get_instance(key, 1).unwrap();
    assert_eq!(rec.model, m4bits(Mat4::from_translation(Vec3::new(0.0, 2.0, 0.0))));

    // stepping and syncing keeps the bookkeeping intact and updates the
    // projectile's slot from its body pose
    scene.physics.step(&vbits(Vec3::new(0.0, -9.81, 0.0)), (1.0f32 / 60.0).to_bits(), 2);
    let batches = scene.update_objects();
    assert!(!batches.is_empty());
    assert_eq!(scene.mesh_instance_count(key), 2);
    assert_eq!(scene.object_of(id), Some(pair));
}

#[test]
fn removing_a_spawned_projectile_cleans_the_map() {
    let mut scene = Scene::new();
    scene.init_ball(36);
    let key = hash_string_to_u64("ball");
    let (id, _pair, _ops) = scene.spawn_ball_instance(
        &vbits(Vec3::ZERO),
        &vbits(Vec3::X),
        1.0f32.to_bits(),
        0.5f32.to_bits(),
    );
    assert!(scene.remove_instance(key, 1).is_some());
    assert_eq!(scene.object_of(id), None);
    assert_eq!(scene.mesh_instance_count(key), 1);
}
