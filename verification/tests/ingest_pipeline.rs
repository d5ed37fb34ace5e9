//! The ingestion pipeline: node classification, instance aggregation,
//! primitive preparation, and end-to-end scene population.

use glam::{Mat4, Vec3};
use scenecore::ids::{hash_bytes_to_u64, pack_id};
use scenecore::ingest::{
    collect_instances, process_primitive, MeshPayload, NodeData, PrimitiveData,
};
use scenecore::physics::body_poses;
use scenecore::scene::Scene;

fn vbits(v: Vec3) -> [u32; 3] {
    [v.x.to_bits(), v.y.to_bits(), v.z.to_bits()]
}

fn m4bits(m: Mat4) -> [u32; 16] {
    let mut out = [0u32; 16];
    for (i, f) in m.to_cols_array().iter().enumerate() {
        out[i] = f.to_bits();
    }
    out
}

fn box_positions() -> Vec<[u32; 3]> {
    // a tetrahedral chunk is enough geometry for a trimesh collider
    vec![
        vbits(Vec3::new(0.0, 0.0, 0.0)),
        vbits(Vec3::new(1.0, 0.0, 0.0)),
        vbits(Vec3::new(0.0, 1.0, 0.0)),
        vbits(Vec3::new(0.0, 0.0, 1.0)),
    ]
}

fn box_indices() -> Vec<u16> {
    vec![0, 1, 2, 0, 3, 1, 0, 2, 3, 1, 3, 2]
}

fn geometry_primitive() -> PrimitiveData {
    PrimitiveData {
        indices: Some(box_indices()),
        positions: box_positions(),
        normals: None,
        tex_coords: None,
        texture_view: None,
        vertex_colors: None,
        base_color: vbits(Vec3::new(0.8, 0.2, 0.1)),
    }
}

fn geometry_node(name: &[u8]) -> NodeData {
    NodeData {
        name: name.to_vec(),
        transform: m4bits(Mat4::IDENTITY),
        primitives: vec![geometry_primitive()],
    }
}

fn instance_node(name: &[u8], at: Vec3) -> NodeData {
    NodeData {
        name: name.to_vec(),
        transform: m4bits(Mat4::from_translation(at)),
        primitives: Vec::new(),
    }
}

#[test]
fn end_to_end_box_with_two_instances() {
    let nodes = vec![
        geometry_node(b"box"),
        instance_node(b"box.0", Vec3::new(1.0, 2.0, 3.0)),
        instance_node(b"box.1", Vec3::new(-4.0, 0.0, 7.0)),
    ];
    let mut scene = Scene::new();
    let (assets, _ops) = scene.add_assets(&nodes, &Vec::new());

    // exactly one mesh entry, keyed by "box", with exactly two live
    // instances holding the two node transforms
    let key = hash_bytes_to_u64(b"box");
    assert_eq!(assets.len(), 1);
    assert_eq!(assets[0].key, key);
    assert_eq!(scene.mesh_instance_count(key), 2);
    let r0 = scene.color_meshes.get_instance(key, 0).unwrap();
    let r1 = scene.color_meshes.get_instance(key, 1).unwrap();
    assert_eq!(r0.model, m4bits(Mat4::from_translation(Vec3::new(1.0, 2.0, 3.0))));
    assert_eq!(r1.model, m4bits(Mat4::from_translation(Vec3::new(-4.0, 0.0, 7.0))));

    // the box carries collider data: exactly two fixed bodies, at the two
    // decomposed translations
    assert!(scene.object_of(pack_id(key, 0)).is_some());
    assert!(scene.object_of(pack_id(key, 1)).is_some());
    assert_eq!(scene.object_of(pack_id(key, 2)), None);
    assert_eq!(scene.object_count(), 2);

    let poses = body_poses(&scene.physics.bodies);
    assert_eq!(poses.len(), 2);
    let mut translations: Vec<[u32; 3]> = poses.iter().map(|p| p.2).collect();
    translations.sort();
    let mut expect = vec![
        vbits(Vec3::new(1.0, 2.0, 3.0)),
        vbits(Vec3::new(-4.0, 0.0, 7.0)),
    ];
    expect.sort();
    assert_eq!(translations, expect);
}

#[test]
fn unreferenced_mesh_gets_one_identity_instance() {
    let nodes = vec![geometry_node(b"lonely")];
    let mut scene = Scene::new();
    scene.add_assets(&nodes, &Vec::new());
    let key = hash_bytes_to_u64(b"lonely");
    assert_eq!(scene.mesh_instance_count(key), 1);
    let r = scene.color_meshes.get_instance(key, 0).unwrap();
    assert_eq!(r.model, m4bits(Mat4::IDENTITY));
}

#[test]
fn aggregation_groups_by_base_name_in_order() {
    let nodes = vec![
        instance_node(b"wall.0", Vec3::new(1.0, 0.0, 0.0)),
        instance_node(b"rock.0", Vec3::new(2.0, 0.0, 0.0)),
        instance_node(b"wall.1", Vec3::new(3.0, 0.0, 0.0)),
        geometry_node(b"wall"),
    ];
    let groups = collect_instances(&nodes);
    assert_eq!(groups.len(), 2);
    assert_eq!(groups[0].0, b"wall".to_vec());
    assert_eq!(groups[0].1.len(), 2);
    assert_eq!(groups[1].0, b"rock".to_vec());
    assert_eq!(groups[1].1.len(), 1);
    assert_eq!(
        groups[0].1[0].model,
        m4bits(Mat4::from_translation(Vec3::new(1.0, 0.0, 0.0)))
    );
    assert_eq!(
        groups[0].1[1].model,
        m4bits(Mat4::from_translation(Vec3::new(3.0, 0.0, 0.0)))
    );
}

#[test]
fn primitive_without_indices_or_positions_is_skipped() {
    let mut prim = geometry_primitive();
    prim.indices = None;
    assert!(process_primitive(&prim, &Vec::new()).is_none());

    let mut prim = geometry_primitive();
    prim.positions = Vec::new();
    assert!(process_primitive(&prim, &Vec::new()).is_none());
}

#[test]
fn embedded_texture_classifies_as_textured() {
    let blob: Vec<u8> = (0u8..16).collect();
    let mut prim = geometry_primitive();
    prim.tex_coords = Some(vec![[0u32; 2]; 4]);
    prim.texture_view = Some((4, 8));
    let prepared = process_primitive(&prim, &blob).unwrap();
    match prepared.payload {
        MeshPayload::Textured { vertices, image } => {
            assert_eq!(image, (4u8..12).collect::<Vec<u8>>());
            assert_eq!(vertices.len(), 4);
        },
        MeshPayload::Colored { .. } => panic!("expected textured"),
    }
}

#[test]
fn unresolvable_image_falls_through_to_colored() {
    // texture coordinates but no embedded view: the colored path wins
    let mut prim = geometry_primitive();
    prim.tex_coords = Some(vec![[0u32; 2]; 4]);
    prim.texture_view = None;
    let prepared = process_primitive(&prim, &Vec::new()).unwrap();
    assert!(matches!(prepared.payload, MeshPayload::Colored { .. }));

    // an out-of-range view is likewise not resolvable
    let mut prim = geometry_primitive();
    prim.tex_coords = Some(vec![[0u32; 2]; 4]);
    prim.texture_view = Some((100, 50));
    let prepared = process_primitive(&prim, &vec![0u8; 8]).unwrap();
    assert!(matches!(prepared.payload, MeshPayload::Colored { .. }));
}

#[test]
fn colored_vertices_fall_back_to_the_base_color_factor() {
    let prim = geometry_primitive();
    let prepared = process_primitive(&prim, &Vec::new()).unwrap();
    match prepared.payload {
        MeshPayload::Colored { vertices } => {
            assert_eq!(vertices.len(), 4);
            for v in &vertices {
                assert_eq!(v.color, vbits(Vec3::new(0.8, 0.2, 0.1)));
            }
        },
        MeshPayload::Textured { .. } => panic!("expected colored"),
    }

    let mut prim = geometry_primitive();
    let authored: Vec<[u32; 3]> = (0..4).map(|i| vbits(Vec3::splat(i as f32))).collect();
    prim.vertex_colors = Some(authored.clone());
    let prepared = process_primitive(&prim, &Vec::new()).unwrap();
    match prepared.payload {
        MeshPayload::Colored { vertices } => {
            for (i, v) in vertices.iter().enumerate() {
                assert_eq!(v.color, authored[i]);
            }
        },
        MeshPayload::Textured { .. } => panic!("expected colored"),
    }
}

#[test]
fn mirrored_collider_instances_flip_winding() {
    // two instances of the same geometry, one mirrored: both colliders
    // must build (the flip keeps the mesh valid for the engine)
    let mut scene = Scene::new();
    let key = hash_bytes_to_u64(b"box");
    let plain = m4bits(Mat4::IDENTITY);
    let mirrored = m4bits(Mat4::from_scale(Vec3::new(-1.0, 1.0, 1.0)));
    scene.add_color_mesh(
        key,
        12,
        vec![
            scenecore::instance::InstanceRaw { model: plain, normal: [0u32; 9] },
            scenecore::instance::InstanceRaw { model: mirrored, normal: [0u32; 9] },
        ],
    );
    let built = scene.add_collider_instances(
        key,
        &box_positions(),
        &box_indices(),
        &vec![plain, mirrored],
    );
    assert_eq!(built, 2);
    assert!(scene.object_of(pack_id(key, 0)).is_some());
    assert!(scene.object_of(pack_id(key, 1)).is_some());
}
