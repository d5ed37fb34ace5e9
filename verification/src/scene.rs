//! The scene: both mesh registries, the physics world, and the bijection
//! between composite instance ids and physics objects.
//!
//! The central invariant is `wf`: the two registries are well formed and
//! share no key, the object map is injective (it mirrors a bijection), and
//! every mapped id addresses a live slot of a registered mesh. Removal is
//! the delicate operation: a swap-remove moves the last instance into the
//! freed slot, so the physics object keyed by the last slot must be re-keyed
//! to the freed slot and its body's user-data tag rewritten, atomically with
//! the render-side compaction.

use vstd::prelude::*;

use crate::extcol::{
    bimap_get_by_left, bimap_insert, bimap_len, bimap_model, bimap_new, bimap_remove_by_left,
    spec_bimap_inserted, PhysPair, RawHandle,
};
use crate::ibuf::{spec_swap_removed, GpuOp};
use crate::ids::{id_key, mesh_key_of, pack_id, spec_id_key, spec_id_slot, spec_pack_id};
use crate::ids::hash_string_to_u64;
use crate::instance::InstanceRaw;
use crate::mathops::{
    mat4_from_rotation_translation, mat4_rt_of, normal_matrix, spec_normal_matrix,
    spec_translation_mat4, translation_mat4, v3_mul,
};
use crate::physics::{
    body_poses, body_tags, insert_dynamic_ball, remove_body, remove_collider, set_body_user_data,
    PhysicsWorld,
};
use crate::registry::MeshRegistry;
use vstd::string::StringSliceAdditionalSpecFns;

verus! {

/// The scene state the library choreographs.
pub struct Scene {
    pub color_meshes: MeshRegistry,
    pub texture_meshes: MeshRegistry,
    pub objects: bimap::BiHashMap<u128, PhysPair>,
    pub physics: PhysicsWorld,
}

/// No two ids address the same physics object (the map mirrors a
/// bijection).
pub open spec fn map_injective(m: Map<u128, PhysPair>) -> bool {
    forall|a: u128, b: u128|
        m.dom().contains(a) && m.dom().contains(b) && a != b ==> m[a] != m[b]
}

/// The object-map transformation one removal performs: the freed slot's id
/// leaves the map; if the freed slot was not the last, the id of the last
/// slot (whose instance moved into the freed slot) is re-keyed to the freed
/// slot's id.
pub open spec fn spec_removed_objects(
    m0: Map<u128, PhysPair>,
    removed_id: u128,
    last_id: u128,
) -> Map<u128, PhysPair> {
    let m1 = m0.remove(removed_id);
    if removed_id == last_id {
        m1
    } else if m1.dom().contains(last_id) {
        spec_bimap_inserted(m1.remove(last_id), removed_id, m1[last_id])
    } else {
        m1
    }
}

/// The body-tag transformation one removal performs: the removed object's
/// body leaves; the moved object's body (if any, and still live) is
/// re-tagged with the freed slot's id.
pub open spec fn spec_removed_tags(
    t0: Map<RawHandle, u128>,
    m0: Map<u128, PhysPair>,
    removed_id: u128,
    last_id: u128,
) -> Map<RawHandle, u128> {
    let t1 = if m0.dom().contains(removed_id) {
        t0.remove(m0[removed_id].0)
    } else {
        t0
    };
    let m1 = m0.remove(removed_id);
    if removed_id != last_id && m1.dom().contains(last_id) && t1.dom().contains(m1[last_id].0) {
        t1.insert(m1[last_id].0, removed_id)
    } else {
        t1
    }
}

/// One removal against a single registry: render-side swap-remove, physics
/// object destruction, and the re-key of the moved slot.
fn remove_instance_in(
    reg: &mut MeshRegistry,
    objects: &mut bimap::BiHashMap<u128, PhysPair>,
    physics: &mut PhysicsWorld,
    mesh_id: u64,
    instance_index: usize,
) -> (r: Option<Vec<GpuOp>>)
    requires
        old(reg).wf(),
        old(reg).contains_mesh(mesh_id),
        instance_index < old(reg).live_of(mesh_id).len(),
        old(reg).live_of(mesh_id).len() <= u64::MAX,
    ensures
        final(reg).wf(),
        r is Some,
        final(reg).live_of(mesh_id) == spec_swap_removed(
            old(reg).live_of(mesh_id),
            instance_index as int,
        ),
        final(reg).buffer_of(mesh_id).cap() == old(reg).buffer_of(mesh_id).cap(),
        final(reg).idx_map() == old(reg).idx_map(),
        forall|k: u64|
            k != mesh_id ==> (#[trigger] final(reg).contains_mesh(k) == old(reg).contains_mesh(k)
                && (old(reg).contains_mesh(k) ==> final(reg).buffer_of(k) == old(reg).buffer_of(
                k,
            ))),
        forall|gpu: Seq<Option<InstanceRaw>>|
            old(reg).buffer_of(mesh_id).synced(gpu) ==> final(reg).buffer_of(mesh_id).synced(
                #[trigger] crate::ibuf::apply_ops(gpu, r.unwrap()@),
            ),
        bimap_model(*final(objects)) == spec_removed_objects(
            bimap_model(*old(objects)),
            spec_pack_id(mesh_id, instance_index as u64),
            spec_pack_id(mesh_id, (old(reg).live_of(mesh_id).len() - 1) as u64),
        ),
        body_tags(final(physics).bodies) == spec_removed_tags(
            body_tags(old(physics).bodies),
            bimap_model(*old(objects)),
            spec_pack_id(mesh_id, instance_index as u64),
            spec_pack_id(mesh_id, (old(reg).live_of(mesh_id).len() - 1) as u64),
        ),
{
    let n = reg.instance_count(mesh_id).unwrap();
    let last = n - 1;
    let removed_id = pack_id(mesh_id, instance_index as u64);
    let ghost last_id = spec_pack_id(mesh_id, last as u64);

    let ops = reg.remove_instance(mesh_id, instance_index).unwrap();

    match bimap_remove_by_left(objects, removed_id) {
        Some(pair) => {
            remove_collider(physics, pair.1);
            remove_body(physics, pair.0);
        },
        None => {},
    }

    if instance_index != last {
        let moved_id = pack_id(mesh_id, last as u64);
        proof {
            crate::ids::lemma_pack_id_invertible(mesh_id, instance_index as u64);
            crate::ids::lemma_pack_id_invertible(mesh_id, last as u64);
        }
        match bimap_remove_by_left(objects, moved_id) {
            Some(pl) => {
                set_body_user_data(&mut physics.bodies, pl.0, removed_id);
                bimap_insert(objects, removed_id, pl);
            },
            None => {},
        }
    }
    Some(ops)
}

impl Scene {
    /// The object map's contents.
    pub open spec fn objs(self) -> Map<u128, PhysPair> {
        bimap_model(self.objects)
    }

    /// The user-data tags of the live physics bodies.
    pub open spec fn tags(self) -> Map<RawHandle, u128> {
        body_tags(self.physics.bodies)
    }

    /// Whether either registry holds a mesh under `k`.
    pub open spec fn has_mesh(self, k: u64) -> bool {
        self.color_meshes.contains_mesh(k) || self.texture_meshes.contains_mesh(k)
    }

    /// The live instances of the mesh under `k` (the registries share no
    /// key, the colored one is consulted first; an unknown key holds none).
    pub open spec fn mesh_live(self, k: u64) -> Seq<InstanceRaw> {
        if self.color_meshes.contains_mesh(k) {
            self.color_meshes.live_of(k)
        } else if self.texture_meshes.contains_mesh(k) {
            self.texture_meshes.live_of(k)
        } else {
            Seq::empty()
        }
    }

    /// Every mapped id addresses a live slot of a registered mesh.
    pub open spec fn slots_valid(self) -> bool {
        forall|id: u128| #[trigger]
            self.objs().dom().contains(id) ==> self.has_mesh(spec_id_key(id)) && (spec_id_slot(id)
                as nat) < self.mesh_live(spec_id_key(id)).len()
    }

    /// The scene invariant: well-formed registries sharing no key, an
    /// injective object map, and only live slots mapped.
    pub open spec fn wf(self) -> bool {
        &&& self.color_meshes.wf()
        &&& self.texture_meshes.wf()
        &&& forall|k: u64| #[trigger]
            self.color_meshes.contains_mesh(k) ==> !self.texture_meshes.contains_mesh(k)
        &&& forall|k: u64| #[trigger]
            self.texture_meshes.contains_mesh(k) ==> !self.color_meshes.contains_mesh(k)
        &&& map_injective(self.objs())
        &&& self.slots_valid()
    }

    /// A fresh scene: empty registries, no objects, no bodies.
    pub fn new() -> (r: Scene)
        ensures
            r.wf(),
            r.objs().dom() == Set::<u128>::empty(),
            r.tags().dom() == Set::<RawHandle>::empty(),
            forall|k: u64| !(#[trigger] r.has_mesh(k)),
    {
        let r = Scene {
            color_meshes: MeshRegistry::new(),
            texture_meshes: MeshRegistry::new(),
            objects: bimap_new(),
            physics: PhysicsWorld::new(),
        };
        proof {
            assert forall|k: u64| !(#[trigger] r.has_mesh(k)) by {
                assert(!r.color_meshes.idx_map().dom().contains(k));
                assert(!r.texture_meshes.idx_map().dom().contains(k));
            }
        }
        r
    }

    /// Remove the instance in slot `instance_index` of the mesh under
    /// `mesh_id`, keeping render slots, the object map, and physics bodies
    /// consistent: the slot's physics object (if mapped) is destroyed,
    /// collider first; the render side swap-removes the slot; and when the
    /// freed slot was not the last, the physics object keyed by the former
    /// last slot is re-keyed to the freed slot and its body re-tagged. An
    /// unknown mesh or an out-of-range slot is a no-op (culling batches may
    /// race their own compaction).
    pub fn remove_instance(&mut self, mesh_id: u64, instance_index: usize) -> (r: Option<
        Vec<GpuOp>,
    >)
        requires
            old(self).wf(),
        ensures
            final(self).wf(),
            !(old(self).has_mesh(mesh_id) && instance_index < old(self).mesh_live(
                mesh_id,
            ).len()) ==> r is None && *final(self) == *old(self),
            old(self).has_mesh(mesh_id) && instance_index < old(self).mesh_live(mesh_id).len()
                ==> {
                let n = old(self).mesh_live(mesh_id).len();
                let removed_id = spec_pack_id(mesh_id, instance_index as u64);
                let last_id = spec_pack_id(mesh_id, (n - 1) as u64);
                &&& r is Some
                &&& final(self).mesh_live(mesh_id) == spec_swap_removed(
                    old(self).mesh_live(mesh_id),
                    instance_index as int,
                )
                &&& final(self).objs() == spec_removed_objects(
                    old(self).objs(),
                    removed_id,
                    last_id,
                )
                &&& final(self).tags() == spec_removed_tags(
                    old(self).tags(),
                    old(self).objs(),
                    removed_id,
                    last_id,
                )
                &&& forall|k: u64|
                    k != mesh_id ==> #[trigger] final(self).mesh_live(k) == old(self).mesh_live(k)
                &&& forall|k: u64| #[trigger] final(self).has_mesh(k) == old(self).has_mesh(k)
            },
            final(self).color_meshes.idx_map() == old(self).color_meshes.idx_map(),
            final(self).texture_meshes.idx_map() == old(self).texture_meshes.idx_map(),
    {
        let ghost pre = *self;
        let in_color = match self.color_meshes.instance_count(mesh_id) {
            Some(_) => true,
            None => false,
        };
        let count = if in_color {
            self.color_meshes.instance_count(mesh_id)
        } else {
            self.texture_meshes.instance_count(mesh_id)
        };
        let n = match count {
            Some(n) => n,
            None => {
                return None;
            },
        };
        proof {
            assert(pre.mesh_live(mesh_id).len() == n);
        }
        if instance_index >= n {
            return None;
        }
        let r = if in_color {
            let rr = remove_instance_in(
                &mut self.color_meshes,
                &mut self.objects,
                &mut self.physics,
                mesh_id,
                instance_index,
            );
            proof {
                assert forall|k: u64| k != mesh_id implies #[trigger] self.mesh_live(k)
                    == pre.mesh_live(k) by {
                    assert(self.color_meshes.contains_mesh(k) == pre.color_meshes.contains_mesh(
                        k,
                    ));
                    if pre.color_meshes.contains_mesh(k) {
                        assert(self.color_meshes.buffer_of(k) == pre.color_meshes.buffer_of(k));
                    }
                }
                assert forall|k: u64| #[trigger] self.has_mesh(k) == pre.has_mesh(k) by {
                    if k != mesh_id {
                        assert(self.color_meshes.contains_mesh(k) == pre.color_meshes.contains_mesh(
                            k,
                        ));
                    } else {
                        assert(self.color_meshes.contains_mesh(mesh_id));
                    }
                }
                assert(self.mesh_live(mesh_id) == spec_swap_removed(
                    pre.mesh_live(mesh_id),
                    instance_index as int,
                ));
            }
            rr
        } else {
            let rr = remove_instance_in(
                &mut self.texture_meshes,
                &mut self.objects,
                &mut self.physics,
                mesh_id,
                instance_index,
            );
            proof {
                assert forall|k: u64| k != mesh_id implies #[trigger] self.mesh_live(k)
                    == pre.mesh_live(k) by {
                    assert(self.texture_meshes.contains_mesh(k)
                        == pre.texture_meshes.contains_mesh(k));
                    if pre.texture_meshes.contains_mesh(k) {
                        assert(self.texture_meshes.buffer_of(k) == pre.texture_meshes.buffer_of(
                            k,
                        ));
                    }
                }
                assert forall|k: u64| #[trigger] self.has_mesh(k) == pre.has_mesh(k) by {
                    if k != mesh_id {
                        assert(self.texture_meshes.contains_mesh(k)
                            == pre.texture_meshes.contains_mesh(k));
                    } else {
                        assert(self.texture_meshes.contains_mesh(mesh_id));
                    }
                }
                assert(!self.color_meshes.contains_mesh(mesh_id));
                assert(self.mesh_live(mesh_id) == spec_swap_removed(
                    pre.mesh_live(mesh_id),
                    instance_index as int,
                ));
            }
            rr
        };
        proof {
            lemma_remove_preserves_wf(pre, *self, mesh_id, instance_index as int);
        }
        r
    }

    /// Register a colored mesh. The key must be new to the texture registry
    /// (a mesh renders under exactly one variant) and no physics object may
    /// yet reference it.
    pub fn add_color_mesh(&mut self, key: u64, index_count: u32, initial: Vec<InstanceRaw>) -> (ops: Vec<GpuOp>)
        requires
            old(self).wf(),
            !old(self).texture_meshes.contains_mesh(key),
            forall|id: u128| old(self).objs().dom().contains(id) ==> spec_id_key(id) != key,
        ensures
            final(self).wf(),
            final(self).color_meshes.contains_mesh(key),
            final(self).has_mesh(key),
            final(self).mesh_live(key) == initial@,
            final(self).color_meshes.buffer_of(key).cap() == initial@.len(),
            final(self).objs() == old(self).objs(),
            final(self).tags() == old(self).tags(),
            forall|k: u64|
                k != key ==> #[trigger] final(self).mesh_live(k) == old(self).mesh_live(k)
                    && final(self).has_mesh(k) == old(self).has_mesh(k),
            forall|gpu: Seq<Option<InstanceRaw>>|
                final(self).color_meshes.buffer_of(key).synced(
                    #[trigger] crate::ibuf::apply_ops(gpu, ops@),
                ),
    {
        let ghost pre = *self;
        let ops = self.color_meshes.add_mesh(key, index_count, initial);
        proof {
            assert forall|k: u64| k != key implies #[trigger] self.mesh_live(k) == pre.mesh_live(
                k,
            ) && self.has_mesh(k) == pre.has_mesh(k) by {
                assert(self.color_meshes.contains_mesh(k) == pre.color_meshes.contains_mesh(k));
                if pre.color_meshes.contains_mesh(k) {
                    assert(self.color_meshes.buffer_of(k) == pre.color_meshes.buffer_of(k));
                }
            }
            assert forall|k: u64| #[trigger]
                self.color_meshes.contains_mesh(k) implies !self.texture_meshes.contains_mesh(
                k,
            ) by {
                if k != key {
                    assert(self.color_meshes.contains_mesh(k) == pre.color_meshes.contains_mesh(
                        k,
                    ));
                }
            }
            assert forall|k: u64| #[trigger]
                self.texture_meshes.contains_mesh(k) implies !self.color_meshes.contains_mesh(
                k,
            ) by {
                if k != key {
                    assert(self.color_meshes.contains_mesh(k) == pre.color_meshes.contains_mesh(
                        k,
                    ));
                }
            }
            assert forall|id: u128| #[trigger] self.objs().dom().contains(id) implies self.has_mesh(
                spec_id_key(id),
            ) && (spec_id_slot(id) as nat) < self.mesh_live(spec_id_key(id)).len() by {
                assert(pre.objs().dom().contains(id));
                assert(spec_id_key(id) != key);
                assert(self.mesh_live(spec_id_key(id)) == pre.mesh_live(spec_id_key(id)));
            }
        }
        ops
    }

    /// Register a textured mesh. The key must be new to the colored
    /// registry and no physics object may yet reference it.
    pub fn add_texture_mesh(&mut self, key: u64, index_count: u32, initial: Vec<InstanceRaw>) -> (ops: Vec<GpuOp>)
        requires
            old(self).wf(),
            !old(self).color_meshes.contains_mesh(key),
            forall|id: u128| old(self).objs().dom().contains(id) ==> spec_id_key(id) != key,
        ensures
            final(self).wf(),
            final(self).texture_meshes.contains_mesh(key),
            final(self).has_mesh(key),
            final(self).mesh_live(key) == initial@,
            final(self).objs() == old(self).objs(),
            final(self).tags() == old(self).tags(),
            forall|k: u64|
                k != key ==> #[trigger] final(self).mesh_live(k) == old(self).mesh_live(k)
                    && final(self).has_mesh(k) == old(self).has_mesh(k),
            forall|gpu: Seq<Option<InstanceRaw>>|
                final(self).texture_meshes.buffer_of(key).synced(
                    #[trigger] crate::ibuf::apply_ops(gpu, ops@),
                ),
    {
        let ghost pre = *self;
        let ops = self.texture_meshes.add_mesh(key, index_count, initial);
        proof {
            assert forall|k: u64| k != key implies #[trigger] self.mesh_live(k) == pre.mesh_live(
                k,
            ) && self.has_mesh(k) == pre.has_mesh(k) by {
                assert(self.texture_meshes.contains_mesh(k) == pre.texture_meshes.contains_mesh(
                    k,
                ));
                if pre.texture_meshes.contains_mesh(k) {
                    assert(self.texture_meshes.buffer_of(k) == pre.texture_meshes.buffer_of(k));
                }
            }
            assert forall|k: u64| #[trigger]
                self.texture_meshes.contains_mesh(k) implies !self.color_meshes.contains_mesh(
                k,
            ) by {
                if k != key {
                    assert(self.texture_meshes.contains_mesh(k) == pre.texture_meshes.contains_mesh(
                        k,
                    ));
                }
            }
            assert forall|k: u64| #[trigger]
                self.color_meshes.contains_mesh(k) implies !self.texture_meshes.contains_mesh(
                k,
            ) by {
                if k != key {
                    assert(self.texture_meshes.contains_mesh(k) == pre.texture_meshes.contains_mesh(
                        k,
                    ));
                }
            }
            assert(!self.color_meshes.contains_mesh(key));
            assert forall|id: u128| #[trigger] self.objs().dom().contains(id) implies self.has_mesh(
                spec_id_key(id),
            ) && (spec_id_slot(id) as nat) < self.mesh_live(spec_id_key(id)).len() by {
                assert(pre.objs().dom().contains(id));
                assert(spec_id_key(id) != key);
                assert(self.mesh_live(spec_id_key(id)) == pre.mesh_live(spec_id_key(id)));
            }
        }
        ops
    }

    /// Append one instance to the mesh under `key` in the colored registry,
    /// handing back the new slot and the GPU operations.
    fn add_color_instance(&mut self, key: u64, inst: InstanceRaw) -> (r: (usize, Vec<GpuOp>))
        requires
            old(self).wf(),
            old(self).color_meshes.contains_mesh(key),
            old(self).color_meshes.buffer_of(key).cap() <= usize::MAX / 2,
        ensures
            final(self).wf(),
            final(self).color_meshes.contains_mesh(key),
            r.0 == old(self).mesh_live(key).len(),
            final(self).mesh_live(key) == old(self).mesh_live(key).push(inst),
            final(self).color_meshes.buffer_of(key).cap() == if old(self).mesh_live(key).len()
                < old(self).color_meshes.buffer_of(key).cap() {
                old(self).color_meshes.buffer_of(key).cap()
            } else {
                crate::ibuf::spec_grown_capacity(old(self).color_meshes.buffer_of(key).cap())
            },
            final(self).objs() == old(self).objs(),
            final(self).tags() == old(self).tags(),
            forall|k: u64|
                k != key ==> #[trigger] final(self).mesh_live(k) == old(self).mesh_live(k)
                    && final(self).has_mesh(k) == old(self).has_mesh(k),
            forall|gpu: Seq<Option<InstanceRaw>>|
                old(self).color_meshes.buffer_of(key).synced(gpu) ==> final(self).color_meshes.buffer_of(key).synced(#[trigger] crate::ibuf::apply_ops(gpu, r.1@)),
    {
        let ghost pre = *self;
        let slot = self.color_meshes.instance_count(key).unwrap();
        let ops = self.color_meshes.add_instance(key, inst).unwrap();
        proof {
            assert forall|k: u64| k != key implies #[trigger] self.mesh_live(k) == pre.mesh_live(
                k,
            ) && self.has_mesh(k) == pre.has_mesh(k) by {
                assert(self.color_meshes.contains_mesh(k) == pre.color_meshes.contains_mesh(k));
                if pre.color_meshes.contains_mesh(k) {
                    assert(self.color_meshes.buffer_of(k) == pre.color_meshes.buffer_of(k));
                }
            }
            assert forall|k: u64| #[trigger]
                self.color_meshes.contains_mesh(k) implies !self.texture_meshes.contains_mesh(
                k,
            ) by {
                assert(self.color_meshes.contains_mesh(k) == pre.color_meshes.contains_mesh(k));
            }
            assert forall|k: u64| #[trigger]
                self.texture_meshes.contains_mesh(k) implies !self.color_meshes.contains_mesh(
                k,
            ) by {
                assert(self.color_meshes.contains_mesh(k) == pre.color_meshes.contains_mesh(k));
            }
            assert forall|id: u128| #[trigger] self.objs().dom().contains(id) implies self.has_mesh(
                spec_id_key(id),
            ) && (spec_id_slot(id) as nat) < self.mesh_live(spec_id_key(id)).len() by {
                assert(pre.objs().dom().contains(id));
                if spec_id_key(id) != key {
                    assert(self.mesh_live(spec_id_key(id)) == pre.mesh_live(spec_id_key(id)));
                } else {
                    assert(self.mesh_live(key).len() == pre.mesh_live(key).len() + 1);
                }
            }
        }
        (slot, ops)
    }

    /// Register the projectile mesh: a colored mesh keyed by the hash of
    /// "ball", holding one initial all-zero (default) instance record.
    pub fn init_ball(&mut self, index_count: u32) -> (ops: Vec<GpuOp>)
        requires
            old(self).wf(),
            !old(self).texture_meshes.contains_mesh(spec_ball_key()),
            forall|id: u128|
                old(self).objs().dom().contains(id) ==> spec_id_key(id) != spec_ball_key(),
        ensures
            final(self).wf(),
            final(self).color_meshes.contains_mesh(spec_ball_key()),
            final(self).mesh_live(spec_ball_key()).len() == 1,
            final(self).color_meshes.buffer_of(spec_ball_key()).cap() == 1,
            final(self).objs() == old(self).objs(),
            final(self).tags() == old(self).tags(),
            forall|k: u64|
                k != spec_ball_key() ==> #[trigger] final(self).mesh_live(k) == old(self).mesh_live(k) && final(self).has_mesh(k) == old(self).has_mesh(k),
    {
        let key = hash_string_to_u64("ball");
        let zero = InstanceRaw {
            model: [
                0u32,
                0u32,
                0u32,
                0u32,
                0u32,
                0u32,
                0u32,
                0u32,
                0u32,
                0u32,
                0u32,
                0u32,
                0u32,
                0u32,
                0u32,
                0u32,
            ],
            normal: [0u32, 0u32, 0u32, 0u32, 0u32, 0u32, 0u32, 0u32, 0u32],
        };
        let mut initial: Vec<InstanceRaw> = Vec::new();
        initial.push(zero);
        self.add_color_mesh(key, index_count, initial)
    }

    /// Spawn one projectile: append an instance at `position` to the "ball"
    /// mesh (its model matrix a pure translation, its normal matrix derived
    /// from it), create a dynamic body with a ball collider there moving at
    /// `direction` componentwise times `speed`, tag the body with the new
    /// composite id, and map the id to the body and collider pair. Returns
    /// the new id and the GPU operations.
    pub fn spawn_ball_instance(
        &mut self,
        position: &[u32; 3],
        direction: &[u32; 3],
        speed: u32,
        radius: u32,
    ) -> (r: (u128, PhysPair, Vec<GpuOp>))
        requires
            old(self).wf(),
            old(self).color_meshes.contains_mesh(spec_ball_key()),
            old(self).color_meshes.buffer_of(spec_ball_key()).cap() <= usize::MAX / 2,
            radius < 0x8000_0000,
        ensures
            final(self).wf(),
            r.0 == spec_pack_id(spec_ball_key(), old(self).mesh_live(spec_ball_key()).len() as u64),
            final(self).mesh_live(spec_ball_key()).len() == old(self).mesh_live(
                spec_ball_key(),
            ).len() + 1,
            final(self).mesh_live(spec_ball_key())[old(self).mesh_live(spec_ball_key()).len() as int].model@
                == spec_translation_mat4(position@),
            final(self).mesh_live(spec_ball_key())[old(self).mesh_live(spec_ball_key()).len() as int].normal@
                == spec_normal_matrix(spec_translation_mat4(position@)),
            forall|j: int|
                0 <= j < old(self).mesh_live(spec_ball_key()).len() ==> final(self).mesh_live(
                    spec_ball_key(),
                )[j] == old(self).mesh_live(spec_ball_key())[j],
            !old(self).tags().dom().contains(r.1.0),
            final(self).objs() == spec_bimap_inserted(old(self).objs(), r.0, r.1),
            final(self).tags() == old(self).tags().insert(r.1.0, r.0),
            final(self).color_meshes.buffer_of(spec_ball_key()).cap() == if old(self).mesh_live(
                spec_ball_key(),
            ).len() < old(self).color_meshes.buffer_of(spec_ball_key()).cap() {
                old(self).color_meshes.buffer_of(spec_ball_key()).cap()
            } else {
                crate::ibuf::spec_grown_capacity(
                    old(self).color_meshes.buffer_of(spec_ball_key()).cap(),
                )
            },
            forall|k: u64|
                k != spec_ball_key() ==> #[trigger] final(self).mesh_live(k) == old(self).mesh_live(k) && final(self).has_mesh(k) == old(self).has_mesh(k),
    {
        let ghost pre = *self;
        let key = hash_string_to_u64("ball");
        let model = translation_mat4(position);
        let normal = normal_matrix(&model);
        let inst = InstanceRaw { model, normal };
        let (slot, ops) = self.add_color_instance(key, inst);
        let ghost mid = *self;
        let id = pack_id(key, slot as u64);
        let velocity = v3_mul(direction, &[speed, speed, speed]);
        let (bh, ch) = insert_dynamic_ball(
            &mut self.physics.bodies,
            &mut self.physics.colliders,
            id,
            position,
            &velocity,
            radius,
        );
        bimap_insert(&mut self.objects, id, (bh, ch));
        proof {
            assert(key == spec_ball_key());
            assert(slot == pre.mesh_live(spec_ball_key()).len());
            assert(self.mesh_live(spec_ball_key()) == pre.mesh_live(spec_ball_key()).push(
                InstanceRaw { model, normal },
            ));
            assert(!pre.tags().dom().contains(bh));
            assert(self.objs() == spec_bimap_inserted(pre.objs(), id, (bh, ch)));
            assert(self.tags() == pre.tags().insert(bh, id));

            assert forall|k: u64| k != spec_ball_key() implies #[trigger] self.mesh_live(k)
                == pre.mesh_live(k) && self.has_mesh(k) == pre.has_mesh(k) by {
                assert(k != key);
                assert(mid.mesh_live(k) == pre.mesh_live(k));
                assert(mid.has_mesh(k) == pre.has_mesh(k));
                assert(self.color_meshes == mid.color_meshes);
                assert(self.texture_meshes == mid.texture_meshes);
            }
            lemma_bimap_inserted_injective(mid.objs(), id, (bh, ch));
            crate::ids::lemma_pack_id_invertible(key, slot as u64);
            assert forall|idx: u128| #[trigger]
                self.objs().dom().contains(idx) implies self.has_mesh(spec_id_key(idx)) && (
            spec_id_slot(idx) as nat) < self.mesh_live(spec_id_key(idx)).len() by {
                if idx == id {
                    assert(self.mesh_live(key).len() == pre.mesh_live(key).len() + 1);
                } else {
                    assert(mid.objs().dom().contains(idx));
                }
            }
        }
        (id, (bh, ch), ops)
    }

    /// How many physics objects are mapped.
    pub fn object_count(&self) -> (n: usize)
        ensures
            n == self.objs().dom().len(),
    {
        bimap_len(&self.objects)
    }

    /// The physics object a composite id addresses, if any.
    pub fn object_of(&self, id: u128) -> (r: Option<PhysPair>)
        ensures
            r == if self.objs().dom().contains(id) {
                Some(self.objs()[id])
            } else {
                None::<PhysPair>
            },
    {
        bimap_get_by_left(&self.objects, id)
    }

    /// Push one body's pose into the instance slot its tag addresses: the
    /// record's model matrix is the pose's homogeneous matrix, its normal
    /// matrix the inverse-transpose of that matrix's upper 3x3 block. A tag
    /// whose mesh is not in the colored registry, or whose slot is not
    /// live, updates nothing.
    pub fn update_from_pose(&mut self, tag: u128, translation: &[u32; 3], rotation: &[u32; 4]) -> (r:
        Option<Vec<GpuOp>>)
        requires
            old(self).wf(),
        ensures
            final(self).wf(),
            final(self).objs() == old(self).objs(),
            final(self).tags() == old(self).tags(),
            forall|k: u64| #[trigger] final(self).has_mesh(k) == old(self).has_mesh(k),
            forall|k: u64| #[trigger]
                final(self).mesh_live(k).len() == old(self).mesh_live(k).len(),
            ({
                let key = spec_id_key(tag);
                let slot = spec_id_slot(tag) as usize;
                old(self).color_meshes.contains_mesh(key) && (slot as nat) < old(self).color_meshes.live_of(key).len() ==> r is Some && final(self).color_meshes.live_of(key)[slot as int].model@ == mat4_rt_of(
                    rotation@,
                    translation@,
                ) && final(self).color_meshes.live_of(key)[slot as int].normal@
                    == spec_normal_matrix(mat4_rt_of(rotation@, translation@)) && forall|j: int|
                    0 <= j < old(self).color_meshes.live_of(key).len() && j != slot as int
                        ==> final(self).color_meshes.live_of(key)[j] == old(self).color_meshes.live_of(key)[j]
            }),
    {
        let ghost pre = *self;
        let key = id_key(tag);
        #[verifier::truncate]
        let slot = crate::ids::id_slot(tag) as usize;
        let model = mat4_from_rotation_translation(rotation, translation);
        let normal = normal_matrix(&model);
        let inst = InstanceRaw { model, normal };
        let r = self.color_meshes.update_instance(key, slot, inst);
        proof {
            assert forall|k: u64| #[trigger] self.has_mesh(k) == pre.has_mesh(k) && self.mesh_live(
                k,
            ).len() == pre.mesh_live(k).len() by {
                assert(self.color_meshes.contains_mesh(k) == pre.color_meshes.contains_mesh(k));
                if k != key {
                    if pre.color_meshes.contains_mesh(k) {
                        assert(self.color_meshes.buffer_of(k) == pre.color_meshes.buffer_of(k));
                    }
                }
            }
            assert forall|k: u64| #[trigger]
                self.color_meshes.contains_mesh(k) implies !self.texture_meshes.contains_mesh(
                k,
            ) by {
                assert(self.color_meshes.contains_mesh(k) == pre.color_meshes.contains_mesh(k));
            }
            assert forall|k: u64| #[trigger]
                self.texture_meshes.contains_mesh(k) implies !self.color_meshes.contains_mesh(
                k,
            ) by {
                assert(self.color_meshes.contains_mesh(k) == pre.color_meshes.contains_mesh(k));
            }
            assert forall|id: u128| #[trigger] self.objs().dom().contains(id) implies self.has_mesh(
                spec_id_key(id),
            ) && (spec_id_slot(id) as nat) < self.mesh_live(spec_id_key(id)).len() by {
                assert(pre.objs().dom().contains(id));
                assert(self.has_mesh(spec_id_key(id)) == pre.has_mesh(spec_id_key(id)));
                assert(self.mesh_live(spec_id_key(id)).len() == pre.mesh_live(
                    spec_id_key(id),
                ).len());
            }
        }
        r
    }

    /// Per-frame synchronization: every physics body carrying a nonzero
    /// user-data tag pushes its current pose into the instance slot the tag
    /// addresses, via the colored registry's single-instance update. The
    /// result pairs each touched mesh key with the GPU operations to
    /// replay, in order. Nothing else changes: the object map, the tags,
    /// which meshes exist and how many instances each holds all stay as
    /// they were.
    pub fn update_objects(&mut self) -> (out: Vec<(u64, Vec<GpuOp>)>)
        requires
            old(self).wf(),
        ensures
            final(self).wf(),
            final(self).objs() == old(self).objs(),
            final(self).tags() == old(self).tags(),
            forall|k: u64| #[trigger] final(self).has_mesh(k) == old(self).has_mesh(k),
            forall|k: u64| #[trigger]
                final(self).mesh_live(k).len() == old(self).mesh_live(k).len(),
    {
        let ghost pre = *self;
        let poses = body_poses(&self.physics.bodies);
        let mut out: Vec<(u64, Vec<GpuOp>)> = Vec::new();
        let mut i: usize = 0;
        while i < poses.len()
            invariant
                self.wf(),
                self.objs() == pre.objs(),
                self.tags() == pre.tags(),
                forall|k: u64| #[trigger] self.has_mesh(k) == pre.has_mesh(k),
                forall|k: u64| #[trigger] self.mesh_live(k).len() == pre.mesh_live(k).len(),
            decreases poses@.len() - i,
        {
            let (_h, tag, t, q) = poses[i];
            if tag != 0 {
                let ghost midt = *self;
                let key = id_key(tag);
                let r = self.update_from_pose(tag, &t, &q);
                proof {
                    assert forall|k: u64| #[trigger] self.has_mesh(k) == pre.has_mesh(k) by {
                        assert(self.has_mesh(k) == midt.has_mesh(k));
                    }
                    assert forall|k: u64| #[trigger] self.mesh_live(k).len() == pre.mesh_live(
                        k,
                    ).len() by {
                        assert(self.mesh_live(k).len() == midt.mesh_live(k).len());
                    }
                }
                match r {
                    Some(ops) => {
                        out.push((key, ops));
                    },
                    None => {},
                }
            }
            i += 1;
        }
        out
    }
}

/// After one removal the scene invariant still holds: the freed and last
/// slots' ids left the map (the last re-keyed to the freed slot), every
/// other id's slot is untouched and still live, and injectivity survives
/// the re-key because the moved pair's previous key was just removed.
proof fn lemma_remove_preserves_wf(pre: Scene, post: Scene, mesh_id: u64, idx: int)
    requires
        pre.wf(),
        pre.has_mesh(mesh_id),
        0 <= idx < pre.mesh_live(mesh_id).len(),
        pre.mesh_live(mesh_id).len() <= u64::MAX,
        post.color_meshes.wf(),
        post.texture_meshes.wf(),
        post.color_meshes.idx_map() == pre.color_meshes.idx_map(),
        post.texture_meshes.idx_map() == pre.texture_meshes.idx_map(),
        post.mesh_live(mesh_id) == spec_swap_removed(pre.mesh_live(mesh_id), idx),
        forall|k: u64| k != mesh_id ==> #[trigger] post.mesh_live(k) == pre.mesh_live(k),
        post.objs() == spec_removed_objects(
            pre.objs(),
            spec_pack_id(mesh_id, idx as u64),
            spec_pack_id(mesh_id, (pre.mesh_live(mesh_id).len() - 1) as u64),
        ),
    ensures
        post.wf(),
{
    let n = pre.mesh_live(mesh_id).len();
    let removed_id = spec_pack_id(mesh_id, idx as u64);
    let last_id = spec_pack_id(mesh_id, (n - 1) as u64);
    crate::ids::lemma_pack_id_invertible(mesh_id, idx as u64);
    crate::ids::lemma_pack_id_invertible(mesh_id, (n - 1) as u64);

    assert forall|k: u64| #[trigger] post.color_meshes.contains_mesh(k)
        implies !post.texture_meshes.contains_mesh(k) by {
        assert(pre.color_meshes.contains_mesh(k));
    }
    assert forall|k: u64| #[trigger] post.texture_meshes.contains_mesh(k)
        implies !post.color_meshes.contains_mesh(k) by {
        assert(pre.texture_meshes.contains_mesh(k));
    }

    let m0 = pre.objs();
    let m1 = m0.remove(removed_id);

    assert(map_injective(post.objs())) by {
        if removed_id != last_id && m1.dom().contains(last_id) {
            let pl = m1[last_id];
            let m2 = m1.remove(last_id);
            assert forall|a: u128, b: u128|
                post.objs().dom().contains(a) && post.objs().dom().contains(b) && a
                    != b implies post.objs()[a] != post.objs()[b] by {
                if a != removed_id && b != removed_id {
                    assert(m0.dom().contains(a) && m0.dom().contains(b));
                } else {
                    let other = if a == removed_id {
                        b
                    } else {
                        a
                    };
                    assert(post.objs()[removed_id] == pl);
                    assert(m0.dom().contains(other) && m0.dom().contains(last_id));
                    assert(other != last_id);
                }
            }
        }
    }

    assert(post.slots_valid()) by {
        assert forall|id: u128| #[trigger] post.objs().dom().contains(id) implies post.has_mesh(
            spec_id_key(id),
        ) && (spec_id_slot(id) as nat) < post.mesh_live(spec_id_key(id)).len() by {
            let k = spec_id_key(id);
            if id == removed_id {
                // the re-keyed pair: slot idx, mesh still has n - 1 live
                assert(idx < n - 1);
                assert(post.mesh_live(mesh_id).len() == n - 1);
                assert(pre.has_mesh(mesh_id) == post.has_mesh(mesh_id));
            } else {
                assert(m0.dom().contains(id));
                assert(pre.has_mesh(k) && (spec_id_slot(id) as nat) < pre.mesh_live(k).len());
                if k == mesh_id {
                    // not the removed slot and not the last slot: both ids
                    // are out of the map now
                    assert(id != last_id);
                    crate::ids::lemma_pack_id_invertible(k, spec_id_slot(id));
                    assert(spec_pack_id(k, spec_id_slot(id)) == id) by {
                        assert(spec_id_key(id) == k);
                        lemma_id_roundtrip(id);
                    }
                    assert(spec_id_slot(id) != idx as u64);
                    assert(spec_id_slot(id) != (n - 1) as u64);
                    assert((spec_id_slot(id) as nat) < n - 1);
                    assert(post.mesh_live(k).len() == n - 1);
                } else {
                    assert(post.mesh_live(k) == pre.mesh_live(k));
                    assert(post.has_mesh(k) == pre.has_mesh(k));
                }
            }
        }
    }
}

/// One removal never creates a body tag: the removed object's tag leaves,
/// and the re-key only rewrites a tag that already exists.
pub proof fn lemma_removed_tags_dom(
    t0: Map<RawHandle, u128>,
    m0: Map<u128, PhysPair>,
    removed_id: u128,
    last_id: u128,
)
    ensures
        spec_removed_tags(t0, m0, removed_id, last_id).dom().subset_of(t0.dom()),
{
    let res = spec_removed_tags(t0, m0, removed_id, last_id);
    assert forall|h: RawHandle| res.dom().contains(h) implies t0.dom().contains(h) by {}
}

/// Inserting a pair whose value no mapped id holds evicts nothing: the
/// bijection insert reduces to a plain map insert.
pub proof fn lemma_bimap_insert_no_evict(m: Map<u128, PhysPair>, l: u128, r: PhysPair)
    requires
        forall|id: u128| #[trigger] m.dom().contains(id) ==> m[id] != r,
    ensures
        spec_bimap_inserted(m, l, r) =~= m.insert(l, r),
{
}

/// The key of the projectile mesh: the hash of its authoring name.
pub open spec fn spec_ball_key() -> u64 {
    mesh_key_of("ball".spec_bytes())
}

/// Inserting into the bijection keeps it injective: any pair sharing the
/// new right value is dropped first.
pub proof fn lemma_bimap_inserted_injective(m: Map<u128, PhysPair>, l: u128, r: PhysPair)
    requires
        map_injective(m),
    ensures
        map_injective(spec_bimap_inserted(m, l, r)),
{
    let res = spec_bimap_inserted(m, l, r);
    assert forall|a: u128, b: u128|
        res.dom().contains(a) && res.dom().contains(b) && a != b implies res[a] != res[b] by {
        if a == l || b == l {
            let other = if a == l {
                b
            } else {
                a
            };
            assert(m.dom().contains(other) && m[other] != r);
        }
    }
}

/// The swap-remove reindexing law: removing slot `k` of a mesh with `n`
/// live instances, where `k` is not the last slot and the last slot is
/// mapped, leaves the physics object previously keyed by slot `n - 1`
/// addressable under slot `k`, and slot `n - 1` resolving to nothing.
pub proof fn lemma_swap_remove_rekeying(m0: Map<u128, PhysPair>, mesh: u64, k: u64, n: u64)
    requires
        map_injective(m0),
        (k as nat) + 1 < n as nat,
        m0.dom().contains(spec_pack_id(mesh, (n - 1) as u64)),
    ensures
        ({
            let res = spec_removed_objects(
                m0,
                spec_pack_id(mesh, k),
                spec_pack_id(mesh, (n - 1) as u64),
            );
            &&& res.dom().contains(spec_pack_id(mesh, k))
            &&& res[spec_pack_id(mesh, k)] == m0[spec_pack_id(mesh, (n - 1) as u64)]
            &&& !res.dom().contains(spec_pack_id(mesh, (n - 1) as u64))
        }),
{
    let rid = spec_pack_id(mesh, k);
    let lid = spec_pack_id(mesh, (n - 1) as u64);
    crate::ids::lemma_pack_id_invertible(mesh, k);
    crate::ids::lemma_pack_id_invertible(mesh, (n - 1) as u64);
    assert(rid != lid);
    let m1 = m0.remove(rid);
    assert(m1.dom().contains(lid));
    let m2 = m1.remove(lid);
    let pl = m1[lid];
    let res = spec_bimap_inserted(m2, rid, pl);
    assert(res.dom().contains(rid) && res[rid] == pl);
    assert(!m2.dom().contains(lid));
    assert(!res.dom().contains(lid));
}

/// Splitting an id into key and slot and packing again gives the id back.
pub proof fn lemma_id_roundtrip(id: u128)
    ensures
        spec_pack_id(spec_id_key(id), spec_id_slot(id)) == id,
{
    assert((((((id >> 64) as u64) as u128) << 64) | ((id as u64) as u128)) == id) by (bit_vector);
}

} // verus!
