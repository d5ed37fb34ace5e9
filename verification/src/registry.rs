//! The per-variant mesh registry: a keyed collection of meshes, each with
//! its instance storage.
//!
//! Meshes are held in an arena vector; a `litemap::LiteMap` maps each mesh
//! key to its arena index. The registry's well-formedness ties the two
//! together: the map and the arena list exactly the same meshes, and every
//! mesh sits at the index its key maps to. Mutation is by key; every
//! instance mutation hands back the GPU operations to replay (see `ibuf`).

use vstd::prelude::*;

use crate::extcol::{litemap_get, litemap_insert, litemap_keys, litemap_len, litemap_model, litemap_new};
use crate::ibuf::{apply_ops, spec_grown_capacity, spec_swap_removed, GpuOp, InstanceBuffer};
use crate::instance::InstanceRaw;

verus! {

/// Render-side bookkeeping of one mesh: its key, how many indices one draw
/// of it covers, and its live instances. The vertex, index and instance
/// buffers themselves are GPU resources owned by unverified device code,
/// addressed by the same key.
pub struct Mesh {
    pub key: u64,
    pub index_count: u32,
    pub instances: InstanceBuffer,
}

/// A keyed collection of meshes for one rendering variant.
pub struct MeshRegistry {
    index: litemap::LiteMap<u64, usize>,
    meshes: Vec<Mesh>,
}

/// Ties the registry's abstract views to the fields they read, so that
/// facts stated over `idx_map` and `meshes_seq` connect to the wrapper
/// contracts stated over `litemap_model`.
proof fn lemma_registry_views(r: MeshRegistry)
    ensures
        r.idx_map() == litemap_model(r.index),
        r.meshes_seq() == r.meshes@,
{
}

impl MeshRegistry {
    /// The key-to-arena-index map.
    pub closed spec fn idx_map(self) -> Map<u64, usize> {
        litemap_model(self.index)
    }

    /// The mesh arena.
    pub closed spec fn meshes_seq(self) -> Seq<Mesh> {
        self.meshes@
    }

    /// Whether a mesh is registered under `k`.
    pub open spec fn contains_mesh(self, k: u64) -> bool {
        self.idx_map().dom().contains(k)
    }

    /// The instance storage of the mesh registered under `k`.
    pub open spec fn buffer_of(self, k: u64) -> InstanceBuffer
        recommends
            self.contains_mesh(k),
    {
        self.meshes_seq()[self.idx_map()[k] as int].instances
    }

    /// The live instance records of the mesh registered under `k`.
    pub open spec fn live_of(self, k: u64) -> Seq<InstanceRaw> {
        self.buffer_of(k).live()
    }

    /// The index count of the mesh registered under `k`.
    pub open spec fn index_count_of(self, k: u64) -> u32
        recommends
            self.contains_mesh(k),
    {
        self.meshes_seq()[self.idx_map()[k] as int].index_count
    }

    /// The map and the arena list the same meshes: every key maps to an
    /// in-range index holding a mesh with that key, every arena slot is
    /// mapped by its mesh's key, and every instance store is well formed.
    pub open spec fn wf(self) -> bool {
        &&& forall|k: u64| #[trigger]
            self.idx_map().dom().contains(k) ==> self.idx_map()[k] < self.meshes_seq().len()
                && self.meshes_seq()[self.idx_map()[k] as int].key == k
        &&& forall|i: int|
            0 <= i < self.meshes_seq().len() ==> self.idx_map().dom().contains(
                (#[trigger] self.meshes_seq()[i]).key,
            ) && self.idx_map()[self.meshes_seq()[i].key] == i
        &&& forall|i: int|
            0 <= i < self.meshes_seq().len() ==> (#[trigger] self.meshes_seq()[i]).instances.wf()
    }

    /// An empty registry.
    pub fn new() -> (r: MeshRegistry)
        ensures
            r.wf(),
            r.idx_map().dom() == Set::<u64>::empty(),
    {
        MeshRegistry { index: litemap_new(), meshes: Vec::new() }
    }

    /// How many instances are live under `k`, or `None` for an unknown key.
    pub fn instance_count(&self, k: u64) -> (r: Option<usize>)
        requires
            self.wf(),
        ensures
            r is Some <==> self.contains_mesh(k),
            self.contains_mesh(k) ==> self.live_of(k).len() <= usize::MAX && r == Some(
                self.live_of(k).len() as usize,
            ),
    {
        proof {
            lemma_registry_views(*self);
        }
        match litemap_get(&self.index, k) {
            Some(i) => {
                let c = self.meshes[i].instances.len();
                proof {
                    assert(c == self.live_of(k).len());
                }
                Some(c)
            },
            None => None,
        }
    }

    /// The record in slot `slot` of the mesh under `k`, if both exist.
    pub fn get_instance(&self, k: u64, slot: usize) -> (r: Option<InstanceRaw>)
        requires
            self.wf(),
        ensures
            r == if self.contains_mesh(k) && slot < self.live_of(k).len() {
                Some(self.live_of(k)[slot as int])
            } else {
                None::<InstanceRaw>
            },
    {
        proof {
            lemma_registry_views(*self);
        }
        match litemap_get(&self.index, k) {
            Some(i) => {
                let m = &self.meshes[i];
                if slot < m.instances.len() {
                    Some(m.instances.get(slot))
                } else {
                    None
                }
            },
            None => None,
        }
    }

    /// Register a mesh under `key` with its initial instances, its storage
    /// allocated at exactly that count. Registering a key again replaces
    /// that mesh. Other meshes are untouched. The returned operations bring
    /// any (even fresh) GPU buffer in sync with the new storage.
    pub fn add_mesh(&mut self, key: u64, index_count: u32, initial: Vec<InstanceRaw>) -> (ops: Vec<
        GpuOp,
    >)
        requires
            old(self).wf(),
        ensures
            final(self).wf(),
            final(self).contains_mesh(key),
            final(self).live_of(key) == initial@,
            final(self).buffer_of(key).cap() == initial@.len(),
            final(self).index_count_of(key) == index_count,
            forall|k: u64|
                k != key ==> (#[trigger] final(self).contains_mesh(k) == old(self).contains_mesh(k)
                    && (old(self).contains_mesh(k) ==> final(self).buffer_of(k) == old(
                    self,
                ).buffer_of(k) && final(self).index_count_of(k) == old(self).index_count_of(k))),
            forall|gpu: Seq<Option<InstanceRaw>>|
                final(self).buffer_of(key).synced(#[trigger] apply_ops(gpu, ops@)),
    {
        let ghost pre = *self;
        proof {
            lemma_registry_views(*self);
        }
        let (buf, ops) = InstanceBuffer::new(initial);
        let mesh = Mesh { key, index_count, instances: buf };
        match litemap_get(&self.index, key) {
            Some(i) => {
                let mref = vstd::std_specs::vec::vec_index_mut(&mut self.meshes, i);
                *mref = mesh;
                proof {
                    assert(self.idx_map() =~= pre.idx_map());
                    assert forall|k: u64| #[trigger]
                        self.idx_map().dom().contains(k) implies self.idx_map()[k]
                        < self.meshes_seq().len() && self.meshes_seq()[self.idx_map()[k] as int].key
                        == k by {
                        assert(pre.idx_map().dom().contains(k));
                    }
                }
            },
            None => {
                let i = self.meshes.len();
                litemap_insert(&mut self.index, key, i);
                self.meshes.push(mesh);
                proof {
                    assert(self.idx_map() =~= pre.idx_map().insert(key, i));
                    assert forall|k: u64| #[trigger]
                        self.idx_map().dom().contains(k) implies self.idx_map()[k]
                        < self.meshes_seq().len() && self.meshes_seq()[self.idx_map()[k] as int].key
                        == k by {
                        if k != key {
                            assert(pre.idx_map().dom().contains(k));
                        }
                    }
                }
            },
        }
        ops
    }

    /// Append an instance to the mesh under `key` (tail slot, growing the
    /// allocation when full), or do nothing and return `None` for an
    /// unknown key.
    pub fn add_instance(&mut self, key: u64, inst: InstanceRaw) -> (r: Option<Vec<GpuOp>>)
        requires
            old(self).wf(),
            old(self).contains_mesh(key) ==> old(self).buffer_of(key).cap() <= usize::MAX / 2,
        ensures
            final(self).wf(),
            old(self).contains_mesh(key) ==> {
                &&& r is Some
                &&& final(self).live_of(key) == old(self).live_of(key).push(inst)
                &&& final(self).buffer_of(key).cap() == if old(self).live_of(key).len() < old(
                    self,
                ).buffer_of(key).cap() {
                    old(self).buffer_of(key).cap()
                } else {
                    spec_grown_capacity(old(self).buffer_of(key).cap())
                }
                &&& forall|gpu: Seq<Option<InstanceRaw>>|
                    old(self).buffer_of(key).synced(gpu) ==> final(self).buffer_of(key).synced(
                        #[trigger] apply_ops(gpu, r.unwrap()@),
                    )
            },
            !old(self).contains_mesh(key) ==> r is None && *final(self) == *old(self),
            forall|k: u64|
                k != key ==> (#[trigger] final(self).contains_mesh(k) == old(self).contains_mesh(k)
                    && (old(self).contains_mesh(k) ==> final(self).buffer_of(k) == old(
                    self,
                ).buffer_of(k))),
            final(self).idx_map() == old(self).idx_map(),
    {
        let ghost pre = *self;
        proof {
            lemma_registry_views(*self);
        }
        match litemap_get(&self.index, key) {
            Some(i) => {
                let mref = vstd::std_specs::vec::vec_index_mut(&mut self.meshes, i);
                let ops = mref.instances.add(inst);
                proof {
                    assert(self.meshes_seq() =~= pre.meshes_seq().update(
                        pre.idx_map()[key] as int,
                        self.meshes_seq()[pre.idx_map()[key] as int],
                    ));
                    assert forall|k: u64| #[trigger]
                        self.idx_map().dom().contains(k) implies self.idx_map()[k]
                        < self.meshes_seq().len() && self.meshes_seq()[self.idx_map()[k] as int].key
                        == k by {
                        assert(pre.idx_map().dom().contains(k));
                    }
                }
                Some(ops)
            },
            None => None,
        }
    }

    /// Swap-remove slot `slot` of the mesh under `key`: the last live record
    /// moves into `slot`. Does nothing and returns `None` when the key is
    /// unknown or the slot is not live (an out-of-range removal is a no-op
    /// by design: batched callers may race their own compaction).
    pub fn remove_instance(&mut self, key: u64, slot: usize) -> (r: Option<Vec<GpuOp>>)
        requires
            old(self).wf(),
        ensures
            final(self).wf(),
            old(self).contains_mesh(key) && slot < old(self).live_of(key).len() ==> {
                &&& r is Some
                &&& final(self).live_of(key) == spec_swap_removed(
                    old(self).live_of(key),
                    slot as int,
                )
                &&& final(self).buffer_of(key).cap() == old(self).buffer_of(key).cap()
                &&& forall|gpu: Seq<Option<InstanceRaw>>|
                    old(self).buffer_of(key).synced(gpu) ==> final(self).buffer_of(key).synced(
                        #[trigger] apply_ops(gpu, r.unwrap()@),
                    )
            },
            !(old(self).contains_mesh(key) && slot < old(self).live_of(key).len()) ==> r is None
                && *final(self) == *old(self),
            forall|k: u64|
                k != key ==> (#[trigger] final(self).contains_mesh(k) == old(self).contains_mesh(k)
                    && (old(self).contains_mesh(k) ==> final(self).buffer_of(k) == old(
                    self,
                ).buffer_of(k))),
            final(self).idx_map() == old(self).idx_map(),
    {
        let ghost pre = *self;
        proof {
            lemma_registry_views(*self);
        }
        match litemap_get(&self.index, key) {
            Some(i) => {
                if slot < self.meshes[i].instances.len() {
                    let mref = vstd::std_specs::vec::vec_index_mut(&mut self.meshes, i);
                    let ops = mref.instances.remove(slot);
                    proof {
                        assert(self.meshes_seq() =~= pre.meshes_seq().update(
                            pre.idx_map()[key] as int,
                            self.meshes_seq()[pre.idx_map()[key] as int],
                        ));
                        assert forall|k: u64| #[trigger]
                            self.idx_map().dom().contains(k) implies self.idx_map()[k]
                            < self.meshes_seq().len()
                            && self.meshes_seq()[self.idx_map()[k] as int].key == k by {
                            assert(pre.idx_map().dom().contains(k));
                        }
                    }
                    Some(ops)
                } else {
                    None
                }
            },
            None => None,
        }
    }

    /// Overwrite slot `slot` of the mesh under `key` in place; unknown keys
    /// and out-of-range slots are no-ops.
    pub fn update_instance(&mut self, key: u64, slot: usize, inst: InstanceRaw) -> (r: Option<
        Vec<GpuOp>,
    >)
        requires
            old(self).wf(),
        ensures
            final(self).wf(),
            old(self).contains_mesh(key) ==> {
                &&& r is Some
                &&& final(self).live_of(key) == if slot < old(self).live_of(key).len() {
                    old(self).live_of(key).update(slot as int, inst)
                } else {
                    old(self).live_of(key)
                }
                &&& final(self).buffer_of(key).cap() == old(self).buffer_of(key).cap()
                &&& forall|gpu: Seq<Option<InstanceRaw>>|
                    old(self).buffer_of(key).synced(gpu) ==> final(self).buffer_of(key).synced(
                        #[trigger] apply_ops(gpu, r.unwrap()@),
                    )
            },
            !old(self).contains_mesh(key) ==> r is None && *final(self) == *old(self),
            forall|k: u64|
                k != key ==> (#[trigger] final(self).contains_mesh(k) == old(self).contains_mesh(k)
                    && (old(self).contains_mesh(k) ==> final(self).buffer_of(k) == old(
                    self,
                ).buffer_of(k))),
            final(self).idx_map() == old(self).idx_map(),
    {
        let ghost pre = *self;
        proof {
            lemma_registry_views(*self);
        }
        match litemap_get(&self.index, key) {
            Some(i) => {
                let mref = vstd::std_specs::vec::vec_index_mut(&mut self.meshes, i);
                let ops = mref.instances.update(slot, inst);
                proof {
                    assert(self.meshes_seq() =~= pre.meshes_seq().update(
                        pre.idx_map()[key] as int,
                        self.meshes_seq()[pre.idx_map()[key] as int],
                    ));
                    assert forall|k: u64| #[trigger]
                        self.idx_map().dom().contains(k) implies self.idx_map()[k]
                        < self.meshes_seq().len() && self.meshes_seq()[self.idx_map()[k] as int].key
                        == k by {
                        assert(pre.idx_map().dom().contains(k));
                    }
                }
                Some(ops)
            },
            None => None,
        }
    }

    /// Replace the whole live contents of the mesh under `key`; unknown keys
    /// are no-ops.
    pub fn update_all_instances(&mut self, key: u64, instances: Vec<InstanceRaw>) -> (r: Option<
        Vec<GpuOp>,
    >)
        requires
            old(self).wf(),
        ensures
            final(self).wf(),
            old(self).contains_mesh(key) ==> {
                &&& r is Some
                &&& final(self).live_of(key) == instances@
                &&& forall|gpu: Seq<Option<InstanceRaw>>|
                    old(self).buffer_of(key).synced(gpu) ==> final(self).buffer_of(key).synced(
                        #[trigger] apply_ops(gpu, r.unwrap()@),
                    )
            },
            !old(self).contains_mesh(key) ==> r is None && *final(self) == *old(self),
            forall|k: u64|
                k != key ==> (#[trigger] final(self).contains_mesh(k) == old(self).contains_mesh(k)
                    && (old(self).contains_mesh(k) ==> final(self).buffer_of(k) == old(
                    self,
                ).buffer_of(k))),
            final(self).idx_map() == old(self).idx_map(),
    {
        let ghost pre = *self;
        proof {
            lemma_registry_views(*self);
        }
        match litemap_get(&self.index, key) {
            Some(i) => {
                let mref = vstd::std_specs::vec::vec_index_mut(&mut self.meshes, i);
                let ops = mref.instances.replace_all(instances);
                proof {
                    assert(self.meshes_seq() =~= pre.meshes_seq().update(
                        pre.idx_map()[key] as int,
                        self.meshes_seq()[pre.idx_map()[key] as int],
                    ));
                    assert forall|k: u64| #[trigger]
                        self.idx_map().dom().contains(k) implies self.idx_map()[k]
                        < self.meshes_seq().len() && self.meshes_seq()[self.idx_map()[k] as int].key
                        == k by {
                        assert(pre.idx_map().dom().contains(k));
                    }
                }
                Some(ops)
            },
            None => None,
        }
    }

    /// How many meshes are registered.
    pub fn mesh_count(&self) -> (n: usize)
        requires
            self.wf(),
        ensures
            n == self.idx_map().dom().len(),
    {
        proof {
            lemma_registry_views(*self);
        }
        litemap_len(&self.index)
    }

    /// Every registered mesh key exactly once; the order is the key map's
    /// own and carries no meaning.
    pub fn keys(&self) -> (r: Vec<u64>)
        requires
            self.wf(),
        ensures
            forall|k: u64| r@.contains(k) <==> self.contains_mesh(k),
            forall|i: int, j: int| 0 <= i < j < r@.len() ==> r@[i] != r@[j],
    {
        proof {
            lemma_registry_views(*self);
        }
        litemap_keys(&self.index)
    }

    /// One draw entry per registered mesh: its key, the index count of one
    /// draw, and how many instances that draw covers. Every registered mesh
    /// appears exactly once; the order is the key map's own and carries no
    /// meaning.
    pub fn draw_list(&self) -> (r: Vec<(u64, u32, usize)>)
        requires
            self.wf(),
        ensures
            forall|j: int|
                0 <= j < r@.len() ==> self.contains_mesh((#[trigger] r@[j]).0) && r@[j].1
                    == self.index_count_of(r@[j].0) && r@[j].2 == self.live_of(r@[j].0).len(),
            forall|k: u64| #[trigger]
                self.contains_mesh(k) ==> exists|j: int| 0 <= j < r@.len() && (#[trigger] r@[j]).0 == k,
            forall|i: int, j: int| 0 <= i < j < r@.len() ==> r@[i].0 != r@[j].0,
    {
        proof {
            lemma_registry_views(*self);
        }
        let keys = litemap_keys(&self.index);
        let mut r: Vec<(u64, u32, usize)> = Vec::new();
        let mut i: usize = 0;
        while i < keys.len()
            invariant
                self.wf(),
                i <= keys@.len(),
                forall|k: u64| keys@.contains(k) <==> self.idx_map().dom().contains(k),
                forall|a: int, b: int| 0 <= a < b < keys@.len() ==> keys@[a] != keys@[b],
                r@.len() == i,
                forall|j: int| 0 <= j < i ==> (#[trigger] r@[j]).0 == keys@[j],
                forall|j: int|
                    0 <= j < i ==> self.contains_mesh((#[trigger] r@[j]).0) && r@[j].1
                        == self.index_count_of(r@[j].0) && r@[j].2 == self.live_of(r@[j].0).len(),
            decreases keys@.len() - i,
        {
            let k = keys[i];
            proof {
                assert(keys@.contains(keys@[i as int]));
            }
            let mi = litemap_get(&self.index, k).unwrap();
            let m = &self.meshes[mi];
            r.push((k, m.index_count, m.instances.len()));
            i += 1;
        }
        proof {
            assert forall|k: u64| #[trigger] self.contains_mesh(k) implies exists|j: int|
                0 <= j < r@.len() && (#[trigger] r@[j]).0 == k by {
                assert(keys@.contains(k));
                let j = choose|j: int| 0 <= j < keys@.len() && keys@[j] == k;
                assert(r@[j].0 == k);
            }
        }
        r
    }
}

} // verus!
