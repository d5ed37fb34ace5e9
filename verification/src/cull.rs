//! View-frustum culling: every instance whose position lies behind the
//! camera is removed, mesh by mesh, in descending slot order.
//!
//! Descending order is load-bearing: each removal swap-compacts the live
//! array, so removing an earlier slot first would re-seat later flagged
//! slots and remove the wrong instances. Processed largest-first, every
//! flagged slot still addresses the instance that was flagged, and what
//! survives is exactly (as a multiset: swap-compaction reorders) the
//! instances in front of the camera.

use vstd::prelude::*;
use vstd::seq_lib::lemma_multiset_commutative;

use crate::ibuf::{spec_swap_removed, GpuOp};
use crate::ids::{spec_id_key, spec_id_slot};
use crate::instance::InstanceRaw;
use crate::mathops::{behind_camera, spec_behind_camera};
use crate::scene::Scene;

verus! {

/// Whether a record survives culling against the given camera.
pub open spec fn spec_keep(cam_pos: Seq<u32>, cam_fwd: Seq<u32>) -> spec_fn(InstanceRaw) -> bool {
    |r: InstanceRaw| !spec_behind_camera(r.model@, cam_pos, cam_fwd)
}

/// Swap-removing a record the filter drops leaves the filtered multiset
/// unchanged.
pub proof fn lemma_swap_removed_filter_multiset(
    s: Seq<InstanceRaw>,
    i: int,
    pred: spec_fn(InstanceRaw) -> bool,
)
    requires
        0 <= i < s.len(),
        !pred(s[i]),
    ensures
        spec_swap_removed(s, i).filter(pred).to_multiset() == s.filter(pred).to_multiset(),
{
    broadcast use vstd::seq_lib::group_to_multiset_ensures, Seq::filter_distributes_over_add;

    let n = s.len() as int;
    reveal_with_fuel(Seq::filter, 2);
    if i == n - 1 {
        assert(s =~= s.drop_last().push(s.last()));
        assert(spec_swap_removed(s, i) =~= s.drop_last());
        assert(s.filter(pred) == s.drop_last().filter(pred));
    } else {
        let a = s.take(i);
        let b = s.subrange(i + 1, n - 1);
        let l = seq![s.last()];
        let x = seq![s[i]];
        assert(x.filter(pred) =~= Seq::<InstanceRaw>::empty());
        assert(spec_swap_removed(s, i) =~= a + (l + b));
        assert(s =~= a + (x + (b + l)));
        assert(spec_swap_removed(s, i).filter(pred) == a.filter(pred) + (l.filter(pred)
            + b.filter(pred)));
        assert(s.filter(pred) == a.filter(pred) + (x.filter(pred) + (b.filter(pred) + l.filter(
            pred,
        ))));
        assert(s.filter(pred) == a.filter(pred) + (b.filter(pred) + l.filter(pred)));
        lemma_multiset_commutative(a.filter(pred), l.filter(pred) + b.filter(pred));
        lemma_multiset_commutative(l.filter(pred), b.filter(pred));
        lemma_multiset_commutative(a.filter(pred), b.filter(pred) + l.filter(pred));
        lemma_multiset_commutative(b.filter(pred), l.filter(pred));
        assert(spec_swap_removed(s, i).filter(pred).to_multiset() =~= s.filter(pred).to_multiset());
    }
}

/// A sequence every record of which the filter keeps is its own filtrate.
pub proof fn lemma_filter_all_kept(s: Seq<InstanceRaw>, pred: spec_fn(InstanceRaw) -> bool)
    requires
        forall|i: int| 0 <= i < s.len() ==> pred(#[trigger] s[i]),
    ensures
        s.filter(pred) == s,
    decreases s.len(),
{
    reveal_with_fuel(Seq::filter, 2);
    if s.len() == 0 {
        assert(s.filter(pred) =~= s);
    } else {
        lemma_filter_all_kept(s.drop_last(), pred);
        assert(s.filter(pred) =~= s);
    }
}

impl Scene {
    /// The live record in slot `slot` of the mesh under `k`, consulting the
    /// registries the way `mesh_live` does.
    fn live_record(&self, k: u64, slot: usize) -> (r: Option<InstanceRaw>)
        requires
            self.wf(),
        ensures
            r == if slot < self.mesh_live(k).len() {
                Some(self.mesh_live(k)[slot as int])
            } else {
                None::<InstanceRaw>
            },
    {
        match self.color_meshes.get_instance(k, slot) {
            Some(rec) => Some(rec),
            None => {
                if self.color_meshes.instance_count(k).is_some() {
                    None
                } else {
                    self.texture_meshes.get_instance(k, slot)
                }
            },
        }
    }

    /// Cull one mesh: flag every live slot whose instance lies behind the
    /// camera, then remove the flagged slots in descending order (each
    /// removal swap-compacts, so ascending order would re-seat later
    /// flags). What survives is, as a multiset, exactly the instances in
    /// front of the camera; each removal also ran the full object-map and
    /// physics choreography.
    fn cull_mesh(&mut self, key: u64, cam_pos: &[u32; 3], cam_fwd: &[u32; 3]) -> (out: Vec<
        Vec<GpuOp>,
    >)
        requires
            old(self).wf(),
        ensures
            final(self).wf(),
            final(self).mesh_live(key).to_multiset() == old(self).mesh_live(key).filter(
                spec_keep(cam_pos@, cam_fwd@),
            ).to_multiset(),
            forall|j: int|
                0 <= j < final(self).mesh_live(key).len() ==> !spec_behind_camera(
                    final(self).mesh_live(key)[j].model@,
                    cam_pos@,
                    cam_fwd@,
                ),
            forall|k: u64|
                k != key ==> #[trigger] final(self).mesh_live(k) == old(self).mesh_live(k),
            forall|k: u64| #[trigger] final(self).has_mesh(k) == old(self).has_mesh(k),
            final(self).tags().dom().subset_of(old(self).tags().dom()),
            (forall|j: int|
                0 <= j < old(self).mesh_live(key).len() ==> !spec_behind_camera(
                    old(self).mesh_live(key)[j].model@,
                    cam_pos@,
                    cam_fwd@,
                )) ==> *final(self) == *old(self),
    {
        let ghost orig = *self;
        let ghost keep = spec_keep(cam_pos@, cam_fwd@);
        let n0 = self.mesh_instance_count(key);
        let mut flagged: Vec<usize> = Vec::new();
        let mut i: usize = 0;
        while i < n0
            invariant
                self.wf(),
                *self == orig,
                n0 == self.mesh_live(key).len(),
                i <= n0,
                forall|m: int, mm: int|
                    0 <= m < mm < flagged@.len() ==> flagged@[m] < flagged@[mm],
                forall|m: int| 0 <= m < flagged@.len() ==> (#[trigger] flagged@[m]) < i,
                forall|p: usize|
                    p < i ==> (spec_behind_camera(
                        self.mesh_live(key)[p as int].model@,
                        cam_pos@,
                        cam_fwd@,
                    ) <==> flagged@.contains(p)),
            decreases n0 - i,
        {
            let rec = self.live_record(key, i).unwrap();
            if behind_camera(&rec.model, cam_pos, cam_fwd) {
                let ghost pref = flagged@;
                flagged.push(i);
                proof {
                    assert forall|p: usize|
                        p < i + 1 implies (spec_behind_camera(
                        self.mesh_live(key)[p as int].model@,
                        cam_pos@,
                        cam_fwd@,
                    ) <==> flagged@.contains(p)) by {
                        if p < i {
                            assert(pref.contains(p) <==> flagged@.contains(p)) by {
                                assert(flagged@ == pref.push(i));
                                if flagged@.contains(p) {
                                    let w = choose|w: int| 0 <= w < flagged@.len() && #[trigger] flagged@[w] == p;
                                    assert(w < pref.len());
                                    assert(pref[w] == p);
                                }
                                if pref.contains(p) {
                                    let w = choose|w: int| 0 <= w < pref.len() && #[trigger] pref[w] == p;
                                    assert(flagged@[w] == p);
                                }
                            }
                        } else {
                            assert(flagged@[flagged@.len() - 1] == i);
                        }
                    }
                }
            } else {
                proof {
                    assert forall|p: usize|
                        p < i + 1 implies (spec_behind_camera(
                        self.mesh_live(key)[p as int].model@,
                        cam_pos@,
                        cam_fwd@,
                    ) <==> flagged@.contains(p)) by {
                        if p == i {
                            if flagged@.contains(p) {
                                let w = choose|w: int| 0 <= w < flagged@.len() && #[trigger] flagged@[w] == p;
                                assert(flagged@[w] < i);
                            }
                        }
                    }
                }
            }
            i += 1;
        }

        let mut out: Vec<Vec<GpuOp>> = Vec::new();
        let flen = flagged.len();
        proof {
            assert(flagged@.take(flen as int) =~= flagged@);
            if forall|jj: int|
                0 <= jj < orig.mesh_live(key).len() ==> !spec_behind_camera(
                    orig.mesh_live(key)[jj].model@,
                    cam_pos@,
                    cam_fwd@,
                ) {
                assert(flagged@.len() == 0) by {
                    if flagged@.len() > 0 {
                        let p = flagged@[0];
                        assert(flagged@.contains(p));
                        assert(spec_behind_camera(
                            orig.mesh_live(key)[p as int].model@,
                            cam_pos@,
                            cam_fwd@,
                        ));
                    }
                }
            }
        }
        let mut j: usize = flen;
        while j > 0
            invariant
                self.wf(),
                j <= flen,
                flen == flagged@.len(),
                self.mesh_live(key).len() <= usize::MAX,
                forall|m: int, mm: int|
                    0 <= m < mm < flagged@.len() ==> flagged@[m] < flagged@[mm],
                self.mesh_live(key).len() + (flen - j) == orig.mesh_live(key).len(),
                forall|m: int| 0 <= m < j ==> (#[trigger] flagged@[m]) < self.mesh_live(key).len(),
                forall|p: usize|
                    (p as nat) < self.mesh_live(key).len() ==> (spec_behind_camera(
                        self.mesh_live(key)[p as int].model@,
                        cam_pos@,
                        cam_fwd@,
                    ) <==> flagged@.take(j as int).contains(p)),
                self.mesh_live(key).filter(keep).to_multiset() == orig.mesh_live(key).filter(
                    keep,
                ).to_multiset(),
                keep == spec_keep(cam_pos@, cam_fwd@),
                forall|k: u64| k != key ==> #[trigger] self.mesh_live(k) == orig.mesh_live(k),
                forall|k: u64| #[trigger] self.has_mesh(k) == orig.has_mesh(k),
                self.tags().dom().subset_of(orig.tags().dom()),
                flen == 0 ==> *self == orig,
            decreases j,
        {
            let ghost cur = self.mesh_live(key);
            let ghost pre_tags = self.tags();
            let ghost pre_objs = self.objs();
            let d = flagged[j - 1];
            proof {
                assert(flagged@.take(j as int).contains(d)) by {
                    assert(flagged@.take(j as int)[j - 1] == d);
                }
                assert(spec_behind_camera(cur[d as int].model@, cam_pos@, cam_fwd@));
                assert(self.has_mesh(key)) by {
                    assert(cur.len() > 0);
                }
            }
            let r = self.remove_instance(key, d);
            proof {
                crate::scene::lemma_removed_tags_dom(
                    pre_tags,
                    pre_objs,
                    crate::ids::spec_pack_id(key, d as u64),
                    crate::ids::spec_pack_id(key, (cur.len() - 1) as u64),
                );
                let newl = self.mesh_live(key);
                assert(newl == spec_swap_removed(cur, d as int));
                lemma_swap_removed_filter_multiset(cur, d as int, keep);
                // the remaining flags are exactly the behind-slots of the
                // compacted array
                assert forall|p: usize|
                    (p as nat) < newl.len() implies (spec_behind_camera(
                    newl[p as int].model@,
                    cam_pos@,
                    cam_fwd@,
                ) <==> flagged@.take(j - 1).contains(p)) by {
                    let curlen = cur.len() as int;
                    if (p as int) < d {
                        assert(newl[p as int] == cur[p as int]);
                        assert(flagged@.take(j as int).contains(p) <==> flagged@.take(
                            j - 1,
                        ).contains(p)) by {
                            if flagged@.take(j as int).contains(p) {
                                let w = choose|w: int| 0 <= w < j && #[trigger] flagged@.take(j as int)[w] == p;
                                assert(flagged@[w] == p);
                                assert(w != j - 1);
                                assert(flagged@.take(j - 1)[w] == p);
                            }
                            if flagged@.take(j - 1).contains(p) {
                                let w = choose|w: int| 0 <= w < j - 1 && #[trigger] flagged@.take(j - 1)[w] == p;
                                assert(flagged@.take(j as int)[w] == p);
                            }
                        }
                    } else {
                        // at or above the removed slot nothing is flagged
                        // any more: d was the largest remaining flag
                        assert(!flagged@.take(j - 1).contains(p)) by {
                            if flagged@.take(j - 1).contains(p) {
                                let w = choose|w: int| 0 <= w < j - 1 && #[trigger] flagged@.take(j - 1)[w] == p;
                                assert(flagged@[w] == p);
                                assert(flagged@[w] < flagged@[j - 1]);
                            }
                        }
                        if p as int == d {
                            assert(d < curlen - 1);
                            assert(newl[p as int] == cur[curlen - 1]);
                            assert(!spec_behind_camera(newl[p as int].model@, cam_pos@, cam_fwd@))
                                by {
                                if spec_behind_camera(cur[curlen - 1].model@, cam_pos@, cam_fwd@) {
                                    assert(flagged@.take(j as int).contains((curlen - 1) as usize));
                                    let w = choose|w: int|
                                        0 <= w < j && #[trigger] flagged@.take(j as int)[w] == (
                                        curlen - 1) as usize;
                                    assert(flagged@[w] <= flagged@[j - 1]);
                                }
                            }
                        } else {
                            assert(newl[p as int] == cur[p as int]);
                            assert(!spec_behind_camera(newl[p as int].model@, cam_pos@, cam_fwd@))
                                by {
                                if spec_behind_camera(cur[p as int].model@, cam_pos@, cam_fwd@) {
                                    assert(flagged@.take(j as int).contains(p));
                                    let w = choose|w: int|
                                        0 <= w < j && flagged@.take(j as int)[w] == p;
                                    assert(flagged@[w] <= flagged@[j - 1]);
                                }
                            }
                        }
                    }
                }
            }
            match r {
                Some(ops) => {
                    out.push(ops);
                },
                None => {},
            }
            j -= 1;
        }
        proof {
            assert forall|p: int| 0 <= p < self.mesh_live(key).len() implies keep(
                #[trigger] self.mesh_live(key)[p],
            ) by {
                assert(!flagged@.take(0).contains(p as usize));
            }
            lemma_filter_all_kept(self.mesh_live(key), keep);
            assert forall|p: int| 0 <= p < self.mesh_live(key).len() implies !spec_behind_camera(
                (#[trigger] self.mesh_live(key)[p]).model@,
                cam_pos@,
                cam_fwd@,
            ) by {
                assert(keep(self.mesh_live(key)[p]));
            }
        }
        out
    }

    /// Frustum-based culling over the whole scene: for every mesh in either
    /// registry, every instance behind the camera is removed (descending
    /// slot order per mesh), each removal running the full removal
    /// choreography. Pairs each mesh key with its GPU operation batches, in
    /// replay order.
    pub fn cull_instances_behind_camera(&mut self, cam_pos: &[u32; 3], cam_fwd: &[u32; 3]) -> (out:
        Vec<(u64, Vec<GpuOp>)>)
        requires
            old(self).wf(),
        ensures
            final(self).wf(),
            forall|k: u64| #[trigger] final(self).has_mesh(k) == old(self).has_mesh(k),
            forall|k: u64| #[trigger]
                final(self).mesh_live(k).to_multiset() == old(self).mesh_live(k).filter(
                    spec_keep(cam_pos@, cam_fwd@),
                ).to_multiset(),
            forall|k: u64, j: int|
                0 <= j < final(self).mesh_live(k).len() ==> !spec_behind_camera(
                    (#[trigger] final(self).mesh_live(k)[j]).model@,
                    cam_pos@,
                    cam_fwd@,
                ),
            forall|id: u128| #[trigger]
                final(self).objs().dom().contains(id) ==> !spec_behind_camera(
                    final(self).mesh_live(spec_id_key(id))[spec_id_slot(id) as int].model@,
                    cam_pos@,
                    cam_fwd@,
                ),
            final(self).tags().dom().subset_of(old(self).tags().dom()),
            (forall|k: u64, j: int|
                0 <= j < old(self).mesh_live(k).len() ==> !spec_behind_camera(
                    (#[trigger] old(self).mesh_live(k)[j]).model@,
                    cam_pos@,
                    cam_fwd@,
                )) ==> *final(self) == *old(self),
    {
        let ghost orig = *self;
        let ghost keep = spec_keep(cam_pos@, cam_fwd@);
        let mut keys = self.color_meshes.keys();
        let ghost ckeys = keys@;
        let mut tkeys = self.texture_meshes.keys();
        let ghost txkeys = tkeys@;
        keys.append(&mut tkeys);
        proof {
            assert(keys@ == ckeys + txkeys);
            assert forall|k: u64| orig.has_mesh(k) implies keys@.contains(k) by {
                if orig.color_meshes.contains_mesh(k) {
                    assert(ckeys.contains(k));
                    let w = choose|w: int| 0 <= w < ckeys.len() && #[trigger] ckeys[w] == k;
                    assert(keys@[w] == k);
                } else {
                    assert(txkeys.contains(k));
                    let w = choose|w: int| 0 <= w < txkeys.len() && #[trigger] txkeys[w] == k;
                    assert(keys@[ckeys.len() + w] == k);
                }
            }
        }
        let mut out: Vec<(u64, Vec<GpuOp>)> = Vec::new();
        let mut i: usize = 0;
        while i < keys.len()
            invariant
                self.wf(),
                i <= keys@.len(),
                keep == spec_keep(cam_pos@, cam_fwd@),
                forall|k: u64| #[trigger] self.has_mesh(k) == orig.has_mesh(k),
                forall|k: u64|
                    keys@.take(i as int).contains(k) ==> #[trigger] self.mesh_live(
                        k,
                    ).to_multiset() == orig.mesh_live(k).filter(keep).to_multiset(),
                forall|k: u64|
                    !keys@.take(i as int).contains(k) ==> #[trigger] self.mesh_live(k)
                        == orig.mesh_live(k),
                forall|k: u64| orig.has_mesh(k) ==> keys@.contains(k),
                forall|k: u64, j: int|
                    keys@.take(i as int).contains(k) && 0 <= j < self.mesh_live(k).len()
                        ==> !spec_behind_camera(
                        (#[trigger] self.mesh_live(k)[j]).model@,
                        cam_pos@,
                        cam_fwd@,
                    ),
                self.tags().dom().subset_of(orig.tags().dom()),
                (forall|k: u64, j: int|
                    0 <= j < orig.mesh_live(k).len() ==> !spec_behind_camera(
                        (#[trigger] orig.mesh_live(k)[j]).model@,
                        cam_pos@,
                        cam_fwd@,
                    )) ==> *self == orig,
            decreases keys@.len() - i,
        {
            let k = keys[i];
            let ghost mid = *self;
            let mut ops = self.cull_mesh(k, cam_pos, cam_fwd);
            while ops.len() > 0
                decreases ops@.len(),
            {
                let single = ops.remove(0);
                out.push((k, single));
            }
            proof {
                assert forall|kk: u64|
                    keys@.take(i + 1).contains(kk) implies #[trigger] self.mesh_live(
                    kk,
                ).to_multiset() == orig.mesh_live(kk).filter(keep).to_multiset() by {
                    if kk == k {
                        if keys@.take(i as int).contains(k) {
                            // already culled: the filtered multiset is a
                            // fixed point (everything left is kept)
                            assert(mid.mesh_live(k).to_multiset() == orig.mesh_live(k).filter(
                                keep,
                            ).to_multiset());
                            lemma_filter_multiset_idempotent(
                                mid.mesh_live(k),
                                orig.mesh_live(k),
                                keep,
                            );
                        } else {
                            assert(mid.mesh_live(k) == orig.mesh_live(k));
                        }
                    } else {
                        assert(keys@.take(i as int).contains(kk)) by {
                            let w = choose|w: int| 0 <= w < i + 1 && #[trigger] keys@.take(i + 1)[w] == kk;
                            assert(keys@[w] == kk);
                            assert(w != i);
                            assert(keys@.take(i as int)[w] == kk);
                        }
                        assert(self.mesh_live(kk) == mid.mesh_live(kk));
                    }
                }
                assert forall|kk: u64, j: int|
                    keys@.take(i + 1).contains(kk) && 0 <= j < self.mesh_live(kk).len()
                        implies !spec_behind_camera(
                        (#[trigger] self.mesh_live(kk)[j]).model@,
                        cam_pos@,
                        cam_fwd@,
                    ) by {
                    if kk != k {
                        assert(keys@.take(i as int).contains(kk)) by {
                            let w = choose|w: int| 0 <= w < i + 1 && #[trigger] keys@.take(i + 1)[w] == kk;
                            assert(keys@[w] == kk);
                            assert(w != i);
                            assert(keys@.take(i as int)[w] == kk);
                        }
                        assert(self.mesh_live(kk) == mid.mesh_live(kk));
                    }
                }
                if forall|kk: u64, j: int|
                    0 <= j < orig.mesh_live(kk).len() ==> !spec_behind_camera(
                        (#[trigger] orig.mesh_live(kk)[j]).model@,
                        cam_pos@,
                        cam_fwd@,
                    ) {
                    assert(mid == orig);
                    assert(*self == orig) by {
                        assert(forall|j: int|
                            0 <= j < mid.mesh_live(k).len() ==> !spec_behind_camera(
                                (#[trigger] mid.mesh_live(k)[j]).model@,
                                cam_pos@,
                                cam_fwd@,
                            ));
                    }
                }
                assert forall|kk: u64|
                    !keys@.take(i + 1).contains(kk) implies #[trigger] self.mesh_live(kk)
                        == orig.mesh_live(kk) by {
                    assert(!keys@.take(i as int).contains(kk)) by {
                        if keys@.take(i as int).contains(kk) {
                            let w = choose|w: int| 0 <= w < i && #[trigger] keys@.take(i as int)[w] == kk;
                            assert(keys@.take(i + 1)[w] == kk);
                        }
                    }
                    assert(kk != k) by {
                        if kk == k {
                            assert(keys@.take(i + 1)[i as int] == k);
                        }
                    }
                }
            }
            i += 1;
        }
        proof {
            assert forall|k: u64| #[trigger] self.mesh_live(k).to_multiset() == orig.mesh_live(
                k,
            ).filter(keep).to_multiset() by {
                if keys@.take(keys@.len() as int).contains(k) {
                    assert(keys@.take(keys@.len() as int) =~= keys@);
                } else {
                    assert(keys@.take(keys@.len() as int) =~= keys@);
                    assert(!orig.has_mesh(k));
                    assert(self.mesh_live(k) == orig.mesh_live(k));
                    assert(orig.mesh_live(k) =~= Seq::<InstanceRaw>::empty());
                    lemma_filter_all_kept(orig.mesh_live(k), keep);
                }
            }
            assert forall|k: u64, j: int|
                0 <= j < self.mesh_live(k).len() implies !spec_behind_camera(
                (#[trigger] self.mesh_live(k)[j]).model@,
                cam_pos@,
                cam_fwd@,
            ) by {
                assert(keys@.take(keys@.len() as int) =~= keys@);
                if !keys@.contains(k) {
                    assert(!orig.has_mesh(k));
                    assert(self.mesh_live(k) == orig.mesh_live(k));
                    assert(orig.mesh_live(k) =~= Seq::<InstanceRaw>::empty());
                }
            }
            assert forall|id: u128| #[trigger]
                self.objs().dom().contains(id) implies !spec_behind_camera(
                self.mesh_live(spec_id_key(id))[spec_id_slot(id) as int].model@,
                cam_pos@,
                cam_fwd@,
            ) by {
                assert((spec_id_slot(id) as nat) < self.mesh_live(spec_id_key(id)).len());
            }
        }
        out
    }
}

/// Culling an already-culled array changes nothing: every survivor is kept,
/// so filtering again is the identity on the multiset.
proof fn lemma_filter_multiset_idempotent(
    cur: Seq<InstanceRaw>,
    orig: Seq<InstanceRaw>,
    pred: spec_fn(InstanceRaw) -> bool,
)
    requires
        cur.to_multiset() == orig.filter(pred).to_multiset(),
    ensures
        cur.filter(pred).to_multiset() == orig.filter(pred).to_multiset(),
{
    broadcast use vstd::seq_lib::group_to_multiset_ensures, vstd::seq_lib::group_filter_ensures;

    assert forall|i: int| 0 <= i < cur.len() implies pred(#[trigger] cur[i]) by {
        assert(cur.to_multiset().contains(cur[i]));
        assert(orig.filter(pred).to_multiset().contains(cur[i]));
        assert(orig.filter(pred).contains(cur[i]));
        let w = choose|w: int| 0 <= w < orig.filter(pred).len() && #[trigger] orig.filter(pred)[w] == cur[i];
        assert(pred(orig.filter(pred)[w]));
    }
    lemma_filter_all_kept(cur, pred);
}

} // verus!
