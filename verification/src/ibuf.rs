//! Growable per-mesh instance storage: a CPU-side mirror of the live
//! records together with the exact sequence of GPU buffer operations each
//! mutation requires.
//!
//! The GPU buffer itself is owned by unverified device code; the library
//! models its contents as a sequence of records of length `cap()` and each
//! mutating method returns the operations to replay against the real buffer.
//! Every method guarantees that replaying its operations on any buffer that
//! mirrored the old state yields a buffer that mirrors the new state, so the
//! CPU mirror and the GPU contents can never drift apart (the slot
//! invariant): record `i` of the mirror always sits at buffer offset `i`.

use vstd::prelude::*;

use crate::instance::InstanceRaw;

verus! {

/// One operation to replay against the GPU-resident instance buffer.
pub enum GpuOp {
    /// Allocate a fresh buffer of `capacity` records, copy the first
    /// `preserve` records of the old buffer forward, and leave the rest
    /// zeroed (fresh GPU buffers are zero-initialized).
    Realloc { capacity: usize, preserve: usize },
    /// Overwrite the records at offsets `index .. index + data.len()`.
    WriteAt { index: usize, data: Vec<InstanceRaw> },
}

/// The contents of a GPU buffer after one operation. A cell the library has
/// never written (fresh allocation past the preserved prefix) is undefined,
/// modeled as `None`.
pub open spec fn apply_op(gpu: Seq<Option<InstanceRaw>>, op: GpuOp) -> Seq<Option<InstanceRaw>> {
    match op {
        GpuOp::Realloc { capacity, preserve } => Seq::new(
            capacity as nat,
            |i: int|
                if i < preserve && i < gpu.len() {
                    gpu[i]
                } else {
                    None
                },
        ),
        GpuOp::WriteAt { index, data } => Seq::new(
            gpu.len(),
            |i: int|
                if index <= i && i < index + data@.len() {
                    Some(data@[i - index])
                } else {
                    gpu[i]
                },
        ),
    }
}

/// The contents of a GPU buffer after a sequence of operations, applied in
/// order.
pub open spec fn apply_ops(gpu: Seq<Option<InstanceRaw>>, ops: Seq<GpuOp>) -> Seq<Option<InstanceRaw>>
    decreases ops.len(),
{
    if ops.len() == 0 {
        gpu
    } else {
        apply_ops(apply_op(gpu, ops[0]), ops.drop_first())
    }
}

pub proof fn lemma_apply_ops_one(gpu: Seq<Option<InstanceRaw>>, op: GpuOp)
    ensures
        apply_ops(gpu, seq![op]) == apply_op(gpu, op),
{
    let s = seq![op];
    assert(s.len() == 1 && s[0] == op);
    assert(s.drop_first() =~= Seq::<GpuOp>::empty());
    assert(apply_ops(apply_op(gpu, op), s.drop_first()) == apply_op(gpu, op));
}

pub proof fn lemma_apply_ops_two(gpu: Seq<Option<InstanceRaw>>, op1: GpuOp, op2: GpuOp)
    ensures
        apply_ops(gpu, seq![op1, op2]) == apply_op(apply_op(gpu, op1), op2),
{
    let s = seq![op1, op2];
    assert(s.len() == 2 && s[0] == op1);
    assert(s.drop_first() =~= seq![op2]);
    lemma_apply_ops_one(apply_op(gpu, op1), op2);
    assert(apply_ops(gpu, s) == apply_ops(apply_op(gpu, op1), s.drop_first()));
}

/// Capacity after an append that found the buffer full: double, or one when
/// there was none.
pub open spec fn spec_grown_capacity(c: nat) -> nat {
    if c == 0 {
        1nat
    } else {
        2 * c
    }
}

/// The live array after a swap-remove of slot `i`: the last record moves
/// into `i`, then the array shrinks by one.
pub open spec fn spec_swap_removed(s: Seq<InstanceRaw>, i: int) -> Seq<InstanceRaw>
    recommends
        0 <= i < s.len(),
{
    s.update(i, s.last()).drop_last()
}

/// The live array after a batch removal: the records whose slot is listed in
/// `excluded` are dropped, the rest keep their relative order. Listing a slot
/// twice, or out of range, has no further effect.
pub open spec fn spec_compact_excluding(s: Seq<InstanceRaw>, excluded: Seq<usize>) -> Seq<
    InstanceRaw,
>
    decreases s.len(),
{
    if s.len() == 0 {
        Seq::empty()
    } else {
        let prefix = spec_compact_excluding(s.drop_last(), excluded);
        if excluded.contains((s.len() - 1) as usize) {
            prefix
        } else {
            prefix.push(s.last())
        }
    }
}

/// A batch removal never grows the live array.
pub proof fn lemma_compact_excluding_len(s: Seq<InstanceRaw>, excluded: Seq<usize>)
    ensures
        spec_compact_excluding(s, excluded).len() <= s.len(),
    decreases s.len(),
{
    if s.len() > 0 {
        lemma_compact_excluding_len(s.drop_last(), excluded);
    }
}

/// Whether a slice of slot indices lists `x`.
fn list_contains_usize(v: &[usize], x: usize) -> (b: bool)
    ensures
        b == v@.contains(x),
{
    let mut j: usize = 0;
    while j < v.len()
        invariant
            j <= v@.len(),
            forall|k: int| 0 <= k < j ==> v@[k] != x,
        decreases v@.len() - j,
    {
        if v[j] == x {
            assert(v@[j as int] == x);
            return true;
        }
        j += 1;
    }
    false
}

/// A copy of a record vector (records are plain values).
pub(crate) fn copy_records(v: &Vec<InstanceRaw>) -> (r: Vec<InstanceRaw>)
    ensures
        r@ == v@,
{
    let mut r: Vec<InstanceRaw> = Vec::new();
    let mut i: usize = 0;
    while i < v.len()
        invariant
            i <= v@.len(),
            r@ == v@.take(i as int),
        decreases v@.len() - i,
    {
        r.push(v[i]);
        proof {
            assert(r@ =~= v@.take(i + 1));
        }
        i += 1;
    }
    proof {
        assert(v@.take(v@.len() as int) =~= v@);
    }
    r
}

/// The instance storage of one mesh: the live records (the CPU mirror of the
/// GPU buffer's live prefix) and the record capacity the GPU buffer was
/// allocated with. Capacity never shrinks on its own.
pub struct InstanceBuffer {
    records: Vec<InstanceRaw>,
    capacity: usize,
}

impl InstanceBuffer {
    /// The live records, in slot order.
    pub closed spec fn live(self) -> Seq<InstanceRaw> {
        self.records@
    }

    /// How many records the GPU buffer holds room for.
    pub closed spec fn cap(self) -> nat {
        self.capacity as nat
    }

    /// The live count never exceeds the allocation.
    pub open spec fn wf(self) -> bool {
        self.live().len() <= self.cap()
    }

    /// The slot invariant against a model of the GPU buffer contents: the
    /// buffer is exactly `cap()` records and record `i` of the mirror sits at
    /// buffer offset `i`, for every live `i`.
    pub open spec fn synced(self, gpu: Seq<Option<InstanceRaw>>) -> bool {
        &&& gpu.len() == self.cap()
        &&& forall|i: int| 0 <= i < self.live().len() ==> gpu[i] == Some(self.live()[i])
    }

    /// How many instances are live.
    pub fn len(&self) -> (n: usize)
        ensures
            n == self.live().len(),
    {
        self.records.len()
    }

    /// The allocated capacity, in records.
    pub fn capacity(&self) -> (c: usize)
        ensures
            c == self.cap(),
    {
        self.capacity
    }

    /// The record in slot `index`.
    pub fn get(&self, index: usize) -> (r: InstanceRaw)
        requires
            index < self.live().len(),
        ensures
            r == self.live()[index as int],
    {
        self.records[index]
    }

    /// Fresh storage holding exactly `initial`, allocated at that length.
    pub fn new(initial: Vec<InstanceRaw>) -> (r: (InstanceBuffer, Vec<GpuOp>))
        ensures
            r.0.wf(),
            r.0.live() == initial@,
            r.0.cap() == initial@.len(),
            forall|gpu: Seq<Option<InstanceRaw>>| r.0.synced(#[trigger] apply_ops(gpu, r.1@)),
    {
        let n = initial.len();
        let data = copy_records(&initial);
        let mut ops: Vec<GpuOp> = Vec::new();
        ops.push(GpuOp::Realloc { capacity: n, preserve: 0 });
        ops.push(GpuOp::WriteAt { index: 0, data });
        let buf = InstanceBuffer { records: initial, capacity: n };
        proof {
            assert forall|gpu: Seq<Option<InstanceRaw>>| buf.synced(#[trigger] apply_ops(gpu, ops@)) by {
                assert(ops@ =~= seq![ops@[0], ops@[1]]);
                lemma_apply_ops_two(gpu, ops@[0], ops@[1]);
            }
        }
        (buf, ops)
    }

    /// Append one record at the tail slot, reallocating to double capacity
    /// (at least one) first when the buffer is full; a non-full append issues
    /// exactly one tail write and no reallocation, and a reallocation
    /// preserves every previously live record.
    pub fn add(&mut self, inst: InstanceRaw) -> (ops: Vec<GpuOp>)
        requires
            old(self).wf(),
            old(self).cap() <= usize::MAX / 2,
        ensures
            final(self).wf(),
            final(self).live() == old(self).live().push(inst),
            final(self).cap() == if old(self).live().len() < old(self).cap() {
                old(self).cap()
            } else {
                spec_grown_capacity(old(self).cap())
            },
            old(self).live().len() < old(self).cap() ==> ops@.len() == 1 && (ops@[0] matches
            GpuOp::WriteAt { .. }),
            old(self).live().len() == old(self).cap() ==> ops@.len() == 2 && (ops@[0] matches
            GpuOp::Realloc { capacity, .. } && capacity == spec_grown_capacity(old(self).cap())),
            forall|gpu: Seq<Option<InstanceRaw>>|
                old(self).synced(gpu) ==> final(self).synced(#[trigger] apply_ops(gpu, ops@)),
    {
        let ghost pre = *self;
        let mut ops: Vec<GpuOp> = Vec::new();
        if self.records.len() >= self.capacity {
            let new_capacity = if self.capacity == 0 {
                1
            } else {
                self.capacity * 2
            };
            ops.push(GpuOp::Realloc { capacity: new_capacity, preserve: self.records.len() });
            self.capacity = new_capacity;
        }
        let index = self.records.len();
        self.records.push(inst);
        let mut data: Vec<InstanceRaw> = Vec::new();
        data.push(inst);
        ops.push(GpuOp::WriteAt { index, data });
        proof {
            if pre.live().len() < pre.cap() {
                assert forall|gpu: Seq<Option<InstanceRaw>>|
                    pre.synced(gpu) implies self.synced(#[trigger] apply_ops(gpu, ops@)) by {
                    assert(ops@ =~= seq![ops@[0]]);
                    lemma_apply_ops_one(gpu, ops@[0]);
                }
            } else {
                assert forall|gpu: Seq<Option<InstanceRaw>>|
                    pre.synced(gpu) implies self.synced(#[trigger] apply_ops(gpu, ops@)) by {
                    assert(ops@ =~= seq![ops@[0], ops@[1]]);
                    lemma_apply_ops_two(gpu, ops@[0], ops@[1]);
                }
            }
        }
        ops
    }

    /// Swap-remove the record in slot `index`: the last live record moves
    /// into `index` (changing that record's slot identity) and the live
    /// count shrinks by one. Capacity is unchanged.
    pub fn remove(&mut self, index: usize) -> (ops: Vec<GpuOp>)
        requires
            old(self).wf(),
            index < old(self).live().len(),
        ensures
            final(self).wf(),
            final(self).cap() == old(self).cap(),
            final(self).live() == spec_swap_removed(old(self).live(), index as int),
            final(self).live().len() == old(self).live().len() - 1,
            index < old(self).live().len() - 1 ==> final(self).live()[index as int] == old(
                self,
            ).live().last(),
            forall|gpu: Seq<Option<InstanceRaw>>|
                old(self).synced(gpu) ==> final(self).synced(#[trigger] apply_ops(gpu, ops@)),
    {
        let ghost pre = *self;
        let last = self.records.len() - 1;
        let moved = self.records.swap_remove(index);
        let mut ops: Vec<GpuOp> = Vec::new();
        if index < last {
            let last_inst = self.records[index];
            let mut data: Vec<InstanceRaw> = Vec::new();
            data.push(last_inst);
            ops.push(GpuOp::WriteAt { index, data });
        }
        proof {
            if ops@.len() == 0 {
                assert(apply_ops_empty_holds(pre, *self, ops@));
            } else {
                assert forall|gpu: Seq<Option<InstanceRaw>>|
                    pre.synced(gpu) implies self.synced(#[trigger] apply_ops(gpu, ops@)) by {
                    assert(ops@ =~= seq![ops@[0]]);
                    lemma_apply_ops_one(gpu, ops@[0]);
                }
            }
        }
        ops
    }

    /// Batch removal by filtered rewrite: every record whose slot is listed
    /// is dropped, the survivors keep their relative order, and the whole
    /// live range is rewritten in one transfer (none when nothing survives).
    /// Duplicate or unsorted indices are harmless. Capacity is unchanged.
    pub fn remove_batch(&mut self, indices: &[usize]) -> (ops: Vec<GpuOp>)
        requires
            old(self).wf(),
        ensures
            final(self).wf(),
            final(self).cap() == old(self).cap(),
            final(self).live() == spec_compact_excluding(old(self).live(), indices@),
            forall|gpu: Seq<Option<InstanceRaw>>|
                old(self).synced(gpu) ==> final(self).synced(#[trigger] apply_ops(gpu, ops@)),
    {
        let ghost pre = *self;
        let mut kept: Vec<InstanceRaw> = Vec::new();
        let mut i: usize = 0;
        while i < self.records.len()
            invariant
                i <= self.records@.len(),
                kept@ == spec_compact_excluding(self.records@.take(i as int), indices@),
                kept@.len() <= i,
            decreases self.records@.len() - i,
        {
            proof {
                assert(self.records@.take(i + 1).drop_last() =~= self.records@.take(i as int));
                assert(self.records@.take(i + 1).last() == self.records@[i as int]);
            }
            if !list_contains_usize(indices, i) {
                kept.push(self.records[i]);
            }
            i += 1;
        }
        proof {
            assert(self.records@.take(self.records@.len() as int) =~= self.records@);
        }
        let mut ops: Vec<GpuOp> = Vec::new();
        if kept.len() > 0 {
            let data = copy_records(&kept);
            ops.push(GpuOp::WriteAt { index: 0, data });
        }
        self.records = kept;
        proof {
            if ops@.len() == 0 {
                assert(apply_ops_empty_holds(pre, *self, ops@));
            } else {
                assert forall|gpu: Seq<Option<InstanceRaw>>|
                    pre.synced(gpu) implies self.synced(#[trigger] apply_ops(gpu, ops@)) by {
                    assert(ops@ =~= seq![ops@[0]]);
                    lemma_apply_ops_one(gpu, ops@[0]);
                }
            }
        }
        ops
    }

    /// Overwrite the record in slot `index` in place; slots at or beyond the
    /// live count are left untouched (an out-of-range update is a no-op).
    pub fn update(&mut self, index: usize, inst: InstanceRaw) -> (ops: Vec<GpuOp>)
        requires
            old(self).wf(),
        ensures
            final(self).wf(),
            final(self).cap() == old(self).cap(),
            final(self).live() == if index < old(self).live().len() {
                old(self).live().update(index as int, inst)
            } else {
                old(self).live()
            },
            forall|gpu: Seq<Option<InstanceRaw>>|
                old(self).synced(gpu) ==> final(self).synced(#[trigger] apply_ops(gpu, ops@)),
    {
        let ghost pre = *self;
        let mut ops: Vec<GpuOp> = Vec::new();
        if index < self.records.len() {
            self.records.remove(index);
            self.records.insert(index, inst);
            proof {
                assert(self.records@ =~= pre.live().update(index as int, inst));
            }
            let mut data: Vec<InstanceRaw> = Vec::new();
            data.push(inst);
            ops.push(GpuOp::WriteAt { index, data });
        }
        proof {
            if ops@.len() == 0 {
                assert(apply_ops_empty_holds(pre, *self, ops@));
            } else {
                assert forall|gpu: Seq<Option<InstanceRaw>>|
                    pre.synced(gpu) implies self.synced(#[trigger] apply_ops(gpu, ops@)) by {
                    assert(ops@ =~= seq![ops@[0]]);
                    lemma_apply_ops_one(gpu, ops@[0]);
                }
            }
        }
        ops
    }

    /// Replace the whole live contents, growing the allocation to the new
    /// count first when it does not fit. Capacity never shrinks.
    pub fn replace_all(&mut self, instances: Vec<InstanceRaw>) -> (ops: Vec<GpuOp>)
        requires
            old(self).wf(),
        ensures
            final(self).wf(),
            final(self).live() == instances@,
            final(self).cap() == if instances@.len() > old(self).cap() {
                instances@.len()
            } else {
                old(self).cap()
            },
            forall|gpu: Seq<Option<InstanceRaw>>|
                old(self).synced(gpu) ==> final(self).synced(#[trigger] apply_ops(gpu, ops@)),
    {
        let ghost pre = *self;
        let mut ops: Vec<GpuOp> = Vec::new();
        let grew = instances.len() > self.capacity;
        if grew {
            let new_capacity = instances.len();
            ops.push(
                GpuOp::Realloc { capacity: new_capacity, preserve: self.records.len() },
            );
            self.capacity = new_capacity;
        }
        if instances.len() > 0 {
            let data = copy_records(&instances);
            ops.push(GpuOp::WriteAt { index: 0, data });
        }
        self.records = instances;
        proof {
            if ops@.len() == 0 {
                assert(apply_ops_empty_holds(pre, *self, ops@));
            } else if ops@.len() == 1 {
                assert forall|gpu: Seq<Option<InstanceRaw>>|
                    pre.synced(gpu) implies self.synced(#[trigger] apply_ops(gpu, ops@)) by {
                    assert(ops@ =~= seq![ops@[0]]);
                    lemma_apply_ops_one(gpu, ops@[0]);
                }
            } else {
                assert forall|gpu: Seq<Option<InstanceRaw>>|
                    pre.synced(gpu) implies self.synced(#[trigger] apply_ops(gpu, ops@)) by {
                    assert(ops@ =~= seq![ops@[0], ops@[1]]);
                    lemma_apply_ops_two(gpu, ops@[0], ops@[1]);
                }
            }
        }
        ops
    }
}

/// With no operations to replay, a buffer that mirrored the old state
/// mirrors the new one exactly when the states agree on capacity and live
/// prefix.
pub open spec fn apply_ops_empty_holds(
    pre: InstanceBuffer,
    post: InstanceBuffer,
    ops: Seq<GpuOp>,
) -> bool {
    forall|gpu: Seq<Option<InstanceRaw>>| pre.synced(gpu) ==> post.synced(#[trigger] apply_ops(gpu, ops))
}

} // verus!
