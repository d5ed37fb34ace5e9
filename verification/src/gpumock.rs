//! A write-capturing stand-in for the GPU-resident instance buffer.
//!
//! Replaying the operations an `InstanceBuffer` mutation returns against
//! this mock produces exactly the contents the model predicts, so a test
//! can drive any sequence of mutations and check that the CPU mirror and
//! the captured buffer never drift apart.

use vstd::prelude::*;

use crate::ibuf::{apply_op, apply_ops, GpuOp, InstanceBuffer};
use crate::instance::InstanceRaw;

verus! {

/// Applying a prefix then one more operation is applying the longer
/// prefix.
pub proof fn lemma_apply_ops_snoc(gpu: Seq<Option<InstanceRaw>>, ops: Seq<GpuOp>, i: int)
    requires
        0 <= i < ops.len(),
    ensures
        apply_ops(gpu, ops.take(i + 1)) == apply_op(apply_ops(gpu, ops.take(i)), ops[i]),
    decreases i,
{
    if i == 0 {
        assert(ops.take(1).drop_first() =~= Seq::<GpuOp>::empty());
        assert(ops.take(0) =~= Seq::<GpuOp>::empty());
        assert(apply_ops(gpu, ops.take(1)) == apply_ops(apply_op(gpu, ops[0]), Seq::empty()));
    } else {
        let tail = ops.drop_first();
        assert(ops.take(i + 1).drop_first() =~= tail.take(i));
        assert(ops.take(i).drop_first() =~= tail.take(i - 1));
        assert(ops.take(i + 1)[0] == ops[0]);
        assert(ops.take(i)[0] == ops[0]);
        lemma_apply_ops_snoc(apply_op(gpu, ops[0]), tail, i - 1);
        assert(tail[i - 1] == ops[i]);
    }
}

/// The captured buffer: one optional record per allocated cell (`None` is
/// a cell the library never wrote).
pub struct MockInstanceTarget {
    pub cells: Vec<Option<InstanceRaw>>,
}

impl MockInstanceTarget {
    /// An unallocated target.
    pub fn new() -> (r: MockInstanceTarget)
        ensures
            r.cells@.len() == 0,
    {
        MockInstanceTarget { cells: Vec::new() }
    }

    /// Replay one operation; the contents become exactly what the model
    /// predicts.
    pub fn apply(&mut self, op: &GpuOp)
        ensures
            final(self).cells@ == apply_op(old(self).cells@, *op),
    {
        let ghost pre = self.cells@;
        match op {
            GpuOp::Realloc { capacity, preserve } => {
                let capacity = *capacity;
                let preserve = *preserve;
                let mut fresh: Vec<Option<InstanceRaw>> = Vec::new();
                let mut i: usize = 0;
                while i < capacity
                    invariant
                        i <= capacity,
                        self.cells@ == pre,
                        fresh@.len() == i,
                        forall|j: int|
                            0 <= j < i ==> fresh@[j] == (if j < preserve && j < pre.len() {
                                pre[j]
                            } else {
                                None::<InstanceRaw>
                            }),
                    decreases capacity - i,
                {
                    if i < preserve && i < self.cells.len() {
                        let c = self.cells[i];
                        fresh.push(c);
                    } else {
                        fresh.push(None);
                    }
                    i += 1;
                }
                self.cells = fresh;
                proof {
                    assert(self.cells@ =~= apply_op(pre, *op));
                }
            },
            GpuOp::WriteAt { index, data } => {
                let index = *index;
                let total = self.cells.len();
                proof {
                    assert(pre.len() == total);
                }
                let mut j: usize = 0;
                while j < data.len()
                    invariant
                        j <= data@.len(),
                        pre.len() <= usize::MAX,
                        self.cells@.len() == pre.len(),
                        forall|p: int|
                            0 <= p < pre.len() ==> self.cells@[p] == (if index <= p && p < index
                                + j {
                                Some(data@[p - index])
                            } else {
                                pre[p]
                            }),
                    decreases data@.len() - j,
                {
                    if index <= usize::MAX - j && index + j < self.cells.len() {
                        let v = Some(data[j]);
                        self.cells.remove(index + j);
                        self.cells.insert(index + j, v);
                        proof {
                            assert(self.cells@.len() == pre.len());
                        }
                    }
                    j += 1;
                }
                proof {
                    assert forall|p: int| 0 <= p < pre.len() implies self.cells@[p] == apply_op(
                        pre,
                        *op,
                    )[p] by {
                        if index <= p && p < index + data@.len() {
                            assert(p - index < data@.len());
                        }
                    }
                    assert(self.cells@ =~= apply_op(pre, *op));
                }
            },
        }
    }

    /// Replay a whole operation batch, in order.
    pub fn apply_all(&mut self, ops: &Vec<GpuOp>)
        ensures
            final(self).cells@ == apply_ops(old(self).cells@, ops@),
    {
        let ghost pre = self.cells@;
        let mut i: usize = 0;
        while i < ops.len()
            invariant
                i <= ops@.len(),
                self.cells@ == apply_ops(pre, ops@.take(i as int)),
            decreases ops@.len() - i,
        {
            self.apply(&ops[i]);
            proof {
                lemma_apply_ops_snoc(pre, ops@, i as int);
            }
            i += 1;
        }
        proof {
            assert(ops@.take(ops@.len() as int) =~= ops@);
        }
    }

    /// Whether the captured contents mirror a buffer's state: allocated at
    /// the buffer's capacity with every live record at its own offset (the
    /// slot invariant).
    pub fn mirrors(&self, buf: &InstanceBuffer) -> (r: bool)
        requires
            buf.wf(),
        ensures
            r == buf.synced(self.cells@),
    {
        if self.cells.len() != buf.capacity() {
            return false;
        }
        let n = buf.len();
        let mut i: usize = 0;
        while i < n
            invariant
                i <= n,
                n == buf.live().len(),
                n <= buf.cap(),
                self.cells@.len() == buf.cap(),
                forall|j: int| 0 <= j < i ==> self.cells@[j] == Some(buf.live()[j]),
            decreases n - i,
        {
            let rec = buf.get(i);
            match self.cells[i] {
                Some(c) => {
                    if !crate::instance::record_eq(&c, &rec) {
                        proof {
                            assert(self.cells@[i as int] != Some(buf.live()[i as int]));
                        }
                        return false;
                    }
                },
                None => {
                    return false;
                },
            }
            i += 1;
        }
        true
    }
}

} // verus!
