//! The instance buffer manager against the write-capturing mock: the CPU
//! mirror and the captured GPU contents must never drift apart, and
//! capacity must grow exactly as specified.

use scenecore::gpumock::MockInstanceTarget;
use scenecore::ibuf::{GpuOp, InstanceBuffer};
use scenecore::instance::InstanceRaw;

fn rec(tag: u32) -> InstanceRaw {
    let mut model = [0u32; 16];
    model[0] = tag;
    let mut normal = [0u32; 9];
    normal[0] = tag;
    InstanceRaw { model, normal }
}

fn has_realloc(ops: &[GpuOp]) -> bool {
    ops.iter().any(|op| matches!(op, GpuOp::Realloc { .. }))
}

#[test]
fn mirror_stays_synced_through_mixed_operations() {
    let (mut buf, ops) = InstanceBuffer::new(vec![rec(1), rec(2)]);
    let mut gpu = MockInstanceTarget::new();
    gpu.apply_all(&ops);
    assert!(gpu.mirrors(&buf));

    let script: Vec<u32> = vec![3, 4, 5, 6, 7];
    for t in script {
        let ops = buf.add(rec(t));
        gpu.apply_all(&ops);
        assert!(gpu.mirrors(&buf));
    }

    let ops = buf.remove(0);
    gpu.apply_all(&ops);
    assert!(gpu.mirrors(&buf));

    let ops = buf.update(2, rec(99));
    gpu.apply_all(&ops);
    assert!(gpu.mirrors(&buf));

    let ops = buf.remove_batch(&[1, 3, 1]);
    gpu.apply_all(&ops);
    assert!(gpu.mirrors(&buf));

    let ops = buf.replace_all(vec![rec(10), rec(11), rec(12), rec(13), rec(14), rec(15)]);
    gpu.apply_all(&ops);
    assert!(gpu.mirrors(&buf));
}

#[test]
fn capacity_doubles_exactly_once_when_full() {
    // allocate at 3, fill to capacity, then one more
    let (mut buf, _) = InstanceBuffer::new(vec![rec(1), rec(2), rec(3)]);
    assert_eq!(buf.capacity(), 3);

    let mut gpu = MockInstanceTarget::new();
    let (b2, init_ops) = InstanceBuffer::new(vec![rec(1), rec(2), rec(3)]);
    drop(b2);
    gpu.apply_all(&init_ops);

    let ops = buf.add(rec(4));
    assert!(has_realloc(&ops));
    assert_eq!(buf.capacity(), 6);
    assert_eq!(buf.len(), 4);
    gpu.apply_all(&ops);
    assert!(gpu.mirrors(&buf));
    // the three prior live values survived the reallocation
    assert_eq!(buf.get(0), rec(1));
    assert_eq!(buf.get(1), rec(2));
    assert_eq!(buf.get(2), rec(3));
    assert_eq!(buf.get(3), rec(4));

    // below capacity: no reallocation at all
    let ops = buf.add(rec(5));
    assert!(!has_realloc(&ops));
    assert_eq!(buf.capacity(), 6);
}

#[test]
fn capacity_of_empty_buffer_grows_to_one() {
    let (mut buf, _) = InstanceBuffer::new(Vec::new());
    assert_eq!(buf.capacity(), 0);
    let ops = buf.add(rec(1));
    assert!(has_realloc(&ops));
    assert_eq!(buf.capacity(), 1);
}

#[test]
fn swap_remove_moves_last_into_hole() {
    let (mut buf, _) = InstanceBuffer::new(vec![rec(1), rec(2), rec(3), rec(4)]);
    buf.remove(1);
    assert_eq!(buf.len(), 3);
    assert_eq!(buf.get(0), rec(1));
    assert_eq!(buf.get(1), rec(4));
    assert_eq!(buf.get(2), rec(3));

    // removing the last slot needs no data movement
    buf.remove(2);
    assert_eq!(buf.len(), 2);
    assert_eq!(buf.get(0), rec(1));
    assert_eq!(buf.get(1), rec(4));
}

#[test]
fn batch_removal_keeps_order_and_tolerates_duplicates() {
    let (mut buf, _) = InstanceBuffer::new(vec![rec(1), rec(2), rec(3), rec(4), rec(5)]);
    // unsorted and duplicated indices, set semantics
    buf.remove_batch(&[3, 1, 1, 3]);
    assert_eq!(buf.len(), 3);
    assert_eq!(buf.get(0), rec(1));
    assert_eq!(buf.get(1), rec(3));
    assert_eq!(buf.get(2), rec(5));
    assert_eq!(buf.capacity(), 5);

    // out-of-range indices are harmless
    buf.remove_batch(&[17]);
    assert_eq!(buf.len(), 3);
}

#[test]
fn update_out_of_range_is_a_no_op() {
    let (mut buf, _) = InstanceBuffer::new(vec![rec(1), rec(2)]);
    let ops = buf.update(5, rec(9));
    assert!(ops.is_empty());
    assert_eq!(buf.len(), 2);
    assert_eq!(buf.get(0), rec(1));
    assert_eq!(buf.get(1), rec(2));

    let ops = buf.update(1, rec(9));
    assert_eq!(ops.len(), 1);
    assert_eq!(buf.get(1), rec(9));
}

#[test]
fn replace_all_grows_but_never_shrinks_capacity() {
    let (mut buf, _) = InstanceBuffer::new(vec![rec(1), rec(2), rec(3)]);
    buf.replace_all(vec![rec(7)]);
    assert_eq!(buf.len(), 1);
    assert_eq!(buf.capacity(), 3);
    assert_eq!(buf.get(0), rec(7));

    buf.replace_all(vec![rec(1), rec(2), rec(3), rec(4), rec(5)]);
    assert_eq!(buf.len(), 5);
    assert_eq!(buf.capacity(), 5);
}
