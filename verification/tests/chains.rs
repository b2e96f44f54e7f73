//! Chains of work requests.
use fabric_lib::api::{MAX_WRITE_BATCH_WR, MemoryRegionLocalDescriptor, MemoryRegionRemoteKey};
use fabric_lib::rdma_op::{GatherSource, GatherWriteOp};
use fabric_lib::verbs::verbs_batch::{BatchWriteOpIter, WrOpcode, write_completion_context};

const QP: u64 = 64;
const PARENT: u64 = 8;
const TOKENS: u64 = 1 << 20;

fn ops(count: usize) -> Vec<GatherWriteOp> {
    (0..count)
        .map(|index| GatherWriteOp {
            sources: vec![GatherSource {
                src_ptr: 1,
                src_desc: MemoryRegionLocalDescriptor(1),
                src_offset: 0,
                length: 8,
            }],
            imm_data: if index + 1 == count { Some(7) } else { None },
            dst_ptr: 4096,
            dst_rkey: MemoryRegionRemoteKey(2),
            dst_offset: index as u64 * 8,
            length: 8,
        })
        .collect()
}

#[test]
fn one_qp_one_tail_completion_and_stable_partial_post() {
    let mut batch = BatchWriteOpIter::new(ops(MAX_WRITE_BATCH_WR), QP, PARENT, TOKENS);
    let (_, mut wr, count) = batch.peek();
    assert_eq!(count, MAX_WRITE_BATCH_WR);
    for index in 0..count {
        let current = batch.wr(wr.unwrap());
        assert_eq!(current.signaled, index + 1 == count);
        assert_eq!(write_completion_context(current.wr_id, &batch), (PARENT, Some(index)));
        wr = current.next;
    }
    assert!(wr.is_none());
    batch.advance(17);
    let (_, wr, left) = batch.peek();
    assert_eq!(left, count - 17);
    assert_eq!(
        write_completion_context(batch.wr(wr.unwrap()).wr_id, &batch),
        (PARENT, Some(17))
    );
    batch.advance(left);
    assert_eq!(batch.peek().2, 0);
}

#[test]
fn rejected_suffix_is_replaced_by_a_single_drain_marker() {
    let mut batch = BatchWriteOpIter::new(ops(8), QP, PARENT, TOKENS);
    batch.advance(3);
    assert!(batch.abort_tail());
    let (_, wr, count) = batch.peek();
    assert_eq!(count, 1);
    assert_eq!(batch.total_ops(), 4);
    let wr = batch.wr(wr.unwrap());
    assert_eq!(wr.sg_list.len(), 0);
    assert_eq!(wr.opcode, WrOpcode::RdmaWrite);
    assert!(wr.signaled);
    assert!(wr.next.is_none());
    assert_eq!(write_completion_context(wr.wr_id, &batch).1, Some(3));
    assert!(!batch.abort_tail());
}
