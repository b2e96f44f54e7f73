//! Groups of domains, run against domains that record what they are given.
use std::collections::VecDeque;
use std::sync::Arc;

use fabric_lib::{DomainGroup, FabricEngine, WorkerHandle};
use fabric_lib::api::{
    BarrierTransferRequest, BatchWrite, DomainAddress, DomainGroupRouting, GatherSegment,
    GatherTransferRequest, GroupTransferRouting, ImmTransferRequest, ImmediateEvent,
    MemoryRegionDescriptor, MemoryRegionHandle, MemoryRegionLocalDescriptor, MemoryRegionRemoteKey,
    PagedTransferRequest, PeerGroupHandle, ScatterTarget, ScatterTransferRequest,
    SingleTransferRequest, TransferCompletionEntry, TransferId, TransferRequest,
    WriteBatchRequest,
};
use fabric_lib::cuda_compat::Device;
use fabric_lib::error::FabricLibError;
use fabric_lib::provider::{DomainCompletionEntry, MemoryRegion, RdmaDomain};
use fabric_lib::rdma_op::{GroupWriteOp, RecvOp, SendOp, WriteOp};
use fabric_lib::worker::step::Progress;
use fabric_lib::worker::{WorkerCall, WorkerCommand, WorkerReply, describe_worker};

#[derive(Debug)]
enum Call {
    Write(TransferId, Vec<u8>, WriteOp),
    GroupWrite(TransferId, Option<PeerGroupHandle>, GroupWriteOp),
    Send(TransferId, Vec<u8>, SendOp),
    Recv(TransferId, RecvOp),
    Peers(PeerGroupHandle, Vec<Vec<u8>>),
    Unregister(u64),
    Poll,
}

struct Recorder {
    number: u8,
    known: Vec<u64>,
    batches: bool,
    refuses: bool,
    calls: Vec<Call>,
    completions: VecDeque<DomainCompletionEntry>,
}

impl Recorder {
    fn new(number: u8) -> Self {
        Recorder {
            number,
            known: vec![SRC, OTHER_SRC],
            batches: true,
            refuses: false,
            calls: Vec::new(),
            completions: VecDeque::new(),
        }
    }
}

impl RdmaDomain for Recorder {
    fn addr(&self) -> DomainAddress {
        DomainAddress(vec![self.number])
    }

    fn link_speed(&self) -> u64 {
        100 + self.number as u64
    }

    fn supports_write_batch(&self) -> bool {
        self.batches
    }

    fn get_mem_desc(&self, ptr: u64) -> Result<MemoryRegionLocalDescriptor, FabricLibError> {
        if self.known.contains(&ptr) {
            Ok(MemoryRegionLocalDescriptor(ptr + self.number as u64))
        } else {
            Err(FabricLibError::Errno(self.number as i32))
        }
    }

    fn register_mr_allow_remote(
        &mut self,
        region: &MemoryRegion,
    ) -> Result<MemoryRegionRemoteKey, FabricLibError> {
        if self.refuses {
            return Err(FabricLibError::Errno(12));
        }
        self.known.push(region.ptr);
        Ok(MemoryRegionRemoteKey(region.ptr + self.number as u64))
    }

    fn register_mr_local(&mut self, region: &MemoryRegion) -> Result<(), FabricLibError> {
        if self.refuses {
            return Err(FabricLibError::Errno(12));
        }
        self.known.push(region.ptr);
        Ok(())
    }

    fn unregister_mr(&mut self, ptr: u64) {
        self.calls.push(Call::Unregister(ptr));
    }

    fn add_peer_group(
        &mut self,
        handle: PeerGroupHandle,
        addrs: Vec<DomainAddress>,
    ) -> Result<(), FabricLibError> {
        self.calls.push(Call::Peers(handle, addrs.into_iter().map(|addr| addr.0).collect()));
        if self.refuses { Err(FabricLibError::Errno(13)) } else { Ok(()) }
    }

    fn submit_write(&mut self, id: TransferId, addr: DomainAddress, op: WriteOp) {
        self.calls.push(Call::Write(id, addr.0, op));
    }

    fn submit_group_write(
        &mut self,
        id: TransferId,
        peers: Option<PeerGroupHandle>,
        op: GroupWriteOp,
    ) {
        self.calls.push(Call::GroupWrite(id, peers, op));
    }

    fn submit_send(&mut self, id: TransferId, addr: DomainAddress, op: SendOp) {
        self.calls.push(Call::Send(id, addr.0, op));
    }

    fn submit_recv(&mut self, id: TransferId, op: RecvOp) {
        self.calls.push(Call::Recv(id, op));
    }

    fn poll_progress(&mut self) {
        self.calls.push(Call::Poll);
    }

    fn get_completion(&mut self) -> Option<DomainCompletionEntry> {
        self.completions.pop_front()
    }
}

const SRC: u64 = 0x10_0000;
const OTHER_SRC: u64 = 0x20_0000;
const DST: u64 = 0x70_0000;
const ID: TransferId = TransferId(5);

type Group<const N: usize> = DomainGroup<Recorder, &'static str, Arc<()>, N>;

fn group<const N: usize>() -> Group<N> {
    DomainGroup::new(std::array::from_fn(|i| Recorder::new(i as u8)))
}

fn src() -> MemoryRegionHandle {
    MemoryRegionHandle::new(SRC)
}

fn descriptor(width: usize) -> MemoryRegionDescriptor {
    MemoryRegionDescriptor {
        ptr: DST,
        addr_rkey_list: (0..width)
            .map(|i| (DomainAddress(vec![100 + i as u8]), MemoryRegionRemoteKey(1000 + i as u64)))
            .collect(),
    }
}

fn sharded(num_shards: u8) -> DomainGroupRouting {
    DomainGroupRouting::RoundRobinSharded { num_shards }
}

fn pinned(domain_idx: u8) -> DomainGroupRouting {
    DomainGroupRouting::Pinned { domain_idx }
}

fn single(length: u64, width: usize, domain: DomainGroupRouting) -> SingleTransferRequest {
    SingleTransferRequest {
        src_mr: src(),
        src_offset: 10,
        length,
        imm_data: Some(3),
        dst_mr: descriptor(width),
        dst_offset: 20,
        domain,
    }
}

fn submit<const N: usize>(
    group: &mut Group<N>,
    request: TransferRequest,
) -> Result<(), FabricLibError> {
    assert!(group.can_submit(&request));
    group.submit_transfer_request(ID, request, None)
}

fn message(result: Result<(), FabricLibError>) -> &'static str {
    match result {
        Err(FabricLibError::Custom(text)) => text,
        other => panic!("unexpected {other:?}"),
    }
}

/// Source offset, length and destination offset of the only contiguous write of a domain.
fn only_single(domain: &Recorder) -> (u64, u64, u64) {
    assert_eq!(domain.calls.len(), 1);
    match &domain.calls[0] {
        Call::Write(id, addr, WriteOp::Single(op)) => {
            assert_eq!(*id, ID);
            assert_eq!(*addr, vec![100 + domain.number]);
            assert_eq!(op.dst_rkey, MemoryRegionRemoteKey(1000 + domain.number as u64));
            assert_eq!(op.src_desc, MemoryRegionLocalDescriptor(SRC + domain.number as u64));
            (op.src_offset, op.length, op.dst_offset)
        },
        other => panic!("unexpected {other:?}"),
    }
}

#[test]
fn contiguous_write_is_divided_at_block_boundaries() {
    let mut group = group::<4>();
    group.rr_next = 3;
    submit(&mut group, TransferRequest::Single(single(20000, 4, sharded(3)))).unwrap();
    assert_eq!(only_single(&group.domains[3]), (10, 8192, 20));
    assert_eq!(only_single(&group.domains[0]), (8202, 8192, 8212));
    assert_eq!(only_single(&group.domains[1]), (16394, 3616, 16404));
    assert!(group.domains[2].calls.is_empty());
    assert_eq!(group.rr_next, 2);
    assert_eq!(group.write_ops[&ID.0].num_used_domains, 3);
}

#[test]
fn shards_without_bytes_write_at_the_beginning() {
    let mut group = group::<2>();
    submit(&mut group, TransferRequest::Single(single(100, 2, sharded(2)))).unwrap();
    assert_eq!(only_single(&group.domains[0]), (10, 100, 20));
    assert_eq!(only_single(&group.domains[1]), (10, 0, 20));
}

#[test]
fn pinned_write_goes_to_its_domain_and_leaves_the_round_robin() {
    let mut group = group::<2>();
    submit(&mut group, TransferRequest::Single(single(50000, 2, pinned(1)))).unwrap();
    assert_eq!(only_single(&group.domains[1]), (10, 50000, 20));
    assert_eq!(group.rr_next, 0);
}

#[test]
fn contiguous_write_is_refused_before_anything_changes() {
    let mut group = group::<2>();
    assert_eq!(
        message(submit(&mut group, TransferRequest::Single(single(1, 3, sharded(1))))),
        "Number of target addresses must match the number of domains"
    );
    assert_eq!(
        message(submit(&mut group, TransferRequest::Single(single(1, 2, sharded(3))))),
        "DomainGroupRouting::RoundRobinSharded.num_shards is greater than the number of domains"
    );
    assert_eq!(
        message(submit(&mut group, TransferRequest::Single(single(1, 2, pinned(2))))),
        "DomainGroupRouting::Pinned.domain_idx is out of bounds"
    );
    assert!(group.write_ops.is_empty());
    group.domains[1].known.clear();
    let failed = submit(&mut group, TransferRequest::Single(single(20000, 2, sharded(2))));
    assert!(matches!(failed, Err(FabricLibError::Errno(1))));
    assert!(group.write_ops.is_empty());
    assert!(group.domains[0].calls.is_empty());
}

#[test]
fn offsets_beyond_a_word_cannot_be_submitted() {
    let group = group::<2>();
    let mut request = single(20000, 2, sharded(2));
    request.dst_offset = u64::MAX - 100;
    assert!(!group.can_submit(&TransferRequest::Single(request)));
    assert!(!group.can_submit(&TransferRequest::Single(single(1, 2, sharded(0)))));
}

fn segment(mr: u64, src_offset: u64, length: u64) -> GatherSegment {
    GatherSegment { src_mr: MemoryRegionHandle::new(mr), src_offset, length }
}

fn gather(segments: Vec<GatherSegment>, domain: DomainGroupRouting) -> TransferRequest {
    TransferRequest::Gather(GatherTransferRequest {
        segments,
        imm_data: None,
        dst_mr: descriptor(2),
        dst_offset: 7,
        domain,
    })
}

/// Sources (region, offset, length), destination offset and length of a gathered write.
fn only_gather(domain: &Recorder) -> (Vec<(u64, u64, u64)>, u64, u64) {
    assert_eq!(domain.calls.len(), 1);
    match &domain.calls[0] {
        Call::Write(_, _, WriteOp::Gather(op)) => (
            op.sources.iter().map(|s| (s.src_ptr, s.src_offset, s.length)).collect(),
            op.dst_offset,
            op.length,
        ),
        other => panic!("unexpected {other:?}"),
    }
}

#[test]
fn gathered_segments_are_cut_at_the_shard_boundary() {
    let mut group = group::<2>();
    let segments = vec![segment(SRC, 0, 30), segment(OTHER_SRC, 5, 40), segment(SRC, 100, 30)];
    submit(&mut group, gather(segments, sharded(2))).unwrap();
    assert_eq!(
        only_gather(&group.domains[0]),
        (vec![(SRC, 0, 30), (OTHER_SRC, 5, 20)], 7, 50)
    );
    assert_eq!(
        only_gather(&group.domains[1]),
        (vec![(OTHER_SRC, 25, 20), (SRC, 100, 30)], 57, 50)
    );
    assert_eq!(group.rr_next, 0);
}

#[test]
fn gathered_write_faults_come_in_order() {
    let mut group = group::<2>();
    assert_eq!(
        message(submit(&mut group, gather(vec![], sharded(1)))),
        "GatherTransferRequest requires non-empty segments"
    );
    assert_eq!(
        message(submit(&mut group, gather(vec![segment(SRC, 0, 0)], sharded(1)))),
        "GatherTransferRequest requires non-empty segments"
    );
    assert_eq!(
        message(submit(&mut group, gather(vec![segment(SRC, 0, 1); 17], sharded(1)))),
        "GatherTransferRequest has too many segments"
    );
    assert_eq!(
        message(submit(&mut group, gather(vec![segment(SRC, 0, 1 << 32)], sharded(1)))),
        "GatherTransferRequest segment exceeds the verbs SGE length limit"
    );
    assert_eq!(
        message(submit(&mut group, gather(vec![segment(SRC, 0, 1)], pinned(9)))),
        "DomainGroupRouting::Pinned.domain_idx is out of bounds"
    );
    let unknown = submit(&mut group, gather(vec![segment(1, 0, 10)], sharded(2)));
    assert!(matches!(unknown, Err(FabricLibError::Errno(0))));
    assert!(group.write_ops.is_empty());
    assert_eq!(group.rr_next, 0);
    let unknown = submit(&mut group, gather(vec![segment(1, 0, 10)], sharded(1)));
    assert!(matches!(unknown, Err(FabricLibError::Errno(0))));
    assert_eq!(group.rr_next, 1);
}

fn batch(lane: usize, writes: Vec<BatchWrite>) -> TransferRequest {
    TransferRequest::WriteBatch(WriteBatchRequest { lane, writes })
}

fn batch_write(segments: Vec<GatherSegment>, imm_data: Option<u32>) -> BatchWrite {
    BatchWrite { segments, imm_data, dst_mr: descriptor(2), dst_offset: 40 }
}

#[test]
fn batch_goes_to_the_queue_pair_of_its_lane() {
    let mut group = group::<2>();
    let writes = vec![
        batch_write(vec![segment(SRC, 1, 8), segment(OTHER_SRC, 2, 16)], None),
        batch_write(vec![], Some(9)),
    ];
    submit(&mut group, batch(3, writes)).unwrap();
    assert!(group.domains[0].calls.is_empty());
    match &group.domains[1].calls[0] {
        Call::Write(id, addr, WriteOp::Batch { qp_lane, writes }) => {
            assert_eq!((*id, addr.clone(), *qp_lane), (ID, vec![101], 1));
            assert_eq!(writes.len(), 2);
            assert_eq!(writes[0].length, 24);
            assert_eq!(writes[0].sources.len(), 2);
            assert_eq!(writes[0].dst_offset, 40);
            assert_eq!(writes[1].length, 0);
            assert_eq!(writes[1].imm_data, Some(9));
        },
        other => panic!("unexpected {other:?}"),
    }
    assert_eq!(group.write_ops[&ID.0].num_used_domains, 1);
}

#[test]
fn batch_faults_leave_the_group_unchanged() {
    let mut group = group::<2>();
    let fine = || batch_write(vec![segment(SRC, 0, 8)], None);
    assert_eq!(message(submit(&mut group, batch(0, vec![]))), "invalid write batch length");
    assert_eq!(
        message(submit(&mut group, batch(0, (0..65).map(|_| fine()).collect()))),
        "invalid write batch length"
    );
    assert_eq!(
        message(submit(&mut group, batch(4, vec![fine()]))),
        "write batch lane is out of bounds"
    );
    assert_eq!(
        message(submit(&mut group, batch(0, vec![fine(), batch_write(vec![], None)]))),
        "invalid write batch registration or segments"
    );
    let mut elsewhere = fine();
    elsewhere.dst_mr.addr_rkey_list[0].0 = DomainAddress(vec![1, 2]);
    assert_eq!(
        message(submit(&mut group, batch(0, vec![fine(), elsewhere]))),
        "write batch destinations use different peers"
    );
    let huge = batch_write(vec![segment(SRC, 0, 1), segment(SRC, 0, u64::MAX)], None);
    assert_eq!(message(submit(&mut group, batch(0, vec![huge]))), "write batch length overflow");
    let long = batch_write(vec![segment(SRC, 0, 1 << 32)], None);
    assert_eq!(
        message(submit(&mut group, batch(0, vec![long]))),
        "write batch exceeds SGE length limit"
    );
    let far = batch_write(vec![segment(SRC, u64::MAX, 8)], None);
    assert_eq!(message(submit(&mut group, batch(0, vec![far]))), "write batch source overflow");
    let mut over = fine();
    over.dst_offset = u64::MAX;
    assert_eq!(
        message(submit(&mut group, batch(0, vec![over]))),
        "write batch destination overflow"
    );
    group.domains[0].batches = false;
    assert_eq!(
        message(submit(&mut group, batch(0, vec![fine()]))),
        "provider does not support ordered write batches"
    );
    assert!(group.write_ops.is_empty());
    assert!(group.domains[0].calls.is_empty() && group.domains[1].calls.is_empty());
    assert!(!group.supports_write_batch());
}

#[test]
fn pages_are_divided_evenly_from_the_round_robin_on() {
    let mut group = group::<4>();
    group.rr_next = 2;
    let request = PagedTransferRequest {
        src_page_indices: Arc::new((0..5).collect()),
        dst_page_indices: Arc::new((5..10).collect()),
        length: 64,
        src_mr: src(),
        src_stride: 128,
        src_offset: 1,
        dst_mr: descriptor(4),
        dst_stride: 256,
        dst_offset: 2,
        imm_data: None,
    };
    submit(&mut group, TransferRequest::Paged(request)).unwrap();
    let mut ranges = Vec::new();
    for domain in [2, 3, 0] {
        match &group.domains[domain].calls[0] {
            Call::Write(_, _, WriteOp::Paged(op)) => {
                ranges.push((op.page_indices_beg, op.page_indices_end));
            },
            other => panic!("unexpected {other:?}"),
        }
    }
    assert_eq!(ranges, vec![(0, 2), (2, 4), (4, 5)]);
    assert!(group.domains[1].calls.is_empty());
    assert_eq!(group.rr_next, 1);
    assert_eq!(group.write_ops[&ID.0].num_used_domains, 3);
}

#[test]
fn pages_must_pair_up() {
    let mut group = group::<1>();
    let request = PagedTransferRequest {
        src_page_indices: Arc::new(vec![1, 2]),
        dst_page_indices: Arc::new(vec![1]),
        length: 64,
        src_mr: src(),
        src_stride: 0,
        src_offset: 0,
        dst_mr: descriptor(1),
        dst_stride: 0,
        dst_offset: 0,
        imm_data: None,
    };
    assert_eq!(
        message(submit(&mut group, TransferRequest::Paged(request))),
        "Length of source and destination page indices must match"
    );
}

fn scatter(
    targets: usize,
    dst_handle: Option<PeerGroupHandle>,
    domain: GroupTransferRouting,
) -> TransferRequest {
    TransferRequest::Scatter(ScatterTransferRequest {
        src_mr: src(),
        imm_data: Some(1),
        dsts: Arc::new(
            (0..targets)
                .map(|i| ScatterTarget {
                    length: 8,
                    src_offset: i as u64,
                    dst_offset: 0,
                    dst_mr: descriptor(2),
                })
                .collect(),
        ),
        dst_handle,
        domain,
    })
}

/// Peer range and byte shard of the only scatter of a domain.
fn only_scatter(domain: &Recorder) -> (usize, usize, u32, u32) {
    assert_eq!(domain.calls.len(), 1);
    match &domain.calls[0] {
        Call::GroupWrite(_, _, GroupWriteOp::Scatter(op)) => {
            assert_eq!(op.domain_idx, domain.number as usize);
            (op.dst_beg, op.dst_end, op.byte_shards, op.byte_shard_idx)
        },
        other => panic!("unexpected {other:?}"),
    }
}

#[test]
fn scatter_shards_peers_or_bytes_or_neither() {
    let mut peers = group::<2>();
    submit(&mut peers, scatter(3, None, GroupTransferRouting::AllDomainsShardPeers)).unwrap();
    assert_eq!(only_scatter(&peers.domains[0]), (0, 2, 1, 0));
    assert_eq!(only_scatter(&peers.domains[1]), (2, 3, 1, 0));

    let mut bytes = group::<2>();
    submit(&mut bytes, scatter(3, None, GroupTransferRouting::AllDomainsShardBytes)).unwrap();
    assert_eq!(only_scatter(&bytes.domains[0]), (0, 3, 2, 0));
    assert_eq!(only_scatter(&bytes.domains[1]), (0, 3, 2, 1));

    let mut one = group::<2>();
    let routing = GroupTransferRouting::Single { domain_idx: 1 };
    submit(&mut one, scatter(3, None, routing)).unwrap();
    assert!(one.domains[0].calls.is_empty());
    assert_eq!(only_scatter(&one.domains[1]), (0, 3, 1, 0));
    let routing = GroupTransferRouting::Single { domain_idx: 2 };
    assert!(!one.can_submit(&scatter(3, None, routing)));
}

#[test]
fn scatter_checks_its_peer_group() {
    let mut group = group::<2>();
    let routing = GroupTransferRouting::AllDomainsShardPeers;
    assert_eq!(message(submit(&mut group, scatter(0, None, routing))), "Empty scatter targets");
    assert_eq!(
        message(submit(&mut group, scatter(1, Some(PeerGroupHandle(0)), routing))),
        "PeerGroupHandle not found"
    );
    let handle = group.add_peer_group(peers(2)).unwrap();
    assert_eq!(
        message(submit(&mut group, scatter(1, Some(handle), routing))),
        "Number of scatter targets must match the number of peer group addresses"
    );
    submit(&mut group, scatter(2, Some(handle), routing)).unwrap();
}

fn peers(count: u8) -> Vec<Vec<DomainAddress>> {
    (0..count).map(|p| (0..2).map(|d| DomainAddress(vec![p, d])).collect()).collect()
}

#[test]
fn the_same_peers_have_the_same_handle() {
    let mut group = group::<2>();
    let first = group.add_peer_group(peers(2)).unwrap();
    let second = group.add_peer_group(peers(3)).unwrap();
    assert_eq!((first, second), (PeerGroupHandle(0), PeerGroupHandle(1)));
    assert_eq!(group.add_peer_group(peers(2)).unwrap(), first);
    assert_eq!(group.domains[1].calls.len(), 2);
    match &group.domains[1].calls[0] {
        Call::Peers(handle, addrs) => {
            assert_eq!(*handle, first);
            assert_eq!(*addrs, vec![vec![0, 1], vec![1, 1]]);
        },
        other => panic!("unexpected {other:?}"),
    }
}

#[test]
fn refused_peers_keep_their_handle() {
    let mut group = group::<2>();
    group.domains[0].refuses = true;
    assert!(matches!(group.add_peer_group(peers(1)), Err(FabricLibError::Errno(13))));
    assert!(group.domains[1].calls.is_empty());
    assert_eq!(group.add_peer_group(peers(1)).unwrap(), PeerGroupHandle(0));
    assert!(!group.can_add_peer_group(&vec![vec![DomainAddress(vec![9])]]));
}

#[test]
fn immediates_are_dealt_out_in_blocks() {
    let mut group = group::<2>();
    group.rr_next = 1;
    let request = BarrierTransferRequest {
        imm_data: 77,
        dst_mrs: (0..3).map(|_| descriptor(2)).collect(),
        domain: sharded(1),
    };
    submit(&mut group, TransferRequest::Barrier(request)).unwrap();
    assert_eq!(group.domains[1].calls.len(), 2);
    assert_eq!(group.domains[0].calls.len(), 1);
    assert_eq!(group.rr_next, 1);
    assert_eq!(group.write_ops[&ID.0].num_used_domains, 3);
    match &group.domains[1].calls[1] {
        Call::Write(_, addr, WriteOp::Imm(op)) => {
            assert_eq!((addr.clone(), op.imm_data, op.dst_ptr), (vec![100], 77, DST));
        },
        other => panic!("unexpected {other:?}"),
    }
}

#[test]
fn immediates_need_one_shard() {
    let mut group = group::<2>();
    let request =
        |domain| TransferRequest::Imm(ImmTransferRequest { imm_data: 1, dst_mr: descriptor(2), domain });
    assert_eq!(
        message(submit(&mut group, request(sharded(2)))),
        "DomainGroupRouting::RoundRobinSharded should have num_shards = 1 for BarrierTransferRequest"
    );
    assert!(group.write_ops.contains_key(&ID.0));
    assert_eq!(
        message(submit(&mut group, request(pinned(5)))),
        "DomainGroupRouting::Pinned.domain_idx is out of bounds"
    );
    submit(&mut group, request(pinned(1))).unwrap();
    assert_eq!(group.domains[1].calls.len(), 1);
    let nobody = BarrierTransferRequest { imm_data: 1, dst_mrs: vec![], domain: sharded(1) };
    assert!(!group.can_submit(&TransferRequest::Barrier(nobody)));
}

#[test]
fn transfer_is_reported_after_its_last_write_with_the_first_error() {
    let mut group = group::<3>();
    let resource = Arc::new(());
    let weak = Arc::downgrade(&resource);
    let request = TransferRequest::Single(single(30000, 3, sharded(3)));
    group.submit_transfer_request_guarded(ID, request, None, Some(resource)).unwrap();
    let failed = |text| DomainCompletionEntry::Error(ID, FabricLibError::Custom(text));
    group.domains[1].completions.push_back(failed("one"));
    group.domains[2].completions.push_back(failed("two"));
    assert!(group.get_completion().is_none());
    assert!(weak.upgrade().is_some());
    group.domains[0].completions.push_back(DomainCompletionEntry::Transfer(ID));
    assert!(matches!(
        group.get_completion(),
        Some(DomainCompletionEntry::Error(ID, FabricLibError::Custom("one")))
    ));
    assert!(weak.upgrade().is_none());
    assert!(group.write_ops.is_empty());
}

#[test]
fn counted_transfer_signals_instead_of_reporting() {
    let mut group = group::<1>();
    let request = TransferRequest::Single(single(8, 1, sharded(1)));
    group.submit_transfer_request(ID, request, Some("counter")).unwrap();
    group.domains[0].completions.push_back(DomainCompletionEntry::Transfer(ID));
    assert!(group.get_completion().is_none());
    let signals = group.take_signals();
    assert_eq!(signals.len(), 1);
    assert_eq!(signals[0].counter, "counter");
    assert!(!signals[0].failed);
    assert!(group.take_signals().is_empty());
}

#[test]
fn other_completions_are_passed_on() {
    let mut group = group::<2>();
    let stranger = TransferId(99);
    for entry in [
        DomainCompletionEntry::Transfer(stranger),
        DomainCompletionEntry::Error(stranger, FabricLibError::Errno(1)),
        DomainCompletionEntry::Send(stranger),
        DomainCompletionEntry::Recv { transfer_id: stranger, data_len: 6 },
        DomainCompletionEntry::ImmData(4),
        DomainCompletionEntry::Immediate(ImmediateEvent { imm_data: 4, byte_len: 2 }),
        DomainCompletionEntry::ImmCountReached(4),
    ] {
        group.domains[1].completions.push_back(entry);
    }
    assert!(group.get_completion().is_none());
    assert!(matches!(
        group.get_completion(),
        Some(DomainCompletionEntry::Error(_, FabricLibError::Errno(1)))
    ));
    assert!(matches!(group.get_completion(), Some(DomainCompletionEntry::Send(_))));
    assert!(matches!(
        group.get_completion(),
        Some(DomainCompletionEntry::Recv { data_len: 6, .. })
    ));
    assert!(matches!(group.get_completion(), Some(DomainCompletionEntry::ImmData(4))));
    assert!(matches!(group.get_completion(), Some(DomainCompletionEntry::Immediate(_))));
    assert!(matches!(group.get_completion(), Some(DomainCompletionEntry::ImmCountReached(4))));
    assert!(group.get_completion().is_none());
}

#[test]
fn registration_collects_the_keys_of_all_domains() {
    let mut group = group::<2>();
    let region = MemoryRegion { ptr: 0x5000, len: 64, device: Device::Host };
    let (local, remote) = group.register_mr_allow_remote(&region).unwrap();
    assert_eq!(local.ptr, 0x5000);
    assert_eq!(remote.ptr, 0x5000);
    assert_eq!(
        remote.addr_rkey_list,
        vec![
            (DomainAddress(vec![0]), MemoryRegionRemoteKey(0x5000)),
            (DomainAddress(vec![1]), MemoryRegionRemoteKey(0x5001)),
        ]
    );
    assert_eq!(group.register_mr_local(&region).unwrap().ptr, 0x5000);
    group.domains[1].refuses = true;
    assert!(matches!(group.register_mr_local(&region), Err(FabricLibError::Errno(12))));
    assert!(matches!(group.register_mr_allow_remote(&region), Err(FabricLibError::Errno(12))));
    group.unregister_mr(0x5000);
    group.poll_progress();
    for domain in &group.domains {
        assert!(matches!(domain.calls[0], Call::Unregister(0x5000)));
        assert!(matches!(domain.calls[1], Call::Poll));
    }
    assert_eq!(group.aggregate_link_speed(), 201);
}

#[test]
fn messages_go_through_the_first_domain() {
    let mut group = group::<2>();
    group.submit_send(ID, src(), SRC + 8, 16, DomainAddress(vec![7]), true).unwrap();
    group.submit_recv(ID, src(), SRC + 32, 64).unwrap();
    assert!(group.domains[1].calls.is_empty());
    match &group.domains[0].calls[..] {
        [Call::Send(ID, addr, send), Call::Recv(ID, recv)] => {
            assert_eq!(*addr, vec![7]);
            assert_eq!((send.ptr, send.len, send.coalescible), (SRC + 8, 16, true));
            assert_eq!(send.desc, MemoryRegionLocalDescriptor(SRC));
            assert_eq!((recv.ptr, recv.len), (SRC + 32, 64));
        },
        other => panic!("unexpected {other:?}"),
    }
    let unknown = group.submit_recv(ID, MemoryRegionHandle::new(3), 3, 1);
    assert!(matches!(unknown, Err(FabricLibError::Errno(0))));
}

#[test]
fn prepared_batches_are_accepted_by_the_group_of_their_worker() {
    let mut group = group::<2>();
    let handle: WorkerHandle = describe_worker(&group);
    let mut engine = FabricEngine::new(vec![(0, handle)]).unwrap();
    engine
        .register_memory_local(SRC, 64, Device::Host, (), |link, _, region: MemoryRegion| {
            (link, Ok(MemoryRegionHandle::new(region.ptr)))
        })
        .1
        .unwrap();
    for lane in 0..engine.host_write_lane_count() {
        let writes = vec![
            batch_write(vec![segment(SRC, 0, 8), segment(SRC, 8, 16)], None),
            batch_write(vec![], Some(1)),
        ];
        let (worker, prepared) =
            engine.prepare_write_batch(WriteBatchRequest { lane, writes }).unwrap();
        assert_eq!((worker, prepared.lane), (0, lane));
        submit(&mut group, TransferRequest::WriteBatch(prepared)).unwrap();
    }
    assert_eq!(group.domains[0].calls.len(), 2);
    assert_eq!(group.domains[1].calls.len(), 2);
}

#[test]
fn workers_are_described_by_their_domains() {
    let mut group = group::<2>();
    let handle = describe_worker(&group);
    assert!(handle.write_batches);
    assert_eq!(handle.aggregated_link_speed, 201);
    assert_eq!(handle.address_list, vec![DomainAddress(vec![0]), DomainAddress(vec![1])]);
    group.domains[1].batches = false;
    assert!(!describe_worker(&group).write_batches);
}

#[test]
fn calls_are_answered_in_kind() {
    let mut group = group::<2>();
    let region = MemoryRegion { ptr: 77, len: 8, device: Device::Host };
    assert!(matches!(
        group.answer(WorkerCall::RegisterMRLocal { region }),
        WorkerReply::RegisteredLocal(Ok(handle)) if handle.ptr == 77
    ));
    match group.answer(WorkerCall::RegisterMRAllowRemote { region }) {
        WorkerReply::RegisteredRemote(Ok((handle, descriptor))) => {
            assert_eq!((handle.ptr, descriptor.ptr), (77, 77));
            assert_eq!(descriptor.addr_rkey_list[1].1, MemoryRegionRemoteKey(78));
        },
        other => panic!("unexpected {other:?}"),
    }
    assert!(matches!(
        group.answer(WorkerCall::UnregisterMR { ptr: 77 }),
        WorkerReply::Unregistered
    ));
    assert!(matches!(group.domains[1].calls[0], Call::Unregister(77)));
    let narrow = WorkerCall::AddPeerGroup { addrs: vec![vec![DomainAddress(vec![1])]] };
    assert!(!group.can_answer(&narrow));
    let addrs = vec![vec![DomainAddress(vec![1]), DomainAddress(vec![2])]];
    let wide = WorkerCall::AddPeerGroup { addrs };
    assert!(group.can_answer(&wide));
    assert!(matches!(group.answer(wide), WorkerReply::PeerGroup(Ok(PeerGroupHandle(0)))));
}

fn transfer(id: u64, request: TransferRequest) -> WorkerCommand<&'static str, Arc<()>> {
    WorkerCommand::SubmitTransfer {
        transfer_id: TransferId(id),
        request,
        tx_counter: None,
        admission: None,
    }
}

#[test]
fn commands_are_obeyed_in_order_up_to_one_that_cannot_be() {
    let mut group = group::<2>();
    let admission = Arc::new(());
    let good = || batch_write(vec![segment(SRC, 0, 8)], None);
    let list = vec![
        (TransferId(1), WriteBatchRequest { lane: 0, writes: vec![good()] }, admission.clone()),
        (TransferId(2), WriteBatchRequest { lane: 9, writes: vec![good()] }, admission.clone()),
    ];
    let obeyed = group.obey_all(vec![
        WorkerCommand::SubmitWriteBatches(list),
        transfer(3, TransferRequest::Single(single(8, 1, pinned(0)))),
        WorkerCommand::SubmitRecv { transfer_id: TransferId(4), mr: src(), ptr: SRC, len: 8 },
    ]);
    assert!(obeyed.complete);
    let failed: Vec<u64> = obeyed
        .published
        .iter()
        .map(|entry| match entry {
            TransferCompletionEntry::Error(id, FabricLibError::Custom(_)) => id.0,
            other => panic!("unexpected {other:?}"),
        })
        .collect();
    assert_eq!(failed, vec![2, 3]);
    // One reference is held here, and one by the batch in flight.
    assert_eq!(Arc::strong_count(&admission), 2);
    let mut overflowing = single(100_000, 2, sharded(2));
    overflowing.src_offset = u64::MAX;
    let obeyed = group.obey_all(vec![
        transfer(5, TransferRequest::Single(overflowing)),
        transfer(6, TransferRequest::Single(single(8, 2, pinned(0)))),
    ]);
    assert!(!obeyed.complete);
    assert!(!group.write_ops.contains_key(&6));
}

#[test]
fn domains_are_polled_after_the_commands_of_a_step() {
    let mut group = group::<2>();
    let (tx, rx) = crossbeam_channel::unbounded();
    let (rx, served) = group.serve_commands(rx);
    assert!(!served.active && served.connected && served.complete);
    assert!(matches!(group.domains[1].calls[0], Call::Poll));
    tx.send(transfer(3, TransferRequest::Single(single(8, 2, pinned(0))))).unwrap();
    tx.send(transfer(4, TransferRequest::Single(single(8, 9, pinned(0))))).unwrap();
    let (rx, served) = group.serve_commands(rx);
    assert!(served.active && served.connected && served.complete);
    assert!(matches!(
        served.published[0],
        TransferCompletionEntry::Error(TransferId(4), FabricLibError::Custom(_))
    ));
    assert!(matches!(group.domains[0].calls[1], Call::Write(TransferId(3), _, _)));
    assert!(matches!(group.domains[0].calls[2], Call::Poll));
    drop(tx);
    let (_, served) = group.serve_commands(rx);
    assert!(!served.active && !served.connected && served.complete);
    assert_eq!(group.domains[0].calls.len(), 3);
}

#[test]
fn confirmed_sends_make_silent_progress() {
    let mut group = group::<2>();
    assert!(matches!(group.next_progress(), Progress::Nothing));
    group.domains[0].completions.push_back(DomainCompletionEntry::Send(TransferId(1 << 63)));
    group.domains[1].completions.push_back(DomainCompletionEntry::Send(TransferId(9)));
    assert!(matches!(group.next_progress(), Progress::Silent));
    assert!(matches!(
        group.next_progress(),
        Progress::Publish(TransferCompletionEntry::Send(TransferId(9)))
    ));
}

#[test]
fn draining_publishes_until_nothing_is_left() {
    let mut group = group::<2>();
    let drained = group.drain_progress();
    assert!(drained.published.is_empty() && !drained.active && drained.finished);
    group.domains[0].completions.push_back(DomainCompletionEntry::Send(TransferId(1 << 63)));
    let drained = group.drain_progress();
    assert!(drained.published.is_empty() && drained.active && drained.finished);
    for id in [1, 2] {
        group.domains[0].completions.push_back(DomainCompletionEntry::Send(TransferId(id)));
        group.domains[1].completions.push_back(DomainCompletionEntry::ImmData(id as u32));
    }
    group.domains[1].completions.push_back(DomainCompletionEntry::Send(TransferId(1 << 63)));
    let drained = group.drain_progress();
    assert!(drained.active && drained.finished);
    assert!(matches!(
        drained.published[..],
        [
            TransferCompletionEntry::Send(TransferId(1)),
            TransferCompletionEntry::Send(TransferId(2)),
            TransferCompletionEntry::ImmData(1),
            TransferCompletionEntry::ImmData(2),
        ]
    ));
    assert!(group.domains[1].completions.is_empty());
}

#[test]
fn draining_ends_with_a_search_that_reports_nothing() {
    let mut group = group::<2>();
    submit(&mut group, TransferRequest::Single(single(16384, 2, sharded(2)))).unwrap();
    group.domains[0].completions.push_back(DomainCompletionEntry::Transfer(ID));
    let drained = group.drain_progress();
    assert!(drained.published.is_empty() && !drained.active && drained.finished);
    group.domains[1].completions.push_back(DomainCompletionEntry::Transfer(ID));
    let drained = group.drain_progress();
    assert!(matches!(drained.published[..], [TransferCompletionEntry::Transfer(ID)]));
    assert!(drained.active && drained.finished);
}

#[test]
fn a_step_takes_no_more_commands_than_its_bound() {
    let mut group = group::<1>();
    let (tx, rx) = crossbeam_channel::unbounded();
    for id in 0..65 {
        tx.send(transfer(id, batch(0, vec![]))).unwrap();
    }
    let (rx, served) = group.serve_commands(rx);
    assert!(served.active && served.connected && served.complete);
    assert_eq!(served.published.len(), 64);
    for (id, entry) in served.published.iter().enumerate() {
        match entry {
            TransferCompletionEntry::Error(
                TransferId(failed),
                FabricLibError::Custom("invalid write batch length"),
            ) => assert_eq!(*failed, id as u64),
            other => panic!("unexpected {other:?}"),
        }
    }
    assert_eq!(rx.len(), 1);
    assert!(matches!(group.domains[0].calls[..], [Call::Poll]));
}
