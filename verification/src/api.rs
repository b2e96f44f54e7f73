//! Identifiers, memory descriptors and transfer requests.
//!
//! Memory is named by plain addresses: nothing here reads through them.
use std::sync::Arc;

use vstd::prelude::*;

use crate::error::FabricLibError;

verus! {

/// Most source segments that one gathered write may have.
pub const MAX_GATHER_SEGMENTS: usize = 16;

/// Most work requests that one ordered write batch may have.
pub const MAX_WRITE_BATCH_WR: usize = 64;

/// Queue pairs per domain that write batches may choose between.
pub const WRITE_QP_LANES: usize = 2;

/// Set in the id of an operation whose receipt the remote application confirms: the
/// completion of such an operation is not published.
pub const REMOTE_CONFIRMED_OPERATION_BIT: u64 = 0x8000_0000_0000_0000;

/// The id of one submitted operation.
#[derive(Clone, Copy, Debug, PartialEq, Eq, Hash, Structural)]
pub struct TransferId(pub u64);

impl TransferId {
    /// Whether the remote application confirms this operation.
    pub open spec fn remote_confirmed(self) -> bool {
        self.0 & REMOTE_CONFIRMED_OPERATION_BIT != 0
    }

    pub fn is_remote_confirmed(self) -> (b: bool)
        ensures
            b == self.remote_confirmed(),
    {
        self.0 & REMOTE_CONFIRMED_OPERATION_BIT != 0
    }
}

/// The transport address of one domain.
#[derive(Debug, PartialEq, Eq, Hash)]
pub struct DomainAddress(pub Vec<u8>);

impl View for DomainAddress {
    type V = Seq<u8>;

    open spec fn view(&self) -> Seq<u8> {
        self.0@
    }
}

impl Clone for DomainAddress {
    fn clone(&self) -> (copy: Self)
        ensures
            copy@ == self@,
    {
        DomainAddress(self.0.clone())
    }
}

impl DomainAddress {
    /// Whether two addresses are the same bytes.
    pub fn same_as(&self, other: &DomainAddress) -> (same: bool)
        ensures
            same == (self@ == other@),
    {
        if self.0.len() != other.0.len() {
            return false;
        }
        let n: usize = self.0.len();
        let mut i: usize = 0;
        while i < n
            invariant
                i <= n,
                n == self.0@.len(),
                n == other.0@.len(),
                forall|j: int| 0 <= j < i ==> self.0@[j] == other.0@[j],
            decreases n - i,
        {
            if self.0[i] != other.0[i] {
                return false;
            }
            i = i + 1;
        }
        assert(self@ =~= other@);
        true
    }
}

/// The key by which a remote peer reaches a registered region through one domain.
#[derive(Clone, Copy, Debug, PartialEq, Eq, Hash, Structural)]
pub struct MemoryRegionRemoteKey(pub u64);

/// The key by which a local domain reaches a registered region.
#[derive(Clone, Copy, Debug, PartialEq, Eq, Hash, Structural)]
pub struct MemoryRegionLocalDescriptor(pub u64);

/// A registered local region, named by its first address.
#[derive(Clone, Copy, Debug, PartialEq, Eq, Hash, Structural)]
pub struct MemoryRegionHandle {
    pub ptr: u64,
}

impl MemoryRegionHandle {
    pub fn new(ptr: u64) -> (handle: Self)
        ensures
            handle.ptr == ptr,
    {
        MemoryRegionHandle { ptr }
    }
}

/// One entry of a descriptor: where a remote domain is, and its key for the region.
pub type AddrKey = (DomainAddress, MemoryRegionRemoteKey);

/// What a peer needs to know to write into a region: an address and a key per domain.
#[derive(Debug)]
pub struct MemoryRegionDescriptor {
    pub ptr: u64,
    pub addr_rkey_list: Vec<AddrKey>,
}

/// The bytes and the key of each entry.
pub open spec fn keys_of(list: Seq<AddrKey>) -> Seq<(Seq<u8>, MemoryRegionRemoteKey)> {
    Seq::new(list.len(), |i: int| (list[i].0@, list[i].1))
}

impl View for MemoryRegionDescriptor {
    type V = (u64, Seq<(Seq<u8>, MemoryRegionRemoteKey)>);

    open spec fn view(&self) -> (u64, Seq<(Seq<u8>, MemoryRegionRemoteKey)>) {
        (self.ptr, keys_of(self.addr_rkey_list@))
    }
}

impl MemoryRegionDescriptor {
    /// The number of domains that the descriptor covers.
    pub open spec fn width(&self) -> nat {
        self.addr_rkey_list@.len()
    }

    /// The address bytes of the remote domain `i`.
    pub open spec fn addr(&self, i: int) -> Seq<u8> {
        self.addr_rkey_list@[i].0@
    }

    /// The key of the remote domain `i`.
    pub open spec fn rkey(&self, i: int) -> MemoryRegionRemoteKey {
        self.addr_rkey_list@[i].1
    }
}

/// Copies the entries `start..start + count` of a key list.
pub fn copy_keys(list: &Vec<AddrKey>, start: usize, count: usize) -> (copy: Vec<AddrKey>)
    requires
        start + count <= list.len(),
    ensures
        keys_of(copy@) == keys_of(list@).subrange(start as int, start + count),
{
    let mut copy: Vec<AddrKey> = Vec::with_capacity(count);
    let mut i: usize = 0;
    while i < count
        invariant
            i <= count,
            start + count <= list.len(),
            copy@.len() == i,
            forall|j: int|
                #![trigger copy@[j]]
                0 <= j < i ==> copy@[j].0@ == list@[start + j].0@ && copy@[j].1 == list@[start
                    + j].1,
        decreases count - i,
    {
        let entry = &list[start + i];
        copy.push((entry.0.clone(), entry.1));
        i = i + 1;
    }
    assert(keys_of(copy@) =~= keys_of(list@).subrange(start as int, start + count));
    copy
}

impl Clone for MemoryRegionDescriptor {
    fn clone(&self) -> (copy: Self)
        ensures
            copy@ == self@,
    {
        let n: usize = self.addr_rkey_list.len();
        let copy = MemoryRegionDescriptor {
            ptr: self.ptr,
            addr_rkey_list: copy_keys(&self.addr_rkey_list, 0, n),
        };
        assert(keys_of(self.addr_rkey_list@).subrange(0, n as int) =~= keys_of(
            self.addr_rkey_list@,
        ));
        copy
    }
}

/// A set of peers that a group has been told of.
#[derive(Clone, Copy, Debug, PartialEq, Eq, Hash, Structural)]
pub struct PeerGroupHandle(pub u32);

/// A watched word of host memory, named by its address.
#[derive(Clone, Copy, Debug, PartialEq, Eq, Hash, Structural)]
pub struct UvmWatcherId(pub u64);

/// Which domains of a group carry a transfer.
#[derive(Clone, Copy, Debug, PartialEq, Eq, Structural)]
pub enum DomainGroupRouting {
    /// `num_shards` pieces, on successive domains; never zero.
    RoundRobinSharded { num_shards: u8 },
    /// One piece, on this domain.
    Pinned { domain_idx: u8 },
}

impl DomainGroupRouting {
    /// A transfer has at least one shard.
    pub open spec fn valid(self) -> bool {
        self matches DomainGroupRouting::RoundRobinSharded { num_shards } ==> num_shards > 0
    }

    /// The domain of the shard `k` of a transfer over `n` domains whose round robin stands
    /// at `rr`.
    pub open spec fn domain_of_shard(self, rr: int, k: int, n: int) -> int {
        match self {
            DomainGroupRouting::RoundRobinSharded { .. } => (rr + k) % n,
            DomainGroupRouting::Pinned { domain_idx } => domain_idx as int,
        }
    }

    /// Where the round robin stands after `used` shards.
    pub open spec fn advanced(self, rr: int, used: int, n: int) -> int {
        match self {
            DomainGroupRouting::RoundRobinSharded { .. } => (rr + used) % n,
            DomainGroupRouting::Pinned { .. } => rr,
        }
    }
}

/// Which domains of a group carry a transfer to many peers.
#[derive(Clone, Copy, Debug, PartialEq, Eq, Structural)]
pub enum GroupTransferRouting {
    /// Every domain serves a range of the peers.
    AllDomainsShardPeers,
    /// Every domain serves every peer with a part of the bytes.
    AllDomainsShardBytes,
    /// One domain serves everyone.
    Single { domain_idx: u8 },
}

/// A piece of registered source memory.
#[derive(Clone, Copy, Debug, PartialEq, Eq, Structural)]
pub struct GatherSegment {
    pub src_mr: MemoryRegionHandle,
    pub src_offset: u64,
    pub length: u64,
}

/// Delivers an immediate to one peer.
#[derive(Debug)]
pub struct ImmTransferRequest {
    pub imm_data: u32,
    pub dst_mr: MemoryRegionDescriptor,
    pub domain: DomainGroupRouting,
}

/// Delivers one immediate to many peers.
#[derive(Debug)]
pub struct BarrierTransferRequest {
    pub imm_data: u32,
    pub dst_mrs: Vec<MemoryRegionDescriptor>,
    pub domain: DomainGroupRouting,
}

/// Writes one contiguous range.
#[derive(Debug)]
pub struct SingleTransferRequest {
    pub src_mr: MemoryRegionHandle,
    pub src_offset: u64,
    pub length: u64,
    pub imm_data: Option<u32>,
    pub dst_mr: MemoryRegionDescriptor,
    pub dst_offset: u64,
    pub domain: DomainGroupRouting,
}

/// Writes the concatenation of several source segments to one contiguous range.
#[derive(Debug)]
pub struct GatherTransferRequest {
    pub segments: Vec<GatherSegment>,
    pub imm_data: Option<u32>,
    pub dst_mr: MemoryRegionDescriptor,
    pub dst_offset: u64,
    pub domain: DomainGroupRouting,
}

/// One write of an ordered batch.
#[derive(Debug)]
pub struct BatchWrite {
    pub segments: Vec<GatherSegment>,
    pub imm_data: Option<u32>,
    pub dst_mr: MemoryRegionDescriptor,
    pub dst_offset: u64,
}

/// Writes that one queue pair performs in order. `lane` counts queue pairs over all domains.
#[derive(Debug)]
pub struct WriteBatchRequest {
    pub lane: usize,
    pub writes: Vec<BatchWrite>,
}

/// Writes pages of one region to pages of another.
#[derive(Debug)]
pub struct PagedTransferRequest {
    pub src_page_indices: Arc<Vec<u32>>,
    pub dst_page_indices: Arc<Vec<u32>>,
    pub length: u64,
    pub src_mr: MemoryRegionHandle,
    pub src_stride: u64,
    pub src_offset: u64,
    pub dst_mr: MemoryRegionDescriptor,
    pub dst_stride: u64,
    pub dst_offset: u64,
    pub imm_data: Option<u32>,
}

/// One peer of a scatter.
#[derive(Debug)]
pub struct ScatterTarget {
    pub length: u64,
    pub src_offset: u64,
    pub dst_offset: u64,
    pub dst_mr: MemoryRegionDescriptor,
}

/// Writes a part of one region to each of many peers.
#[derive(Debug)]
pub struct ScatterTransferRequest {
    pub src_mr: MemoryRegionHandle,
    pub imm_data: Option<u32>,
    pub dsts: Arc<Vec<ScatterTarget>>,
    pub dst_handle: Option<PeerGroupHandle>,
    pub domain: GroupTransferRouting,
}

/// A one-sided operation on remote memory.
#[derive(Debug)]
pub enum TransferRequest {
    Imm(ImmTransferRequest),
    Barrier(BarrierTransferRequest),
    Single(SingleTransferRequest),
    Gather(GatherTransferRequest),
    WriteBatch(WriteBatchRequest),
    Paged(PagedTransferRequest),
    Scatter(ScatterTransferRequest),
}

/// What a worker reports about an operation, or about memory that it watches.
#[derive(Debug)]
pub enum TransferCompletionEntry {
    Recv { transfer_id: TransferId, data_len: usize },
    Send(TransferId),
    Transfer(TransferId),
    ImmData(u32),
    Immediate(ImmediateEvent),
    ImmCountReached(u32),
    UvmWatch { id: UvmWatcherId, old: u64, new: u64 },
    Error(TransferId, FabricLibError),
}

/// An immediate that arrived with a write, and how many bytes came with it.
#[derive(Clone, Copy, Debug, PartialEq, Eq, Structural)]
pub struct ImmediateEvent {
    pub imm_data: u32,
    pub byte_len: u32,
}

} // verus!
