//! The operations that a group hands to its domains.
use std::sync::Arc;

use vstd::prelude::*;

use crate::api::{MemoryRegionLocalDescriptor, MemoryRegionRemoteKey, ScatterTarget};

verus! {

/// Delivers an immediate without data.
#[derive(Clone, Copy, Debug, PartialEq, Eq, Structural)]
pub struct ImmWriteOp {
    pub imm_data: u32,
    pub dst_ptr: u64,
    pub dst_rkey: MemoryRegionRemoteKey,
}

/// Writes one contiguous range.
#[derive(Clone, Copy, Debug, PartialEq, Eq)]
pub struct SingleWriteOp {
    pub src_ptr: u64,
    pub src_desc: MemoryRegionLocalDescriptor,
    pub src_offset: u64,
    pub length: u64,
    pub imm_data: Option<u32>,
    pub dst_ptr: u64,
    pub dst_rkey: MemoryRegionRemoteKey,
    pub dst_offset: u64,
}

/// One source range of a gathered write.
#[derive(Clone, Copy, Debug, PartialEq, Eq, Structural)]
pub struct GatherSource {
    pub src_ptr: u64,
    pub src_desc: MemoryRegionLocalDescriptor,
    pub src_offset: u64,
    pub length: u64,
}

/// Writes the concatenation of its sources to one contiguous range.
#[derive(Debug)]
pub struct GatherWriteOp {
    pub sources: Vec<GatherSource>,
    pub imm_data: Option<u32>,
    pub dst_ptr: u64,
    pub dst_rkey: MemoryRegionRemoteKey,
    pub dst_offset: u64,
    pub length: u64,
}

/// A gathered write as a mathematical value.
pub struct GatherWrite {
    pub sources: Seq<GatherSource>,
    pub imm_data: Option<u32>,
    pub dst_ptr: u64,
    pub dst_rkey: MemoryRegionRemoteKey,
    pub dst_offset: u64,
    pub length: u64,
}

impl View for GatherWriteOp {
    type V = GatherWrite;

    open spec fn view(&self) -> GatherWrite {
        GatherWrite {
            sources: self.sources@,
            imm_data: self.imm_data,
            dst_ptr: self.dst_ptr,
            dst_rkey: self.dst_rkey,
            dst_offset: self.dst_offset,
            length: self.length,
        }
    }
}

/// Writes the pages that a range of two index lists names.
#[derive(Debug)]
pub struct PagedWriteOp {
    pub src_page_indices: Arc<Vec<u32>>,
    pub dst_page_indices: Arc<Vec<u32>>,
    pub page_indices_beg: usize,
    pub page_indices_end: usize,
    pub length: u64,
    pub src_ptr: u64,
    pub src_desc: MemoryRegionLocalDescriptor,
    pub src_stride: u64,
    pub src_offset: u64,
    pub dst_ptr: u64,
    pub dst_rkey: MemoryRegionRemoteKey,
    pub dst_stride: u64,
    pub dst_offset: u64,
    pub imm_data: Option<u32>,
}

/// Writes to one peer.
#[derive(Debug)]
pub enum WriteOp {
    Imm(ImmWriteOp),
    Single(SingleWriteOp),
    Gather(GatherWriteOp),
    Batch { qp_lane: usize, writes: Vec<GatherWriteOp> },
    Paged(PagedWriteOp),
}

/// A write to one peer as a mathematical value.
pub enum Write {
    Imm(ImmWriteOp),
    Single(SingleWriteOp),
    Gather(GatherWrite),
    Batch { qp_lane: usize, writes: Seq<GatherWrite> },
    Paged(PagedWriteOp),
}

/// What each gathered write of a list is.
pub open spec fn gather_writes(ops: Seq<GatherWriteOp>) -> Seq<GatherWrite> {
    Seq::new(ops.len(), |i: int| ops[i]@)
}

impl View for WriteOp {
    type V = Write;

    open spec fn view(&self) -> Write {
        match self {
            WriteOp::Imm(op) => Write::Imm(*op),
            WriteOp::Single(op) => Write::Single(*op),
            WriteOp::Gather(op) => Write::Gather(op@),
            WriteOp::Batch { qp_lane, writes } => Write::Batch {
                qp_lane: *qp_lane,
                writes: gather_writes(writes@),
            },
            WriteOp::Paged(op) => Write::Paged(*op),
        }
    }
}

/// Writes to the peers `dst_beg..dst_end` of a list, each either whole or the part
/// `byte_shard_idx` of `byte_shards`.
#[derive(Debug)]
pub struct ScatterGroupWriteOp {
    pub domain_idx: usize,
    pub src_ptr: u64,
    pub src_desc: MemoryRegionLocalDescriptor,
    pub imm_data: Option<u32>,
    pub dsts: Arc<Vec<ScatterTarget>>,
    pub dst_beg: usize,
    pub dst_end: usize,
    pub byte_shards: u32,
    pub byte_shard_idx: u32,
}

/// Writes to many peers.
#[derive(Debug)]
pub enum GroupWriteOp {
    Scatter(ScatterGroupWriteOp),
}

/// Sends a message from registered memory.
#[derive(Clone, Copy, Debug, PartialEq, Eq, Structural)]
pub struct SendOp {
    pub ptr: u64,
    pub len: usize,
    pub desc: MemoryRegionLocalDescriptor,
    pub coalescible: bool,
}

/// Receives a message into registered memory.
#[derive(Clone, Copy, Debug, PartialEq, Eq, Structural)]
pub struct RecvOp {
    pub ptr: u64,
    pub len: usize,
    pub desc: MemoryRegionLocalDescriptor,
}

} // verus!
