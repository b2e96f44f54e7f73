//! What a transport provider offers: domains that carry operations, and their description.
use vstd::prelude::*;

use crate::api::{
    DomainAddress, ImmediateEvent, MemoryRegionLocalDescriptor, MemoryRegionRemoteKey,
    PeerGroupHandle, TransferId,
};
use crate::cuda_compat::Device;
use crate::error::FabricLibError;
use crate::rdma_op::{GroupWriteOp, RecvOp, SendOp, Write, WriteOp};

verus! {

/// Memory to register: where it begins, how long it is, and what device holds it.
#[derive(Clone, Copy, Debug, PartialEq, Eq, Structural)]
pub struct MemoryRegion {
    pub ptr: u64,
    pub len: usize,
    pub device: Device,
}

/// What a domain reports about the operations it was given.
#[derive(Debug)]
pub enum DomainCompletionEntry {
    Recv { transfer_id: TransferId, data_len: usize },
    Send(TransferId),
    Transfer(TransferId),
    ImmData(u32),
    Immediate(ImmediateEvent),
    ImmCountReached(u32),
    Error(TransferId, FabricLibError),
}

/// One call that a domain has served, with what it answered.
#[allow(inconsistent_fields)]
pub enum DomainEvent {
    RegisterRemote { region: MemoryRegion, answer: Result<MemoryRegionRemoteKey, FabricLibError> },
    RegisterLocal { region: MemoryRegion, answer: Result<(), FabricLibError> },
    Unregister { ptr: u64 },
    AddPeerGroup {
        handle: PeerGroupHandle,
        addrs: Seq<Seq<u8>>,
        answer: Result<(), FabricLibError>,
    },
    Write { id: TransferId, addr: Seq<u8>, op: Write },
    GroupWrite { id: TransferId, peers: Option<PeerGroupHandle>, op: GroupWriteOp },
    Send { id: TransferId, addr: Seq<u8>, op: SendOp },
    Recv { id: TransferId, op: RecvOp },
    Poll,
    Completion { answer: Option<DomainCompletionEntry> },
}

/// The bytes of each address.
pub open spec fn addr_bytes(addrs: Seq<DomainAddress>) -> Seq<Seq<u8>> {
    Seq::new(addrs.len(), |i: int| addrs[i]@)
}

/// One network endpoint. A provider implements this for its own endpoints.
///
/// `history` is the list of the calls that an endpoint has served. The contracts say no more
/// than that each call is added to it, with its arguments and its answer: what the answer is
/// stays with the provider. A verified endpoint says itself what its history is. The bodies
/// that the spec functions have here tell nothing; they are for endpoints outside the library,
/// which must keep to the contracts without proof.
pub trait RdmaDomain: Sized {
    /// The calls served so far, oldest first.
    open spec fn history(&self) -> Seq<DomainEvent> {
        arbitrary()
    }

    /// The address that peers reach this endpoint by.
    open spec fn address(&self) -> Seq<u8> {
        arbitrary()
    }

    /// Bits per second.
    open spec fn speed(&self) -> u64 {
        arbitrary()
    }

    /// Whether ordered write batches are accepted.
    open spec fn batches(&self) -> bool {
        arbitrary()
    }

    /// The local key of the region that begins at `ptr`, or why there is none.
    open spec fn mem_desc(&self, ptr: u64) -> Result<MemoryRegionLocalDescriptor, FabricLibError> {
        arbitrary()
    }

    fn addr(&self) -> (addr: DomainAddress)
        ensures
            addr@ == self.address(),
    ;

    fn link_speed(&self) -> (speed: u64)
        ensures
            speed == self.speed(),
    ;

    fn supports_write_batch(&self) -> (b: bool)
        ensures
            b == self.batches(),
    ;

    fn get_mem_desc(&self, ptr: u64) -> (desc: Result<MemoryRegionLocalDescriptor, FabricLibError>)
        ensures
            desc == self.mem_desc(ptr),
    ;

    fn register_mr_allow_remote(&mut self, region: &MemoryRegion) -> (rkey: Result<
        MemoryRegionRemoteKey,
        FabricLibError,
    >)
        ensures
            final(self).history() == old(self).history().push(
                DomainEvent::RegisterRemote { region: *region, answer: rkey },
            ),
    ;

    fn register_mr_local(&mut self, region: &MemoryRegion) -> (done: Result<(), FabricLibError>)
        ensures
            final(self).history() == old(self).history().push(
                DomainEvent::RegisterLocal { region: *region, answer: done },
            ),
    ;

    fn unregister_mr(&mut self, ptr: u64)
        ensures
            final(self).history() == old(self).history().push(DomainEvent::Unregister { ptr }),
    ;

    fn add_peer_group(&mut self, handle: PeerGroupHandle, addrs: Vec<DomainAddress>) -> (done:
        Result<(), FabricLibError>)
        ensures
            final(self).history() == old(self).history().push(
                DomainEvent::AddPeerGroup { handle, addrs: addr_bytes(addrs@), answer: done },
            ),
    ;

    fn submit_write(&mut self, id: TransferId, addr: DomainAddress, op: WriteOp)
        ensures
            final(self).history() == old(self).history().push(
                DomainEvent::Write { id, addr: addr@, op: op@ },
            ),
    ;

    fn submit_group_write(
        &mut self,
        id: TransferId,
        peers: Option<PeerGroupHandle>,
        op: GroupWriteOp,
    )
        ensures
            final(self).history() == old(self).history().push(
                DomainEvent::GroupWrite { id, peers, op },
            ),
    ;

    fn submit_send(&mut self, id: TransferId, addr: DomainAddress, op: SendOp)
        ensures
            final(self).history() == old(self).history().push(
                DomainEvent::Send { id, addr: addr@, op },
            ),
    ;

    fn submit_recv(&mut self, id: TransferId, op: RecvOp)
        ensures
            final(self).history() == old(self).history().push(DomainEvent::Recv { id, op }),
    ;

    /// Polls the completion queue and posts what is pending.
    fn poll_progress(&mut self)
        ensures
            final(self).history() == old(self).history().push(DomainEvent::Poll),
    ;

    /// Takes one completion, if there is one.
    fn get_completion(&mut self) -> (completion: Option<DomainCompletionEntry>)
        ensures
            final(self).history() == old(self).history().push(
                DomainEvent::Completion { answer: completion },
            ),
    ;
}

/// The description of an endpoint that has not been opened. As with [`RdmaDomain`], the bodies of
/// the spec functions tell nothing.
pub trait RdmaDomainInfo {
    open spec fn spec_name(&self) -> Seq<char> {
        arbitrary()
    }

    open spec fn spec_link_speed(&self) -> u64 {
        arbitrary()
    }

    fn name(&self) -> (name: &str)
        ensures
            name@ == self.spec_name(),
    ;

    fn link_speed(&self) -> (speed: u64)
        ensures
            speed == self.spec_link_speed(),
    ;
}

/// An endpoint of an elastic fabric adapter.
#[derive(Clone, Debug)]
pub struct EfaDomainInfo {
    pub name: String,
    pub link_speed: u64,
}

/// An endpoint of a verbs device.
#[derive(Clone, Debug)]
pub struct VerbsDeviceInfo {
    pub name: String,
    pub link_speed: u64,
}

impl RdmaDomainInfo for EfaDomainInfo {
    open spec fn spec_name(&self) -> Seq<char> {
        self.name@
    }

    open spec fn spec_link_speed(&self) -> u64 {
        self.link_speed
    }

    fn name(&self) -> (name: &str) {
        self.name.as_str()
    }

    fn link_speed(&self) -> (speed: u64) {
        self.link_speed
    }
}

impl RdmaDomainInfo for VerbsDeviceInfo {
    open spec fn spec_name(&self) -> Seq<char> {
        self.name@
    }

    open spec fn spec_link_speed(&self) -> u64 {
        self.link_speed
    }

    fn name(&self) -> (name: &str) {
        self.name.as_str()
    }

    fn link_speed(&self) -> (speed: u64) {
        self.link_speed
    }
}

} // verus!
