//! The threads that drive a group of domains: what they are asked, what they do, and what they
//! report.
pub mod poller;
pub mod queue;
pub mod step;
pub mod uvm;

use vstd::prelude::*;

use crate::api::{
    DomainAddress, MemoryRegionDescriptor, MemoryRegionHandle, PeerGroupHandle, TransferId,
    TransferRequest, WriteBatchRequest,
};
use crate::domain_group::DomainGroup;
use crate::domain_group::registration::total_speed;
use crate::error::FabricLibError;
use crate::provider::{EfaDomainInfo, MemoryRegion, RdmaDomain, VerbsDeviceInfo, addr_bytes};
use crate::provider_dispatch::DomainInfo;
use crate::worker::poller::PollingMode;

verus! {

/// What a worker is told to do, without an answer.
///
/// `C` is a counter that a submitter watches, and `A` is what a transfer holds until it is over.
#[derive(Debug)]
pub enum WorkerCommand<C, A> {
    SubmitWriteBatches(Vec<(TransferId, WriteBatchRequest, A)>),
    SubmitTransfer {
        transfer_id: TransferId,
        request: TransferRequest,
        tx_counter: Option<C>,
        admission: Option<A>,
    },
    SubmitSend {
        transfer_id: TransferId,
        mr: MemoryRegionHandle,
        ptr: u64,
        len: usize,
        addr: DomainAddress,
        coalescible: bool,
    },
    SubmitRecv { transfer_id: TransferId, mr: MemoryRegionHandle, ptr: u64, len: usize },
}

/// What a worker is asked, with an answer.
#[derive(Debug)]
pub enum WorkerCall {
    RegisterMRLocal { region: MemoryRegion },
    RegisterMRAllowRemote { region: MemoryRegion },
    UnregisterMR { ptr: u64 },
    AddPeerGroup { addrs: Vec<Vec<DomainAddress>> },
}

/// What a worker answers.
#[derive(Debug)]
pub enum WorkerReply {
    RegisteredLocal(Result<MemoryRegionHandle, FabricLibError>),
    RegisteredRemote(Result<(MemoryRegionHandle, MemoryRegionDescriptor), FabricLibError>),
    Unregistered,
    PeerGroup(Result<PeerGroupHandle, FabricLibError>),
}

/// A worker that has not been started.
pub struct Worker {
    pub domain_list: Vec<DomainInfo>,
    pub pin_worker_cpu: Option<u16>,
    pub pin_uvm_cpu: Option<u16>,
    pub polling_mode: PollingMode,
}

/// What is known of a worker that runs.
#[derive(Debug)]
pub struct WorkerHandle {
    pub write_batches: bool,
    pub aggregated_link_speed: u64,
    /// The address of each of its domains.
    pub address_list: Vec<DomainAddress>,
}

/// The domains that a worker is to open, all of one provider.
#[derive(Debug)]
pub enum DomainPlan {
    Efa(Vec<EfaDomainInfo>),
    Verbs(Vec<VerbsDeviceInfo>),
}

/// Every description is of an elastic fabric adapter.
pub open spec fn all_efa(list: Seq<DomainInfo>) -> bool {
    forall|i: int| #![trigger list[i]] 0 <= i < list.len() ==> list[i] is Efa
}

/// Every description is of a verbs device.
pub open spec fn all_verbs(list: Seq<DomainInfo>) -> bool {
    forall|i: int| #![trigger list[i]] 0 <= i < list.len() ==> list[i] is Verbs
}

/// Why the domains of a worker cannot be opened together.
pub open spec fn plan_fault(list: Seq<DomainInfo>) -> Option<FabricLibError> {
    if all_efa(list) {
        if list.len() == 1 || list.len() == 2 || list.len() == 4 {
            None
        } else {
            Some(FabricLibError::Custom("Only support 1, 2, or 4 domains per GPU for EFA"))
        }
    } else if all_verbs(list) {
        if list.len() == 1 || list.len() == 2 {
            None
        } else {
            Some(FabricLibError::Custom("Only support 1 or 2 domains per GPU for Verbs"))
        }
    } else {
        Some(FabricLibError::Custom("Cannot mix EFA and Verbs domains"))
    }
}

/// The plan opens exactly the listed domains, in order.
pub open spec fn plan_opens(plan: DomainPlan, list: Seq<DomainInfo>) -> bool {
    match plan {
        DomainPlan::Efa(infos) => list == Seq::new(
            infos@.len(),
            |i: int| DomainInfo::Efa(infos@[i]),
        ),
        DomainPlan::Verbs(infos) => list == Seq::new(
            infos@.len(),
            |i: int| DomainInfo::Verbs(infos@[i]),
        ),
    }
}

/// Decides how the domains of a worker are opened: they must be of one provider, and of a
/// number that it supports.
pub fn plan_domains(domain_list: Vec<DomainInfo>) -> (plan: Result<DomainPlan, FabricLibError>)
    ensures
        match plan_fault(domain_list@) {
            Some(fault) => plan == Err::<DomainPlan, FabricLibError>(fault),
            None => plan matches Ok(plan) && plan_opens(plan, domain_list@) && plan is Efa
                == all_efa(domain_list@),
        },
{
    let ghost list = domain_list@;
    let total: usize = domain_list.len();
    let mut efa: Vec<EfaDomainInfo> = Vec::new();
    let mut verbs: Vec<VerbsDeviceInfo> = Vec::new();
    for info in it: domain_list
        invariant
            list == it.seq(),
            efa@.len() + verbs@.len() == it.index(),
            efa@.len() == it.index() ==> forall|j: int|
                #![trigger list[j]]
                0 <= j < it.index() ==> list[j] == DomainInfo::Efa(efa@[j]),
            verbs@.len() == it.index() ==> forall|j: int|
                #![trigger list[j]]
                0 <= j < it.index() ==> list[j] == DomainInfo::Verbs(verbs@[j]),
            efa@.len() < it.index() ==> exists|j: int|
                #![trigger list[j]]
                0 <= j < it.index() && list[j] is Verbs,
            verbs@.len() < it.index() ==> exists|j: int|
                #![trigger list[j]]
                0 <= j < it.index() && list[j] is Efa,
    {
        assert(list[it.index() as int] == info);
        match info {
            DomainInfo::Efa(info) => {
                efa.push(info);
            },
            DomainInfo::Verbs(info) => {
                verbs.push(info);
            },
        }
    }
    if efa.len() == total {
        if total == 1 || total == 2 || total == 4 {
            assert(list =~= Seq::new(efa@.len(), |i: int| DomainInfo::Efa(efa@[i])));
            Ok(DomainPlan::Efa(efa))
        } else {
            Err(FabricLibError::Custom("Only support 1, 2, or 4 domains per GPU for EFA"))
        }
    } else if verbs.len() == total {
        if total == 1 || total == 2 {
            assert(list =~= Seq::new(verbs@.len(), |i: int| DomainInfo::Verbs(verbs@[i])));
            Ok(DomainPlan::Verbs(verbs))
        } else {
            Err(FabricLibError::Custom("Only support 1 or 2 domains per GPU for Verbs"))
        }
    } else {
        Err(FabricLibError::Custom("Cannot mix EFA and Verbs domains"))
    }
}

/// Joins what the two threads of a worker report of their start; a thread that went away without
/// a report gives `None`.
pub fn join_init<W, U>(
    worker: Option<Result<W, FabricLibError>>,
    uvm: Option<Result<U, FabricLibError>>,
) -> (joined: Result<(W, U), FabricLibError>)
    ensures
        joined == match (worker, uvm) {
            (None, _) => Err::<(W, U), FabricLibError>(
                FabricLibError::Custom("Failed to receive worker init"),
            ),
            (Some(_), None) => Err(FabricLibError::Custom("Failed to receive UVM watcher init")),
            (Some(Err(error)), Some(_)) => Err(error),
            (Some(Ok(_)), Some(Err(error))) => Err(error),
            (Some(Ok(worker)), Some(Ok(uvm))) => Ok((worker, uvm)),
        },
{
    match (worker, uvm) {
        (None, _) => Err(FabricLibError::Custom("Failed to receive worker init")),
        (Some(_), None) => Err(FabricLibError::Custom("Failed to receive UVM watcher init")),
        (Some(Err(error)), Some(_)) => Err(error),
        (Some(Ok(_)), Some(Err(error))) => Err(error),
        (Some(Ok(worker)), Some(Ok(uvm))) => Ok((worker, uvm)),
    }
}

/// Whether the end of the domains' thread is waited for after a failed start: both threads have
/// reported, and one of them could not start.
pub fn awaits_worker_end<W, U>(
    worker: &Option<Result<W, FabricLibError>>,
    uvm: &Option<Result<U, FabricLibError>>,
) -> (awaits: bool)
    ensures
        awaits == match (*worker, *uvm) {
            (Some(worker), Some(uvm)) => worker is Err || uvm is Err,
            _ => false,
        },
{
    match (worker, uvm) {
        (Some(Err(_)), Some(_)) => true,
        (Some(Ok(_)), Some(Err(_))) => true,
        _ => false,
    }
}

/// Describes the worker that runs a group.
pub fn describe_worker<D: RdmaDomain, C, A, const N: usize>(
    group: &DomainGroup<D, C, A, N>,
) -> (handle: WorkerHandle)
    requires
        total_speed(group.domains@, N as int) <= u64::MAX,
    ensures
        handle.write_batches == (forall|i: int|
            #![trigger group.domains[i]]
            0 <= i < N ==> group.domains[i].batches()),
        handle.aggregated_link_speed == total_speed(group.domains@, N as int),
        addr_bytes(handle.address_list@) == Seq::new(
            N as nat,
            |i: int| group.domains[i].address(),
        ),
{
    let mut address_list: Vec<DomainAddress> = Vec::with_capacity(N);
    let mut i: usize = 0;
    while i < N
        invariant
            i <= N,
            address_list@.len() == i,
            forall|j: int|
                #![trigger address_list@[j]]
                0 <= j < i ==> address_list@[j]@ == group.domains[j].address(),
        decreases N - i,
    {
        address_list.push(group.domains[i].addr());
        i = i + 1;
    }
    assert(addr_bytes(address_list@) =~= Seq::new(
        N as nat,
        |i: int| group.domains[i].address(),
    ));
    WorkerHandle {
        write_batches: group.supports_write_batch(),
        aggregated_link_speed: group.aggregate_link_speed(),
        address_list,
    }
}

/// The domains of a worker can be opened exactly if they are one, two or four adapters, or one
/// or two verbs devices; they are then opened as they are listed.
pub proof fn domains_of_one_provider_are_opened(list: Seq<DomainInfo>, plan: DomainPlan)
    ensures
        plan_fault(list) is None <==> {
            ||| (list.len() == 1 || list.len() == 2 || list.len() == 4) && forall|i: int|
                #![trigger list[i]]
                0 <= i < list.len() ==> list[i] is Efa
            ||| (list.len() == 1 || list.len() == 2) && forall|i: int|
                #![trigger list[i]]
                0 <= i < list.len() ==> list[i] is Verbs
        },
        plan_opens(plan, list) ==> match plan {
            DomainPlan::Efa(infos) => infos@.len() == list.len() && forall|i: int|
                #![trigger list[i]]
                0 <= i < list.len() ==> list[i] == DomainInfo::Efa(infos@[i]),
            DomainPlan::Verbs(infos) => infos@.len() == list.len() && forall|i: int|
                #![trigger list[i]]
                0 <= i < list.len() ==> list[i] == DomainInfo::Verbs(infos@[i]),
        },
{
    if list.len() > 0 {
        let first = list[0];
        assert(all_efa(list) ==> first is Efa);
    }
}

} // verus!
