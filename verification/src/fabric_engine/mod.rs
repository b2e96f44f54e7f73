//! The workers of one node as a single engine.
pub mod admission;
pub mod batches;
pub mod budget;
pub mod lanes;
pub mod registration;
pub mod replies;
pub mod routing;
pub mod submit;

use dashmap::DashMap;
use vstd::prelude::*;

use crate::api::{DomainAddress, MemoryRegionHandle, WRITE_QP_LANES};
use crate::cuda_compat::{CudaDeviceId, Device};
use crate::error::FabricLibError;
use crate::provider::addr_bytes;
use crate::tables::{devices_in, get_device, new_devices};
use crate::worker::WorkerHandle;

verus! {

/// The workers of one node.
///
/// A striped engine serves host memory with all its workers alike; any other engine serves it
/// with the first.
pub struct FabricEngine {
    /// The workers by device number, in ascending order.
    pub workers: Vec<(u8, WorkerHandle)>,
    pub main_address: DomainAddress,
    pub num_groups: usize,
    pub num_domains: usize,
    pub aggregated_link_speed: u64,
    /// The number of domains of a worker; never zero.
    pub nets_per_gpu: u8,
    pub stopped: bool,
    pub host_striped: bool,
    /// Counts the striped transfers.
    pub host_submit_rr: usize,
    /// Counts the searches for a completion.
    pub completion_rr: usize,
    /// The device of each registered region, by its first address.
    pub mr_device_map: DashMap<u64, Device>,
}

/// The numbers of devices are in strictly ascending order.
pub open spec fn ascending(workers: Seq<(u8, WorkerHandle)>) -> bool {
    forall|i: int, j: int|
        #![trigger workers[i], workers[j]]
        0 <= i < j < workers.len() ==> workers[i].0 < workers[j].0
}

/// The workers by device number; of two with one number, the later counts.
pub open spec fn by_device(workers: Seq<(u8, WorkerHandle)>) -> Map<u8, WorkerHandle>
    decreases workers.len(),
{
    if workers.len() == 0 {
        Map::empty()
    } else {
        by_device(workers.drop_last()).insert(workers.last().0, workers.last().1)
    }
}

/// The number of domains of all workers together.
pub open spec fn domain_total(workers: Seq<(u8, WorkerHandle)>) -> int
    decreases workers.len(),
{
    if workers.len() == 0 {
        0
    } else {
        domain_total(workers.drop_last()) + workers.last().1.address_list@.len()
    }
}

/// The speed of all workers together.
pub open spec fn speed_total(workers: Seq<(u8, WorkerHandle)>) -> int
    decreases workers.len(),
{
    if workers.len() == 0 {
        0
    } else {
        speed_total(workers.drop_last()) + workers.last().1.aggregated_link_speed
    }
}

/// Every worker has as many domains as the first.
pub open spec fn same_topology(workers: Seq<(u8, WorkerHandle)>) -> bool {
    forall|i: int|
        #![trigger workers[i]]
        0 <= i < workers.len() ==> workers[i].1.address_list@.len()
            == workers[0].1.address_list@.len()
}

/// Why workers do not make an engine.
pub open spec fn engine_fault(workers: Seq<(u8, WorkerHandle)>, host_striped: bool) -> Option<
    FabricLibError,
> {
    if workers.len() == 0 {
        Some(FabricLibError::Custom("FabricEngine requires at least one worker"))
    } else if host_striped && !same_topology(workers) {
        Some(
            FabricLibError::Custom("striped host workers must have the same domain topology"),
        )
    } else {
        None
    }
}

/// The first worker has a domain, and the sums over all workers fit in a word.
pub open spec fn engine_in_range(workers: Seq<(u8, WorkerHandle)>, host_striped: bool) -> bool {
    engine_fault(workers, host_striped) is None ==> {
        &&& 0 < workers[0].1.address_list@.len() <= u8::MAX
        &&& domain_total(workers) * WRITE_QP_LANES <= usize::MAX
        &&& speed_total(workers) <= u64::MAX
    }
}

proof fn lemma_totals_grow(workers: Seq<(u8, WorkerHandle)>, k: int)
    requires
        0 <= k <= workers.len(),
    ensures
        0 <= domain_total(workers.take(k)) <= domain_total(workers),
        0 <= speed_total(workers.take(k)) <= speed_total(workers),
        k < workers.len() ==> domain_total(workers.take(k + 1)) == domain_total(workers.take(k))
            + workers[k].1.address_list@.len(),
        k < workers.len() ==> speed_total(workers.take(k + 1)) == speed_total(workers.take(k))
            + workers[k].1.aggregated_link_speed,
    decreases workers.len() - k,
{
    if k < workers.len() {
        lemma_totals_grow(workers, k + 1);
        assert(workers.take(k + 1).drop_last() =~= workers.take(k));
    } else {
        assert(workers.take(k) =~= workers);
    }
    lemma_totals_nonneg(workers.take(k));
}

proof fn lemma_totals_nonneg(workers: Seq<(u8, WorkerHandle)>)
    ensures
        0 <= domain_total(workers),
        0 <= speed_total(workers),
    decreases workers.len(),
{
    if workers.len() > 0 {
        lemma_totals_nonneg(workers.drop_last());
    }
}

/// In ascending order, `device` is bound to `handle` if and only if some entry says so.
pub proof fn lemma_by_device(workers: Seq<(u8, WorkerHandle)>, device: u8)
    requires
        ascending(workers),
    ensures
        by_device(workers).contains_key(device) <==> exists|i: int|
            #![trigger workers[i]]
            0 <= i < workers.len() && workers[i].0 == device,
        forall|i: int|
            #![trigger workers[i]]
            0 <= i < workers.len() && workers[i].0 == device ==> by_device(workers)[device]
                == workers[i].1,
    decreases workers.len(),
{
    if workers.len() > 0 {
        let rest = workers.drop_last();
        let last = workers[workers.len() - 1];
        assert(last == workers.last());
        assert(ascending(rest)) by {
            assert forall|i: int, j: int|
                #![trigger rest[i], rest[j]]
                0 <= i < j < rest.len() implies rest[i].0 < rest[j].0 by {
                assert(workers[i].0 < workers[j].0);
            }
        }
        lemma_by_device(rest, device);
        if by_device(rest).contains_key(device) {
            let i = choose|i: int|
                #![trigger rest[i]]
                0 <= i < rest.len() && rest[i].0 == device;
            assert(workers[i] == rest[i]);
            assert(workers[i].0 < last.0);
        }
        if exists|i: int| #![trigger workers[i]] 0 <= i < workers.len() && workers[i].0 == device {
            let i = choose|i: int|
                #![trigger workers[i]]
                0 <= i < workers.len() && workers[i].0 == device;
            if i < rest.len() {
                assert(rest[i].0 == device);
            }
        }
        assert forall|i: int|
            #![trigger workers[i]]
            0 <= i < workers.len() && workers[i].0 == device implies by_device(workers)[device]
            == workers[i].1 by {
            if i < rest.len() {
                assert(rest[i] == workers[i]);
            }
        }
    }
}

/// The first entries are in order too.
proof fn lemma_ascending_rest(workers: Seq<(u8, WorkerHandle)>)
    requires
        ascending(workers),
        workers.len() > 0,
    ensures
        ascending(workers.drop_last()),
        forall|i: int|
            #![trigger workers[i]]
            0 <= i < workers.len() - 1 ==> workers[i].0 < workers.last().0,
{
    let rest = workers.drop_last();
    assert forall|i: int, j: int|
        #![trigger rest[i], rest[j]]
        0 <= i < j < rest.len() implies rest[i].0 < rest[j].0 by {
        assert(workers[i].0 < workers[j].0);
    }
    let last = workers[workers.len() - 1];
}

/// An entry takes the place of one with the same number.
proof fn lemma_replace_entry(before: Seq<(u8, WorkerHandle)>, at: int, entry: (u8, WorkerHandle))
    requires
        ascending(before),
        0 <= at < before.len(),
        before[at].0 == entry.0,
    ensures
        ascending(before.update(at, entry)),
        by_device(before.update(at, entry)) == by_device(before).insert(entry.0, entry.1),
    decreases before.len(),
{
    let after = before.update(at, entry);
    assert forall|i: int, j: int|
        #![trigger after[i], after[j]]
        0 <= i < j < after.len() implies after[i].0 < after[j].0 by {
        assert(before[i].0 < before[j].0);
    }
    let rest = before.drop_last();
    if at == before.len() - 1 {
        assert(after.drop_last() =~= rest);
        assert(by_device(after) =~= by_device(before).insert(entry.0, entry.1));
    } else {
        lemma_ascending_rest(before);
        assert(rest[at] == before[at]);
        lemma_replace_entry(rest, at, entry);
        assert(after.drop_last() =~= rest.update(at, entry));
        assert(by_device(after) =~= by_device(before).insert(entry.0, entry.1));
    }
}

/// An entry comes between those with lower and those with higher numbers.
proof fn lemma_insert_entry(before: Seq<(u8, WorkerHandle)>, at: int, entry: (u8, WorkerHandle))
    requires
        ascending(before),
        0 <= at <= before.len(),
        at > 0 ==> before[at - 1].0 < entry.0,
        at < before.len() ==> before[at].0 > entry.0,
    ensures
        ascending(before.insert(at, entry)),
        by_device(before.insert(at, entry)) == by_device(before).insert(entry.0, entry.1),
    decreases before.len(),
{
    let after = before.insert(at, entry);
    if at == before.len() {
        assert(after.drop_last() =~= before);
        assert forall|i: int, j: int|
            #![trigger after[i], after[j]]
            0 <= i < j < after.len() implies after[i].0 < after[j].0 by {
            if j < at {
                assert(before[i].0 < before[j].0);
            } else if i < at - 1 {
                assert(before[i].0 < before[at - 1].0);
            }
        }
    } else {
        let rest = before.drop_last();
        let last = before[before.len() - 1];
        lemma_ascending_rest(before);
        if at > 0 {
            assert(rest[at - 1] == before[at - 1]);
        }
        if at < rest.len() {
            assert(rest[at] == before[at]);
        }
        lemma_insert_entry(rest, at, entry);
        let shorter = rest.insert(at, entry);
        assert(after.drop_last() =~= shorter);
        assert(after.last() == last);
        assert(last.0 > entry.0) by {
            if at < before.len() - 1 {
                assert(before[at].0 < last.0);
            }
        }
        assert(by_device(after) =~= by_device(before).insert(entry.0, entry.1));
        assert forall|i: int, j: int|
            #![trigger after[i], after[j]]
            0 <= i < j < after.len() implies after[i].0 < after[j].0 by {
            if j < after.len() - 1 {
                assert(shorter[i].0 < shorter[j].0);
            } else if i < at {
                assert(after[i] == before[i]);
            } else if i > at {
                assert(after[i] == before[i - 1]);
            }
        }
    }
}

/// Puts a worker into an ordered list; one with the same number is replaced.
fn insert_worker(workers: &mut Vec<(u8, WorkerHandle)>, device: u8, worker: WorkerHandle)
    requires
        ascending(old(workers)@),
    ensures
        ascending(final(workers)@),
        0 < final(workers)@.len() <= old(workers)@.len() + 1,
        by_device(final(workers)@) == by_device(old(workers)@).insert(device, worker),
{
    let mut at: usize = 0;
    while at < workers.len() && workers[at].0 < device
        invariant
            at <= workers@.len(),
            *workers == *old(workers),
            at > 0 ==> workers@[at - 1].0 < device,
        decreases workers@.len() - at,
    {
        at = at + 1;
    }
    if at < workers.len() && workers[at].0 == device {
        proof {
            lemma_replace_entry(workers@, at as int, (device, worker));
        }
        workers.set(at, (device, worker));
    } else {
        proof {
            lemma_insert_entry(workers@, at as int, (device, worker));
        }
        workers.insert(at, (device, worker));
    }
}

impl FabricEngine {
    /// The regions that are registered, and their devices.
    pub open spec fn devices(&self) -> Map<u64, Device> {
        devices_in(self.mr_device_map)
    }

    /// There is a worker, the workers are in order, and every lane has a number.
    pub open spec fn wf(&self) -> bool {
        &&& self.workers@.len() > 0
        &&& ascending(self.workers@)
        &&& self.nets_per_gpu > 0
        &&& self.num_domains * WRITE_QP_LANES <= usize::MAX
    }

    /// Nothing but the registered regions and the round robins differs.
    pub open spec fn same_shape(&self, other: &Self) -> bool {
        &&& self.workers == other.workers
        &&& self.main_address == other.main_address
        &&& self.num_groups == other.num_groups
        &&& self.num_domains == other.num_domains
        &&& self.aggregated_link_speed == other.aggregated_link_speed
        &&& self.nets_per_gpu == other.nets_per_gpu
        &&& self.stopped == other.stopped
        &&& self.host_striped == other.host_striped
    }

    /// What an engine of these workers is.
    pub open spec fn made_of(
        &self,
        workers: Seq<(u8, WorkerHandle)>,
        host_striped: bool,
    ) -> bool {
        &&& by_device(self.workers@) == by_device(workers)
        &&& self.workers@.len() <= workers.len()
        &&& self.main_address@ == workers[0].1.address_list@[0]@
        &&& self.num_groups == workers.len()
        &&& self.num_domains == domain_total(workers)
        &&& self.aggregated_link_speed == speed_total(workers)
        &&& self.nets_per_gpu == workers[0].1.address_list@.len()
        &&& !self.stopped
        &&& self.host_striped == host_striped
        &&& self.host_submit_rr == 0
        &&& self.completion_rr == 0
        &&& self.devices() == Map::<u64, Device>::empty()
    }

    /// Makes an engine of workers that serve one device each.
    pub fn new(workers: Vec<(u8, WorkerHandle)>) -> (engine: Result<Self, FabricLibError>)
        requires
            engine_in_range(workers@, false),
        ensures
            match engine_fault(workers@, false) {
                Some(fault) => engine == Err::<Self, FabricLibError>(fault),
                None => engine matches Ok(engine) && engine.wf() && engine.made_of(
                    workers@,
                    false,
                ),
            },
    {
        Self::new_inner(workers, false)
    }

    /// Makes an engine of workers that serve host memory alike.
    pub fn new_host_striped(workers: Vec<(u8, WorkerHandle)>) -> (engine: Result<
        Self,
        FabricLibError,
    >)
        requires
            engine_in_range(workers@, true),
        ensures
            match engine_fault(workers@, true) {
                Some(fault) => engine == Err::<Self, FabricLibError>(fault),
                None => engine matches Ok(engine) && engine.wf() && engine.made_of(workers@, true),
            },
    {
        Self::new_inner(workers, true)
    }

    fn new_inner(workers: Vec<(u8, WorkerHandle)>, host_striped: bool) -> (engine: Result<
        Self,
        FabricLibError,
    >)
        requires
            engine_in_range(workers@, host_striped),
        ensures
            match engine_fault(workers@, host_striped) {
                Some(fault) => engine == Err::<Self, FabricLibError>(fault),
                None => engine matches Ok(engine) && engine.wf() && engine.made_of(
                    workers@,
                    host_striped,
                ),
            },
    {
        let num_groups: usize = workers.len();
        if num_groups == 0 {
            return Err(FabricLibError::Custom("FabricEngine requires at least one worker"));
        }
        let nets: usize = workers[0].1.address_list.len();
        if host_striped {
            let mut i: usize = 0;
            while i < num_groups
                invariant
                    i <= num_groups,
                    num_groups == workers@.len(),
                    num_groups > 0,
                    host_striped,
                    nets == workers@[0].1.address_list@.len(),
                    forall|j: int|
                        #![trigger workers@[j]]
                        0 <= j < i ==> workers@[j].1.address_list@.len() == nets,
                decreases num_groups - i,
            {
                if workers[i].1.address_list.len() != nets {
                    assert(workers@[i as int].1.address_list@.len() != nets);
                    return Err(
                        FabricLibError::Custom(
                            "striped host workers must have the same domain topology",
                        ),
                    );
                }
                i = i + 1;
            }
        }
        assert(engine_fault(workers@, host_striped) is None);
        let main_address = workers[0].1.address_list[0].clone();
        let ghost all = workers@;
        let mut contexts: Vec<(u8, WorkerHandle)> = Vec::with_capacity(num_groups);
        let mut num_domains: usize = 0;
        let mut aggregated_link_speed: u64 = 0;
        assert(all.take(0) =~= Seq::<(u8, WorkerHandle)>::empty());
        for entry in it: workers
            invariant
                all == it.seq(),
                domain_total(all) * WRITE_QP_LANES <= usize::MAX,
                speed_total(all) <= u64::MAX,
                ascending(contexts@),
                it.index() > 0 ==> contexts@.len() > 0,
                contexts@.len() <= it.index(),
                by_device(contexts@) == by_device(all.take(it.index() as int)),
                num_domains == domain_total(all.take(it.index() as int)),
                aggregated_link_speed == speed_total(all.take(it.index() as int)),
        {
            let ghost k = it.index() as int;
            proof {
                assert(all[k] == entry);
                lemma_totals_grow(all, k);
                lemma_totals_grow(all, k + 1);
                assert(all.take(k + 1).drop_last() =~= all.take(k));
                assert(all.take(k + 1).last() == entry);
            }
            let (device, worker) = entry;
            num_domains = num_domains + worker.address_list.len();
            aggregated_link_speed = aggregated_link_speed + worker.aggregated_link_speed;
            insert_worker(&mut contexts, device, worker);
        }
        assert(all.take(all.len() as int) =~= all);
        Ok(
            FabricEngine {
                workers: contexts,
                main_address,
                num_groups,
                num_domains,
                aggregated_link_speed,
                nets_per_gpu: nets as u8,
                stopped: false,
                host_striped,
                host_submit_rr: 0,
                completion_rr: 0,
                mr_device_map: new_devices(),
            },
        )
    }

    pub fn main_address(&self) -> (address: DomainAddress)
        ensures
            address@ == self.main_address@,
    {
        self.main_address.clone()
    }

    /// The first address of each worker.
    pub fn main_addresses(&self) -> (addresses: Vec<DomainAddress>)
        requires
            forall|i: int|
                #![trigger self.workers@[i]]
                0 <= i < self.workers@.len() ==> self.workers@[i].1.address_list@.len() > 0,
        ensures
            addr_bytes(addresses@) == Seq::new(
                self.workers@.len(),
                |i: int| self.workers@[i].1.address_list@[0]@,
            ),
    {
        let mut addresses: Vec<DomainAddress> = Vec::with_capacity(self.workers.len());
        let mut i: usize = 0;
        while i < self.workers.len()
            invariant
                i <= self.workers@.len(),
                forall|j: int|
                    #![trigger self.workers@[j]]
                    0 <= j < self.workers@.len() ==> self.workers@[j].1.address_list@.len() > 0,
                addresses@.len() == i,
                forall|j: int|
                    #![trigger addresses@[j]]
                    0 <= j < i ==> addresses@[j]@ == self.workers@[j].1.address_list@[0]@,
            decreases self.workers@.len() - i,
        {
            assert(self.workers@[i as int].1.address_list@.len() > 0);
            addresses.push(self.workers[i].1.address_list[0].clone());
            i = i + 1;
        }
        assert(addr_bytes(addresses@) =~= Seq::new(
            self.workers@.len(),
            |i: int| self.workers@[i].1.address_list@[0]@,
        ));
        addresses
    }

    pub fn num_groups(&self) -> (n: usize)
        ensures
            n == self.num_groups,
    {
        self.num_groups
    }

    pub fn num_domains(&self) -> (n: usize)
        ensures
            n == self.num_domains,
    {
        self.num_domains
    }

    pub fn aggregated_link_speed(&self) -> (speed: u64)
        ensures
            speed == self.aggregated_link_speed,
    {
        self.aggregated_link_speed
    }

    pub fn nets_per_gpu(&self) -> (n: u8)
        ensures
            n == self.nets_per_gpu,
    {
        self.nets_per_gpu
    }

    pub fn worker_count(&self) -> (n: usize)
        ensures
            n == self.workers@.len(),
    {
        self.workers.len()
    }

    /// How many lanes batches of host writes can choose between.
    pub open spec fn lane_count(&self) -> int {
        (if self.host_striped {
            self.num_domains as int
        } else {
            self.nets_per_gpu as int
        }) * WRITE_QP_LANES
    }

    /// How many lanes batches of host writes can choose between.
    pub fn host_write_lane_count(&self) -> (n: usize)
        requires
            self.wf(),
        ensures
            n == self.lane_count(),
    {
        let domains: usize = if self.host_striped {
            self.num_domains
        } else {
            self.nets_per_gpu as usize
        };
        domains * WRITE_QP_LANES
    }

    /// Every worker accepts ordered write batches.
    pub open spec fn batches_supported(&self) -> bool {
        forall|i: int|
            #![trigger self.workers@[i]]
            0 <= i < self.workers@.len() ==> self.workers@[i].1.write_batches
    }

    /// Whether every worker accepts ordered write batches.
    pub fn supports_write_batches(&self) -> (supported: bool)
        ensures
            supported == self.batches_supported(),
    {
        let mut i: usize = 0;
        while i < self.workers.len()
            invariant
                i <= self.workers@.len(),
                forall|j: int|
                    #![trigger self.workers@[j]]
                    0 <= j < i ==> self.workers@[j].1.write_batches,
            decreases self.workers@.len() - i,
        {
            if !self.workers[i].1.write_batches {
                assert(!self.workers@[i as int].1.write_batches);
                return false;
            }
            i = i + 1;
        }
        true
    }

    /// Marks the engine as stopped.
    pub fn stop(&mut self)
        ensures
            *final(self) == (FabricEngine { stopped: true, ..*old(self) }),
    {
        self.stopped = true;
    }

    pub fn is_stopped(&self) -> (stopped: bool)
        ensures
            stopped == self.stopped,
    {
        self.stopped
    }

    /// The device of a region, or the error for a region that is not registered.
    pub open spec fn device_of(&self, mr: MemoryRegionHandle) -> Result<Device, FabricLibError> {
        if self.devices().contains_key(mr.ptr) {
            Ok(self.devices()[mr.ptr])
        } else {
            Err(FabricLibError::Custom("Invalid memory region"))
        }
    }

    /// The device of a registered region.
    pub fn device_for_mr(&self, mr: MemoryRegionHandle) -> (device: Result<Device, FabricLibError>)
        ensures
            device == self.device_of(mr),
    {
        match get_device(&self.mr_device_map, mr.ptr) {
            Some(device) => Ok(device),
            None => Err(FabricLibError::Custom("Invalid memory region")),
        }
    }

    /// The place of the worker that serves a device, or the error for a device without one.
    pub open spec fn serves(&self, device: Device, index: Result<usize, FabricLibError>) -> bool {
        match device {
            Device::Host => index == Ok::<usize, FabricLibError>(0),
            Device::Cuda(CudaDeviceId(id)) => match index {
                Ok(index) => index < self.workers@.len() && self.workers@[index as int].0 == id,
                Err(error) => {
                    &&& error == FabricLibError::Custom("Worker not found")
                    &&& forall|i: int|
                        #![trigger self.workers@[i]]
                        0 <= i < self.workers@.len() ==> self.workers@[i].0 != id
                },
            },
        }
    }

    /// Finds the worker that serves a device: host memory is served by the first.
    pub fn get_worker(&self, device: Device) -> (index: Result<usize, FabricLibError>)
        ensures
            self.serves(device, index),
    {
        match device {
            Device::Host => Ok(0),
            Device::Cuda(CudaDeviceId(id)) => {
                let mut i: usize = 0;
                while i < self.workers.len()
                    invariant
                        device == Device::Cuda(CudaDeviceId(id)),
                        i <= self.workers@.len(),
                        forall|j: int|
                            #![trigger self.workers@[j]]
                            0 <= j < i ==> self.workers@[j].0 != id,
                    decreases self.workers@.len() - i,
                {
                    if self.workers[i].0 == id {
                        return Ok(i);
                    }
                    i = i + 1;
                }
                Err(FabricLibError::Custom("Worker not found"))
            },
        }
    }

    /// Checks that there is a worker at a place.
    pub fn get_worker_by_index(&self, worker_index: usize) -> (checked: Result<
        &WorkerHandle,
        FabricLibError,
    >)
        ensures
            if worker_index < self.workers@.len() {
                checked matches Ok(worker) && *worker == self.workers@[worker_index as int].1
            } else {
                checked == Err::<&WorkerHandle, FabricLibError>(
                    FabricLibError::Custom("Worker index is out of range"),
                )
            },
    {
        if worker_index < self.workers.len() {
            Ok(&self.workers[worker_index].1)
        } else {
            Err(FabricLibError::Custom("Worker index is out of range"))
        }
    }
}

/// The worker that is found for a device is the one that was given for it, and none is found
/// only if none was given.
pub proof fn found_worker_is_the_one_given(
    engine: FabricEngine,
    workers: Seq<(u8, WorkerHandle)>,
    host_striped: bool,
    id: u8,
    index: Result<usize, FabricLibError>,
)
    requires
        engine.wf(),
        engine.made_of(workers, host_striped),
        engine.serves(Device::Cuda(CudaDeviceId(id)), index),
    ensures
        match index {
            Ok(index) => by_device(workers).contains_key(id) && engine.workers@[index as int].1
                == by_device(workers)[id],
            Err(_) => !by_device(workers).contains_key(id),
        },
{
    lemma_by_device(engine.workers@, id);
}

/// An engine has all domains and all the speed of the workers that it was made of. In a striped
/// engine every worker has as many domains as any other, and there are twice as many lanes as
/// domains; in any other there are twice as many as the first worker has domains.
pub proof fn engine_has_what_its_workers_have(
    engine: FabricEngine,
    workers: Seq<(u8, WorkerHandle)>,
    host_striped: bool,
)
    requires
        engine_fault(workers, host_striped) is None,
        engine.made_of(workers, host_striped),
    ensures
        workers.len() > 0,
        engine.num_groups == workers.len(),
        engine.main_address@ == workers[0].1.address_list@[0]@,
        engine.nets_per_gpu == workers[0].1.address_list@.len(),
        forall|i: int|
            #![trigger workers[i]]
            0 <= i < workers.len() ==> engine.num_domains >= workers[i].1.address_list@.len()
                && engine.aggregated_link_speed >= workers[i].1.aggregated_link_speed,
        workers.len() == 1 ==> engine.num_domains == workers[0].1.address_list@.len()
            && engine.aggregated_link_speed == workers[0].1.aggregated_link_speed,
        host_striped ==> engine.num_domains == workers.len() * engine.nets_per_gpu,
        engine.lane_count() == if host_striped {
            2 * workers.len() * engine.nets_per_gpu
        } else {
            2 * engine.nets_per_gpu
        },
        engine.host_submit_rr == 0,
        engine.completion_rr == 0,
        !engine.stopped,
        engine.host_striped == host_striped,
        forall|ptr: u64| !#[trigger] engine.devices().contains_key(ptr),
{
    assert forall|i: int|
        #![trigger workers[i]]
        0 <= i < workers.len() implies engine.num_domains >= workers[i].1.address_list@.len()
        && engine.aggregated_link_speed >= workers[i].1.aggregated_link_speed by {
        lemma_totals_grow(workers, i);
        lemma_totals_grow(workers, i + 1);
    }
    if workers.len() == 1 {
        let none = workers.drop_last();
        assert(none =~= Seq::<(u8, WorkerHandle)>::empty());
        assert(domain_total(none) == 0 && speed_total(none) == 0);
        assert(workers.last() == workers[0]);
    }
    if host_striped {
        let nets = workers[0].1.address_list@.len() as int;
        lemma_even_total(workers, nets);
        assert(2 * workers.len() * engine.nets_per_gpu == (workers.len() * nets) * 2)
            by (nonlinear_arith)
            requires
                nets == engine.nets_per_gpu,
        ;
    }
}

proof fn lemma_even_total(workers: Seq<(u8, WorkerHandle)>, nets: int)
    requires
        forall|i: int|
            #![trigger workers[i]]
            0 <= i < workers.len() ==> workers[i].1.address_list@.len() == nets,
    ensures
        domain_total(workers) == workers.len() * nets,
    decreases workers.len(),
{
    if workers.len() > 0 {
        let rest = workers.drop_last();
        assert forall|i: int| #![trigger rest[i]] 0 <= i < rest.len() implies rest[
            i
        ].1.address_list@.len() == nets by {
            assert(workers[i] == rest[i]);
        }
        lemma_even_total(rest, nets);
        assert(workers.last() == workers[workers.len() - 1]);
        assert(workers.len() * nets == rest.len() * nets + nets) by (nonlinear_arith)
            requires
                workers.len() == rest.len() + 1,
        ;
    } else {
        assert(workers.len() * nets == 0) by (nonlinear_arith)
            requires
                workers.len() == 0,
        ;
    }
}

/// An engine can be made of any workers, if there is one, and if all have equally many domains or
/// host memory is not to be striped over them.
pub proof fn engine_is_made_if_it_can_be(workers: Seq<(u8, WorkerHandle)>, host_striped: bool)
    ensures
        engine_fault(workers, host_striped) is None <==> workers.len() > 0 && (host_striped
            ==> forall|i: int, j: int|
            #![trigger workers[i], workers[j]]
            0 <= i < j < workers.len() ==> workers[i].1.address_list@.len()
                == workers[j].1.address_list@.len()),
        engine_fault(workers, host_striped) matches Some(fault) ==> fault is Custom,
{
    if engine_fault(workers, host_striped) is Some && workers.len() > 0 {
        let i = choose|i: int|
            #![trigger workers[i]]
            0 <= i < workers.len() && workers[i].1.address_list@.len()
                != workers[0].1.address_list@.len();
        assert(0 < i && workers[0].1.address_list@.len() != workers[i].1.address_list@.len());
    }
}

} // verus!
