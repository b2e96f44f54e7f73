//! Lanes of a striped engine: a lane is one domain of one worker, and a descriptor of the whole
//! engine is narrowed to the domains of one worker before that worker sees it.
use std::sync::Arc;

use vstd::arithmetic::div_mod::{lemma_fundamental_div_mod, lemma_fundamental_div_mod_converse};
use vstd::prelude::*;

use crate::api::{
    MemoryRegionDescriptor, MemoryRegionRemoteKey, ScatterTarget, TransferRequest, copy_keys,
    keys_of,
};
use crate::error::FabricLibError;

verus! {

/// What a descriptor says: where the region begins, and an address and a key per domain.
pub type DescriptorView = (u64, Seq<(Seq<u8>, MemoryRegionRemoteKey)>);

/// A descriptor of `width` domains covers `workers` workers of `domains` domains, of which
/// `worker` is one.
pub open spec fn narrowable(width: nat, worker: int, workers: int, domains: int) -> bool {
    &&& worker < workers
    &&& domains > 0
    &&& width == workers * domains
}

/// The part of a descriptor that is about one worker.
pub open spec fn narrowed(descriptor: DescriptorView, worker: int, domains: int) -> DescriptorView {
    (descriptor.0, descriptor.1.subrange(worker * domains, worker * domains + domains))
}

/// The error for a descriptor of another topology.
pub open spec fn topology_error() -> FabricLibError {
    FabricLibError::Custom(
        "Remote memory descriptor does not match striped host worker/domain topology",
    )
}

/// The domains of one worker lie within a descriptor of all.
pub proof fn lemma_worker_fits(worker: int, workers: int, domains: int)
    requires
        0 <= worker < workers,
        0 < domains,
    ensures
        0 <= worker * domains,
        worker * domains + domains <= workers * domains,
{
    assert(0 <= worker * domains) by (nonlinear_arith)
        requires
            0 <= worker,
            0 < domains,
    ;
    assert(worker * domains + domains <= workers * domains) by (nonlinear_arith)
        requires
            worker + 1 <= workers,
            0 < domains,
    ;
}

/// Whether `n == a * b`.
fn is_product(n: usize, a: usize, b: usize) -> (is: bool)
    ensures
        is == (n == a * b),
{
    match a.checked_mul(b) {
        Some(product) => product == n,
        None => false,
    }
}

/// Narrows a descriptor of the whole engine to the domains of one worker. A descriptor of
/// another topology is refused and left as it is.
pub fn narrow_host_descriptor(
    descriptor: &mut MemoryRegionDescriptor,
    worker_index: usize,
    worker_count: usize,
    domains_per_worker: usize,
) -> (result: Result<(), FabricLibError>)
    ensures
        if narrowable(
            old(descriptor).width(),
            worker_index as int,
            worker_count as int,
            domains_per_worker as int,
        ) {
            &&& result is Ok
            &&& final(descriptor)@ == narrowed(
                old(descriptor)@,
                worker_index as int,
                domains_per_worker as int,
            )
        } else {
            &&& result == Err::<(), FabricLibError>(topology_error())
            &&& *final(descriptor) == *old(descriptor)
        },
{
    if worker_index >= worker_count || domains_per_worker == 0 || !is_product(
        descriptor.addr_rkey_list.len(),
        worker_count,
        domains_per_worker,
    ) {
        return Err(
            FabricLibError::Custom(
                "Remote memory descriptor does not match striped host worker/domain topology",
            ),
        );
    }
    proof {
        lemma_worker_fits(worker_index as int, worker_count as int, domains_per_worker as int);
    }
    let start: usize = worker_index * domains_per_worker;
    descriptor.addr_rkey_list = copy_keys(&descriptor.addr_rkey_list, start, domains_per_worker);
    Ok(())
}

/// The lane is one of `workers * domains`.
pub open spec fn lane_exists(lane: int, workers: int, domains: int) -> bool {
    &&& domains > 0
    &&& workers * domains <= usize::MAX
    &&& lane < workers * domains
}

/// Finds the worker that a lane belongs to, and the domain of that worker.
pub fn host_write_lane(lane: usize, workers: usize, domains: usize) -> (place: Result<
    (usize, usize),
    FabricLibError,
>)
    ensures
        if lane_exists(lane as int, workers as int, domains as int) {
            place == Ok::<(usize, usize), FabricLibError>((lane / domains, lane % domains))
        } else {
            place == Err::<(usize, usize), FabricLibError>(
                FabricLibError::Custom("write batch lane is out of bounds"),
            )
        },
{
    if domains == 0 {
        return Err(FabricLibError::Custom("write batch lane is out of bounds"));
    }
    match workers.checked_mul(domains) {
        Some(count) => {
            if lane >= count {
                return Err(FabricLibError::Custom("write batch lane is out of bounds"));
            }
        },
        None => {
            return Err(FabricLibError::Custom("write batch lane is out of bounds"));
        },
    }
    Ok((lane / domains, lane % domains))
}

/// Every lane belongs to an existing worker and to one of its domains, and a descriptor that is
/// narrowed to that worker has, at that domain, the entry of the lane.
pub proof fn every_lane_is_addressable(
    descriptor: DescriptorView,
    lane: int,
    workers: int,
    domains: int,
)
    requires
        0 <= lane,
        lane_exists(lane, workers, domains),
        descriptor.1.len() == workers * domains,
    ensures
        0 <= lane / domains < workers,
        0 <= lane % domains < domains,
        narrowable(descriptor.1.len(), lane / domains, workers, domains),
        narrowed(descriptor, lane / domains, domains).1.len() == domains,
        narrowed(descriptor, lane / domains, domains).1[lane % domains] == descriptor.1[lane],
{
    lemma_fundamental_div_mod(lane, domains);
    let worker = lane / domains;
    let domain = lane % domains;
    assert(worker * domains == domains * worker) by (nonlinear_arith);
    assert(worker < workers) by (nonlinear_arith)
        requires
            lane == worker * domains + domain,
            0 <= domain,
            0 < domains,
            lane < workers * domains,
    ;
    assert(0 <= worker) by (nonlinear_arith)
        requires
            lane == worker * domains + domain,
            domain < domains,
            0 < domains,
            0 <= lane,
    ;
    lemma_worker_fits(worker, workers, domains);
}

/// Every domain of every worker has a lane, and only one.
pub proof fn every_domain_has_one_lane(
    worker: int,
    domain: int,
    lane: int,
    workers: int,
    domains: int,
)
    requires
        0 <= worker < workers,
        0 <= domain < domains,
        0 <= lane,
        workers * domains <= usize::MAX,
    ensures
        lane_exists(worker * domains + domain, workers, domains),
        (worker * domains + domain) / domains == worker,
        (worker * domains + domain) % domains == domain,
        lane / domains == worker && lane % domains == domain ==> lane == worker * domains + domain,
{
    lemma_worker_fits(worker, workers, domains);
    lemma_fundamental_div_mod_converse(worker * domains + domain, domains, worker, domain);
    lemma_fundamental_div_mod(lane, domains);
    assert(domains * worker == worker * domains) by (nonlinear_arith);
}

/// With one domain per worker, a lane is a worker.
pub proof fn one_domain_per_worker_is_one_lane(lane: int, workers: int)
    requires
        0 <= lane < workers <= usize::MAX,
    ensures
        lane_exists(lane, workers, 1),
        lane / 1 == lane,
        lane % 1 == 0,
{
}

/// All descriptors of a list can be narrowed.
pub open spec fn all_narrowable(
    list: Seq<MemoryRegionDescriptor>,
    worker: int,
    workers: int,
    domains: int,
) -> bool {
    forall|j: int|
        #![trigger list[j]]
        0 <= j < list.len() ==> narrowable(list[j].width(), worker, workers, domains)
}

/// The descriptor `k` is the first that cannot be narrowed.
pub open spec fn stuck_at(
    list: Seq<MemoryRegionDescriptor>,
    k: int,
    worker: int,
    workers: int,
    domains: int,
) -> bool {
    &&& 0 <= k < list.len()
    &&& !narrowable(list[k].width(), worker, workers, domains)
    &&& all_narrowable(list.take(k), worker, workers, domains)
}

/// The first `upto` descriptors of a list have been narrowed; the others are as they were.
pub open spec fn list_narrowed(
    before: Seq<MemoryRegionDescriptor>,
    after: Seq<MemoryRegionDescriptor>,
    upto: int,
    worker: int,
    domains: int,
) -> bool {
    &&& after.len() == before.len()
    &&& forall|j: int|
        #![trigger after[j]]
        0 <= j < upto ==> after[j]@ == narrowed(before[j]@, worker, domains)
    &&& forall|j: int| #![trigger after[j]] upto <= j < after.len() ==> after[j]@ == before[j]@
}

/// What becomes of a list whose descriptors are narrowed in order, up to the first that cannot
/// be.
pub open spec fn list_outcome(
    before: Seq<MemoryRegionDescriptor>,
    after: Seq<MemoryRegionDescriptor>,
    worker: int,
    workers: int,
    domains: int,
    result: Result<(), FabricLibError>,
) -> bool {
    if all_narrowable(before, worker, workers, domains) {
        &&& result is Ok
        &&& list_narrowed(before, after, before.len() as int, worker, domains)
    } else {
        &&& result == Err::<(), FabricLibError>(topology_error())
        &&& exists|k: int|
            {
                &&& #[trigger] stuck_at(before, k, worker, workers, domains)
                &&& list_narrowed(before, after, k, worker, domains)
            }
    }
}

/// Narrows the descriptors of a list in order, up to the first that cannot be.
fn narrow_list(
    list: &mut Vec<MemoryRegionDescriptor>,
    worker_index: usize,
    worker_count: usize,
    domains_per_worker: usize,
) -> (result: Result<(), FabricLibError>)
    ensures
        list_outcome(
            old(list)@,
            final(list)@,
            worker_index as int,
            worker_count as int,
            domains_per_worker as int,
            result,
        ),
{
    let ghost (w, n, d) = (worker_index as int, worker_count as int, domains_per_worker as int);
    let mut k: usize = 0;
    while k < list.len()
        invariant
            k <= list@.len(),
            w == worker_index,
            n == worker_count,
            d == domains_per_worker,
            list_narrowed(old(list)@, list@, k as int, w, d),
            forall|j: int|
                #![trigger list@[j]]
                k <= j < list@.len() ==> list@[j] == old(list)@[j],
            forall|j: int|
                #![trigger old(list)@[j]]
                0 <= j < k ==> narrowable(old(list)@[j].width(), w, n, d),
        decreases list@.len() - k,
    {
        assert(list@[k as int] == old(list)@[k as int]);
        let ghost earlier = list@;
        let result = narrow_host_descriptor(
            &mut list[k],
            worker_index,
            worker_count,
            domains_per_worker,
        );
        if result.is_err() {
            proof {
                assert(list@ =~= earlier);
                assert(!narrowable(old(list)@[k as int].width(), w, n, d));
                assert(stuck_at(old(list)@, k as int, w, n, d));
            }
            return result;
        }
        proof {
            assert(list@.len() == earlier.len());
            assert forall|j: int| #![trigger list@[j]] 0 <= j < list@.len() && j != k implies list@[j]
                == earlier[j] by {}
            assert(narrowable(old(list)@[k as int].width(), w, n, d));
        }
        k = k + 1;
    }
    Ok(())
}

/// The descriptors of the targets of a scatter.
pub open spec fn target_descriptors(targets: Seq<ScatterTarget>) -> Seq<MemoryRegionDescriptor> {
    Seq::new(targets.len(), |i: int| targets[i].dst_mr)
}

/// Two lists of targets differ at most in the descriptors.
pub open spec fn same_but_descriptors(a: Seq<ScatterTarget>, b: Seq<ScatterTarget>) -> bool {
    &&& a.len() == b.len()
    &&& forall|i: int|
        #![trigger b[i]]
        0 <= i < a.len() ==> a[i].length == b[i].length && a[i].src_offset == b[i].src_offset
            && a[i].dst_offset == b[i].dst_offset
}

/// Narrows the targets of a scatter in order, up to the first that cannot be.
fn narrow_targets(
    targets: &Vec<ScatterTarget>,
    worker_index: usize,
    worker_count: usize,
    domains_per_worker: usize,
) -> (outcome: (Vec<ScatterTarget>, Result<(), FabricLibError>))
    ensures
        same_but_descriptors(targets@, outcome.0@),
        list_outcome(
            target_descriptors(targets@),
            target_descriptors(outcome.0@),
            worker_index as int,
            worker_count as int,
            domains_per_worker as int,
            outcome.1,
        ),
{
    let ghost (w, n, d) = (worker_index as int, worker_count as int, domains_per_worker as int);
    let ghost before = target_descriptors(targets@);
    let mut result: Result<(), FabricLibError> = Ok(());
    let mut after: Vec<ScatterTarget> = Vec::with_capacity(targets.len());
    let ghost mut stuck: int = targets@.len() as int;
    let mut k: usize = 0;
    while k < targets.len()
        invariant
            k <= targets@.len(),
            w == worker_index,
            n == worker_count,
            d == domains_per_worker,
            before == target_descriptors(targets@),
            after@.len() == k,
            forall|j: int|
                #![trigger after@[j]]
                0 <= j < k ==> {
                    &&& after@[j].length == targets@[j].length
                    &&& after@[j].src_offset == targets@[j].src_offset
                    &&& after@[j].dst_offset == targets@[j].dst_offset
                    &&& after@[j].dst_mr@ == if j < stuck {
                        narrowed(before[j]@, w, d)
                    } else {
                        before[j]@
                    }
                },
            match result {
                Ok(_) => stuck == targets@.len() && forall|j: int|
                    #![trigger before[j]]
                    0 <= j < k ==> narrowable(before[j].width(), w, n, d),
                Err(error) => error == topology_error() && stuck < k && stuck_at(
                    before,
                    stuck,
                    w,
                    n,
                    d,
                ),
            },
        decreases targets@.len() - k,
    {
        let target = &targets[k];
        let mut dst_mr = target.dst_mr.clone();
        proof {
            assert(dst_mr@ == before[k as int]@);
            assert(keys_of(dst_mr.addr_rkey_list@).len() == before[k as int].width());
        }
        if result.is_ok() {
            result = narrow_host_descriptor(
                &mut dst_mr,
                worker_index,
                worker_count,
                domains_per_worker,
            );
            proof {
                if result is Err {
                    stuck = k as int;
                    assert(stuck_at(before, stuck, w, n, d));
                } else {
                    assert(narrowable(before[k as int].width(), w, n, d));
                }
            }
        }
        after.push(
            ScatterTarget {
                length: target.length,
                src_offset: target.src_offset,
                dst_offset: target.dst_offset,
                dst_mr,
            },
        );
        k = k + 1;
    }
    proof {
        let narrowed_all = target_descriptors(after@);
        if result is Err {
            assert(!narrowable(before[stuck].width(), w, n, d));
            assert(list_narrowed(before, narrowed_all, stuck, w, d));
        } else {
            assert(list_narrowed(before, narrowed_all, before.len() as int, w, d));
        }
    }
    (after, result)
}

/// What becomes of one descriptor of a request.
pub open spec fn descriptor_outcome(
    before: &MemoryRegionDescriptor,
    after: &MemoryRegionDescriptor,
    worker: int,
    workers: int,
    domains: int,
    result: Result<(), FabricLibError>,
) -> bool {
    if narrowable(before.width(), worker, workers, domains) {
        &&& result is Ok
        &&& after@ == narrowed(before@, worker, domains)
    } else {
        &&& result == Err::<(), FabricLibError>(topology_error())
        &&& after@ == before@
    }
}

/// What becomes of a request that is narrowed to one worker: its descriptors are narrowed, and
/// all else stays.
pub open spec fn request_outcome(
    before: &TransferRequest,
    after: &TransferRequest,
    worker: int,
    workers: int,
    domains: int,
    result: Result<(), FabricLibError>,
) -> bool {
    match (before, after) {
        (TransferRequest::Imm(a), TransferRequest::Imm(b)) => {
            &&& b.imm_data == a.imm_data
            &&& b.domain == a.domain
            &&& descriptor_outcome(&a.dst_mr, &b.dst_mr, worker, workers, domains, result)
        },
        (TransferRequest::Barrier(a), TransferRequest::Barrier(b)) => {
            &&& b.imm_data == a.imm_data
            &&& b.domain == a.domain
            &&& list_outcome(a.dst_mrs@, b.dst_mrs@, worker, workers, domains, result)
        },
        (TransferRequest::Single(a), TransferRequest::Single(b)) => {
            &&& b.src_mr == a.src_mr
            &&& b.src_offset == a.src_offset
            &&& b.length == a.length
            &&& b.imm_data == a.imm_data
            &&& b.dst_offset == a.dst_offset
            &&& b.domain == a.domain
            &&& descriptor_outcome(&a.dst_mr, &b.dst_mr, worker, workers, domains, result)
        },
        (TransferRequest::Gather(a), TransferRequest::Gather(b)) => {
            &&& b.segments == a.segments
            &&& b.imm_data == a.imm_data
            &&& b.dst_offset == a.dst_offset
            &&& b.domain == a.domain
            &&& descriptor_outcome(&a.dst_mr, &b.dst_mr, worker, workers, domains, result)
        },
        (TransferRequest::Paged(a), TransferRequest::Paged(b)) => {
            &&& b.src_page_indices == a.src_page_indices
            &&& b.dst_page_indices == a.dst_page_indices
            &&& b.length == a.length
            &&& b.src_mr == a.src_mr
            &&& b.src_stride == a.src_stride
            &&& b.src_offset == a.src_offset
            &&& b.dst_stride == a.dst_stride
            &&& b.dst_offset == a.dst_offset
            &&& b.imm_data == a.imm_data
            &&& descriptor_outcome(&a.dst_mr, &b.dst_mr, worker, workers, domains, result)
        },
        (TransferRequest::Scatter(a), TransferRequest::Scatter(b)) => {
            &&& b.src_mr == a.src_mr
            &&& b.imm_data == a.imm_data
            &&& b.dst_handle == a.dst_handle
            &&& b.domain == a.domain
            &&& same_but_descriptors(a.dsts@, b.dsts@)
            &&& list_outcome(
                target_descriptors(a.dsts@),
                target_descriptors(b.dsts@),
                worker,
                workers,
                domains,
                result,
            )
        },
        _ => false,
    }
}

/// All descriptors of a request cover the whole engine.
pub open spec fn request_narrowable(
    request: &TransferRequest,
    worker: int,
    workers: int,
    domains: int,
) -> bool {
    match request {
        TransferRequest::Imm(request) => narrowable(
            request.dst_mr.width(),
            worker,
            workers,
            domains,
        ),
        TransferRequest::Barrier(request) => all_narrowable(
            request.dst_mrs@,
            worker,
            workers,
            domains,
        ),
        TransferRequest::Single(request) => narrowable(
            request.dst_mr.width(),
            worker,
            workers,
            domains,
        ),
        TransferRequest::Gather(request) => narrowable(
            request.dst_mr.width(),
            worker,
            workers,
            domains,
        ),
        TransferRequest::WriteBatch(_) => false,
        TransferRequest::Paged(request) => narrowable(
            request.dst_mr.width(),
            worker,
            workers,
            domains,
        ),
        TransferRequest::Scatter(request) => all_narrowable(
            target_descriptors(request.dsts@),
            worker,
            workers,
            domains,
        ),
    }
}

/// Narrows the descriptors of a request to the domains of one worker. Batches name their lane
/// themselves and are not narrowed here.
pub fn narrow_host_transfer_request(
    request: &mut TransferRequest,
    worker_index: usize,
    worker_count: usize,
    domains_per_worker: usize,
) -> (result: Result<(), FabricLibError>)
    requires
        !(*old(request) is WriteBatch),
    ensures
        request_outcome(
            old(request),
            final(request),
            worker_index as int,
            worker_count as int,
            domains_per_worker as int,
            result,
        ),
        match result {
            Ok(_) => request_narrowable(
                old(request),
                worker_index as int,
                worker_count as int,
                domains_per_worker as int,
            ),
            Err(error) => error == topology_error() && !request_narrowable(
                old(request),
                worker_index as int,
                worker_count as int,
                domains_per_worker as int,
            ),
        },
{
    match request {
        TransferRequest::WriteBatch(_) => Ok(()),
        TransferRequest::Imm(request) => narrow_host_descriptor(
            &mut request.dst_mr,
            worker_index,
            worker_count,
            domains_per_worker,
        ),
        TransferRequest::Barrier(request) => narrow_list(
            &mut request.dst_mrs,
            worker_index,
            worker_count,
            domains_per_worker,
        ),
        TransferRequest::Single(request) => narrow_host_descriptor(
            &mut request.dst_mr,
            worker_index,
            worker_count,
            domains_per_worker,
        ),
        TransferRequest::Gather(request) => narrow_host_descriptor(
            &mut request.dst_mr,
            worker_index,
            worker_count,
            domains_per_worker,
        ),
        TransferRequest::Paged(request) => narrow_host_descriptor(
            &mut request.dst_mr,
            worker_index,
            worker_count,
            domains_per_worker,
        ),
        TransferRequest::Scatter(request) => {
            let (dsts, result) = narrow_targets(
                &request.dsts,
                worker_index,
                worker_count,
                domains_per_worker,
            );
            request.dsts = Arc::new(dsts);
            result
        },
    }
}

} // verus!
