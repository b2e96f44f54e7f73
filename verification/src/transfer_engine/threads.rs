//! The threads that call callbacks, and the buffers that receives bounce through.
use vstd::arithmetic::div_mod::{lemma_fundamental_div_mod, lemma_small_mod};
use vstd::prelude::*;

use crate::error::FabricLibError;
use crate::worker::poller::PollingMode;

verus! {

/// How many CPUs lie between the threads of successive workers.
pub const COMPLETION_CPU_STRIDE: usize = 3;

/// Which CPUs the threads are pinned to.
#[derive(Debug)]
pub enum CompletionCpuPolicy {
    /// The first thread to this CPU, if any, and the others at a distance.
    Strided(Option<u16>),
    /// Each thread to the CPU that is given for it, if any.
    Exact(Vec<Option<u16>>),
}

/// A thread that calls callbacks.
#[derive(Clone, Copy, Debug)]
pub struct CompletionThread {
    /// The worker whose completions it takes; all workers' if there is none.
    pub worker_index: Option<usize>,
    pub cpu: Option<u16>,
    pub polling_mode: PollingMode,
}

/// The CPU of the thread `i`, or why it has none.
pub open spec fn thread_cpu(policy: &CompletionCpuPolicy, i: int) -> Result<
    Option<u16>,
    FabricLibError,
> {
    let offset = i * COMPLETION_CPU_STRIDE;
    if offset > u16::MAX {
        Err(FabricLibError::Custom("completion CPU offset overflows"))
    } else {
        match policy {
            CompletionCpuPolicy::Strided(None) => Ok(None),
            CompletionCpuPolicy::Strided(Some(cpu)) => if *cpu + offset > u16::MAX {
                Err(FabricLibError::Custom("completion CPU index overflows"))
            } else {
                Ok(Some((*cpu + offset) as u16))
            },
            CompletionCpuPolicy::Exact(cpus) => Ok(cpus@[i]),
        }
    }
}

/// What the thread `i` is.
pub open spec fn thread_of(
    policy: &CompletionCpuPolicy,
    polling: Seq<PollingMode>,
    host_striped: bool,
    i: int,
) -> CompletionThread {
    CompletionThread {
        worker_index: if host_striped {
            Some(i as usize)
        } else {
            None
        },
        cpu: thread_cpu(policy, i)->Ok_0,
        polling_mode: if i < polling.len() {
            polling[i]
        } else {
            PollingMode::Busy
        },
    }
}

/// Why the first `upto` threads cannot be placed.
pub open spec fn threads_fault(policy: &CompletionCpuPolicy, upto: int) -> Option<FabricLibError>
    decreases upto,
{
    if upto <= 0 {
        None
    } else if threads_fault(policy, upto - 1) is Some {
        threads_fault(policy, upto - 1)
    } else {
        match thread_cpu(policy, upto - 1) {
            Ok(_) => None,
            Err(error) => Some(error),
        }
    }
}

/// Checks, before any worker is started, that there is one CPU assignment for each.
pub fn check_completion_cpus(workers: usize, cpus: usize) -> (checked: Result<(), FabricLibError>)
    ensures
        match checked {
            Ok(_) => cpus == workers,
            Err(error) => cpus != workers && error == FabricLibError::Custom(
                "completion CPU count must match worker count",
            ),
        },
{
    if cpus != workers {
        return Err(FabricLibError::Custom("completion CPU count must match worker count"));
    }
    Ok(())
}

fn place_thread(policy: &CompletionCpuPolicy, i: usize) -> (cpu: Result<Option<u16>, FabricLibError>)
    requires
        policy matches CompletionCpuPolicy::Exact(cpus) ==> i < cpus@.len(),
    ensures
        cpu == thread_cpu(policy, i as int),
{
    let offset: u16 = match i.checked_mul(COMPLETION_CPU_STRIDE) {
        Some(offset) if offset <= u16::MAX as usize => offset as u16,
        _ => {
            return Err(FabricLibError::Custom("completion CPU offset overflows"));
        },
    };
    match policy {
        CompletionCpuPolicy::Strided(None) => Ok(None),
        CompletionCpuPolicy::Strided(Some(cpu)) => match cpu.checked_add(offset) {
            Some(cpu) => Ok(Some(cpu)),
            None => Err(FabricLibError::Custom("completion CPU index overflows")),
        },
        CompletionCpuPolicy::Exact(cpus) => Ok(cpus[i]),
    }
}

/// Places the threads that call callbacks: one for each worker of a striped engine, and one
/// for all workers of any other.
pub fn plan_threads(
    count: usize,
    policy: &CompletionCpuPolicy,
    polling: &Vec<PollingMode>,
    host_striped: bool,
) -> (threads: Result<Vec<CompletionThread>, FabricLibError>)
    requires
        policy matches CompletionCpuPolicy::Exact(cpus) ==> count <= cpus@.len(),
    ensures
        match threads_fault(policy, count as int) {
            Some(fault) => threads == Err::<Vec<CompletionThread>, FabricLibError>(fault),
            None => threads matches Ok(threads) && threads@ == Seq::new(
                count as nat,
                |i: int| thread_of(policy, polling@, host_striped, i),
            ),
        },
{
    let mut threads: Vec<CompletionThread> = Vec::new();
    let mut i: usize = 0;
    while i < count
        invariant
            i <= count,
            policy matches CompletionCpuPolicy::Exact(cpus) ==> count <= cpus@.len(),
            threads_fault(policy, i as int) is None,
            threads@ == Seq::new(
                i as nat,
                |j: int| thread_of(policy, polling@, host_striped, j),
            ),
        decreases count - i,
    {
        let polling_mode = if i < polling.len() {
            polling[i]
        } else {
            PollingMode::Busy
        };
        let cpu = match place_thread(policy, i) {
            Ok(cpu) => cpu,
            Err(fault) => {
                proof {
                    lemma_threads_fault_stays(policy, i + 1, count as int);
                }
                return Err(fault);
            },
        };
        let worker_index = if host_striped {
            Some(i)
        } else {
            None
        };
        threads.push(CompletionThread { worker_index, cpu, polling_mode });
        i = i + 1;
        assert(threads@ =~= Seq::new(
            i as nat,
            |j: int| thread_of(policy, polling@, host_striped, j),
        ));
    }
    Ok(threads)
}

proof fn lemma_threads_fault_stays(policy: &CompletionCpuPolicy, from: int, to: int)
    requires
        from <= to,
        threads_fault(policy, from) is Some,
    ensures
        threads_fault(policy, to) == threads_fault(policy, from),
    decreases to - from,
{
    if from < to {
        lemma_threads_fault_stays(policy, from, to - 1);
    }
}

/// No two threads of a strided placement share a CPU.
pub proof fn strided_threads_do_not_share_a_cpu(cpu: u16, i: int, j: int)
    requires
        0 <= i < j,
        thread_cpu(&CompletionCpuPolicy::Strided(Some(cpu)), j) is Ok,
    ensures
        thread_cpu(&CompletionCpuPolicy::Strided(Some(cpu)), i) is Ok,
        thread_cpu(&CompletionCpuPolicy::Strided(Some(cpu)), i)->Ok_0 != thread_cpu(
            &CompletionCpuPolicy::Strided(Some(cpu)),
            j,
        )->Ok_0,
{
}

/// One receive of a set that bounces through a common buffer.
#[derive(Clone, Copy, Debug, PartialEq, Eq, Structural)]
pub struct BounceSlot {
    pub worker_index: usize,
    /// Where its part of the buffer begins.
    pub ptr: u64,
}

/// The receive `i`: `count` for each worker, one after the other in the buffer at `base`.
pub open spec fn bounce_slot(base: u64, len: usize, count: usize, i: int) -> BounceSlot {
    BounceSlot { worker_index: (i / count as int) as usize, ptr: (base + i * len) as u64 }
}

/// How many workers receives bounce on. A striped engine keeps its messages on the first worker;
/// in any other engine, every worker has its own.
pub open spec fn bounce_lanes(host_striped: bool, workers: int) -> int {
    if host_striped {
        1
    } else {
        workers
    }
}

/// All receives that bounce on one worker do so on the first.
pub proof fn striped_bounces_stay_on_the_first_worker(
    base: u64,
    len: usize,
    count: usize,
    workers: int,
    i: int,
)
    requires
        0 <= i < count * bounce_lanes(true, workers),
    ensures
        bounce_slot(base, len, count, i).worker_index == 0,
{
    lemma_small_mod(i as nat, count as nat);
    lemma_fundamental_div_mod(i, count as int);
    let q = i / count as int;
    assert(q == 0) by (nonlinear_arith)
        requires
            i == count * q + i,
            0 < count,
    ;
}

/// Lays out a buffer for receives of up to `len` bytes, `count` for each of `lanes` workers.
pub fn plan_bounces(base: u64, len: usize, count: usize, lanes: usize) -> (slots: Vec<BounceSlot>)
    requires
        len * count * lanes <= usize::MAX,
        count * lanes <= usize::MAX,
        base + len * count * lanes <= u64::MAX,
    ensures
        slots@ == Seq::new((count * lanes) as nat, |i: int| bounce_slot(base, len, count, i)),
{
    let total: usize = count * lanes;
    let mut slots: Vec<BounceSlot> = Vec::with_capacity(total);
    let mut i: usize = 0;
    while i < total
        invariant
            i <= total,
            total == count * lanes,
            len * count * lanes <= usize::MAX,
            base + len * count * lanes <= u64::MAX,
            slots@ == Seq::new(i as nat, |j: int| bounce_slot(base, len, count, j)),
        decreases total - i,
    {
        proof {
            assert(count > 0) by (nonlinear_arith)
                requires
                    i < count * lanes,
                    0 <= i,
            ;
            assert(0 <= i * len <= len * count * lanes) by (nonlinear_arith)
                requires
                    0 <= i < count * lanes,
                    0 <= len,
            ;
        }
        slots.push(BounceSlot { worker_index: i / count, ptr: base + (i * len) as u64 });
        i = i + 1;
        assert(slots@ =~= Seq::new(i as nat, |j: int| bounce_slot(base, len, count, j)));
    }
    slots
}

/// The parts of the buffer follow each other without overlap within it, and every part belongs
/// to an existing worker.
pub proof fn bounces_do_not_overlap(
    base: u64,
    len: usize,
    count: usize,
    lanes: usize,
    i: int,
    j: int,
)
    requires
        len * count * lanes <= usize::MAX,
        base + len * count * lanes <= u64::MAX,
        0 <= i < j < count * lanes,
    ensures
        base <= bounce_slot(base, len, count, i).ptr,
        bounce_slot(base, len, count, i).ptr + len <= bounce_slot(base, len, count, j).ptr,
        bounce_slot(base, len, count, j).ptr + len <= base + len * count * lanes,
        bounce_slot(base, len, count, j).worker_index < lanes,
{
    assert(count > 0) by (nonlinear_arith)
        requires
            0 <= j < count * lanes,
    ;
    assert(0 <= i * len && i * len + len <= j * len && j * len + len <= len * count * lanes)
        by (nonlinear_arith)
        requires
            0 <= i < j < count * lanes,
            0 <= len,
    ;
    lemma_fundamental_div_mod(j, count as int);
    let q = j / count as int;
    let r = j % count as int;
    assert(count * q == q * count) by (nonlinear_arith);
    assert(q < lanes) by (nonlinear_arith)
        requires
            j == q * count + r,
            0 <= r,
            j < count * lanes,
            0 < count,
    ;
    assert(q >= 0) by (nonlinear_arith)
        requires
            j == q * count + r,
            r < count,
            0 <= j,
            0 < count,
    ;
}

/// Threads can be placed exactly if the last one can: the thread `i` stands three CPUs after the
/// thread before it, or on the CPU that is given for it. Each takes the completions of its own
/// worker in a striped engine and of all workers in any other, and polls as it was told to, or
/// busily if it was not.
pub proof fn threads_stand_where_they_are_put(
    policy: CompletionCpuPolicy,
    polling: Seq<PollingMode>,
    host_striped: bool,
    count: int,
    i: int,
)
    requires
        0 <= i < count,
    ensures
        threads_fault(&policy, count) is None <==> (count - 1) * 3 <= 0xffff && (
        policy matches CompletionCpuPolicy::Strided(Some(cpu)) ==> cpu + (count - 1) * 3 <= 0xffff),
        threads_fault(&policy, count) is None ==> {
            let thread = thread_of(&policy, polling, host_striped, i);
            &&& match policy {
                CompletionCpuPolicy::Strided(None) => thread.cpu is None,
                CompletionCpuPolicy::Strided(Some(cpu)) => thread.cpu matches Some(own) && own
                    == cpu + 3 * i,
                CompletionCpuPolicy::Exact(cpus) => thread.cpu == cpus@[i],
            }
            &&& host_striped && count <= usize::MAX ==> (thread.worker_index matches Some(worker)
                && worker == i)
            &&& !host_striped ==> thread.worker_index is None
            &&& i < polling.len() ==> thread.polling_mode == polling[i]
            &&& i >= polling.len() ==> thread.polling_mode is Busy
        },
{
    lemma_threads_fault(policy, count);
}

proof fn lemma_threads_fault(policy: CompletionCpuPolicy, count: int)
    requires
        0 < count,
    ensures
        threads_fault(&policy, count) is None <==> (count - 1) * 3 <= 0xffff && (
        policy matches CompletionCpuPolicy::Strided(Some(cpu)) ==> cpu + (count - 1) * 3 <= 0xffff),
    decreases count,
{
    if count > 1 {
        lemma_threads_fault(policy, count - 1);
    } else {
        assert(threads_fault(&policy, 0) is None);
    }
}

/// Every worker has `count` of the receives, and the receive `i` has the part of the buffer that
/// comes after the parts of those before it.
pub proof fn bounces_are_shared_evenly(
    base: u64,
    len: usize,
    count: usize,
    lanes: usize,
    i: int,
    worker: int,
)
    requires
        len * count * lanes <= usize::MAX,
        base + len * count * lanes <= u64::MAX,
        0 <= i < count * lanes,
        0 <= worker < lanes,
    ensures
        bounce_slot(base, len, count, i).ptr == base + i * len,
        bounce_slot(base, len, count, i).worker_index == worker <==> worker * count <= i < (worker
            + 1) * count,
{
    assert(count > 0) by (nonlinear_arith)
        requires
            0 <= i < count * lanes,
    ;
    assert(0 <= i * len <= len * count * lanes) by (nonlinear_arith)
        requires
            0 <= i < count * lanes,
            0 <= len,
    ;
    lemma_fundamental_div_mod(i, count as int);
    let q = i / count as int;
    let r = i % count as int;
    assert(0 <= q < lanes) by (nonlinear_arith)
        requires
            i == count * q + r,
            0 <= r < count,
            0 <= i < count * lanes,
    ;
    assert(q == worker <==> worker * count <= i < (worker + 1) * count) by (nonlinear_arith)
        requires
            i == count * q + r,
            0 <= r < count,
    ;
}

} // verus!
