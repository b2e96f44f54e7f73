//! Memory registration with the workers of an engine.
use vstd::prelude::*;

use crate::api::{
    AddrKey, MemoryRegionDescriptor, MemoryRegionHandle, MemoryRegionRemoteKey, keys_of,
};
use crate::cuda_compat::Device;
use crate::error::FabricLibError;
use crate::fabric_engine::FabricEngine;
use crate::fabric_engine::lanes::{lemma_worker_fits, narrowed};
use crate::fabric_engine::routing::{is_part_of, lemma_narrowed_is_part};
use crate::provider::MemoryRegion;
use crate::tables::{put_device, remove_device};

verus! {

/// What a worker answers when it registers a region for local access.
pub type LocalAnswer = Result<MemoryRegionHandle, FabricLibError>;

/// What a worker answers when it registers a region for access by peers.
pub type RemoteAnswer = Result<(MemoryRegionHandle, MemoryRegionDescriptor), FabricLibError>;

/// Two calls have ended alike: both well, or with the same error.
pub open spec fn same_end(a: Result<(), FabricLibError>, b: Result<(), FabricLibError>) -> bool {
    match (a, b) {
        (Ok(_), Ok(_)) => true,
        (Err(a), Err(b)) => a == b,
        _ => false,
    }
}

/// What is wrong with the first `upto` answers to a local registration.
pub open spec fn local_fault(answers: Seq<LocalAnswer>, upto: int) -> Option<FabricLibError>
    decreases upto,
{
    if upto <= 0 {
        None
    } else if local_fault(answers, upto - 1) is Some {
        local_fault(answers, upto - 1)
    } else {
        match answers[upto - 1] {
            Err(error) => Some(error),
            Ok(handle) => if upto >= 2 && handle != answers[upto - 2]->Ok_0 {
                Some(
                    FabricLibError::Custom(
                        "striped host workers returned inconsistent memory handles",
                    ),
                )
            } else {
                None
            },
        }
    }
}

impl FabricEngine {
    /// The memory of the device is served by all workers alike.
    pub open spec fn stripes(&self, device: Device) -> bool {
        self.host_striped && device == Device::Host
    }

    /// Only the registered regions differ.
    pub open spec fn same_but_devices(&self, other: &Self) -> bool {
        &&& self.same_shape(other)
        &&& self.host_submit_rr == other.host_submit_rr
        &&& self.completion_rr == other.completion_rr
    }

    /// What is wrong with the first `upto` answers to a registration for access by peers.
    pub open spec fn remote_fault(&self, ptr: u64, answers: Seq<RemoteAnswer>, upto: int) -> Option<
        FabricLibError,
    >
        decreases upto,
    {
        if upto <= 0 {
            None
        } else if self.remote_fault(ptr, answers, upto - 1) is Some {
            self.remote_fault(ptr, answers, upto - 1)
        } else {
            match answers[upto - 1] {
                Err(error) => Some(error),
                Ok((handle, descriptor)) => if upto >= 2 && handle != answers[upto - 2]->Ok_0.0 {
                    Some(
                        FabricLibError::Custom(
                            "striped host workers returned inconsistent memory handles",
                        ),
                    )
                } else if descriptor.ptr != ptr || descriptor.width() != self.workers@[upto
                    - 1].1.address_list@.len() {
                    Some(
                        FabricLibError::Custom(
                            "striped host worker returned an inconsistent domain descriptor",
                        ),
                    )
                } else {
                    None
                },
            }
        }
    }

    /// The first workers have been asked in order, each once, and have given `answers`; the calls
    /// have led from each of `links` to the next.
    pub open spec fn asked_local<S, F: Fn(S, usize, MemoryRegion) -> (S, LocalAnswer)>(
        &self,
        ask: F,
        region: MemoryRegion,
        links: Seq<S>,
        answers: Seq<LocalAnswer>,
    ) -> bool {
        &&& answers.len() <= self.workers@.len()
        &&& links.len() == answers.len() + 1
        &&& forall|i: int|
            #![trigger answers[i]]
            0 <= i < answers.len() ==> call_ensures(
                ask,
                (links[i], i as usize, region),
                (links[i + 1], answers[i]),
            )
    }

    /// What becomes of a region that is to be registered for local access, if the calls that are
    /// made for it lead from the link `given` to the link `back`.
    pub open spec fn local_outcome<S, F: Fn(S, usize, MemoryRegion) -> (S, LocalAnswer)>(
        &self,
        after: &Self,
        ask: F,
        region: MemoryRegion,
        given: S,
        back: S,
        registered: LocalAnswer,
    ) -> bool {
        &&& after.same_but_devices(self)
        &&& match registered {
            Ok(handle) => after.devices() == self.devices().insert(handle.ptr, region.device),
            Err(_) => after.devices() == self.devices(),
        }
        &&& if self.stripes(region.device) {
            exists|links: Seq<S>, answers: Seq<LocalAnswer>|
                {
                    let asked = answers.len() as int;
                    &&& #[trigger] self.asked_local(ask, region, links, answers)
                    &&& links[0] == given
                    &&& links.last() == back
                    &&& match local_fault(answers, asked) {
                        Some(fault) => {
                            &&& local_fault(answers, asked - 1) is None
                            &&& registered == Err::<MemoryRegionHandle, FabricLibError>(fault)
                        },
                        None => {
                            &&& asked == self.workers@.len()
                            &&& registered == answers[asked - 1]
                        },
                    }
                }
        } else {
            exists|index: Result<usize, FabricLibError>|
                {
                    &&& #[trigger] self.serves(region.device, index)
                    &&& match index {
                        Ok(index) => call_ensures(ask, (given, index, region), (back, registered)),
                        Err(error) => back == given && registered == Err::<
                            MemoryRegionHandle,
                            FabricLibError,
                        >(error),
                    }
                }
        }
    }

    /// Registers a region for local access: with every worker once if they serve it alike, else
    /// with the one that serves its device. `ask` has a worker register it; `link` is handed to
    /// each call and comes back from it.
    pub fn register_memory_local<S, F: Fn(S, usize, MemoryRegion) -> (S, LocalAnswer)>(
        &mut self,
        ptr: u64,
        len: usize,
        device: Device,
        link: S,
        ask: F,
    ) -> (done: (S, LocalAnswer))
        requires
            old(self).wf(),
            forall|s: S, i: usize, region: MemoryRegion|
                i < old(self).workers@.len() ==> call_requires(ask, (s, i, region)),
        ensures
            final(self).wf(),
            old(self).local_outcome(
                final(self),
                ask,
                (MemoryRegion { ptr, len, device }),
                link,
                done.0,
                done.1,
            ),
    {
        let region = MemoryRegion { ptr, len, device };
        let (back, handle): (S, MemoryRegionHandle) = if self.host_striped && device
            == Device::Host {
            let ghost mut answers: Seq<LocalAnswer> = Seq::empty();
            let ghost mut links: Seq<S> = seq![link];
            let mut current = link;
            let mut handle: Option<MemoryRegionHandle> = None;
            let mut i: usize = 0;
            while i < self.workers.len()
                invariant
                    i <= self.workers@.len(),
                    *self == *old(self),
                    self.wf(),
                    self.stripes(device),
                    region == (MemoryRegion { ptr, len, device }),
                    forall|s: S, i: usize, region: MemoryRegion|
                        i < self.workers@.len() ==> call_requires(ask, (s, i, region)),
                    answers.len() == i,
                    self.asked_local(ask, region, links, answers),
                    links[0] == link,
                    links.last() == current,
                    local_fault(answers, i as int) is None,
                    match handle {
                        None => i == 0,
                        Some(handle) => i > 0 && answers[i - 1] == Ok::<
                            MemoryRegionHandle,
                            FabricLibError,
                        >(handle),
                    },
                decreases self.workers@.len() - i,
            {
                let ghost passed = links;
                let ghost earlier = answers;
                let (next, answer) = ask(current, i, region);
                proof {
                    lemma_local_fault_prefix(answers, answer, i as int);
                    answers = answers.push(answer);
                    links = links.push(next);
                    assert forall|k: int| #![trigger answers[k]] 0 <= k < answers.len() implies
                        call_ensures(
                        ask,
                        (links[k], k as usize, region),
                        (links[k + 1], answers[k]),
                    ) by {
                        if k < earlier.len() {
                            assert(earlier[k] == answers[k]);
                            assert(links[k + 1] == passed[k + 1]);
                        }
                    }
                    assert(self.asked_local(ask, region, links, answers));
                }
                current = next;
                let registered = match answer {
                    Ok(registered) => registered,
                    Err(error) => {
                        return (current, Err(error));
                    },
                };
                if let Some(known) = handle {
                    if known != registered {
                        return (
                            current,
                            Err(
                                FabricLibError::Custom(
                                    "striped host workers returned inconsistent memory handles",
                                ),
                            ),
                        );
                    }
                }
                handle = Some(registered);
                i = i + 1;
            }
            let handle = handle.unwrap();
            assert(answers[answers.len() - 1] == Ok::<MemoryRegionHandle, FabricLibError>(handle));
            (current, handle)
        } else {
            let index = self.get_worker(device);
            assert(self.serves(device, index));
            match index {
                Ok(index) => {
                    let (back, answer) = ask(link, index, region);
                    match answer {
                        Ok(handle) => (back, handle),
                        Err(error) => {
                            return (back, Err(error));
                        },
                    }
                },
                Err(error) => {
                    return (link, Err(error));
                },
            }
        };
        put_device(&mut self.mr_device_map, handle.ptr, device);
        (back, Ok(handle))
    }

    /// The first workers have been asked in order, each once, and have given `answers`; the calls
    /// have led from each of `links` to the next.
    pub open spec fn asked_remote<S, F: Fn(S, usize, MemoryRegion) -> (S, RemoteAnswer)>(
        &self,
        ask: F,
        region: MemoryRegion,
        links: Seq<S>,
        answers: Seq<RemoteAnswer>,
    ) -> bool {
        &&& answers.len() <= self.workers@.len()
        &&& links.len() == answers.len() + 1
        &&& forall|i: int|
            #![trigger answers[i]]
            0 <= i < answers.len() ==> call_ensures(
                ask,
                (links[i], i as usize, region),
                (links[i + 1], answers[i]),
            )
    }

    /// What becomes of a region that is to be registered for access by peers, if the calls that
    /// are made for it lead from the link `given` to the link `back`.
    pub open spec fn remote_outcome<S, F: Fn(S, usize, MemoryRegion) -> (S, RemoteAnswer)>(
        &self,
        after: &Self,
        ask: F,
        region: MemoryRegion,
        given: S,
        back: S,
        registered: RemoteAnswer,
    ) -> bool {
        &&& after.same_but_devices(self)
        &&& match registered {
            Ok((handle, _)) => after.devices() == self.devices().insert(
                handle.ptr,
                region.device,
            ),
            Err(_) => after.devices() == self.devices(),
        }
        &&& if self.stripes(region.device) {
            exists|links: Seq<S>, answers: Seq<RemoteAnswer>|
                {
                    let asked = answers.len() as int;
                    &&& #[trigger] self.asked_remote(ask, region, links, answers)
                    &&& links[0] == given
                    &&& links.last() == back
                    &&& match self.remote_fault(region.ptr, answers, asked) {
                        Some(fault) => {
                            &&& self.remote_fault(region.ptr, answers, asked - 1) is None
                            &&& registered == Err::<
                                (MemoryRegionHandle, MemoryRegionDescriptor),
                                FabricLibError,
                            >(fault)
                        },
                        None => {
                            &&& asked == self.workers@.len()
                            &&& registered matches Ok((handle, descriptor)) && handle
                                == answers[asked - 1]->Ok_0.0 && descriptor@ == (
                                region.ptr,
                                joined_keys(answers, asked),
                            )
                        },
                    }
                }
        } else {
            exists|index: Result<usize, FabricLibError>|
                {
                    &&& #[trigger] self.serves(region.device, index)
                    &&& match index {
                        Ok(index) => call_ensures(ask, (given, index, region), (back, registered)),
                        Err(error) => back == given && registered == Err::<
                            (MemoryRegionHandle, MemoryRegionDescriptor),
                            FabricLibError,
                        >(error),
                    }
                }
        }
    }

    /// Registers a region for access by peers: with every worker once if they serve it alike,
    /// else with the one that serves its device. The descriptor of a region that all serve names
    /// the domains of all, worker by worker. `link` is handed to each call and comes back from
    /// it.
    pub fn register_memory_allow_remote<S, F: Fn(S, usize, MemoryRegion) -> (S, RemoteAnswer)>(
        &mut self,
        ptr: u64,
        len: usize,
        device: Device,
        link: S,
        ask: F,
    ) -> (done: (S, RemoteAnswer))
        requires
            old(self).wf(),
            forall|s: S, i: usize, region: MemoryRegion|
                i < old(self).workers@.len() ==> call_requires(ask, (s, i, region)),
        ensures
            final(self).wf(),
            old(self).remote_outcome(
                final(self),
                ask,
                (MemoryRegion { ptr, len, device }),
                link,
                done.0,
                done.1,
            ),
    {
        let region = MemoryRegion { ptr, len, device };
        let (back, (handle, descriptor)): (S, (MemoryRegionHandle, MemoryRegionDescriptor)) =
            if self.host_striped && device == Device::Host {
            let ghost mut answers: Seq<RemoteAnswer> = Seq::empty();
            let ghost mut links: Seq<S> = seq![link];
            let mut current = link;
            let mut handle: Option<MemoryRegionHandle> = None;
            let mut address_keys: Vec<AddrKey> = Vec::new();
            let mut i: usize = 0;
            assert(keys_of(address_keys@) =~= joined_keys(answers, 0));
            while i < self.workers.len()
                invariant
                    i <= self.workers@.len(),
                    *self == *old(self),
                    self.wf(),
                    self.stripes(device),
                    region == (MemoryRegion { ptr, len, device }),
                    forall|s: S, i: usize, region: MemoryRegion|
                        i < self.workers@.len() ==> call_requires(ask, (s, i, region)),
                    answers.len() == i,
                    self.asked_remote(ask, region, links, answers),
                    links[0] == link,
                    links.last() == current,
                    self.remote_fault(ptr, answers, i as int) is None,
                    match handle {
                        None => i == 0,
                        Some(handle) => i > 0 && answers[i - 1] is Ok && answers[i - 1]->Ok_0.0
                            == handle,
                    },
                    keys_of(address_keys@) == joined_keys(answers, i as int),
                decreases self.workers@.len() - i,
            {
                let ghost passed = links;
                let ghost earlier = answers;
                let (next, answer) = ask(current, i, region);
                proof {
                    self.lemma_remote_fault_prefix(ptr, answers, answer, i as int);
                    lemma_joined_prefix(answers, answer, i as int);
                    answers = answers.push(answer);
                    links = links.push(next);
                    assert forall|k: int| #![trigger answers[k]] 0 <= k < answers.len() implies
                        call_ensures(
                        ask,
                        (links[k], k as usize, region),
                        (links[k + 1], answers[k]),
                    ) by {
                        if k < earlier.len() {
                            assert(earlier[k] == answers[k]);
                            assert(links[k + 1] == passed[k + 1]);
                        }
                    }
                    assert(self.asked_remote(ask, region, links, answers));
                }
                current = next;
                let (registered, descriptor) = match answer {
                    Ok(registered) => registered,
                    Err(error) => {
                        return (current, Err(error));
                    },
                };
                if let Some(known) = handle {
                    if known != registered {
                        return (
                            current,
                            Err(
                                FabricLibError::Custom(
                                    "striped host workers returned inconsistent memory handles",
                                ),
                            ),
                        );
                    }
                }
                if descriptor.ptr != ptr || descriptor.addr_rkey_list.len()
                    != self.workers[i].1.address_list.len() {
                    return (
                        current,
                        Err(
                            FabricLibError::Custom(
                                "striped host worker returned an inconsistent domain descriptor",
                            ),
                        ),
                    );
                }
                handle = Some(registered);
                let ghost keys_before = address_keys@;
                let ghost added = descriptor.addr_rkey_list@;
                let mut list = descriptor.addr_rkey_list;
                address_keys.append(&mut list);
                proof {
                    assert(address_keys@ =~= keys_before + added);
                    assert(keys_of(address_keys@) =~= keys_of(keys_before) + keys_of(added));
                }
                i = i + 1;
            }
            let handle = handle.unwrap();
            (current, (handle, MemoryRegionDescriptor { ptr, addr_rkey_list: address_keys }))
        } else {
            let index = self.get_worker(device);
            assert(self.serves(device, index));
            match index {
                Ok(index) => {
                    let (back, answer) = ask(link, index, region);
                    match answer {
                        Ok(registered) => (back, registered),
                        Err(error) => {
                            return (back, Err(error));
                        },
                    }
                },
                Err(error) => {
                    return (link, Err(error));
                },
            }
        };
        put_device(&mut self.mr_device_map, handle.ptr, device);
        (back, Ok((handle, descriptor)))
    }

    /// The first workers have been told in order, each once, and have given `answers`; the calls
    /// have led from each of `links` to the next.
    pub open spec fn told_unregister<S, F: Fn(S, usize, u64) -> (S, Result<(), FabricLibError>)>(
        &self,
        tell: F,
        ptr: u64,
        links: Seq<S>,
        answers: Seq<Result<(), FabricLibError>>,
    ) -> bool {
        &&& answers.len() <= self.workers@.len()
        &&& links.len() == answers.len() + 1
        &&& forall|i: int|
            #![trigger answers[i]]
            0 <= i < answers.len() ==> call_ensures(
                tell,
                (links[i], i as usize, ptr),
                (links[i + 1], answers[i]),
            )
        &&& forall|i: int| #![trigger answers[i]] 0 <= i < answers.len() - 1 ==> answers[i] is Ok
    }

    /// What becomes of a region that is to be forgotten, if the calls that are made for it lead
    /// from the link `given` to the link `back`.
    pub open spec fn unregister_outcome<
        S,
        F: Fn(S, usize, u64) -> (S, Result<(), FabricLibError>),
    >(
        &self,
        after: &Self,
        tell: F,
        ptr: u64,
        given: S,
        back: S,
        done: Result<(), FabricLibError>,
    ) -> bool {
        &&& after.same_but_devices(self)
        &&& match done {
            Ok(_) => after.devices() == self.devices().remove(ptr),
            Err(_) => after.devices() == self.devices(),
        }
        &&& match self.device_of(MemoryRegionHandle { ptr }) {
            Err(error) => back == given && done == Err::<(), FabricLibError>(error),
            Ok(device) => if self.stripes(device) {
                exists|links: Seq<S>, answers: Seq<Result<(), FabricLibError>>|
                    {
                        &&& #[trigger] self.told_unregister(tell, ptr, links, answers)
                        &&& links[0] == given
                        &&& links.last() == back
                        &&& answers.len() > 0
                        &&& same_end(done, answers.last())
                        &&& done is Ok ==> answers.len() == self.workers@.len()
                    }
            } else {
                exists|index: Result<usize, FabricLibError>|
                    {
                        &&& #[trigger] self.serves(device, index)
                        &&& match index {
                            Ok(index) => exists|answer: Result<(), FabricLibError>| #[trigger]
                                call_ensures(tell, (given, index, ptr), (back, answer)) && same_end(
                                    done,
                                    answer,
                                ),
                            Err(error) => back == given && done == Err::<(), FabricLibError>(
                                error,
                            ),
                        }
                    }
            },
        }
    }

    /// Forgets a region: every worker that has registered it is told to, once. `link` is handed
    /// to each call and comes back from it.
    pub fn unregister_memory<S, F: Fn(S, usize, u64) -> (S, Result<(), FabricLibError>)>(
        &mut self,
        ptr: u64,
        link: S,
        tell: F,
    ) -> (done: (S, Result<(), FabricLibError>))
        requires
            old(self).wf(),
            forall|s: S, i: usize, ptr: u64|
                i < old(self).workers@.len() ==> call_requires(tell, (s, i, ptr)),
        ensures
            final(self).wf(),
            old(self).unregister_outcome(final(self), tell, ptr, link, done.0, done.1),
    {
        let device = match self.device_for_mr(MemoryRegionHandle::new(ptr)) {
            Ok(device) => device,
            Err(error) => {
                return (link, Err(error));
            },
        };
        let back: S = if self.host_striped && device == Device::Host {
            let ghost mut answers: Seq<Result<(), FabricLibError>> = Seq::empty();
            let ghost mut links: Seq<S> = seq![link];
            let mut current = link;
            let mut i: usize = 0;
            while i < self.workers.len()
                invariant
                    i <= self.workers@.len(),
                    *self == *old(self),
                    self.wf(),
                    self.stripes(device),
                    self.device_of(MemoryRegionHandle { ptr }) == Ok::<Device, FabricLibError>(
                        device,
                    ),
                    forall|s: S, i: usize, ptr: u64|
                        i < self.workers@.len() ==> call_requires(tell, (s, i, ptr)),
                    answers.len() == i,
                    self.told_unregister(tell, ptr, links, answers),
                    links[0] == link,
                    links.last() == current,
                    forall|j: int|
                        #![trigger answers[j]]
                        0 <= j < answers.len() ==> answers[j] is Ok,
                decreases self.workers@.len() - i,
            {
                let ghost passed = links;
                let ghost earlier = answers;
                let (next, answer) = tell(current, i, ptr);
                proof {
                    answers = answers.push(answer);
                    links = links.push(next);
                    assert forall|k: int| #![trigger answers[k]] 0 <= k < answers.len() implies
                        call_ensures(
                        tell,
                        (links[k], k as usize, ptr),
                        (links[k + 1], answers[k]),
                    ) by {
                        if k < earlier.len() {
                            assert(earlier[k] == answers[k]);
                            assert(links[k + 1] == passed[k + 1]);
                        }
                    }
                    assert(self.told_unregister(tell, ptr, links, answers));
                }
                current = next;
                if let Err(error) = answer {
                    return (current, Err(error));
                }
                i = i + 1;
            }
            assert(answers[answers.len() - 1] is Ok);
            assert(self.told_unregister(tell, ptr, links, answers));
            current
        } else {
            let index = self.get_worker(device);
            assert(self.serves(device, index));
            match index {
                Ok(index) => {
                    let (back, answer) = tell(link, index, ptr);
                    assert(call_ensures(tell, (link, index, ptr), (back, answer)));
                    match answer {
                        Ok(_) => back,
                        Err(error) => {
                            return (back, Err(error));
                        },
                    }
                },
                Err(error) => {
                    return (link, Err(error));
                },
            }
        };
        remove_device(&mut self.mr_device_map, ptr);
        (back, Ok(()))
    }

    /// Without a fault among the answers, each is sound and gives the same handle as the last.
    proof fn lemma_sound_answer(&self, ptr: u64, answers: Seq<RemoteAnswer>, w: int, upto: int)
        requires
            0 <= w < upto <= answers.len(),
            self.remote_fault(ptr, answers, upto) is None,
        ensures
            answers[w] is Ok,
            answers[w]->Ok_0.0 == answers[upto - 1]->Ok_0.0,
            answers[w]->Ok_0.1.ptr == ptr,
            answers[w]->Ok_0.1.width() == self.workers@[w].1.address_list@.len(),
        decreases upto,
    {
        if w < upto - 1 {
            self.lemma_sound_answer(ptr, answers, w, upto - 1);
        }
    }

    proof fn lemma_remote_fault_prefix(
        &self,
        ptr: u64,
        answers: Seq<RemoteAnswer>,
        answer: RemoteAnswer,
        upto: int,
    )
        requires
            upto <= answers.len(),
        ensures
            self.remote_fault(ptr, answers.push(answer), upto) == self.remote_fault(
                ptr,
                answers,
                upto,
            ),
        decreases upto,
    {
        if upto > 0 {
            self.lemma_remote_fault_prefix(ptr, answers, answer, upto - 1);
        }
    }
}

proof fn lemma_local_fault_prefix(answers: Seq<LocalAnswer>, answer: LocalAnswer, upto: int)
    requires
        upto <= answers.len(),
    ensures
        local_fault(answers.push(answer), upto) == local_fault(answers, upto),
    decreases upto,
{
    if upto > 0 {
        lemma_local_fault_prefix(answers, answer, upto - 1);
    }
}

/// The entries of the descriptors of the first `upto` workers, worker by worker.
pub open spec fn joined_keys(answers: Seq<RemoteAnswer>, upto: int) -> Seq<
    (Seq<u8>, MemoryRegionRemoteKey),
>
    decreases upto,
{
    if upto <= 0 {
        Seq::empty()
    } else {
        joined_keys(answers, upto - 1) + keys_of(answers[upto - 1]->Ok_0.1.addr_rkey_list@)
    }
}

proof fn lemma_joined_prefix(answers: Seq<RemoteAnswer>, answer: RemoteAnswer, upto: int)
    requires
        upto <= answers.len(),
    ensures
        joined_keys(answers.push(answer), upto) == joined_keys(answers, upto),
    decreases upto,
{
    if upto > 0 {
        lemma_joined_prefix(answers, answer, upto - 1);
    }
}

/// Each worker has its part in the joined descriptor of a region: narrowed to a worker, it is
/// again the descriptor that the worker gave.
pub proof fn narrowing_undoes_joining(
    ptr: u64,
    answers: Seq<RemoteAnswer>,
    domains: int,
    worker: int,
    upto: int,
)
    requires
        0 < domains,
        0 <= worker < upto <= answers.len(),
        forall|i: int|
            #![trigger answers[i]]
            0 <= i < answers.len() ==> answers[i]->Ok_0.1.width() == domains,
    ensures
        joined_keys(answers, upto).len() == upto * domains,
        narrowed((ptr, joined_keys(answers, upto)), worker, domains).1 == keys_of(
            answers[worker]->Ok_0.1.addr_rkey_list@,
        ),
    decreases upto,
{
    lemma_joined_len(answers, domains, upto - 1);
    lemma_joined_len(answers, domains, upto);
    lemma_worker_fits(worker, upto, domains);
    let all = joined_keys(answers, upto);
    let start = worker * domains;
    let own = keys_of(answers[worker]->Ok_0.1.addr_rkey_list@);
    assert(answers[worker]->Ok_0.1.width() == domains);
    if worker == upto - 1 {
        assert(all.subrange(start, start + domains) =~= own);
    } else {
        narrowing_undoes_joining(ptr, answers, domains, worker, upto - 1);
        lemma_worker_fits(worker, upto - 1, domains);
        let fewer = joined_keys(answers, upto - 1);
        assert(all.subrange(start, start + domains) =~= fewer.subrange(start, start + domains));
    }
}

proof fn lemma_joined_len(answers: Seq<RemoteAnswer>, domains: int, upto: int)
    requires
        0 <= upto <= answers.len(),
        forall|i: int|
            #![trigger answers[i]]
            0 <= i < answers.len() ==> answers[i]->Ok_0.1.width() == domains,
    ensures
        joined_keys(answers, upto).len() == upto * domains,
    decreases upto,
{
    if upto > 0 {
        lemma_joined_len(answers, domains, upto - 1);
        assert(answers[upto - 1]->Ok_0.1.width() == domains);
        assert(upto * domains == (upto - 1) * domains + domains) by (nonlinear_arith);
    } else {
        assert(upto * domains == 0) by (nonlinear_arith)
            requires
                upto == 0,
        ;
    }
}

/// A region that has been registered has the device that it was registered for, and one that
/// has been forgotten has none.
pub proof fn registered_region_has_its_device<
    S,
    F: Fn(S, usize, MemoryRegion) -> (S, LocalAnswer),
    G: Fn(S, usize, u64) -> (S, Result<(), FabricLibError>),
>(
    before: FabricEngine,
    registered: FabricEngine,
    forgotten: FabricEngine,
    ask: F,
    tell: G,
    links: (S, S, S),
    region: MemoryRegion,
    handle: MemoryRegionHandle,
)
    requires
        before.local_outcome(&registered, ask, region, links.0, links.1, Ok(handle)),
        registered.unregister_outcome(&forgotten, tell, handle.ptr, links.1, links.2, Ok(())),
    ensures
        registered.device_of(handle) == Ok::<Device, FabricLibError>(region.device),
        forgotten.device_of(handle) is Err,
{
}

/// A region that all workers serve alike, once it is registered for access by peers: every
/// worker has been asked for it exactly once, in order, and has given the same handle; the
/// descriptor has all their entries, worker by worker; and narrowed to a worker it is again what
/// that worker gave.
pub proof fn striped_registration_asks_each_worker_once<
    S,
    F: Fn(S, usize, MemoryRegion) -> (S, RemoteAnswer),
>(
    before: FabricEngine,
    after: FabricEngine,
    ask: F,
    region: MemoryRegion,
    given: S,
    back: S,
    handle: MemoryRegionHandle,
    descriptor: MemoryRegionDescriptor,
    domains: int,
) -> (calls: (Seq<S>, Seq<RemoteAnswer>))
    requires
        before.wf(),
        before.stripes(region.device),
        0 < domains,
        forall|i: int|
            #![trigger before.workers@[i]]
            0 <= i < before.workers@.len() ==> before.workers@[i].1.address_list@.len() == domains,
        before.remote_outcome(&after, ask, region, given, back, Ok((handle, descriptor))),
    ensures
        calls.1.len() == before.workers@.len(),
        before.asked_remote(ask, region, calls.0, calls.1),
        calls.0.len() == calls.1.len() + 1,
        forall|w: int|
            #![trigger calls.1[w]]
            0 <= w < calls.1.len() ==> call_ensures(
                ask,
                (calls.0[w], w as usize, region),
                (calls.0[w + 1], calls.1[w]),
            ),
        calls.0[0] == given,
        calls.0.last() == back,
        forall|w: int|
            #![trigger calls.1[w]]
            0 <= w < calls.1.len() ==> {
                &&& calls.1[w] matches Ok((own, part)) && own == handle && part.ptr == region.ptr
                &&& narrowed(descriptor@, w, domains).1 == keys_of(
                    calls.1[w]->Ok_0.1.addr_rkey_list@,
                )
                &&& is_part_of(
                    calls.1[w]->Ok_0.1,
                    descriptor,
                    w,
                    before.workers@.len() as int,
                    domains,
                )
            },
        descriptor.ptr == region.ptr,
        after.devices() == before.devices().insert(handle.ptr, Device::Host),
        descriptor.width() == before.workers@.len() * domains,
{
    let registered = Ok::<(MemoryRegionHandle, MemoryRegionDescriptor), FabricLibError>(
        (handle, descriptor),
    );
    let (links, answers) = choose|links: Seq<S>, answers: Seq<RemoteAnswer>|
        {
            let asked = answers.len() as int;
            &&& #[trigger] before.asked_remote(ask, region, links, answers)
            &&& links[0] == given
            &&& links.last() == back
            &&& match before.remote_fault(region.ptr, answers, asked) {
                Some(fault) => {
                    &&& before.remote_fault(region.ptr, answers, asked - 1) is None
                    &&& registered == Err::<
                        (MemoryRegionHandle, MemoryRegionDescriptor),
                        FabricLibError,
                    >(fault)
                },
                None => {
                    &&& asked == before.workers@.len()
                    &&& registered matches Ok((handle, descriptor)) && handle
                        == answers[asked - 1]->Ok_0.0 && descriptor@ == (
                        region.ptr,
                        joined_keys(answers, asked),
                    )
                },
            }
        };
    let n = answers.len() as int;
    assert forall|w: int| #![trigger answers[w]] 0 <= w < n implies answers[w] is Ok
        && answers[w]->Ok_0.0 == handle && answers[w]->Ok_0.1.ptr == region.ptr
        && answers[w]->Ok_0.1.width() == domains by {
        before.lemma_sound_answer(region.ptr, answers, w, n);
    }
    assert forall|w: int| #![trigger answers[w]] 0 <= w < n implies narrowed(
        descriptor@,
        w,
        domains,
    ).1 == keys_of(answers[w]->Ok_0.1.addr_rkey_list@) by {
        narrowing_undoes_joining(region.ptr, answers, domains, w, n);
    }
    lemma_joined_len(answers, domains, n);
    assert(keys_of(descriptor.addr_rkey_list@).len() == descriptor.width());
    assert forall|w: int| #![trigger answers[w]] 0 <= w < n implies is_part_of(
        answers[w]->Ok_0.1,
        descriptor,
        w,
        n,
        domains,
    ) by {
        let part = answers[w]->Ok_0.1;
        assert(part@ == narrowed(descriptor@, w, domains));
        lemma_narrowed_is_part(part, descriptor, w, n, domains);
    }
    (links, answers)
}

/// A region that all workers serve alike is registered for local access exactly if each worker,
/// asked once and in order, registers it and all give the same handle. The asking ends with the
/// first worker that does not, and then nothing is registered; an error that a worker gives is
/// returned.
pub proof fn striped_local_registration_asks_each_worker_once<
    S,
    F: Fn(S, usize, MemoryRegion) -> (S, LocalAnswer),
>(
    before: FabricEngine,
    after: FabricEngine,
    ask: F,
    region: MemoryRegion,
    given: S,
    back: S,
    registered: LocalAnswer,
) -> (calls: (Seq<S>, Seq<LocalAnswer>))
    requires
        before.wf(),
        before.host_striped,
        region.device == Device::Host,
        before.local_outcome(&after, ask, region, given, back, registered),
    ensures
        0 < calls.1.len() <= before.workers@.len(),
        calls.0.len() == calls.1.len() + 1,
        calls.0[0] == given,
        calls.0.last() == back,
        forall|w: int|
            #![trigger calls.1[w]]
            0 <= w < calls.1.len() ==> call_ensures(
                ask,
                (calls.0[w], w as usize, region),
                (calls.0[w + 1], calls.1[w]),
            ),
        forall|w: int|
            #![trigger calls.1[w]]
            0 <= w < calls.1.len() - 1 ==> calls.1[w] is Ok && calls.1[w] == calls.1[0],
        match registered {
            Ok(handle) => calls.1.len() == before.workers@.len() && calls.1.last() == Ok::<
                MemoryRegionHandle,
                FabricLibError,
            >(handle) && calls.1[0] == calls.1.last() && after.devices() == before.devices().insert(
                handle.ptr,
                Device::Host,
            ),
            Err(error) => (calls.1.last() is Err ==> calls.1.last() == Err::<
                MemoryRegionHandle,
                FabricLibError,
            >(error)) && (calls.1.last() is Ok ==> calls.1.last() != calls.1[0]) && after.devices()
                == before.devices(),
        },
{
    let (links, answers) = choose|links: Seq<S>, answers: Seq<LocalAnswer>|
        {
            let asked = answers.len() as int;
            &&& #[trigger] before.asked_local(ask, region, links, answers)
            &&& links[0] == given
            &&& links.last() == back
            &&& match local_fault(answers, asked) {
                Some(fault) => {
                    &&& local_fault(answers, asked - 1) is None
                    &&& registered == Err::<MemoryRegionHandle, FabricLibError>(fault)
                },
                None => {
                    &&& asked == before.workers@.len()
                    &&& registered == answers[asked - 1]
                },
            }
        };
    let asked = answers.len() as int;
    if asked > 0 {
        lemma_same_handles(answers, asked - 1);
        lemma_same_handles(answers, asked);
        assert(answers.last() == answers[asked - 1]);
    }
    (links, answers)
}

proof fn lemma_same_handles(answers: Seq<LocalAnswer>, upto: int)
    requires
        0 <= upto <= answers.len(),
    ensures
        local_fault(answers, upto) is None ==> forall|w: int|
            #![trigger answers[w]]
            0 <= w < upto ==> answers[w] is Ok && answers[w] == answers[0],
        upto > 0 && local_fault(answers, upto - 1) is None && local_fault(answers, upto) is Some
            ==> (answers[upto - 1] matches Err(error) && local_fault(answers, upto) == Some(error))
            || (answers[upto - 1] is Ok && answers[upto - 1] != answers[0]),
    decreases upto,
{
    if upto > 0 {
        lemma_same_handles(answers, upto - 1);
        if upto >= 2 && local_fault(answers, upto - 1) is None {
            assert(answers[upto - 2] is Ok && answers[upto - 2] == answers[0]);
        }
    }
}

/// A region of a device is registered by the worker of the device and by no other, and host
/// memory of an engine that is not striped by the first; what that worker answers is returned.
/// Without such a worker nobody is asked and nothing is registered.
pub proof fn one_worker_registers_the_memory_of_its_device<
    S,
    F: Fn(S, usize, MemoryRegion) -> (S, RemoteAnswer),
>(
    before: FabricEngine,
    after: FabricEngine,
    ask: F,
    region: MemoryRegion,
    given: S,
    back: S,
    registered: RemoteAnswer,
) -> (place: Option<usize>)
    requires
        before.wf(),
        !before.host_striped || region.device != Device::Host,
        before.remote_outcome(&after, ask, region, given, back, registered),
    ensures
        match place {
            Some(index) => {
                &&& index < before.workers@.len()
                &&& call_ensures(ask, (given, index, region), (back, registered))
                &&& match region.device {
                    Device::Host => index == 0,
                    Device::Cuda(number) => before.workers@[index as int].0 == number.0,
                }
            },
            None => {
                &&& back == given
                &&& registered is Err
                &&& region.device matches Device::Cuda(number) && forall|w: int|
                    #![trigger before.workers@[w]]
                    0 <= w < before.workers@.len() ==> before.workers@[w].0 != number.0
            },
        },
        registered matches Ok((handle, _)) ==> after.devices() == before.devices().insert(
            handle.ptr,
            region.device,
        ),
        registered is Err ==> after.devices() == before.devices(),
{
    let index = choose|index: Result<usize, FabricLibError>|
        {
            &&& #[trigger] before.serves(region.device, index)
            &&& match index {
                Ok(index) => call_ensures(ask, (given, index, region), (back, registered)),
                Err(error) => back == given && registered == Err::<
                    (MemoryRegionHandle, MemoryRegionDescriptor),
                    FabricLibError,
                >(error),
            }
        };
    match index {
        Ok(index) => Some(index),
        Err(_) => None,
    }
}

/// To forget a region that all workers serve alike, each worker is told once, in order, until
/// one fails; the region is forgotten exactly if none does, and else the failure is returned. A
/// region that is not registered is refused, and nobody is told.
pub proof fn striped_workers_forget_together<
    S,
    F: Fn(S, usize, u64) -> (S, Result<(), FabricLibError>),
>(
    before: FabricEngine,
    after: FabricEngine,
    tell: F,
    ptr: u64,
    given: S,
    back: S,
    done: Result<(), FabricLibError>,
) -> (calls: (Seq<S>, Seq<Result<(), FabricLibError>>))
    requires
        before.wf(),
        before.host_striped,
        before.devices().contains_key(ptr) ==> before.devices()[ptr] == Device::Host,
        before.unregister_outcome(&after, tell, ptr, given, back, done),
    ensures
        if before.devices().contains_key(ptr) {
            &&& 0 < calls.1.len() <= before.workers@.len()
            &&& calls.0.len() == calls.1.len() + 1
            &&& calls.0[0] == given
            &&& calls.0.last() == back
            &&& forall|w: int|
                #![trigger calls.1[w]]
                0 <= w < calls.1.len() ==> call_ensures(
                    tell,
                    (calls.0[w], w as usize, ptr),
                    (calls.0[w + 1], calls.1[w]),
                )
            &&& forall|w: int|
                #![trigger calls.1[w]]
                0 <= w < calls.1.len() - 1 ==> calls.1[w] is Ok
            &&& match done {
                Ok(_) => calls.1.len() == before.workers@.len() && calls.1.last() is Ok
                    && after.devices() == before.devices().remove(ptr),
                Err(error) => calls.1.last() == Err::<(), FabricLibError>(error) && after.devices()
                    == before.devices(),
            }
        } else {
            done is Err && back == given && after.devices() == before.devices()
        },
{
    if before.devices().contains_key(ptr) {
        choose|links: Seq<S>, answers: Seq<Result<(), FabricLibError>>|
            {
                &&& #[trigger] before.told_unregister(tell, ptr, links, answers)
                &&& links[0] == given
                &&& links.last() == back
                &&& answers.len() > 0
                &&& same_end(done, answers.last())
                &&& done is Ok ==> answers.len() == before.workers@.len()
            }
    } else {
        (Seq::empty(), Seq::empty())
    }
}

} // verus!
