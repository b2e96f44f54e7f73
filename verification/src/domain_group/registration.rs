//! Memory registration and the properties that a group has from its domains.
use vstd::prelude::*;

use crate::api::{
    AddrKey, MemoryRegionDescriptor, MemoryRegionHandle, MemoryRegionRemoteKey, keys_of,
};
use crate::domain_group::DomainGroup;
use crate::error::FabricLibError;
use crate::provider::{DomainEvent, MemoryRegion, RdmaDomain};

verus! {

/// All answers but the last are good; the last is good too, or the asking stopped there.
pub open spec fn stops_at_failure<T>(answers: Seq<Result<T, FabricLibError>>, n: int) -> bool {
    &&& answers.len() <= n
    &&& forall|i: int| #![trigger answers[i]] 0 <= i < answers.len() - 1 ==> answers[i] is Ok
    &&& answers.len() < n ==> answers.len() > 0 && answers.last() is Err
}

/// No answer is a failure.
pub open spec fn all_ok<T>(answers: Seq<Result<T, FabricLibError>>) -> bool {
    forall|i: int| #![trigger answers[i]] 0 <= i < answers.len() ==> answers[i] is Ok
}

/// The sum of the speeds of the first `count` domains.
pub open spec fn total_speed<D: RdmaDomain>(domains: Seq<D>, count: int) -> int
    decreases count,
{
    if count <= 0 {
        0
    } else {
        total_speed(domains, count - 1) + domains[count - 1].speed()
    }
}

proof fn lemma_total_speed_grows<D: RdmaDomain>(domains: Seq<D>, count: int, n: int)
    requires
        0 <= count <= n,
    ensures
        0 <= total_speed(domains, count) <= total_speed(domains, n),
    decreases n,
{
    if count < n {
        lemma_total_speed_grows(domains, count, n - 1);
    } else if count > 0 {
        lemma_total_speed_grows(domains, count - 1, n - 1);
    }
}

impl<D: RdmaDomain, C, A, const N: usize> DomainGroup<D, C, A, N> {
    /// The speed of all domains together.
    pub fn aggregate_link_speed(&self) -> (speed: u64)
        requires
            total_speed(self.domains@, N as int) <= u64::MAX,
        ensures
            speed == total_speed(self.domains@, N as int),
    {
        let mut speed: u64 = 0;
        let mut i: usize = 0;
        while i < N
            invariant
                i <= N,
                speed == total_speed(self.domains@, i as int),
                total_speed(self.domains@, N as int) <= u64::MAX,
            decreases N - i,
        {
            proof {
                lemma_total_speed_grows(self.domains@, i + 1, N as int);
            }
            speed = speed + self.domains[i].link_speed();
            i = i + 1;
        }
        speed
    }

    /// Whether every domain accepts ordered write batches.
    pub fn supports_write_batch(&self) -> (supported: bool)
        ensures
            supported == (forall|i: int|
                #![trigger self.domains[i]]
                0 <= i < N ==> self.domains[i].batches()),
    {
        let mut i: usize = 0;
        while i < N
            invariant
                i <= N,
                forall|j: int| #![trigger self.domains[j]] 0 <= j < i ==> self.domains[j].batches(),
            decreases N - i,
        {
            if !self.domains[i].supports_write_batch() {
                assert(!self.domains[i as int].batches());
                return false;
            }
            i = i + 1;
        }
        true
    }

    /// The first domains have registered `region` for remote access and have answered
    /// `answers`; the others have not been asked.
    pub open spec fn registered_remote(
        &self,
        before: &Self,
        region: MemoryRegion,
        answers: Seq<Result<MemoryRegionRemoteKey, FabricLibError>>,
    ) -> bool {
        &&& forall|i: int|
            #![trigger self.domains[i]]
            0 <= i < answers.len() ==> self.domains[i].history()
                == before.domains[i].history().push(
                DomainEvent::RegisterRemote { region, answer: answers[i] },
            )
        &&& forall|i: int|
            #![trigger self.domains[i]]
            answers.len() <= i < N ==> self.domains[i] == before.domains[i]
    }

    /// The entries of the descriptor of a region that all domains have registered.
    pub open spec fn remote_keys(
        &self,
        answers: Seq<Result<MemoryRegionRemoteKey, FabricLibError>>,
    ) -> Seq<(Seq<u8>, MemoryRegionRemoteKey)> {
        Seq::new(answers.len(), |i: int| (self.domains[i].address(), answers[i]->Ok_0))
    }

    /// What becomes of a region that is to be registered for access by peers.
    pub open spec fn remote_registration(
        &self,
        before: &Self,
        region: MemoryRegion,
        registered: Result<(MemoryRegionHandle, MemoryRegionDescriptor), FabricLibError>,
    ) -> bool {
        &&& self.rr_next == before.rr_next
        &&& self.same_tables(before)
        &&& exists|answers: Seq<Result<MemoryRegionRemoteKey, FabricLibError>>|
            {
                &&& #[trigger] self.registered_remote(before, region, answers)
                &&& stops_at_failure(answers, N as int)
                &&& match registered {
                    Ok((local, remote)) => {
                        &&& all_ok(answers)
                        &&& local.ptr == region.ptr
                        &&& remote@ == (region.ptr, self.remote_keys(answers))
                    },
                    Err(error) => answers.len() > 0 && answers.last() == Err::<
                        MemoryRegionRemoteKey,
                        FabricLibError,
                    >(error),
                }
            }
    }

    /// Registers a region with every domain for access by peers.
    ///
    /// The domains are asked in order, and the first failure ends the asking.
    pub fn register_mr_allow_remote(&mut self, region: &MemoryRegion) -> (registered: Result<
        (MemoryRegionHandle, MemoryRegionDescriptor),
        FabricLibError,
    >)
        ensures
            old(self).wf() ==> final(self).wf(),
            final(self).remote_registration(old(self), *region, registered),
    {
        let ghost mut answers: Seq<Result<MemoryRegionRemoteKey, FabricLibError>> = Seq::empty();
        let mut addr_rkey_list: Vec<AddrKey> = Vec::with_capacity(N);
        let mut i: usize = 0;
        while i < N
            invariant
                i <= N,
                answers.len() == i,
                all_ok(answers),
                old(self).wf() ==> self.wf(),
                self.rr_next == old(self).rr_next,
                self.same_tables(old(self)),
                self.registered_remote(old(self), *region, answers),
                addr_rkey_list@.len() == i,
                forall|j: int|
                    #![trigger addr_rkey_list@[j]]
                    0 <= j < i ==> addr_rkey_list@[j].0@ == self.domains[j].address()
                        && addr_rkey_list@[j].1 == answers[j]->Ok_0,
            decreases N - i,
        {
            let ghost earlier = *self;
            let answer = self.domains[i].register_mr_allow_remote(region);
            proof {
                answers = answers.push(answer);
                assert forall|j: int|
                    #![trigger self.domains[j]]
                    0 <= j < i implies self.domains[j] == earlier.domains[j] by {}
                assert(earlier.domains[i as int] == old(self).domains[i as int]);
                assert(self.registered_remote(old(self), *region, answers));
            }
            match answer {
                Ok(rkey) => {
                    addr_rkey_list.push((self.domains[i].addr(), rkey));
                },
                Err(error) => {
                    return Err(error);
                },
            }
            i = i + 1;
        }
        assert(keys_of(addr_rkey_list@) =~= self.remote_keys(answers));
        Ok(
            (
                MemoryRegionHandle::new(region.ptr),
                MemoryRegionDescriptor { ptr: region.ptr, addr_rkey_list },
            ),
        )
    }

    /// The first domains have registered `region` for local access and have answered
    /// `answers`; the others have not been asked.
    pub open spec fn registered_local(
        &self,
        before: &Self,
        region: MemoryRegion,
        answers: Seq<Result<(), FabricLibError>>,
    ) -> bool {
        &&& forall|i: int|
            #![trigger self.domains[i]]
            0 <= i < answers.len() ==> self.domains[i].history()
                == before.domains[i].history().push(
                DomainEvent::RegisterLocal { region, answer: answers[i] },
            )
        &&& forall|i: int|
            #![trigger self.domains[i]]
            answers.len() <= i < N ==> self.domains[i] == before.domains[i]
    }

    /// What becomes of a region that is to be registered for local access.
    pub open spec fn local_registration(
        &self,
        before: &Self,
        region: MemoryRegion,
        registered: Result<MemoryRegionHandle, FabricLibError>,
    ) -> bool {
        &&& self.rr_next == before.rr_next
        &&& self.same_tables(before)
        &&& exists|answers: Seq<Result<(), FabricLibError>>|
            {
                &&& #[trigger] self.registered_local(before, region, answers)
                &&& stops_at_failure(answers, N as int)
                &&& match registered {
                    Ok(handle) => all_ok(answers) && handle.ptr == region.ptr,
                    Err(error) => answers.len() > 0 && answers.last() == Err::<
                        (),
                        FabricLibError,
                    >(error),
                }
            }
    }

    /// Registers a region with every domain for local access only.
    ///
    /// The domains are asked in order, and the first failure ends the asking.
    pub fn register_mr_local(&mut self, region: &MemoryRegion) -> (registered: Result<
        MemoryRegionHandle,
        FabricLibError,
    >)
        ensures
            old(self).wf() ==> final(self).wf(),
            final(self).local_registration(old(self), *region, registered),
    {
        let ghost mut answers: Seq<Result<(), FabricLibError>> = Seq::empty();
        let mut i: usize = 0;
        while i < N
            invariant
                i <= N,
                answers.len() == i,
                all_ok(answers),
                old(self).wf() ==> self.wf(),
                self.rr_next == old(self).rr_next,
                self.same_tables(old(self)),
                self.registered_local(old(self), *region, answers),
            decreases N - i,
        {
            let ghost earlier = *self;
            let answer = self.domains[i].register_mr_local(region);
            proof {
                answers = answers.push(answer);
                assert forall|j: int|
                    #![trigger self.domains[j]]
                    0 <= j < i implies self.domains[j] == earlier.domains[j] by {}
                assert(earlier.domains[i as int] == old(self).domains[i as int]);
                assert(self.registered_local(old(self), *region, answers));
            }
            match answer {
                Ok(_) => {},
                Err(error) => {
                    return Err(error);
                },
            }
            i = i + 1;
        }
        Ok(MemoryRegionHandle::new(region.ptr))
    }

    /// Every domain has been told to forget the region that begins at `ptr`.
    pub open spec fn unregistered(&self, before: &Self, ptr: u64) -> bool {
        &&& self.rr_next == before.rr_next
        &&& self.same_tables(before)
        &&& self.histories() == Seq::new(
            N as nat,
            |i: int| before.histories()[i].push(DomainEvent::Unregister { ptr }),
        )
    }

    /// Tells every domain to forget the region that begins at `ptr`.
    pub fn unregister_mr(&mut self, ptr: u64)
        ensures
            old(self).wf() ==> final(self).wf(),
            final(self).unregistered(old(self), ptr),
    {
        let mut i: usize = 0;
        while i < N
            invariant
                i <= N,
                old(self).wf() ==> self.wf(),
                self.rr_next == old(self).rr_next,
                self.same_tables(old(self)),
                forall|j: int|
                    #![trigger self.domains[j]]
                    0 <= j < i ==> self.domains[j].history() == old(
                        self,
                    ).domains[j].history().push(DomainEvent::Unregister { ptr }),
                forall|j: int|
                    #![trigger self.domains[j]]
                    i <= j < N ==> self.domains[j] == old(self).domains[j],
            decreases N - i,
        {
            self.domains[i].unregister_mr(ptr);
            i = i + 1;
        }
        assert(self.histories() =~= Seq::new(
            N as nat,
            |i: int| old(self).histories()[i].push(DomainEvent::Unregister { ptr }),
        ));
    }
}

/// A region that has been registered for access by peers has been registered with every domain,
/// once; its handle and its descriptor name its first address, and the descriptor has for each
/// domain the domain's own address and the key that the domain gave. If a domain refuses, its
/// error is returned, those before it have registered the region, and those after it have not
/// been asked.
pub proof fn registration_reaches_every_domain<D: RdmaDomain, C, A, const N: usize>(
    after: DomainGroup<D, C, A, N>,
    before: DomainGroup<D, C, A, N>,
    region: MemoryRegion,
    registered: Result<(MemoryRegionHandle, MemoryRegionDescriptor), FabricLibError>,
) -> (refused: int)
    requires
        after.remote_registration(&before, region, registered),
    ensures
        after.write_ops == before.write_ops,
        after.rr_next == before.rr_next,
        match registered {
            Ok((handle, descriptor)) => {
                &&& handle.ptr == region.ptr
                &&& descriptor.ptr == region.ptr
                &&& descriptor.addr_rkey_list@.len() == N
                &&& forall|i: int|
                    #![trigger after.given(&before, i)]
                    0 <= i < N ==> {
                        &&& after.given(&before, i).len() == 1
                        &&& after.given(&before, i)[0] matches DomainEvent::RegisterRemote {
                            region: asked,
                            answer,
                        } && asked == region && answer == Ok::<
                            MemoryRegionRemoteKey,
                            FabricLibError,
                        >(descriptor.addr_rkey_list@[i].1)
                        &&& descriptor.addr_rkey_list@[i].0@ == after.domains[i].address()
                    }
            },
            Err(error) => {
                &&& 0 <= refused < N
                &&& forall|i: int|
                    #![trigger after.given(&before, i)]
                    0 <= i < N ==> if i > refused {
                        after.given(&before, i).len() == 0
                    } else {
                        &&& after.given(&before, i).len() == 1
                        &&& after.given(&before, i)[0] matches DomainEvent::RegisterRemote {
                            region: asked,
                            answer,
                        } && asked == region && if i < refused {
                            answer is Ok
                        } else {
                            answer == Err::<MemoryRegionRemoteKey, FabricLibError>(error)
                        }
                    }
            },
        },
{
    let answers = choose|answers: Seq<Result<MemoryRegionRemoteKey, FabricLibError>>|
        {
            &&& #[trigger] after.registered_remote(&before, region, answers)
            &&& stops_at_failure(answers, N as int)
            &&& match registered {
                Ok((local, remote)) => {
                    &&& all_ok(answers)
                    &&& local.ptr == region.ptr
                    &&& remote@ == (region.ptr, after.remote_keys(answers))
                },
                Err(error) => answers.len() > 0 && answers.last() == Err::<
                    MemoryRegionRemoteKey,
                    FabricLibError,
                >(error),
            }
        };
    if registered is Ok && answers.len() < N {
        assert(answers[answers.len() - 1] is Ok);
    }
    if let Ok((_, descriptor)) = registered {
        assert(keys_of(descriptor.addr_rkey_list@) == after.remote_keys(answers));
        assert(keys_of(descriptor.addr_rkey_list@).len() == N);
    }
    assert forall|i: int|
        #![trigger after.given(&before, i)]
        0 <= i < N implies after.given(&before, i) == if i < answers.len() {
        seq![DomainEvent::RegisterRemote { region, answer: answers[i] }]
    } else {
        Seq::empty()
    } by {
        assert(after.domains[i] == after.domains[i]);
        if i < answers.len() {
            assert(after.given(&before, i) =~= seq![
                DomainEvent::RegisterRemote { region, answer: answers[i] },
            ]);
        } else {
            assert(after.given(&before, i) =~= Seq::<DomainEvent>::empty());
        }
    }
    if let Ok((_, descriptor)) = registered {
        assert forall|i: int| #![trigger after.given(&before, i)] 0 <= i < N implies {
            &&& after.given(&before, i).len() == 1
            &&& after.given(&before, i)[0] matches DomainEvent::RegisterRemote {
                region: asked,
                answer,
            } && asked == region && answer == Ok::<MemoryRegionRemoteKey, FabricLibError>(
                descriptor.addr_rkey_list@[i].1,
            )
            &&& descriptor.addr_rkey_list@[i].0@ == after.domains[i].address()
        } by {
            assert(answers[i] is Ok);
            assert(keys_of(descriptor.addr_rkey_list@)[i] == after.remote_keys(answers)[i]);
        }
    }
    answers.len() - 1
}

/// A region that has been registered for local access has been registered with every domain,
/// once, and its handle names its first address. If a domain refuses, its error is returned,
/// those before it have registered the region, and those after it have not been asked.
pub proof fn local_registration_reaches_every_domain<D: RdmaDomain, C, A, const N: usize>(
    after: DomainGroup<D, C, A, N>,
    before: DomainGroup<D, C, A, N>,
    region: MemoryRegion,
    registered: Result<MemoryRegionHandle, FabricLibError>,
) -> (refused: int)
    requires
        after.local_registration(&before, region, registered),
    ensures
        after.write_ops == before.write_ops,
        after.rr_next == before.rr_next,
        match registered {
            Ok(handle) => {
                &&& handle.ptr == region.ptr
                &&& forall|i: int|
                    #![trigger after.given(&before, i)]
                    0 <= i < N ==> {
                        &&& after.given(&before, i).len() == 1
                        &&& after.given(&before, i)[0] matches DomainEvent::RegisterLocal {
                            region: asked,
                            answer,
                        } && asked == region && answer is Ok
                    }
            },
            Err(error) => {
                &&& 0 <= refused < N
                &&& forall|i: int|
                    #![trigger after.given(&before, i)]
                    0 <= i < N ==> if i > refused {
                        after.given(&before, i).len() == 0
                    } else {
                        &&& after.given(&before, i).len() == 1
                        &&& after.given(&before, i)[0] matches DomainEvent::RegisterLocal {
                            region: asked,
                            answer,
                        } && asked == region && if i < refused {
                            answer is Ok
                        } else {
                            answer == Err::<(), FabricLibError>(error)
                        }
                    }
            },
        },
{
    let answers = choose|answers: Seq<Result<(), FabricLibError>>|
        {
            &&& #[trigger] after.registered_local(&before, region, answers)
            &&& stops_at_failure(answers, N as int)
            &&& match registered {
                Ok(handle) => all_ok(answers) && handle.ptr == region.ptr,
                Err(error) => answers.len() > 0 && answers.last() == Err::<(), FabricLibError>(
                    error,
                ),
            }
        };
    if registered is Ok && answers.len() < N {
        assert(answers[answers.len() - 1] is Ok);
    }
    assert forall|i: int|
        #![trigger after.given(&before, i)]
        0 <= i < N implies after.given(&before, i) == if i < answers.len() {
        seq![DomainEvent::RegisterLocal { region, answer: answers[i] }]
    } else {
        Seq::empty()
    } by {
        assert(after.domains[i] == after.domains[i]);
        if i < answers.len() {
            assert(after.given(&before, i) =~= seq![
                DomainEvent::RegisterLocal { region, answer: answers[i] },
            ]);
        } else {
            assert(after.given(&before, i) =~= Seq::<DomainEvent>::empty());
        }
    }
    answers.len() - 1
}

/// Every domain is told once to forget a region.
pub proof fn every_domain_forgets_the_region<D: RdmaDomain, C, A, const N: usize>(
    after: DomainGroup<D, C, A, N>,
    before: DomainGroup<D, C, A, N>,
    ptr: u64,
    i: int,
)
    requires
        after.unregistered(&before, ptr),
        0 <= i < N,
    ensures
        after.given(&before, i) == seq![DomainEvent::Unregister { ptr }],
        after.write_ops == before.write_ops,
        after.rr_next == before.rr_next,
{
    assert(after.histories()[i] == before.histories()[i].push(DomainEvent::Unregister { ptr }));
    assert(after.given(&before, i) =~= seq![DomainEvent::Unregister { ptr }]);
}

/// The speed of domains together is the speed of the first ones and that of the last one; no
/// domains have none.
pub proof fn every_domain_adds_its_speed<D: RdmaDomain>(domains: Seq<D>, last: D)
    ensures
        total_speed(Seq::<D>::empty(), 0) == 0,
        total_speed(domains.push(last), (domains.len() + 1) as int) == total_speed(
            domains,
            domains.len() as int,
        ) + last.speed(),
{
    lemma_total_speed_of_prefix(domains, last, domains.len() as int);
    assert(domains.push(last)[domains.len() as int] == last);
}

proof fn lemma_total_speed_of_prefix<D: RdmaDomain>(domains: Seq<D>, last: D, count: int)
    requires
        0 <= count <= domains.len(),
    ensures
        total_speed(domains.push(last), count) == total_speed(domains, count),
    decreases count,
{
    if count > 0 {
        lemma_total_speed_of_prefix(domains, last, count - 1);
        assert(domains.push(last)[count - 1] == domains[count - 1]);
    }
}

} // verus!
