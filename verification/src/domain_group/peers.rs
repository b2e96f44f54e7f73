//! Peer groups.
use vstd::prelude::*;

use crate::api::{DomainAddress, PeerGroupHandle};
use crate::domain_group::registration::{all_ok, stops_at_failure};
use crate::domain_group::{DomainGroup, PeerGroup, peer_bytes};
use crate::error::FabricLibError;
use crate::provider::{DomainEvent, RdmaDomain, addr_bytes};

verus! {

/// The address of each peer for the domain `i`.
pub open spec fn domain_peers(peers: Seq<Seq<Seq<u8>>>, i: int) -> Seq<Seq<u8>> {
    Seq::new(peers.len(), |p: int| peers[p][i])
}

/// Every peer has an address for each of `n` domains.
pub open spec fn peers_reachable(addrs: Seq<Vec<DomainAddress>>, n: int) -> bool {
    forall|p: int| #![trigger addrs[p]] 0 <= p < addrs.len() ==> addrs[p]@.len() >= n
}

/// Whether two lists hold the same addresses.
fn same_addrs(a: &Vec<DomainAddress>, b: &Vec<DomainAddress>) -> (same: bool)
    ensures
        same == (addr_bytes(a@) == addr_bytes(b@)),
{
    if a.len() != b.len() {
        assert(addr_bytes(a@).len() != addr_bytes(b@).len());
        return false;
    }
    let mut i: usize = 0;
    while i < a.len()
        invariant
            i <= a@.len(),
            a@.len() == b@.len(),
            forall|j: int| #![trigger a@[j]] 0 <= j < i ==> a@[j]@ == b@[j]@,
        decreases a@.len() - i,
    {
        if !a[i].same_as(&b[i]) {
            assert(addr_bytes(a@)[i as int] != addr_bytes(b@)[i as int]);
            return false;
        }
        i = i + 1;
    }
    assert(addr_bytes(a@) =~= addr_bytes(b@));
    true
}

/// Whether two lists hold the same peers.
fn same_groups(a: &Vec<Vec<DomainAddress>>, b: &Vec<Vec<DomainAddress>>) -> (same: bool)
    ensures
        same == (peer_bytes(a@) == peer_bytes(b@)),
{
    if a.len() != b.len() {
        assert(peer_bytes(a@).len() != peer_bytes(b@).len());
        return false;
    }
    let mut i: usize = 0;
    while i < a.len()
        invariant
            i <= a@.len(),
            a@.len() == b@.len(),
            forall|j: int|
                #![trigger a@[j]]
                0 <= j < i ==> addr_bytes(a@[j]@) == addr_bytes(b@[j]@),
        decreases a@.len() - i,
    {
        if !same_addrs(&a[i], &b[i]) {
            assert(peer_bytes(a@)[i as int] != peer_bytes(b@)[i as int]);
            return false;
        }
        i = i + 1;
    }
    assert(peer_bytes(a@) =~= peer_bytes(b@));
    true
}

/// The addresses of the peers for one domain.
fn select_addrs(addrs: &Vec<Vec<DomainAddress>>, domain: usize) -> (selected: Vec<DomainAddress>)
    requires
        peers_reachable(addrs@, domain + 1),
    ensures
        addr_bytes(selected@) == domain_peers(peer_bytes(addrs@), domain as int),
{
    let mut selected: Vec<DomainAddress> = Vec::with_capacity(addrs.len());
    let mut p: usize = 0;
    while p < addrs.len()
        invariant
            p <= addrs@.len(),
            peers_reachable(addrs@, domain + 1),
            selected@.len() == p,
            forall|j: int|
                #![trigger selected@[j]]
                0 <= j < p ==> selected@[j]@ == peer_bytes(addrs@)[j][domain as int],
        decreases addrs@.len() - p,
    {
        assert(addrs@[p as int]@.len() >= domain + 1);
        selected.push(addrs[p][domain].clone());
        p = p + 1;
    }
    assert(addr_bytes(selected@) =~= domain_peers(peer_bytes(addrs@), domain as int));
    selected
}

impl<D: RdmaDomain, C, A, const N: usize> DomainGroup<D, C, A, N> {
    /// The peers have the handle `h`.
    pub open spec fn knows_peers(&self, peers: Seq<Seq<Seq<u8>>>, h: u32) -> bool {
        h < self.next_peer_group_handle && self.peer_groups@[h].bytes() == peers
    }

    /// The first domains have been told of the peers and have answered `answers`; the others
    /// have not been asked.
    pub open spec fn told_of_peers(
        &self,
        before: &Self,
        handle: PeerGroupHandle,
        peers: Seq<Seq<Seq<u8>>>,
        answers: Seq<Result<(), FabricLibError>>,
    ) -> bool {
        &&& forall|i: int|
            #![trigger self.domains[i]]
            0 <= i < answers.len() ==> self.domains[i].history()
                == before.domains[i].history().push(
                DomainEvent::AddPeerGroup {
                    handle,
                    addrs: domain_peers(peers, i),
                    answer: answers[i],
                },
            )
        &&& forall|i: int|
            #![trigger self.domains[i]]
            answers.len() <= i < N ==> self.domains[i] == before.domains[i]
    }

    /// A new group of peers has the next handle, whatever the domains answered.
    pub open spec fn peers_added(
        &self,
        before: &Self,
        peers: Seq<Seq<Seq<u8>>>,
        added: Result<PeerGroupHandle, FabricLibError>,
    ) -> bool {
        let handle = PeerGroupHandle(before.next_peer_group_handle);
        &&& self.rr_next == before.rr_next
        &&& self.write_ops == before.write_ops
        &&& self.signals == before.signals
        &&& self.next_peer_group_handle == before.next_peer_group_handle + 1
        &&& self.peer_groups@ == before.peer_groups@.insert(handle.0, self.peer_groups@[handle.0])
        &&& self.peer_groups@[handle.0].bytes() == peers
        &&& exists|answers: Seq<Result<(), FabricLibError>>|
            {
                &&& #[trigger] self.told_of_peers(before, handle, peers, answers)
                &&& stops_at_failure(answers, N as int)
                &&& match added {
                    Ok(given) => all_ok(answers) && given == handle,
                    Err(error) => answers.len() > 0 && answers.last() == Err::<
                        (),
                        FabricLibError,
                    >(error),
                }
            }
    }

    /// Peers that are not known yet have an address for every domain, and a handle is left for
    /// them.
    pub open spec fn peers_addable(&self, addrs: Seq<Vec<DomainAddress>>) -> bool {
        (forall|h: u32| !#[trigger] self.knows_peers(peer_bytes(addrs), h))
            ==> self.next_peer_group_handle < u32::MAX && peers_reachable(addrs, N as int)
    }

    /// What becomes of peers that are to have a handle.
    pub open spec fn peers_outcome(
        &self,
        before: &Self,
        peers: Seq<Seq<Seq<u8>>>,
        added: Result<PeerGroupHandle, FabricLibError>,
    ) -> bool {
        if exists|h: u32| #[trigger] before.knows_peers(peers, h) {
            &&& added matches Ok(handle) && before.knows_peers(peers, handle.0)
            &&& *self == *before
        } else {
            self.peers_added(before, peers, added)
        }
    }

    /// The handle of a group of peers, if it has one.
    pub fn find_peer_group(&self, addrs: &Vec<Vec<DomainAddress>>) -> (found: Option<
        PeerGroupHandle,
    >)
        requires
            self.wf(),
        ensures
            match found {
                Some(handle) => self.knows_peers(peer_bytes(addrs@), handle.0),
                None => forall|h: u32| !#[trigger] self.knows_peers(peer_bytes(addrs@), h),
            },
    {
        let ghost peers = peer_bytes(addrs@);
        let mut h: u32 = 0;
        while h < self.next_peer_group_handle
            invariant
                self.wf(),
                h <= self.next_peer_group_handle,
                peers == peer_bytes(addrs@),
                forall|g: u32| g < h ==> !#[trigger] self.knows_peers(peers, g),
            decreases self.next_peer_group_handle - h,
        {
            assert(self.peer_groups@.contains_key(h));
            if let Some(group) = self.peer_groups.get(&h) {
                let same = same_groups(&group.addrs, addrs);
                assert(same == self.knows_peers(peers, h));
                if same {
                    return Some(PeerGroupHandle(h));
                }
            }
            h = h + 1;
        }
        None
    }

    /// Whether a group of peers may be added.
    pub fn can_add_peer_group(&self, addrs: &Vec<Vec<DomainAddress>>) -> (can: bool)
        requires
            self.wf(),
        ensures
            can == self.peers_addable(addrs@),
    {
        if let Some(handle) = self.find_peer_group(addrs) {
            assert(self.knows_peers(peer_bytes(addrs@), handle.0));
            return true;
        }
        if self.next_peer_group_handle == u32::MAX {
            return false;
        }
        let mut p: usize = 0;
        while p < addrs.len()
            invariant
                p <= addrs@.len(),
                self.next_peer_group_handle < u32::MAX,
                forall|h: u32| !#[trigger] self.knows_peers(peer_bytes(addrs@), h),
                forall|q: int| #![trigger addrs@[q]] 0 <= q < p ==> addrs@[q]@.len() >= N,
            decreases addrs@.len() - p,
        {
            if addrs[p].len() < N {
                assert(addrs@[p as int]@.len() < N);
                return false;
            }
            p = p + 1;
        }
        true
    }

    /// Gives a group of peers a handle: the one that it has, or else the next.
    ///
    /// Of a new group, the domains are told in order; the first failure ends the telling and is
    /// returned, but the handle stays taken.
    pub fn add_peer_group(&mut self, addrs: Vec<Vec<DomainAddress>>) -> (added: Result<
        PeerGroupHandle,
        FabricLibError,
    >)
        requires
            old(self).wf(),
            old(self).peers_addable(addrs@),
        ensures
            final(self).wf(),
            final(self).peers_outcome(old(self), peer_bytes(addrs@), added),
    {
        let ghost peers = peer_bytes(addrs@);
        if let Some(handle) = self.find_peer_group(&addrs) {
            return Ok(handle);
        }
        assert forall|g: u32| !#[trigger] self.knows_peers(peers, g) by {}

        let handle = PeerGroupHandle(self.next_peer_group_handle);
        let ghost mut answers: Seq<Result<(), FabricLibError>> = Seq::empty();
        let mut added: Result<PeerGroupHandle, FabricLibError> = Ok(handle);
        let mut i: usize = 0;
        while i < N && added.is_ok()
            invariant
                i <= N,
                answers.len() == i,
                handle.0 == old(self).next_peer_group_handle,
                peers == peer_bytes(addrs@),
                peers_reachable(addrs@, N as int),
                old(self).wf(),
                self.rr_next == old(self).rr_next,
                self.same_tables(old(self)),
                self.told_of_peers(old(self), handle, peers, answers),
                match added {
                    Ok(given) => all_ok(answers) && given == handle,
                    Err(error) => {
                        &&& answers.len() > 0
                        &&& answers.last() == Err::<(), FabricLibError>(error)
                        &&& all_ok(answers.drop_last())
                    },
                },
            decreases N - i,
        {
            let ghost earlier = *self;
            let ghost before = answers;
            let selected = select_addrs(&addrs, i);
            let answer = self.domains[i].add_peer_group(handle, selected);
            proof {
                answers = answers.push(answer);
                assert(answers.drop_last() =~= before);
                assert forall|j: int|
                    #![trigger self.domains[j]]
                    0 <= j < i implies self.domains[j] == earlier.domains[j] by {}
                assert(earlier.domains[i as int] == old(self).domains[i as int]);
                assert(self.told_of_peers(old(self), handle, peers, answers));
            }
            if let Err(error) = answer {
                added = Err(error);
            }
            i = i + 1;
        }
        assert(stops_at_failure(answers, N as int)) by {
            if added is Err {
                assert forall|j: int|
                    #![trigger answers[j]]
                    0 <= j < answers.len() - 1 implies answers[j] is Ok by {
                    assert(answers.drop_last()[j] == answers[j]);
                }
            }
        }
        let ghost told = *self;
        self.next_peer_group_handle = self.next_peer_group_handle + 1;
        self.peer_groups.insert(handle.0, PeerGroup { addrs });
        proof {
            assert(self.told_of_peers(old(self), handle, peers, answers));
            assert forall|g: u32, k: u32|
                #![trigger self.peer_groups@[g], self.peer_groups@[k]]
                g < k < self.next_peer_group_handle implies self.peer_groups@[g].bytes()
                != self.peer_groups@[k].bytes() by {
                if k == handle.0 {
                    assert(!old(self).knows_peers(peers, g));
                } else {
                    assert(old(self).peer_groups@[g].bytes() != old(self).peer_groups@[k].bytes());
                }
            }
            assert(self.peer_groups@ =~= old(self).peer_groups@.insert(
                handle.0,
                self.peer_groups@[handle.0],
            ));
        }
        added
    }
}

/// A group that has a handle keeps it: adding the same peers again gives the same handle and
/// changes nothing, also when a domain refused them the first time.
pub proof fn added_peers_are_known<D: RdmaDomain, C, A, const N: usize>(
    after: DomainGroup<D, C, A, N>,
    before: DomainGroup<D, C, A, N>,
    peers: Seq<Seq<Seq<u8>>>,
    added: Result<PeerGroupHandle, FabricLibError>,
    h: u32,
)
    requires
        after.wf(),
        after.peers_added(&before, peers, added),
    ensures
        after.knows_peers(peers, before.next_peer_group_handle),
        after.knows_peers(peers, h) ==> h == before.next_peer_group_handle,
        added matches Ok(handle) ==> handle.0 == before.next_peer_group_handle,
{
    let given = before.next_peer_group_handle;
    assert(after.knows_peers(peers, given));
    if after.knows_peers(peers, h) && h != given {
        if h < given {
            assert(after.peer_groups@[h].bytes() != after.peer_groups@[given].bytes());
        } else {
            assert(after.peer_groups@[given].bytes() != after.peer_groups@[h].bytes());
        }
    }
}

/// Of a new group of peers every domain is told once, under the handle of the group, and is
/// given the address that each peer has for that domain. If a domain refuses, its error is
/// returned, those before it have been told, and those after it have not been asked.
pub proof fn every_domain_is_told_of_new_peers<D: RdmaDomain, C, A, const N: usize>(
    after: DomainGroup<D, C, A, N>,
    before: DomainGroup<D, C, A, N>,
    peers: Seq<Seq<Seq<u8>>>,
    added: Result<PeerGroupHandle, FabricLibError>,
) -> (refused: int)
    requires
        before.wf(),
        after.peers_outcome(&before, peers, added),
        forall|h: u32|
            #![trigger before.peer_groups@[h]]
            h < before.next_peer_group_handle ==> before.peer_groups@[h].bytes() != peers,
    ensures
        after.write_ops == before.write_ops,
        after.rr_next == before.rr_next,
        after.next_peer_group_handle == before.next_peer_group_handle + 1,
        added matches Ok(handle) ==> refused == N && handle.0 == before.next_peer_group_handle,
        added is Err ==> 0 <= refused < N,
        forall|i: int|
            #![trigger after.given(&before, i)]
            0 <= i < N ==> if i > refused {
                after.given(&before, i).len() == 0
            } else {
                &&& after.given(&before, i).len() == 1
                &&& after.given(&before, i)[0] matches DomainEvent::AddPeerGroup {
                    handle,
                    addrs,
                    answer,
                } && {
                    &&& handle.0 == before.next_peer_group_handle
                    &&& addrs.len() == peers.len()
                    &&& forall|p: int|
                        #![trigger addrs[p]]
                        0 <= p < peers.len() ==> addrs[p] == peers[p][i]
                    &&& if i < refused {
                        answer is Ok
                    } else {
                        added matches Err(error) && answer == Err::<(), FabricLibError>(error)
                    }
                }
            },
{
    assert forall|h: u32| !#[trigger] before.knows_peers(peers, h) by {
        if h < before.next_peer_group_handle {
            assert(before.peer_groups@[h].bytes() != peers);
        }
    }
    let handle = PeerGroupHandle(before.next_peer_group_handle);
    let answers = choose|answers: Seq<Result<(), FabricLibError>>|
        {
            &&& #[trigger] after.told_of_peers(&before, handle, peers, answers)
            &&& stops_at_failure(answers, N as int)
            &&& match added {
                Ok(given) => all_ok(answers) && given == handle,
                Err(error) => answers.len() > 0 && answers.last() == Err::<(), FabricLibError>(
                    error,
                ),
            }
        };
    if added is Ok && answers.len() < N {
        assert(answers[answers.len() - 1] is Ok);
    }
    let refused = if added is Ok {
        N as int
    } else {
        answers.len() - 1
    };
    assert forall|i: int|
        #![trigger after.given(&before, i)]
        0 <= i < N implies after.given(&before, i) == if i < answers.len() {
        seq![
            DomainEvent::AddPeerGroup {
                handle,
                addrs: domain_peers(peers, i),
                answer: answers[i],
            },
        ]
    } else {
        Seq::empty()
    } by {
        assert(after.domains[i] == after.domains[i]);
        if i < answers.len() {
            assert(after.given(&before, i) =~= seq![
                DomainEvent::AddPeerGroup {
                    handle,
                    addrs: domain_peers(peers, i),
                    answer: answers[i],
                },
            ]);
        } else {
            assert(after.given(&before, i) =~= Seq::<DomainEvent>::empty());
        }
    }
    refused
}

/// Peers that are known already keep their handle, and nothing happens.
pub proof fn known_peers_keep_their_handle<D: RdmaDomain, C, A, const N: usize>(
    after: DomainGroup<D, C, A, N>,
    before: DomainGroup<D, C, A, N>,
    peers: Seq<Seq<Seq<u8>>>,
    added: Result<PeerGroupHandle, FabricLibError>,
    h: u32,
)
    requires
        before.wf(),
        after.peers_outcome(&before, peers, added),
        h < before.next_peer_group_handle,
        before.peer_groups@[h].bytes() == peers,
    ensures
        added == Ok::<PeerGroupHandle, FabricLibError>(PeerGroupHandle(h)),
        after == before,
{
    assert(before.knows_peers(peers, h));
    let found = added->Ok_0.0;
    if found < h {
        assert(before.peer_groups@[found].bytes() != before.peer_groups@[h].bytes());
    }
    if h < found {
        assert(before.peer_groups@[h].bytes() != before.peer_groups@[found].bytes());
    }
}

} // verus!
