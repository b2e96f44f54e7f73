//! A group of domains that share the transfers of one device.
//!
//! A request is checked, divided into writes, and handed to the domains; the group counts the
//! domains' completions and reports a transfer when its last write has retired.
pub mod batch;
pub mod completion;
pub mod delivery;
pub mod gather;
pub mod imm;
pub mod limits;
pub mod paged;
pub mod peers;
pub mod registration;
pub mod scatter;
pub mod single;
pub mod submit;

use std::collections::HashMap;

use vstd::arithmetic::div_mod::{
    lemma_add_mod_noop_right, lemma_mod_add_multiples_vanish, lemma_small_mod,
};
use vstd::prelude::*;

use crate::api::{DomainAddress, DomainGroupRouting, MemoryRegionLocalDescriptor, TransferId};
use crate::error::FabricLibError;
use crate::provider::{DomainEvent, RdmaDomain};
use crate::rdma_op::WriteOp;

verus! {

/// A transfer whose writes have not all retired.
///
/// `C` is the counter that its submitter watches instead of a completion, and `A` is what its
/// submitter wants kept until the transfer is over.
pub struct WriteOpContext<C, A> {
    /// How many writes the transfer was divided into.
    pub num_used_domains: usize,
    /// How many of them have retired.
    pub cnt_domain_completion: usize,
    pub tx_counter: Option<C>,
    /// The first error that a write retired with.
    pub error: Option<FabricLibError>,
    pub admission: Option<A>,
}

/// A transfer that has just been divided into `writes` writes.
pub open spec fn fresh_context<C, A>(writes: usize, tx_counter: Option<C>) -> WriteOpContext<C, A> {
    WriteOpContext {
        num_used_domains: writes,
        cnt_domain_completion: 0,
        tx_counter,
        error: None,
        admission: None,
    }
}

impl<C, A> WriteOpContext<C, A> {
    /// Some write is outstanding, or there never was one.
    pub open spec fn open(&self) -> bool {
        self.cnt_domain_completion < self.num_used_domains || self.num_used_domains == 0
    }

    /// The transfer after one more write has retired: the first error is kept.
    pub open spec fn retired(self, error: Option<FabricLibError>) -> Self {
        WriteOpContext {
            cnt_domain_completion: self.cnt_domain_completion.wrapping_add(1),
            error: if self.error is None {
                error
            } else {
                self.error
            },
            ..self
        }
    }

    /// All writes have retired.
    pub open spec fn complete(self) -> bool {
        self.cnt_domain_completion == self.num_used_domains
    }

    /// Counts one retired write; whether it was the last.
    pub fn retire_domain(&mut self, error: Option<FabricLibError>) -> (last: bool)
        ensures
            *final(self) == old(self).retired(error),
            last == final(self).complete(),
    {
        self.cnt_domain_completion = self.cnt_domain_completion.wrapping_add(1);
        if self.error.is_none() {
            self.error = error;
        }
        self.cnt_domain_completion == self.num_used_domains
    }
}

/// Peers that scatters address together: per peer, an address per domain.
pub struct PeerGroup {
    pub addrs: Vec<Vec<DomainAddress>>,
}

/// The counter of a transfer that is over, and whether the transfer failed.
pub struct CounterSignal<C> {
    pub counter: C,
    pub failed: bool,
}

/// `N` domains and the transfers that they carry.
pub struct DomainGroup<D: RdmaDomain, C, A, const N: usize> {
    pub domains: [D; N],
    /// The transfers in flight, by id.
    pub write_ops: HashMap<u64, WriteOpContext<C, A>>,
    /// The domain that the next sharded transfer begins with.
    pub rr_next: usize,
    pub next_peer_group_handle: u32,
    /// The known peer groups, by handle.
    pub peer_groups: HashMap<u32, PeerGroup>,
    /// Counters of transfers that are over, oldest first, until they are taken.
    pub signals: Vec<CounterSignal<C>>,
}

/// The bytes of each address of each peer.
pub open spec fn peer_bytes(addrs: Seq<Vec<DomainAddress>>) -> Seq<Seq<Seq<u8>>> {
    Seq::new(addrs.len(), |i: int| crate::provider::addr_bytes(addrs[i]@))
}

impl PeerGroup {
    /// The bytes of each address of each of its peers.
    pub open spec fn bytes(&self) -> Seq<Seq<Seq<u8>>> {
        peer_bytes(self.addrs@)
    }
}

impl<D: RdmaDomain, C, A, const N: usize> DomainGroup<D, C, A, N> {
    /// Handles are given out in order, and no two of them stand for the same peers.
    pub open spec fn peers_wf(&self) -> bool {
        &&& forall|h: u32|
            #![trigger self.peer_groups@.contains_key(h)]
            self.peer_groups@.contains_key(h) <==> h < self.next_peer_group_handle
        &&& forall|g: u32, h: u32|
            #![trigger self.peer_groups@[g], self.peer_groups@[h]]
            g < h < self.next_peer_group_handle ==> self.peer_groups@[g].bytes()
                != self.peer_groups@[h].bytes()
    }

    /// The round robin stands at a domain, every transfer in the table is still open, and the
    /// peer groups are in order.
    pub open spec fn wf(&self) -> bool {
        &&& N > 0 ==> self.rr_next < N
        &&& forall|id: u64|
            #![trigger self.write_ops@[id]]
            self.write_ops@.contains_key(id) ==> self.write_ops@[id].open()
        &&& self.peers_wf()
    }

    /// What each domain has been asked.
    pub open spec fn histories(&self) -> Seq<Seq<DomainEvent>> {
        Seq::new(N as nat, |i: int| self.domains[i].history())
    }

    /// Nothing but the round robin and the domains' histories differs.
    pub open spec fn same_tables(&self, other: &Self) -> bool {
        &&& self.write_ops == other.write_ops
        &&& self.same_peers(other)
    }

    /// The peer groups and the signals are the same.
    pub open spec fn same_peers(&self, other: &Self) -> bool {
        &&& self.next_peer_group_handle == other.next_peer_group_handle
        &&& self.peer_groups == other.peer_groups
        &&& self.signals == other.signals
    }

    /// Only the round robin differs.
    pub open spec fn same_but_round_robin(&self, other: &Self) -> bool {
        &&& self.domains == other.domains
        &&& self.same_tables(other)
    }
}

/// The histories after `posts` have been handed out in order, each to the domain it names.
pub open spec fn posted(
    histories: Seq<Seq<DomainEvent>>,
    posts: Seq<(int, DomainEvent)>,
) -> Seq<Seq<DomainEvent>>
    decreases posts.len(),
{
    if posts.len() == 0 {
        histories
    } else {
        let before = posted(histories, posts.drop_last());
        let (domain, event) = posts.last();
        before.update(domain, before[domain].push(event))
    }
}

/// Handing out one more post.
pub proof fn lemma_posted_push(
    histories: Seq<Seq<DomainEvent>>,
    posts: Seq<(int, DomainEvent)>,
    k: int,
)
    requires
        0 <= k < posts.len(),
    ensures
        posted(histories, posts.take(k + 1)) == posted(histories, posts.take(k)).update(
            posts[k].0,
            posted(histories, posts.take(k))[posts[k].0].push(posts[k].1),
        ),
{
    assert(posts.take(k + 1).drop_last() =~= posts.take(k));
}

/// The answers of a series of lookups.
pub type Lookups = Seq<Result<MemoryRegionLocalDescriptor, FabricLibError>>;

/// Every lookup found its region.
pub open spec fn all_found(lookups: Lookups) -> bool {
    forall|k: int| #![trigger lookups[k]] 0 <= k < lookups.len() ==> lookups[k] is Ok
}

/// The lookup `k` is the first that failed.
pub open spec fn fails_first_at(lookups: Lookups, k: int) -> bool {
    &&& 0 <= k < lookups.len()
    &&& lookups[k] is Err
    &&& forall|j: int| #![trigger lookups[j]] 0 <= j < k ==> lookups[j] is Ok
}

/// Some lookup failed, all before it succeeded, and `result` is its error.
pub open spec fn first_failure<T>(lookups: Lookups, result: Result<T, FabricLibError>) -> bool {
    exists|k: int|
        #![trigger lookups[k]]
        fails_first_at(lookups, k) && result == Err::<T, FabricLibError>(lookups[k]->Err_0)
}

/// Why a routing cannot be followed by `n` domains.
pub open spec fn routing_fault(routing: DomainGroupRouting, n: int) -> Option<FabricLibError> {
    match routing {
        DomainGroupRouting::RoundRobinSharded { num_shards } => if num_shards > n {
            Some(
                FabricLibError::Custom(
                    "DomainGroupRouting::RoundRobinSharded.num_shards is greater than the number of domains",
                ),
            )
        } else {
            None
        },
        DomainGroupRouting::Pinned { domain_idx } => if domain_idx >= n {
            Some(
                FabricLibError::Custom("DomainGroupRouting::Pinned.domain_idx is out of bounds"),
            )
        } else {
            None
        },
    }
}

/// Into how many shards a routing divides a transfer.
pub open spec fn shard_count(routing: DomainGroupRouting) -> int {
    match routing {
        DomainGroupRouting::RoundRobinSharded { num_shards } => num_shards as int,
        DomainGroupRouting::Pinned { .. } => 1,
    }
}

/// Checks a routing against `n` domains; the number of shards.
pub fn check_routing(routing: DomainGroupRouting, n: usize) -> (shards: Result<
    usize,
    FabricLibError,
>)
    ensures
        match routing_fault(routing, n as int) {
            Some(fault) => shards == Err::<usize, FabricLibError>(fault),
            None => shards matches Ok(count) && count == shard_count(routing),
        },
{
    match routing {
        DomainGroupRouting::RoundRobinSharded { num_shards } => {
            if num_shards as usize > n {
                return Err(
                    FabricLibError::Custom(
                        "DomainGroupRouting::RoundRobinSharded.num_shards is greater than the number of domains",
                    ),
                );
            }
            Ok(num_shards as usize)
        },
        DomainGroupRouting::Pinned { domain_idx } => {
            if domain_idx as usize >= n {
                return Err(
                    FabricLibError::Custom(
                        "DomainGroupRouting::Pinned.domain_idx is out of bounds",
                    ),
                );
            }
            Ok(1)
        },
    }
}

/// The round robin's next step from where `k` steps led.
pub proof fn lemma_round_robin_step(rr: int, k: int, n: int)
    requires
        0 <= rr,
        0 <= k,
        0 < n,
    ensures
        ((rr + k) % n + 1) % n == (rr + k + 1) % n,
        0 <= (rr + k) % n < n,
{
    lemma_add_mod_noop_right(1, rr + k, n);
}

/// `(a + b) % n`, for a sum that may not fit in a word.
pub fn wrap_add(a: usize, b: usize, n: usize) -> (sum: usize)
    requires
        a < n,
        b <= n,
    ensures
        sum == (a + b) % (n as int),
        sum < n,
{
    let room: usize = n - a;
    proof {
        if b < room {
            lemma_small_mod((a + b) as nat, n as nat);
        } else {
            lemma_small_mod((b - room) as nat, n as nat);
            lemma_mod_add_multiples_vanish(b - room, n as int);
        }
    }
    if b < room {
        a + b
    } else {
        b - room
    }
}

impl<D: RdmaDomain, C, A, const N: usize> DomainGroup<D, C, A, N> {
    /// A group without transfers and without peers.
    pub fn new(domains: [D; N]) -> (group: Self)
        ensures
            group.wf(),
            group.domains == domains,
            group.write_ops@ == Map::<u64, WriteOpContext<C, A>>::empty(),
            group.rr_next == 0,
            group.next_peer_group_handle == 0,
            group.peer_groups@ == Map::<u32, PeerGroup>::empty(),
            group.signals@.len() == 0,
    {
        DomainGroup {
            domains,
            write_ops: HashMap::new(),
            rr_next: 0,
            next_peer_group_handle: 0,
            peer_groups: HashMap::new(),
            signals: Vec::new(),
        }
    }

    /// Begins to count the `writes` writes of a transfer.
    pub(crate) fn track(&mut self, id: TransferId, writes: usize, tx_counter: Option<C>)
        requires
            old(self).wf(),
        ensures
            final(self).wf(),
            final(self).domains == old(self).domains,
            final(self).rr_next == old(self).rr_next,
            final(self).same_peers(old(self)),
            final(self).write_ops@ == old(self).write_ops@.insert(
                id.0,
                fresh_context(writes, tx_counter),
            ),
    {
        self.write_ops.insert(
            id.0,
            WriteOpContext {
                num_used_domains: writes,
                cnt_domain_completion: 0,
                tx_counter,
                error: None,
                admission: None,
            },
        );
    }

    /// Hands one write to one domain.
    pub(crate) fn post(&mut self, domain: usize, id: TransferId, addr: DomainAddress, op: WriteOp)
        requires
            old(self).wf(),
            domain < N,
        ensures
            final(self).wf(),
            final(self).rr_next == old(self).rr_next,
            final(self).same_tables(old(self)),
            final(self).histories() == old(self).histories().update(
                domain as int,
                old(self).histories()[domain as int].push(
                    DomainEvent::Write { id, addr: addr@, op: op@ },
                ),
            ),
            forall|j: int|
                #![trigger final(self).domains[j]]
                0 <= j < N && j != domain ==> final(self).domains[j] == old(self).domains[j],
    {
        self.domains[domain].submit_write(id, addr, op);
        assert(self.histories() =~= old(self).histories().update(
            domain as int,
            old(self).histories()[domain as int].push(
                DomainEvent::Write { id, addr: addr@, op: op@ },
            ),
        ));
    }
}

} // verus!
