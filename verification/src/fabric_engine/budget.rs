//! A bound on the writes that wait in a domain's send queue.
use vstd::arithmetic::div_mod::{
    lemma_add_mod_noop, lemma_mod_add_multiples_vanish, lemma_mod_sub_multiples_vanish,
    lemma_small_mod, lemma_sub_mod_noop,
};
use vstd::prelude::*;

use crate::api::{DomainGroupRouting, TransferId, TransferRequest, WRITE_QP_LANES};
use crate::domain_group::DomainGroup;
use crate::domain_group::batch::{
    batch_is_accepted_if_it_can_be, batched_writes_keep_their_course,
};
use crate::domain_group::gather::gathered_writes_keep_their_course;
use crate::domain_group::imm::immediates_reach_every_peer;
use crate::domain_group::paged::written_pages_keep_their_course;
use crate::domain_group::scatter::scattered_writes_keep_their_course;
use crate::domain_group::single::contiguous_writes_keep_their_course;
use crate::error::FabricLibError;
use crate::provider::{DomainEvent, RdmaDomain};
use crate::rdma_op::{GroupWriteOp, Write};

verus! {

/// How many writes may wait on one domain, over all peers and both queue pairs.
pub const DOMAIN_WRITE_BUDGET: usize = 1024;

/// Checks that a domain with `used` waiting writes can take `required` more. More than the whole
/// budget is never possible; more than what is left may be later.
pub fn check_write_budget(used: usize, required: usize) -> (checked: Result<(), FabricLibError>)
    ensures
        checked == budget_check(used as int, required as int),
{
    if required > DOMAIN_WRITE_BUDGET {
        return Err(FabricLibError::Custom("batch exceeds domain SQ budget"));
    }
    if used.saturating_add(required) > DOMAIN_WRITE_BUDGET {
        return Err(FabricLibError::Full);
    }
    Ok(())
}

/// Whether a domain with `used` waiting writes can take `required` more.
pub open spec fn budget_check(used: int, required: int) -> Result<(), FabricLibError> {
    if required > DOMAIN_WRITE_BUDGET {
        Err(FabricLibError::Custom("batch exceeds domain SQ budget"))
    } else if used + required > DOMAIN_WRITE_BUDGET {
        Err(FabricLibError::Full)
    } else {
        Ok(())
    }
}

/// The waiting writes of one worker, per domain. The counters wrap around.
#[derive(Debug)]
pub struct WriteBudget {
    pub used: Vec<usize>,
}

/// A share of a budget, per domain. It is given back once: giving it back takes it away.
#[derive(Debug)]
pub struct WriteBudgetGuard {
    pub slots: Vec<(usize, usize)>,
}

/// `x`, wrapped around into a word.
pub open spec fn wrapped(x: int) -> usize {
    (x % (usize::MAX + 1)) as usize
}

/// What a share holds of one domain.
pub open spec fn share_of(slots: Seq<(usize, usize)>, domain: int) -> int
    decreases slots.len(),
{
    if slots.len() == 0 {
        0
    } else {
        share_of(slots.drop_last(), domain) + if slots.last().0 == domain {
            slots.last().1 as int
        } else {
            0
        }
    }
}

/// The counters after a share has been taken.
pub open spec fn charged(used: Seq<usize>, slots: Seq<(usize, usize)>) -> Seq<usize> {
    Seq::new(used.len(), |d: int| wrapped(used[d] + share_of(slots, d)))
}

/// The counters after a share has been given back.
pub open spec fn reclaimed(used: Seq<usize>, slots: Seq<(usize, usize)>) -> Seq<usize> {
    Seq::new(used.len(), |d: int| wrapped(used[d] - share_of(slots, d)))
}

/// All domains of a share exist.
pub open spec fn slots_fit(slots: Seq<(usize, usize)>, domains: int) -> bool {
    forall|k: int| #![trigger slots[k]] 0 <= k < slots.len() ==> slots[k].0 < domains
}

proof fn lemma_wrapped_step(x: int, delta: int)
    ensures
        wrapped(wrapped(x) + delta) == wrapped(x + delta),
        wrapped(wrapped(x) - delta) == wrapped(x - delta),
{
    let m = usize::MAX + 1;
    lemma_add_mod_noop(x, delta, m);
    lemma_add_mod_noop(x % m, delta, m);
    lemma_sub_mod_noop(x, delta, m);
    lemma_sub_mod_noop(x % m, delta, m);
    vstd::arithmetic::div_mod::lemma_mod_twice(x, m);
}

proof fn lemma_wrapped_small(x: usize)
    ensures
        wrapped(x as int) == x,
{
    lemma_small_mod(x as nat, (usize::MAX + 1) as nat);
}

/// Taking nothing changes nothing.
pub proof fn lemma_charged_nothing(used: Seq<usize>)
    ensures
        charged(used, Seq::empty()) == used,
{
    assert forall|d: int| 0 <= d < used.len() implies #[trigger] charged(used, Seq::empty())[d]
        == used[d] by {
        lemma_wrapped_small(used[d]);
    }
    assert(charged(used, Seq::empty()) =~= used);
}

/// Two shares are taken one after the other like one that holds both.
pub proof fn lemma_charged_push(
    used: Seq<usize>,
    slots: Seq<(usize, usize)>,
    slot: (usize, usize),
)
    ensures
        charged(charged(used, slots), seq![slot]) == charged(used, slots.push(slot)),
{
    let more = slots.push(slot);
    assert(more.drop_last() =~= slots);
    assert(seq![slot].drop_last() =~= Seq::<(usize, usize)>::empty());
    assert forall|d: int| 0 <= d < used.len() implies #[trigger] charged(
        charged(used, slots),
        seq![slot],
    )[d] == charged(used, more)[d] by {
        assert(share_of(Seq::<(usize, usize)>::empty(), d) == 0);
        lemma_wrapped_step(used[d] + share_of(slots, d), share_of(seq![slot], d));
    }
    assert(charged(charged(used, slots), seq![slot]) =~= charged(used, more));
}

/// What a share takes and gives back cancels out, also when other shares are taken meanwhile:
/// what is left are the other shares.
pub proof fn share_is_given_back_whole(
    used: Seq<usize>,
    share: Seq<(usize, usize)>,
    other: Seq<(usize, usize)>,
)
    ensures
        reclaimed(charged(used, share), share) == used,
        reclaimed(charged(charged(used, share), other), share) == charged(used, other),
{
    assert forall|d: int| 0 <= d < used.len() implies #[trigger] reclaimed(
        charged(used, share),
        share,
    )[d] == used[d] by {
        lemma_wrapped_step(used[d] + share_of(share, d), share_of(share, d));
        lemma_wrapped_small(used[d]);
    }
    assert(reclaimed(charged(used, share), share) =~= used);
    assert forall|d: int| 0 <= d < used.len() implies #[trigger] reclaimed(
        charged(charged(used, share), other),
        share,
    )[d] == charged(used, other)[d] by {
        let a = share_of(share, d);
        let b = share_of(other, d);
        lemma_wrapped_step(used[d] + a, b);
        lemma_wrapped_step(used[d] + a + b, a);
    }
    assert(reclaimed(charged(charged(used, share), other), share) =~= charged(used, other));
}

/// Where a request's writes count, and how many they are at most: on one domain, or on each.
pub open spec fn transfer_charge(request: &TransferRequest) -> (Option<usize>, usize) {
    match request {
        TransferRequest::Single(request) => (pinned_domain(request.domain), 1),
        TransferRequest::Gather(request) => (pinned_domain(request.domain), 1),
        TransferRequest::Imm(request) => (pinned_domain(request.domain), 1),
        TransferRequest::Barrier(request) => (
            pinned_domain(request.domain),
            request.dst_mrs@.len() as usize,
        ),
        TransferRequest::WriteBatch(batch) => (
            Some((batch.lane / WRITE_QP_LANES) as u8 as usize),
            batch.writes@.len() as usize,
        ),
        TransferRequest::Paged(request) => (
            None,
            if request.src_page_indices@.len() < usize::MAX {
                (request.src_page_indices@.len() + 1) as usize
            } else {
                usize::MAX
            },
        ),
        TransferRequest::Scatter(request) => (None, request.dsts@.len() as usize),
    }
}

/// The domain that a routing names.
pub open spec fn pinned_domain(routing: DomainGroupRouting) -> Option<usize> {
    match routing {
        DomainGroupRouting::RoundRobinSharded { .. } => None,
        DomainGroupRouting::Pinned { domain_idx } => Some(domain_idx as usize),
    }
}

/// The share that `count` writes take: of one domain, if it exists, or of each.
pub open spec fn charge_slots(domain: Option<usize>, count: usize, domains: nat) -> Seq<
    (usize, usize),
> {
    match domain {
        Some(d) => if d < domains {
            seq![(d, count)]
        } else {
            Seq::empty()
        },
        None => Seq::new(domains, |d: int| (d as usize, count)),
    }
}

fn find_pinned(routing: DomainGroupRouting) -> (domain: Option<usize>)
    ensures
        domain == pinned_domain(routing),
{
    match routing {
        DomainGroupRouting::RoundRobinSharded { .. } => None,
        DomainGroupRouting::Pinned { domain_idx } => Some(domain_idx as usize),
    }
}

fn find_charge(request: &TransferRequest) -> (charge: (Option<usize>, usize))
    ensures
        charge == transfer_charge(request),
{
    match request {
        TransferRequest::Single(request) => (find_pinned(request.domain), 1),
        TransferRequest::Gather(request) => (find_pinned(request.domain), 1),
        TransferRequest::Imm(request) => (find_pinned(request.domain), 1),
        TransferRequest::Barrier(request) => (
            find_pinned(request.domain),
            request.dst_mrs.len(),
        ),
        TransferRequest::WriteBatch(batch) => (
            Some(
                #[verifier::truncate]
                ((batch.lane / WRITE_QP_LANES) as u8) as usize,
            ),
            batch.writes.len(),
        ),
        TransferRequest::Paged(request) => (
            None,
            request.src_page_indices.len().saturating_add(1),
        ),
        TransferRequest::Scatter(request) => (None, request.dsts.len()),
    }
}

impl WriteBudget {
    /// Nothing waits on any of `domains` domains.
    pub fn new(domains: usize) -> (budget: Self)
        ensures
            budget.used@ == Seq::new(domains as nat, |d: int| 0usize),
    {
        let budget = WriteBudget { used: vec![0usize; domains] };
        assert(budget.used@ =~= Seq::new(domains as nat, |d: int| 0usize));
        budget
    }

    /// Takes a share.
    pub fn charge(&mut self, slots: Vec<(usize, usize)>) -> (guard: WriteBudgetGuard)
        requires
            slots_fit(slots@, old(self).used@.len() as int),
        ensures
            guard.slots@ == slots@,
            final(self).used@ == charged(old(self).used@, slots@),
    {
        let ghost start = self.used@;
        let mut k: usize = 0;
        proof {
            assert(slots@.take(0) =~= Seq::<(usize, usize)>::empty());
            assert forall|d: int| 0 <= d < start.len() implies #[trigger] charged(
                start,
                slots@.take(0),
            )[d] == start[d] by {
                lemma_wrapped_small(start[d]);
            }
            assert(charged(start, slots@.take(0)) =~= start);
        }
        while k < slots.len()
            invariant
                k <= slots@.len(),
                slots_fit(slots@, start.len() as int),
                self.used@ == charged(start, slots@.take(k as int)),
            decreases slots@.len() - k,
        {
            let (domain, count) = slots[k];
            let ghost before = self.used@;
            assert(slots@[k as int].0 < start.len());
            let old_count: usize = self.used[domain];
            self.used.set(domain, old_count.wrapping_add(count));
            proof {
                let done = slots@.take(k as int);
                let more = slots@.take(k + 1);
                assert(more.drop_last() =~= done);
                assert forall|d: int| 0 <= d < start.len() implies self.used@[d]
                    == #[trigger] charged(start, more)[d] by {
                    if d == domain {
                        lemma_wrapping_add(old_count, count);
                        lemma_wrapped_step(start[d] + share_of(done, d), count as int);
                    }
                }
                assert(self.used@ =~= charged(start, more));
            }
            k = k + 1;
        }
        assert(slots@.take(slots@.len() as int) =~= slots@);
        WriteBudgetGuard { slots }
    }

    /// Takes the share that a transfer's writes need, however much that is.
    pub fn charge_transfer(&mut self, request: &TransferRequest) -> (guard: WriteBudgetGuard)
        ensures
            guard.slots@ == charge_slots(
                transfer_charge(request).0,
                transfer_charge(request).1,
                old(self).used@.len(),
            ),
            final(self).used@ == charged(old(self).used@, guard.slots@),
    {
        let (domain, count) = find_charge(request);
        let domains: usize = self.used.len();
        let mut slots: Vec<(usize, usize)> = Vec::new();
        match domain {
            Some(domain) => {
                if domain < domains {
                    slots.push((domain, count));
                }
                assert(slots@ =~= charge_slots(Some(domain), count, domains as nat));
            },
            None => {
                let mut d: usize = 0;
                while d < domains
                    invariant
                        d <= domains,
                        slots@ == Seq::new(d as nat, |i: int| (i as usize, count)),
                    decreases domains - d,
                {
                    slots.push((d, count));
                    d = d + 1;
                    assert(slots@ =~= Seq::new(d as nat, |i: int| (i as usize, count)));
                }
            },
        }
        assert(slots@ == charge_slots(domain, count, domains as nat));
        self.charge(slots)
    }

    /// Gives a share back.
    pub fn release(&mut self, guard: WriteBudgetGuard)
        requires
            slots_fit(guard.slots@, old(self).used@.len() as int),
        ensures
            final(self).used@ == reclaimed(old(self).used@, guard.slots@),
    {
        let slots = guard.slots;
        let ghost start = self.used@;
        let mut k: usize = 0;
        proof {
            assert(slots@.take(0) =~= Seq::<(usize, usize)>::empty());
            assert forall|d: int| 0 <= d < start.len() implies #[trigger] reclaimed(
                start,
                slots@.take(0),
            )[d] == start[d] by {
                lemma_wrapped_small(start[d]);
            }
            assert(reclaimed(start, slots@.take(0)) =~= start);
        }
        while k < slots.len()
            invariant
                k <= slots@.len(),
                slots_fit(slots@, start.len() as int),
                self.used@ == reclaimed(start, slots@.take(k as int)),
            decreases slots@.len() - k,
        {
            let (domain, count) = slots[k];
            assert(slots@[k as int].0 < start.len());
            let old_count: usize = self.used[domain];
            self.used.set(domain, old_count.wrapping_sub(count));
            proof {
                let done = slots@.take(k as int);
                let more = slots@.take(k + 1);
                assert(more.drop_last() =~= done);
                assert forall|d: int| 0 <= d < start.len() implies self.used@[d]
                    == #[trigger] reclaimed(start, more)[d] by {
                    if d == domain {
                        lemma_wrapping_sub(old_count, count);
                        lemma_wrapped_step(start[d] - share_of(done, d), count as int);
                    }
                }
                assert(self.used@ =~= reclaimed(start, more));
            }
            k = k + 1;
        }
        assert(slots@.take(slots@.len() as int) =~= slots@);
    }
}

proof fn lemma_wrapping_add(a: usize, b: usize)
    ensures
        a.wrapping_add(b) == wrapped(a + b),
{
    let m = usize::MAX + 1;
    if a + b > usize::MAX {
        lemma_small_mod((a + b - m) as nat, m as nat);
        lemma_mod_sub_multiples_vanish(a + b, m);
    } else {
        lemma_small_mod((a + b) as nat, m as nat);
    }
}

proof fn lemma_wrapping_sub(a: usize, b: usize)
    ensures
        a.wrapping_sub(b) == wrapped(a - b),
{
    let m = usize::MAX + 1;
    if a < b {
        lemma_small_mod((a - b + m) as nat, m as nat);
        lemma_mod_add_multiples_vanish(a - b, m);
    } else {
        lemma_small_mod((a - b) as nat, m as nat);
    }
}

/// Writes are taken exactly if, with those that wait, there are no more than 1024. A refusal as
/// full is for the moment only: the same writes are taken when nothing waits; any other refusal
/// is for good.
pub proof fn budget_is_a_bound(used: int, required: int)
    requires
        0 <= used,
        0 <= required,
    ensures
        budget_check(used, required) is Ok <==> used + required <= 1024,
        budget_check(used, required) == Err::<(), FabricLibError>(FabricLibError::Full)
            ==> budget_check(0, required) is Ok,
        budget_check(used, required) matches Err(error) && error != FabricLibError::Full
            ==> budget_check(0, required) is Err,
{
}

/// Taking a share adds what it holds to what waits on each domain, and giving it back takes that
/// away again, as long as the counters do not wrap around.
pub proof fn shares_are_counted(used: Seq<usize>, slots: Seq<(usize, usize)>, d: int)
    requires
        0 <= d < used.len(),
    ensures
        used[d] + share_of(slots, d) <= usize::MAX ==> charged(used, slots)[d] == used[d]
            + share_of(slots, d),
        share_of(slots, d) <= used[d] ==> reclaimed(used, slots)[d] == used[d] - share_of(slots, d),
        share_of(slots, d) >= 0,
{
    lemma_share_of_nonneg(slots, d);
    if used[d] + share_of(slots, d) <= usize::MAX {
        lemma_small_mod((used[d] + share_of(slots, d)) as nat, (usize::MAX + 1) as nat);
    }
    if share_of(slots, d) <= used[d] {
        lemma_small_mod((used[d] - share_of(slots, d)) as nat, (usize::MAX + 1) as nat);
    }
}

proof fn lemma_share_of_nonneg(slots: Seq<(usize, usize)>, domain: int)
    ensures
        share_of(slots, domain) >= 0,
    decreases slots.len(),
{
    if slots.len() > 0 {
        lemma_share_of_nonneg(slots.drop_last(), domain);
    }
}

/// How many writes wait in a domain's queue because of what the domain was given.
pub open spec fn waiting_writes(event: DomainEvent) -> int {
    match event {
        DomainEvent::Write { op, .. } => match op {
            Write::Batch { writes, .. } => writes.len() as int,
            Write::Paged(op) => op.page_indices_end - op.page_indices_beg + 1,
            _ => 1,
        },
        DomainEvent::GroupWrite { op: GroupWriteOp::Scatter(op), .. } => op.dst_end - op.dst_beg,
        _ => 0,
    }
}

/// What a share takes of the domain `d`.
proof fn lemma_charge_slots(domain: Option<usize>, count: usize, domains: nat, d: int)
    requires
        0 <= d < domains <= usize::MAX,
    ensures
        share_of(charge_slots(domain, count, domains), d) == match domain {
            Some(one) => if one == d {
                count as int
            } else {
                0
            },
            None => count as int,
        },
{
    match domain {
        Some(one) => {
            let slots = charge_slots(domain, count, domains);
            if one < domains {
                assert(slots.drop_last() =~= Seq::<(usize, usize)>::empty());
                assert(share_of(slots.drop_last(), d) == 0);
            }
        },
        None => {
            lemma_even_charge(count, domains, d);
        },
    }
}

proof fn lemma_even_charge(count: usize, domains: nat, d: int)
    requires
        0 <= d,
        domains <= usize::MAX,
    ensures
        share_of(Seq::new(domains, |i: int| (i as usize, count)), d) == if d < domains {
            count as int
        } else {
            0
        },
    decreases domains,
{
    let slots = Seq::new(domains, |i: int| (i as usize, count));
    if domains > 0 {
        let less = (domains - 1) as nat;
        lemma_even_charge(count, less, d);
        assert(slots.drop_last() =~= Seq::new(less, |i: int| (i as usize, count)));
    }
}

/// The share of a transfer covers all the writes that its domains are given: on each domain it
/// holds at least as many as wait there because of the transfer. Pinned transfers and batches
/// take nothing of other domains.
pub proof fn share_covers_the_writes<D: RdmaDomain, C, A, const N: usize>(
    after: DomainGroup<D, C, A, N>,
    before: DomainGroup<D, C, A, N>,
    id: TransferId,
    request: TransferRequest,
    counter: Option<C>,
    d: int,
)
    requires
        before.wf(),
        before.submittable(&request),
        after.submitted(&before, id, &request, counter, Ok(())),
        !(request is Imm || request is Barrier),
        request matches TransferRequest::Paged(pages) ==> pages.src_page_indices@.len()
            < usize::MAX,
        0 <= d < N <= 256,
    ensures
        ({
            let (domain, count) = transfer_charge(&request);
            let share = share_of(charge_slots(domain, count, N as nat), d);
            let given = after.given(&before, d);
            &&& given.len() <= 1
            &&& given.len() == 1 ==> 0 < waiting_writes(given[0]) <= share
            &&& match request {
                TransferRequest::Single(request) => share <= 1 && (
                request.domain matches DomainGroupRouting::Pinned { domain_idx } && domain_idx != d
                    ==> share == 0),
                TransferRequest::Gather(request) => share <= 1 && (
                request.domain matches DomainGroupRouting::Pinned { domain_idx } && domain_idx != d
                    ==> share == 0),
                TransferRequest::WriteBatch(request) => share == if request.lane as int / 2 == d {
                    request.writes@.len() as int
                } else {
                    0
                },
                TransferRequest::Paged(request) => share <= request.src_page_indices@.len() + 1,
                TransferRequest::Scatter(request) => share <= request.dsts@.len(),
                _ => true,
            }
        }),
{
    let (domain, count) = transfer_charge(&request);
    lemma_charge_slots(domain, count, N as nat, d);
    let given = after.given(&before, d);
    match request {
        TransferRequest::Single(request) => {
            contiguous_writes_keep_their_course(after, before, id, request, counter);
        },
        TransferRequest::Gather(request) => {
            gathered_writes_keep_their_course(after, before, id, request, counter);
        },
        TransferRequest::WriteBatch(request) => {
            let own = batched_writes_keep_their_course(after, before, id, request, counter);
            batch_is_accepted_if_it_can_be(after, before, id, request, counter, Ok(()));
            assert(request.lane / WRITE_QP_LANES == own);
        },
        TransferRequest::Paged(request) => {
            assert(request.src_page_indices.len() == request.src_page_indices@.len());
            let (parts, size) = written_pages_keep_their_course(
                after,
                before,
                id,
                request,
                counter,
            );
        },
        TransferRequest::Scatter(request) => {
            assert(request.dsts.len() == request.dsts@.len());
            scattered_writes_keep_their_course(after, before, id, request, counter);
        },
        _ => {},
    }
}

/// The share of an immediate, to one peer or to many, covers the writes that its domains are
/// given; a pinned one takes nothing of other domains.
pub proof fn share_covers_the_immediates<D: RdmaDomain, C, A, const N: usize>(
    after: DomainGroup<D, C, A, N>,
    before: DomainGroup<D, C, A, N>,
    id: TransferId,
    request: TransferRequest,
    counter: Option<C>,
    d: int,
)
    requires
        before.wf(),
        before.submittable(&request),
        after.submitted(&before, id, &request, counter, Ok(())),
        request is Imm || request is Barrier,
        0 <= d < N,
    ensures
        ({
            let (domain, count) = transfer_charge(&request);
            let share = share_of(charge_slots(domain, count, N as nat), d);
            let (routing, peers) = match request {
                TransferRequest::Imm(request) => (request.domain, 1),
                TransferRequest::Barrier(request) => (
                    request.domain,
                    request.dst_mrs@.len() as int,
                ),
                _ => arbitrary(),
            };
            &&& after.given(&before, d).len() <= share <= peers
            &&& (routing matches DomainGroupRouting::Pinned { domain_idx } && domain_idx != d
                ==> share == 0)
        }),
{
    let (domain, count) = transfer_charge(&request);
    lemma_charge_slots(domain, count, N as nat, d);
    let given = after.given(&before, d);
    match request {
        TransferRequest::Imm(request) => {
            immediates_reach_every_peer(
                after,
                before,
                id,
                request.imm_data,
                seq![request.dst_mr],
                request.domain,
                counter,
            );
        },
        TransferRequest::Barrier(request) => {
            assert(request.dst_mrs.len() == request.dst_mrs@.len());
            immediates_reach_every_peer(
                after,
                before,
                id,
                request.imm_data,
                request.dst_mrs@,
                request.domain,
                counter,
            );
        },
        _ => {},
    }
}

} // verus!
