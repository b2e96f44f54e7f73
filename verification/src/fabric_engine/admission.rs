//! The admission of batches: all of a list are admitted, or none is.
use vstd::arithmetic::div_mod::lemma_small_mod;
use vstd::prelude::*;

use crate::api::{TransferId, TransferRequest, WRITE_QP_LANES, WriteBatchRequest};
use crate::error::FabricLibError;
use crate::fabric_engine::FabricEngine;
use crate::fabric_engine::batches::{lemma_entry_of_lane, prepared_batches_keep_their_errand};
use crate::fabric_engine::budget::{
    DOMAIN_WRITE_BUDGET, WriteBudget, WriteBudgetGuard, budget_check, budget_is_a_bound, charged,
    check_write_budget, lemma_charged_nothing, lemma_charged_push, share_of, shares_are_counted,
};
use crate::fabric_engine::routing::same_errand;

verus! {

/// Batches and their ids.
pub type BatchList = Seq<(TransferId, WriteBatchRequest)>;

/// The batches that go to one worker together, each with its share of the budget.
pub struct RoutedBatches {
    pub worker: usize,
    pub batches: Vec<(TransferId, WriteBatchRequest, WriteBudgetGuard)>,
}

impl FabricEngine {
    /// The batches that go to the worker `i`, in order.
    pub open spec fn routed(&self, batches: BatchList, i: int) -> BatchList
        decreases batches.len(),
    {
        if batches.len() == 0 {
            Seq::empty()
        } else {
            let before = self.routed(batches.drop_last(), i);
            if self.batch_worker(&batches.last().1) == i {
                before.push(batches.last())
            } else {
                before
            }
        }
    }

    /// The share of the budget that a batch takes: its writes, on its domain.
    pub open spec fn batch_slot(&self, batch: &WriteBatchRequest) -> (usize, usize) {
        (
            (self.batch_lane(batch) / (WRITE_QP_LANES as int)) as usize,
            batch.writes@.len() as usize,
        )
    }

    /// The share of the budget that batches take together.
    pub open spec fn batch_slots(&self, list: BatchList) -> Seq<(usize, usize)> {
        Seq::new(list.len(), |k: int| self.batch_slot(&list[k].1))
    }

    /// What the first `upto` batches break.
    pub open spec fn batches_fault(&self, batches: BatchList, upto: int) -> Option<FabricLibError>
        decreases upto,
    {
        if upto <= 0 {
            None
        } else if self.batches_fault(batches, upto - 1) is Some {
            self.batches_fault(batches, upto - 1)
        } else {
            self.batch_fault(&batches[upto - 1].1)
        }
    }

    /// What batches for one worker break of its budget, on its first `upto` domains.
    pub open spec fn budget_fault(&self, used: Seq<usize>, list: BatchList, upto: int) -> Option<
        FabricLibError,
    >
        decreases upto,
    {
        if upto <= 0 {
            None
        } else if self.budget_fault(used, list, upto - 1) is Some {
            self.budget_fault(used, list, upto - 1)
        } else {
            match budget_check(
                used[upto - 1] as int,
                share_of(self.batch_slots(list), upto - 1),
            ) {
                Ok(_) => None,
                Err(error) => Some(error),
            }
        }
    }

    /// Why the worker `i` does not take its batches: it is busy, or its budget does not suffice.
    pub open spec fn worker_fault(
        &self,
        free: bool,
        budget: WriteBudget,
        batches: BatchList,
        i: int,
    ) -> Option<FabricLibError> {
        let list = self.routed(batches, i);
        if list.len() == 0 {
            None
        } else if !free {
            Some(FabricLibError::Full)
        } else {
            self.budget_fault(budget.used@, list, budget.used@.len() as int)
        }
    }

    /// Why the first `upto` workers do not take their batches; `free` says which of them are not
    /// busy.
    pub open spec fn admission_fault(
        &self,
        free: Seq<bool>,
        budgets: Seq<WriteBudget>,
        batches: BatchList,
        upto: int,
    ) -> Option<FabricLibError>
        decreases upto,
    {
        if upto <= 0 {
            None
        } else if self.admission_fault(free, budgets, batches, upto - 1) is Some {
            self.admission_fault(free, budgets, batches, upto - 1)
        } else {
            self.worker_fault(free[upto - 1], budgets[upto - 1], batches, upto - 1)
        }
    }

    /// The batches of one worker, prepared.
    pub open spec fn group_prepared(
        &self,
        before: BatchList,
        after: Seq<(TransferId, WriteBatchRequest)>,
    ) -> bool {
        &&& after.len() == before.len()
        &&& forall|k: int|
            #![trigger after[k]]
            0 <= k < after.len() ==> after[k].0 == before[k].0 && self.batch_prepared(
                &before[k].1,
                &after[k].1,
            ) && self.batch_fault(&before[k].1) is None
    }

    /// The batches of one worker, prepared and with their shares of the budget.
    pub open spec fn group_admitted(
        &self,
        before: BatchList,
        after: Seq<(TransferId, WriteBatchRequest, WriteBudgetGuard)>,
    ) -> bool {
        &&& after.len() == before.len()
        &&& forall|k: int|
            #![trigger after[k]]
            0 <= k < after.len() ==> after[k].0 == before[k].0 && self.batch_prepared(
                &before[k].1,
                &after[k].1,
            ) && after[k].2.slots@ == seq![self.batch_slot(&before[k].1)]
    }

    /// Every worker that batches go to has its group, in the order of the workers, and no other
    /// has one.
    pub open spec fn groups_admitted(&self, batches: BatchList, groups: Seq<RoutedBatches>) -> bool {
        &&& forall|g: int|
            #![trigger groups[g]]
            0 <= g < groups.len() ==> groups[g].worker < self.workers@.len() && self.routed(
                batches,
                groups[g].worker as int,
            ).len() > 0 && self.group_admitted(
                self.routed(batches, groups[g].worker as int),
                groups[g].batches@,
            )
        &&& forall|g: int, h: int|
            #![trigger groups[g], groups[h]]
            0 <= g < h < groups.len() ==> groups[g].worker < groups[h].worker
        &&& forall|i: int|
            0 <= i < self.workers@.len() && (#[trigger] self.routed(batches, i)).len() > 0
                ==> exists|g: int|
                #![trigger groups[g]]
                0 <= g < groups.len() && groups[g].worker == i
    }

    /// There is a budget for each worker; for a worker that batches can go to, it has room for
    /// each domain that they can name.
    pub open spec fn budgets_fit(&self, budgets: Seq<WriteBudget>) -> bool {
        &&& budgets.len() == self.workers@.len()
        &&& forall|i: int|
            #![trigger budgets[i]]
            0 <= i < budgets.len() && (self.host_striped || i == 0) ==> budgets[i].used@.len()
                >= self.nets_per_gpu
    }

    /// Without striping, batches go to the first worker only.
    proof fn lemma_batches_reach(&self, batches: BatchList, i: int)
        requires
            self.routed(batches, i).len() > 0,
        ensures
            self.host_striped || i == 0,
        decreases batches.len(),
    {
        if self.batch_worker(&batches.last().1) != i {
            self.lemma_batches_reach(batches.drop_last(), i);
        }
    }

    /// The worker `i` is asked whether it is free: batches go to it, and all workers before it
    /// have taken theirs.
    pub open spec fn is_asked(
        &self,
        free: Seq<bool>,
        budgets: Seq<WriteBudget>,
        batches: BatchList,
        i: int,
    ) -> bool {
        self.routed(batches, i).len() > 0 && self.admission_fault(free, budgets, batches, i) is None
    }

    /// The workers that batches go to have been asked in order whether they are free, each once,
    /// up to the first that does not take them; `free` is what they said. The calls have led from
    /// each of `links` to the next, which is the same for a worker that was not asked.
    pub open spec fn asked_workers<S, F: Fn(S, usize) -> (S, bool)>(
        &self,
        is_free: F,
        links: Seq<S>,
        free: Seq<bool>,
        budgets: Seq<WriteBudget>,
        batches: BatchList,
    ) -> bool {
        &&& free.len() == self.workers@.len()
        &&& links.len() == free.len() + 1
        &&& forall|i: int|
            #![trigger free[i]]
            0 <= i < free.len() ==> if self.is_asked(free, budgets, batches, i) {
                call_ensures(is_free, (links[i], i as usize), (links[i + 1], free[i]))
            } else {
                links[i + 1] == links[i]
            }
    }

    /// What becomes of a list of batches that none of which is refused.
    pub open spec fn admission_outcome(
        &self,
        free: Seq<bool>,
        batches: BatchList,
        before: Seq<WriteBudget>,
        after: Seq<WriteBudget>,
        admitted: Result<Vec<RoutedBatches>, FabricLibError>,
    ) -> bool {
        match self.admission_fault(free, before, batches, self.workers@.len() as int) {
            Some(fault) => {
                &&& admitted == Err::<Vec<RoutedBatches>, FabricLibError>(fault)
                &&& after == before
            },
            None => {
                &&& admitted matches Ok(groups) && self.groups_admitted(batches, groups@)
                &&& after.len() == before.len()
                &&& forall|i: int|
                    #![trigger after[i]]
                    0 <= i < after.len() ==> after[i].used@ == charged(
                        before[i].used@,
                        self.batch_slots(self.routed(batches, i)),
                    )
            },
        }
    }

    proof fn lemma_batches_fault_stays(&self, batches: BatchList, from: int, to: int)
        requires
            from <= to,
            self.batches_fault(batches, from) is Some,
        ensures
            self.batches_fault(batches, to) == self.batches_fault(batches, from),
        decreases to - from,
    {
        if from < to {
            self.lemma_batches_fault_stays(batches, from, to - 1);
        }
    }

    proof fn lemma_budget_fault_stays(
        &self,
        used: Seq<usize>,
        list: BatchList,
        from: int,
        to: int,
    )
        requires
            from <= to,
            self.budget_fault(used, list, from) is Some,
        ensures
            self.budget_fault(used, list, to) == self.budget_fault(used, list, from),
        decreases to - from,
    {
        if from < to {
            self.lemma_budget_fault_stays(used, list, from, to - 1);
        }
    }

    proof fn lemma_admission_fault_stays(
        &self,
        free: Seq<bool>,
        budgets: Seq<WriteBudget>,
        batches: BatchList,
        from: int,
        to: int,
    )
        requires
            from <= to,
            self.admission_fault(free, budgets, batches, from) is Some,
        ensures
            self.admission_fault(free, budgets, batches, to) == self.admission_fault(
                free,
                budgets,
                batches,
                from,
            ),
        decreases to - from,
    {
        if from < to {
            self.lemma_admission_fault_stays(free, budgets, batches, from, to - 1);
        }
    }

    /// Faults of the first workers do not depend on what later workers say.
    proof fn lemma_admission_prefix(
        &self,
        free: Seq<bool>,
        other: Seq<bool>,
        budgets: Seq<WriteBudget>,
        batches: BatchList,
        upto: int,
    )
        requires
            forall|i: int| 0 <= i < upto ==> free[i] == other[i],
        ensures
            self.admission_fault(free, budgets, batches, upto) == self.admission_fault(
                other,
                budgets,
                batches,
                upto,
            ),
        decreases upto,
    {
        if upto > 0 {
            self.lemma_admission_prefix(free, other, budgets, batches, upto - 1);
        }
    }

    /// Prepares every batch and sorts them by worker.
    fn route_batches(&self, batches: Vec<(TransferId, WriteBatchRequest)>) -> (routed: Result<
        Vec<Vec<(TransferId, WriteBatchRequest)>>,
        FabricLibError,
    >)
        requires
            self.wf(),
        ensures
            match self.batches_fault(batches@, batches@.len() as int) {
                Some(fault) => routed == Err::<
                    Vec<Vec<(TransferId, WriteBatchRequest)>>,
                    FabricLibError,
                >(fault),
                None => {
                    &&& routed matches Ok(groups) && groups@.len() == self.workers@.len()
                        && forall|i: int|
                        #![trigger groups@[i]]
                        0 <= i < groups@.len() ==> self.group_prepared(
                            self.routed(batches@, i),
                            groups@[i]@,
                        )
                },
            },
    {
        let count: usize = self.workers.len();
        let ghost all = batches@;
        let mut groups: Vec<Vec<(TransferId, WriteBatchRequest)>> = Vec::with_capacity(count);
        let mut g: usize = 0;
        while g < count
            invariant
                g <= count,
                groups@.len() == g,
                forall|i: int| #![trigger groups@[i]] 0 <= i < g ==> groups@[i]@.len() == 0,
            decreases count - g,
        {
            groups.push(Vec::new());
            g = g + 1;
        }
        proof {
            assert(all.take(0) =~= Seq::<(TransferId, WriteBatchRequest)>::empty());
            assert forall|i: int| #![trigger groups@[i]] 0 <= i < groups@.len() implies
                self.group_prepared(self.routed(all.take(0), i), groups@[i]@) by {}
        }
        for item in it: batches
            invariant
                self.wf(),
                all == it.seq(),
                all == batches@,
                count == self.workers@.len(),
                groups@.len() == count,
                self.batches_fault(all, it.index() as int) is None,
                forall|i: int|
                    #![trigger groups@[i]]
                    0 <= i < count ==> self.group_prepared(
                        self.routed(all.take(it.index() as int), i),
                        groups@[i]@,
                    ),
        {
            let ghost k = it.index() as int;
            assert(all[k] == item);
            let (id, batch) = item;
            let (index, prepared) = match self.prepare_write_batch(batch) {
                Ok(prepared) => prepared,
                Err(fault) => {
                    proof {
                        self.lemma_batches_fault_stays(all, k + 1, all.len() as int);
                    }
                    return Err(fault);
                },
            };
            let ghost earlier = groups@;
            let ghost before = self.routed(all.take(k), index as int);
            groups[index].push((id, prepared));
            proof {
                assert(all.take(k + 1).drop_last() =~= all.take(k));
                assert(all.take(k + 1).last() == item);
                assert forall|i: int| #![trigger groups@[i]] 0 <= i < count implies
                    self.group_prepared(self.routed(all.take(k + 1), i), groups@[i]@) by {
                    assert(self.group_prepared(self.routed(all.take(k), i), earlier[i]@));
                    if i == index {
                        assert(groups@[i]@ =~= earlier[i]@.push((id, prepared)));
                    } else {
                        assert(groups@[i] == earlier[i]);
                    }
                }
            }
        }
        assert(all.take(all.len() as int) =~= all);
        Ok(groups)
    }

    /// Checks that one worker's budget suffices for its batches.
    fn check_group(
        &self,
        budget: &WriteBudget,
        group: &Vec<(TransferId, WriteBatchRequest)>,
        Ghost(list): Ghost<BatchList>,
    ) -> (checked: Result<(), FabricLibError>)
        requires
            self.wf(),
            self.group_prepared(list, group@),
        ensures
            match self.budget_fault(budget.used@, list, budget.used@.len() as int) {
                Some(fault) => checked == Err::<(), FabricLibError>(fault),
                None => checked is Ok,
            },
    {
        let domains: usize = budget.used.len();
        let ghost slots = self.batch_slots(list);
        let mut d: usize = 0;
        while d < domains
            invariant
                d <= domains,
                domains == budget.used@.len(),
                self.wf(),
                self.group_prepared(list, group@),
                slots == self.batch_slots(list),
                self.budget_fault(budget.used@, list, d as int) is None,
            decreases domains - d,
        {
            let mut required: usize = 0;
            let mut k: usize = 0;
            assert(slots.take(0) =~= Seq::<(usize, usize)>::empty());
            while k < group.len()
                invariant
                    k <= group@.len(),
                    group@.len() == slots.len(),
                    self.wf(),
                    self.group_prepared(list, group@),
                    slots == self.batch_slots(list),
                    ({
                        let share = share_of(slots.take(k as int), d as int);
                        required == if share > usize::MAX {
                            usize::MAX as int
                        } else {
                            share
                        }
                    }),
                decreases group@.len() - k,
            {
                let entry = &group[k];
                proof {
                    assert(slots.take(k + 1).drop_last() =~= slots.take(k as int));
                    assert(slots.take(k + 1).last() == slots[k as int]);
                    assert(group@[k as int].0 == list[k as int].0);
                    self.lemma_batch_places(&list[k as int].1);
                    lemma_share_nonneg(slots.take(k as int), d as int);
                    lemma_share_nonneg(slots.take(k + 1), d as int);
                }
                if entry.1.lane / WRITE_QP_LANES == d {
                    required = required.saturating_add(entry.1.writes.len());
                }
                k = k + 1;
            }
            assert(slots.take(slots.len() as int) =~= slots);
            match check_write_budget(budget.used[d], required) {
                Ok(_) => {},
                Err(error) => {
                    proof {
                        self.lemma_budget_fault_stays(
                            budget.used@,
                            list,
                            d + 1,
                            domains as int,
                        );
                    }
                    return Err(error);
                },
            }
            d = d + 1;
        }
        Ok(())
    }
}

impl FabricEngine {
    /// Takes the shares of one worker's batches.
    fn charge_group(
        &self,
        budget: &mut WriteBudget,
        group: Vec<(TransferId, WriteBatchRequest)>,
        Ghost(list): Ghost<BatchList>,
    ) -> (charged_group: Vec<(TransferId, WriteBatchRequest, WriteBudgetGuard)>)
        requires
            self.wf(),
            old(budget).used@.len() >= self.nets_per_gpu,
            self.group_prepared(list, group@),
        ensures
            self.group_admitted(list, charged_group@),
            final(budget).used@ == charged(old(budget).used@, self.batch_slots(list)),
    {
        let ghost start = budget.used@;
        let ghost slots = self.batch_slots(list);
        let ghost all = group@;
        let mut result: Vec<(TransferId, WriteBatchRequest, WriteBudgetGuard)> = Vec::new();
        proof {
            assert(slots.take(0) =~= Seq::<(usize, usize)>::empty());
            lemma_charged_nothing(start);
        }
        for item in it: group
            invariant
                self.wf(),
                all == it.seq(),
                self.group_prepared(list, all),
                slots == self.batch_slots(list),
                start.len() >= self.nets_per_gpu,
                budget.used@ == charged(start, slots.take(it.index() as int)),
                result@.len() == it.index(),
                forall|k: int|
                    #![trigger result@[k]]
                    0 <= k < result@.len() ==> result@[k].0 == list[k].0 && self.batch_prepared(
                        &list[k].1,
                        &result@[k].1,
                    ) && result@[k].2.slots@ == seq![self.batch_slot(&list[k].1)],
        {
            let ghost k = it.index() as int;
            proof {
                assert(all[k] == item);
                assert(all[k].0 == list[k].0);
                self.lemma_batch_places(&list[k].1);
                lemma_charged_push(start, slots.take(k), slots[k]);
                assert(slots.take(k).push(slots[k]) =~= slots.take(k + 1));
            }
            let (id, batch) = item;
            let domain: usize = batch.lane / WRITE_QP_LANES;
            let writes: usize = batch.writes.len();
            let share = vec![(domain, writes)];
            assert(share@ =~= seq![slots[k]]);
            let guard = budget.charge(share);
            result.push((id, batch, guard));
        }
        assert(slots.take(slots.len() as int) =~= slots);
        result
    }

    /// Admits a list of batches: all of them, or none.
    ///
    /// Every batch is checked before any worker is asked, every worker that is to get a batch is
    /// asked once before any share is taken, and only then are the shares taken. `is_free` tells
    /// whether a worker can take commands at this moment; `link` is handed to each call and comes
    /// back from it. What is returned is to be handed to the workers; it cannot be refused any
    /// more.
    pub fn try_submit_write_batches<S, F: Fn(S, usize) -> (S, bool)>(
        &self,
        batches: Vec<(TransferId, WriteBatchRequest)>,
        budgets: &mut Vec<WriteBudget>,
        link: S,
        is_free: F,
    ) -> (done: (S, Result<Vec<RoutedBatches>, FabricLibError>))
        requires
            self.wf(),
            self.budgets_fit(old(budgets)@),
            forall|s: S, i: usize| i < self.workers@.len() ==> call_requires(is_free, (s, i)),
        ensures
            if self.stopped {
                &&& done.0 == link
                &&& done.1 == Err::<Vec<RoutedBatches>, FabricLibError>(
                    FabricLibError::Custom("engine is stopped"),
                )
                &&& final(budgets)@ == old(budgets)@
            } else {
                match self.batches_fault(batches@, batches@.len() as int) {
                    Some(fault) => {
                        &&& done.0 == link
                        &&& done.1 == Err::<Vec<RoutedBatches>, FabricLibError>(fault)
                        &&& final(budgets)@ == old(budgets)@
                    },
                    None => exists|links: Seq<S>, free: Seq<bool>|
                        {
                            &&& #[trigger] self.asked_workers(
                                is_free,
                                links,
                                free,
                                old(budgets)@,
                                batches@,
                            )
                            &&& links[0] == link
                            &&& links.last() == done.0
                            &&& self.admission_outcome(
                                free,
                                batches@,
                                old(budgets)@,
                                final(budgets)@,
                                done.1,
                            )
                        },
                }
            },
    {
        if self.stopped {
            return (link, Err(FabricLibError::Custom("engine is stopped")));
        }
        let ghost given = batches@;
        let ghost before = budgets@;
        let groups = match self.route_batches(batches) {
            Ok(groups) => groups,
            Err(fault) => {
                return (link, Err(fault));
            },
        };
        let count: usize = self.workers.len();
        let ghost mut free: Seq<bool> = Seq::new(count as nat, |i: int| true);
        let ghost mut links: Seq<S> = seq![link];
        let mut current = link;
        let mut i: usize = 0;
        while i < count
            invariant
                i <= count,
                self.wf(),
                !self.stopped,
                count == self.workers@.len(),
                given == batches@,
                self.batches_fault(given, given.len() as int) is None,
                before == old(budgets)@,
                budgets@ == before,
                self.budgets_fit(before),
                groups@.len() == count,
                forall|j: int|
                    #![trigger groups@[j]]
                    0 <= j < count ==> self.group_prepared(self.routed(given, j), groups@[j]@),
                forall|s: S, j: usize| j < count ==> call_requires(is_free, (s, j)),
                free.len() == count,
                links.len() == i + 1,
                links[0] == link,
                links.last() == current,
                self.asked_before(is_free, links, free, given, i as int),
                self.admission_fault(free, before, given, i as int) is None,
            decreases count - i,
        {
            assert(self.group_prepared(self.routed(given, i as int), groups@[i as int]@));
            if groups[i].len() > 0 {
                let (next, answer) = is_free(current, i);
                let ghost earlier = free;
                proof {
                    free = free.update(i as int, answer);
                    self.lemma_asked_next(
                        is_free,
                        links,
                        next,
                        earlier,
                        free,
                        before,
                        given,
                        i as int,
                    );
                    links = links.push(next);
                }
                current = next;
                if !answer {
                    proof {
                        self.lemma_admission_fault_stays(
                            free,
                            before,
                            given,
                            i + 1,
                            count as int,
                        );
                        links = self.lemma_asked_stops(
                            is_free,
                            links,
                            free,
                            before,
                            given,
                            i as int,
                        );
                    }
                    return (current, Err(FabricLibError::Full));
                }
                let checked = self.check_group(
                    &budgets[i],
                    &groups[i],
                    Ghost(self.routed(given, i as int)),
                );
                match checked {
                    Ok(_) => {},
                    Err(fault) => {
                        proof {
                            self.lemma_admission_fault_stays(
                                free,
                                before,
                                given,
                                i + 1,
                                count as int,
                            );
                            links = self.lemma_asked_stops(
                                is_free,
                                links,
                                free,
                                before,
                                given,
                                i as int,
                            );
                        }
                        return (current, Err(fault));
                    },
                }
            } else {
                proof {
                    self.lemma_asked_next(
                        is_free,
                        links,
                        current,
                        free,
                        free,
                        before,
                        given,
                        i as int,
                    );
                    links = links.push(current);
                }
            }
            i = i + 1;
        }
        proof {
            assert forall|j: int| #![trigger free[j]] 0 <= j < free.len() implies self.is_asked(
                free,
                before,
                given,
                j,
            ) == (self.routed(given, j).len() > 0) by {
                if self.admission_fault(free, before, given, j) is Some {
                    self.lemma_admission_fault_stays(free, before, given, j, count as int);
                }
            }
        }
        assert(self.asked_workers(is_free, links, free, before, given));

        let ghost all = groups@;
        let mut admitted: Vec<RoutedBatches> = Vec::new();
        let mut i: usize = 0;
        for group in it: groups
            invariant
                i == it.index(),
                self.wf(),
                all == it.seq(),
                count == self.workers@.len(),
                all.len() == count,
                self.budgets_fit(before),
                budgets@.len() == count,
                forall|j: int|
                    #![trigger all[j]]
                    0 <= j < count ==> self.group_prepared(self.routed(given, j), all[j]@),
                forall|j: int|
                    #![trigger budgets@[j]]
                    0 <= j < i ==> budgets@[j].used@ == charged(
                        before[j].used@,
                        self.batch_slots(self.routed(given, j)),
                    ),
                forall|j: int| #![trigger budgets@[j]] i <= j < count ==> budgets@[j] == before[j],
                forall|g: int|
                    #![trigger admitted@[g]]
                    0 <= g < admitted@.len() ==> admitted@[g].worker < i && self.routed(
                        given,
                        admitted@[g].worker as int,
                    ).len() > 0 && self.group_admitted(
                        self.routed(given, admitted@[g].worker as int),
                        admitted@[g].batches@,
                    ),
                forall|g: int, h: int|
                    #![trigger admitted@[g], admitted@[h]]
                    0 <= g < h < admitted@.len() ==> admitted@[g].worker < admitted@[h].worker,
                forall|j: int|
                    0 <= j < i && (#[trigger] self.routed(given, j)).len() > 0 ==> exists|g: int|
                        #![trigger admitted@[g]]
                        0 <= g < admitted@.len() && admitted@[g].worker == j,
        {
            let ghost list = self.routed(given, i as int);
            let ghost earlier = budgets@;
            let ghost so_far = admitted@;
            proof {
                assert(all[i as int] == group);
                assert(self.group_prepared(list, group@));
                assert(budgets@[i as int] == before[i as int]);
            }
            if group.len() > 0 {
                proof {
                    self.lemma_batches_reach(given, i as int);
                }
                let batches = self.charge_group(&mut budgets[i], group, Ghost(list));
                admitted.push(RoutedBatches { worker: i, batches });
                proof {
                    assert(admitted@[so_far.len() as int].worker == i);
                    assert forall|j: int|
                        0 <= j < i + 1 && (#[trigger] self.routed(given, j)).len() > 0 implies
                        exists|g: int|
                        #![trigger admitted@[g]]
                        0 <= g < admitted@.len() && admitted@[g].worker == j by {
                        if j < i {
                            let g = choose|g: int|
                                #![trigger so_far[g]]
                                0 <= g < so_far.len() && so_far[g].worker == j;
                            assert(admitted@[g] == so_far[g]);
                        }
                    }
                }
            } else {
                proof {
                    assert(list.len() == 0);
                    assert(self.batch_slots(list) =~= Seq::<(usize, usize)>::empty());
                    lemma_charged_nothing(before[i as int].used@);
                }
            }
            i = i + 1;
        }
        assert(self.groups_admitted(given, admitted@));
        (current, Ok(admitted))
    }

    /// Those of the first `upto` workers that batches go to have been asked.
    spec fn asked_before<S, F: Fn(S, usize) -> (S, bool)>(
        &self,
        is_free: F,
        links: Seq<S>,
        free: Seq<bool>,
        batches: BatchList,
        upto: int,
    ) -> bool {
        forall|i: int|
            #![trigger free[i]]
            0 <= i < upto ==> if self.routed(batches, i).len() > 0 {
                call_ensures(is_free, (links[i], i as usize), (links[i + 1], free[i]))
            } else {
                links[i + 1] == links[i]
            }
    }

    proof fn lemma_asked_next<S, F: Fn(S, usize) -> (S, bool)>(
        &self,
        is_free: F,
        links: Seq<S>,
        next: S,
        earlier: Seq<bool>,
        free: Seq<bool>,
        budgets: Seq<WriteBudget>,
        batches: BatchList,
        i: int,
    )
        requires
            0 <= i < earlier.len(),
            free.len() == earlier.len(),
            links.len() == i + 1,
            forall|j: int| 0 <= j < i ==> free[j] == earlier[j],
            self.asked_before(is_free, links, earlier, batches, i),
            if self.routed(batches, i).len() > 0 {
                call_ensures(is_free, (links[i], i as usize), (next, free[i]))
            } else {
                next == links[i]
            },
            self.admission_fault(earlier, budgets, batches, i) is None,
        ensures
            self.asked_before(is_free, links.push(next), free, batches, i + 1),
            self.admission_fault(free, budgets, batches, i) is None,
            self.admission_fault(free, budgets, batches, i + 1) == self.worker_fault(
                free[i],
                budgets[i],
                batches,
                i,
            ),
    {
        self.lemma_admission_prefix(earlier, free, budgets, batches, i);
        let more = links.push(next);
        assert forall|j: int|
            #![trigger free[j]]
            0 <= j < i + 1 implies if self.routed(batches, j).len() > 0 {
            call_ensures(is_free, (more[j], j as usize), (more[j + 1], free[j]))
        } else {
            more[j + 1] == more[j]
        } by {
            if j < i {
                assert(free[j] == earlier[j]);
                assert(more[j + 1] == links[j + 1]);
            }
        }
    }

    /// Workers after one that does not take its batches are not asked.
    proof fn lemma_asked_stops<S, F: Fn(S, usize) -> (S, bool)>(
        &self,
        is_free: F,
        links: Seq<S>,
        free: Seq<bool>,
        budgets: Seq<WriteBudget>,
        batches: BatchList,
        i: int,
    ) -> (all: Seq<S>)
        requires
            0 <= i < free.len(),
            free.len() == self.workers@.len(),
            links.len() == i + 2,
            self.asked_before(is_free, links, free, batches, i + 1),
            self.admission_fault(free, budgets, batches, i) is None,
            self.admission_fault(free, budgets, batches, i + 1) is Some,
        ensures
            self.asked_workers(is_free, all, free, budgets, batches),
            all[0] == links[0],
            all.last() == links.last(),
    {
        let all = Seq::new(
            free.len() + 1,
            |k: int|
                if k < links.len() {
                    links[k]
                } else {
                    links.last()
                },
        );
        assert forall|j: int|
            #![trigger free[j]]
            0 <= j < free.len() implies if self.is_asked(free, budgets, batches, j) {
            call_ensures(is_free, (all[j], j as usize), (all[j + 1], free[j]))
        } else {
            all[j + 1] == all[j]
        } by {
            if j > i {
                self.lemma_admission_fault_stays(free, budgets, batches, i + 1, j);
            } else if self.admission_fault(free, budgets, batches, j) is Some {
                self.lemma_admission_fault_stays(free, budgets, batches, j, i);
            }
        }
        all
    }
}

/// What batches fail with whose worker went away between admission and delivery.
pub fn undelivered(batches: &Vec<(TransferId, WriteBatchRequest, WriteBudgetGuard)>) -> (failures:
    Vec<(TransferId, FabricLibError)>)
    ensures
        failures@ == Seq::new(
            batches@.len(),
            |k: int|
                (
                    batches@[k].0,
                    FabricLibError::Custom("worker stopped after batch admission"),
                ),
        ),
{
    let mut failures: Vec<(TransferId, FabricLibError)> = Vec::with_capacity(batches.len());
    let mut k: usize = 0;
    while k < batches.len()
        invariant
            k <= batches@.len(),
            failures@ == Seq::new(
                k as nat,
                |j: int|
                    (
                        batches@[j].0,
                        FabricLibError::Custom("worker stopped after batch admission"),
                    ),
            ),
        decreases batches@.len() - k,
    {
        failures.push(
            (batches[k].0, FabricLibError::Custom("worker stopped after batch admission")),
        );
        k = k + 1;
        assert(failures@ =~= Seq::new(
            k as nat,
            |j: int|
                (
                    batches@[j].0,
                    FabricLibError::Custom("worker stopped after batch admission"),
                ),
        ));
    }
    failures
}

/// Every batch is among those routed to its worker.
pub proof fn routing_loses_no_batch(engine: &FabricEngine, batches: BatchList, k: int) -> (j: int)
    requires
        0 <= k < batches.len(),
    ensures
        ({
            let list = engine.routed(batches, engine.batch_worker(&batches[k].1));
            0 <= j < list.len() && list[j] == batches[k]
        }),
    decreases batches.len(),
{
    let worker = engine.batch_worker(&batches[k].1);
    let rest = batches.drop_last();
    if k == batches.len() - 1 {
        engine.routed(rest, worker).len() as int
    } else {
        assert(rest[k] == batches[k]);
        let j = routing_loses_no_batch(engine, rest, k);
        j
    }
}

/// Batches that are admitted leave no domain of their worker over its budget.
pub proof fn admission_keeps_the_budget(
    engine: &FabricEngine,
    free: Seq<bool>,
    budgets: Seq<WriteBudget>,
    batches: BatchList,
    i: int,
    d: int,
)
    requires
        engine.admission_fault(free, budgets, batches, engine.workers@.len() as int) is None,
        0 <= i < engine.workers@.len(),
        engine.routed(batches, i).len() > 0,
        0 <= d < budgets[i].used@.len(),
    ensures
        ({
            let slots = engine.batch_slots(engine.routed(batches, i));
            &&& charged(budgets[i].used@, slots)[d] == budgets[i].used@[d] + share_of(slots, d)
            &&& charged(budgets[i].used@, slots)[d] <= DOMAIN_WRITE_BUDGET
        }),
{
    let list = engine.routed(batches, i);
    let used = budgets[i].used@;
    let slots = engine.batch_slots(list);
    if engine.admission_fault(free, budgets, batches, i + 1) is Some {
        engine.lemma_admission_fault_stays(
            free,
            budgets,
            batches,
            i + 1,
            engine.workers@.len() as int,
        );
    }
    if engine.budget_fault(used, list, d + 1) is Some {
        engine.lemma_budget_fault_stays(used, list, d + 1, used.len() as int);
    }
    lemma_share_nonneg(slots, d);
    lemma_small_mod((used[d] + share_of(slots, d)) as nat, (usize::MAX + 1) as nat);
}

proof fn lemma_share_nonneg(slots: Seq<(usize, usize)>, domain: int)
    ensures
        share_of(slots, domain) >= 0,
    decreases slots.len(),
{
    if slots.len() > 0 {
        lemma_share_nonneg(slots.drop_last(), domain);
    }
}

/// The batches of a worker are those of the list that have its lanes, each once and in order.
proof fn lemma_routed_places(engine: FabricEngine, batches: BatchList, i: int) -> (places: Seq<int>)
    ensures
        places.len() == engine.routed(batches, i).len(),
        forall|j: int|
            #![trigger places[j]]
            0 <= j < places.len() ==> 0 <= places[j] < batches.len() && engine.routed(
                batches,
                i,
            )[j] == batches[places[j]] && engine.batch_worker(&batches[places[j]].1) == i,
        forall|j: int, k: int|
            #![trigger places[j], places[k]]
            0 <= j < k < places.len() ==> places[j] < places[k],
        forall|k: int|
            #![trigger batches[k]]
            0 <= k < batches.len() && engine.batch_worker(&batches[k].1) == i ==> places.contains(
                k,
            ),
    decreases batches.len(),
{
    if batches.len() == 0 {
        Seq::empty()
    } else {
        let rest = batches.drop_last();
        let last = batches.len() - 1;
        let before = lemma_routed_places(engine, rest, i);
        let own = engine.batch_worker(&batches[last].1) == i;
        let places = if own {
            before.push(last)
        } else {
            before
        };
        assert forall|j: int|
            #![trigger places[j]]
            0 <= j < places.len() implies 0 <= places[j] < batches.len() && engine.routed(
            batches,
            i,
        )[j] == batches[places[j]] && engine.batch_worker(&batches[places[j]].1) == i by {
            if j < before.len() {
                assert(before[j] == places[j]);
                assert(rest[places[j]] == batches[places[j]]);
            }
        }
        assert forall|j: int, k: int|
            #![trigger places[j], places[k]]
            0 <= j < k < places.len() implies places[j] < places[k] by {
            assert(before[j] == places[j]);
            if k < before.len() {
                assert(before[k] == places[k]);
            }
        }
        assert forall|k: int|
            #![trigger batches[k]]
            0 <= k < batches.len() && engine.batch_worker(&batches[k].1)
                == i implies places.contains(k) by {
            if k < last {
                assert(rest[k] == batches[k]);
                assert(before.contains(k));
                let j = choose|j: int| 0 <= j < before.len() && before[j] == k;
                assert(places[j] == k);
            } else {
                assert(places[before.len() as int] == k);
            }
        }
        places
    }
}

/// Batches that are admitted together are handed out in groups, one for each worker that is to
/// carry some of them, in the order of the workers. The group `g` consists of the batches at
/// `places`, in the order of the list: each under its id, for the lane that it asked for, doing
/// what it was asked to do, and with a share of the budget that is as large as it has writes, on
/// the domain of its lane.
pub proof fn admitted_batches_keep_their_errand(
    engine: FabricEngine,
    batches: BatchList,
    groups: Seq<RoutedBatches>,
    g: int,
) -> (places: Seq<int>)
    requires
        engine.wf(),
        engine.host_striped ==> engine.num_domains == engine.workers@.len() * engine.nets_per_gpu,
        engine.batches_fault(batches, batches.len() as int) is None,
        engine.groups_admitted(batches, groups),
        0 <= g < groups.len(),
    ensures
        g + 1 < groups.len() ==> groups[g].worker < groups[g + 1].worker,
        places.len() == groups[g].batches@.len(),
        places.len() > 0,
        forall|j: int, k: int|
            #![trigger places[j], places[k]]
            0 <= j < k < places.len() ==> places[j] < places[k],
        forall|j: int|
            #![trigger places[j]]
            0 <= j < places.len() ==> {
                let (id, sent, guard) = groups[g].batches@[j];
                let lanes = engine.nets_per_gpu * 2;
                &&& 0 <= places[j] < batches.len()
                &&& id == batches[places[j]].0
                &&& same_errand(
                    TransferRequest::WriteBatch(batches[places[j]].1),
                    TransferRequest::WriteBatch(sent),
                )
                &&& sent.lane < lanes
                &&& if engine.host_striped {
                    batches[places[j]].1.lane == groups[g].worker * lanes + sent.lane
                } else {
                    groups[g].worker == 0 && batches[places[j]].1.lane == sent.lane
                }
                &&& guard.slots@.len() == 1
                &&& guard.slots@[0].0 == sent.lane as int / 2
                &&& guard.slots@[0].1 == sent.writes@.len()
            },
{
    let worker = groups[g].worker as int;
    let list = engine.routed(batches, worker);
    let places = lemma_routed_places(engine, batches, worker);
    assert(engine.group_admitted(list, groups[g].batches@));
    assert forall|j: int| #![trigger places[j]] 0 <= j < places.len() implies {
        let (id, sent, guard) = groups[g].batches@[j];
        let lanes = engine.nets_per_gpu * 2;
        &&& 0 <= places[j] < batches.len()
        &&& id == batches[places[j]].0
        &&& same_errand(
            TransferRequest::WriteBatch(batches[places[j]].1),
            TransferRequest::WriteBatch(sent),
        )
        &&& sent.lane < lanes
        &&& if engine.host_striped {
            batches[places[j]].1.lane == groups[g].worker * lanes + sent.lane
        } else {
            groups[g].worker == 0 && batches[places[j]].1.lane == sent.lane
        }
        &&& guard.slots@.len() == 1
        &&& guard.slots@[0].0 == sent.lane as int / 2
        &&& guard.slots@[0].1 == sent.writes@.len()
    } by {
        let admitted = groups[g].batches@[j];
        let given = batches[places[j]].1;
        assert(admitted.0 == list[j].0);
        lemma_no_batch_fault(engine, batches, batches.len() as int, places[j]);
        prepared_batches_keep_their_errand(engine, given, admitted.1);
        engine.lemma_batch_places(&given);
    }
    places
}

/// Every batch that is admitted is in one of the groups, that of the worker of its lane.
pub proof fn every_admitted_batch_is_handed_out(
    engine: FabricEngine,
    batches: BatchList,
    groups: Seq<RoutedBatches>,
    k: int,
) -> (at: (int, int))
    requires
        engine.wf(),
        engine.host_striped ==> engine.num_domains == engine.workers@.len() * engine.nets_per_gpu,
        engine.batches_fault(batches, batches.len() as int) is None,
        engine.groups_admitted(batches, groups),
        0 <= k < batches.len(),
    ensures
        0 <= at.0 < groups.len(),
        0 <= at.1 < groups[at.0].batches@.len(),
        groups[at.0].batches@[at.1].0 == batches[k].0,
        ({
            let lanes = engine.nets_per_gpu * 2;
            let sent = groups[at.0].batches@[at.1].1;
            if engine.host_striped {
                batches[k].1.lane == groups[at.0].worker * lanes + sent.lane
            } else {
                groups[at.0].worker == 0 && batches[k].1.lane == sent.lane
            }
        }),
{
    lemma_no_batch_fault(engine, batches, batches.len() as int, k);
    let batch = batches[k].1;
    let worker = engine.batch_worker(&batch);
    let list = engine.routed(batches, worker);
    let places = lemma_routed_places(engine, batches, worker);
    assert(places.contains(k));
    let j = choose|j: int| 0 <= j < places.len() && places[j] == k;
    assert(places[j] == k);
    lemma_worker_of_batch(engine, batch);
    assert(engine.routed(batches, worker).len() > 0);
    let g = choose|g: int|
        #![trigger groups[g]]
        0 <= g < groups.len() && groups[g].worker == worker;
    assert(engine.group_admitted(list, groups[g].batches@));
    let admitted = groups[g].batches@[j];
    assert(admitted.0 == list[j].0);
    prepared_batches_keep_their_errand(engine, batch, admitted.1);
    (g, j)
}

proof fn lemma_worker_of_batch(engine: FabricEngine, batch: WriteBatchRequest)
    requires
        engine.wf(),
        engine.host_striped ==> engine.num_domains == engine.workers@.len() * engine.nets_per_gpu,
        engine.batch_fault(&batch) is None,
    ensures
        0 <= engine.batch_worker(&batch) < engine.workers@.len(),
{
    lemma_entry_of_lane(engine, batch);
}

proof fn lemma_no_batch_fault(engine: FabricEngine, batches: BatchList, upto: int, k: int)
    requires
        0 <= k < upto,
        engine.batches_fault(batches, upto) is None,
    ensures
        engine.batch_fault(&batches[k].1) is None,
    decreases upto,
{
    if k < upto - 1 {
        lemma_no_batch_fault(engine, batches, upto - 1, k);
    }
}

/// The worker `i` is free, and each of its domains has room for all that it is to carry.
pub open spec fn has_room(
    engine: FabricEngine,
    free: Seq<bool>,
    budgets: Seq<WriteBudget>,
    batches: BatchList,
    i: int,
) -> bool {
    let used = budgets[i].used@;
    let slots = engine.batch_slots(engine.routed(batches, i));
    &&& free[i]
    &&& forall|d: int|
        #![trigger used[d]]
        0 <= d < used.len() ==> used[d] + share_of(slots, d) <= 1024
}

/// Batches are admitted exactly if every worker that is to carry some of them is free, and each
/// of its domains has room for all that it is to carry within 1024 writes. Else nothing is taken
/// of any budget.
pub proof fn batches_are_admitted_if_there_is_room(
    engine: FabricEngine,
    free: Seq<bool>,
    batches: BatchList,
    before: Seq<WriteBudget>,
    after: Seq<WriteBudget>,
    admitted: Result<Vec<RoutedBatches>, FabricLibError>,
)
    requires
        engine.admission_outcome(free, batches, before, after, admitted),
    ensures
        admitted is Ok <==> forall|i: int|
            0 <= i < engine.workers@.len() && engine.routed(batches, i).len() > 0
                ==> #[trigger] has_room(engine, free, before, batches, i),
        admitted is Err ==> after == before,
        admitted is Ok ==> forall|i: int, d: int|
            #![trigger after[i].used@[d]]
            0 <= i < after.len() && 0 <= d < after[i].used@.len() && before[i].used@[d] + share_of(
                engine.batch_slots(engine.routed(batches, i)),
                d,
            ) <= usize::MAX ==> after[i].used@[d] == before[i].used@[d] + share_of(
                engine.batch_slots(engine.routed(batches, i)),
                d,
            ),
{
    let workers = engine.workers@.len() as int;
    lemma_room(engine, free, before, batches, workers);
    if admitted is Ok {
        assert forall|i: int, d: int|
            #![trigger after[i].used@[d]]
            0 <= i < after.len() && 0 <= d < after[i].used@.len() && before[i].used@[d] + share_of(
                engine.batch_slots(engine.routed(batches, i)),
                d,
            ) <= usize::MAX implies after[i].used@[d] == before[i].used@[d] + share_of(
            engine.batch_slots(engine.routed(batches, i)),
            d,
        ) by {
            shares_are_counted(
                before[i].used@,
                engine.batch_slots(engine.routed(batches, i)),
                d,
            );
        }
    }
}

proof fn lemma_room(
    engine: FabricEngine,
    free: Seq<bool>,
    budgets: Seq<WriteBudget>,
    batches: BatchList,
    upto: int,
)
    requires
        0 <= upto,
    ensures
        engine.admission_fault(free, budgets, batches, upto) is None <==> forall|i: int|
            0 <= i < upto && engine.routed(batches, i).len() > 0 ==> #[trigger] has_room(
                engine,
                free,
                budgets,
                batches,
                i,
            ),
    decreases upto,
{
    if upto > 0 {
        lemma_room(engine, free, budgets, batches, upto - 1);
        let last = upto - 1;
        let used = budgets[last].used@;
        lemma_room_on_domains(engine, used, engine.routed(batches, last), used.len() as int);
        assert(engine.routed(batches, last).len() > 0 ==> (engine.worker_fault(
            free[last],
            budgets[last],
            batches,
            last,
        ) is None <==> has_room(engine, free, budgets, batches, last)));
    }
}

proof fn lemma_room_on_domains(
    engine: FabricEngine,
    used: Seq<usize>,
    list: BatchList,
    upto: int,
)
    requires
        0 <= upto <= used.len(),
    ensures
        engine.budget_fault(used, list, upto) is None <==> forall|d: int|
            #![trigger used[d]]
            0 <= d < upto ==> used[d] + share_of(engine.batch_slots(list), d) <= 1024,
    decreases upto,
{
    if upto > 0 {
        lemma_room_on_domains(engine, used, list, upto - 1);
        lemma_share_nonneg(engine.batch_slots(list), upto - 1);
        budget_is_a_bound(
            used[upto - 1] as int,
            share_of(engine.batch_slots(list), upto - 1),
        );
    }
}

} // verus!
