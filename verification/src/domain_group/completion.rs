//! Completions: counting the writes of a transfer, and reporting it when the last has retired.
use vstd::prelude::*;

use crate::api::TransferId;
use crate::domain_group::{CounterSignal, DomainGroup, WriteOpContext};
use crate::error::FabricLibError;
use crate::provider::{DomainCompletionEntry, DomainEvent, RdmaDomain};

verus! {

/// The transfers in flight, and the counters of those that are over.
pub struct Ledger<C, A> {
    pub write_ops: Map<u64, WriteOpContext<C, A>>,
    pub signals: Seq<CounterSignal<C>>,
}

/// The signal that a finished transfer leaves, if it has a counter.
pub open spec fn signal_of<C, A>(context: WriteOpContext<C, A>) -> Option<CounterSignal<C>> {
    match context.tx_counter {
        Some(counter) => Some(CounterSignal { counter, failed: context.error is Some }),
        None => None,
    }
}

/// The report of a finished transfer: none if it has a counter.
pub open spec fn report_of<C, A>(id: TransferId, context: WriteOpContext<C, A>) -> Option<
    DomainCompletionEntry,
> {
    match (context.tx_counter, context.error) {
        (Some(_), _) => None,
        (None, Some(error)) => Some(DomainCompletionEntry::Error(id, error)),
        (None, None) => Some(DomainCompletionEntry::Transfer(id)),
    }
}

impl<C, A> Ledger<C, A> {
    /// One write of a known transfer retires: the ledger afterwards, and what is reported.
    pub open spec fn retire(self, id: TransferId, error: Option<FabricLibError>) -> (
        Ledger<C, A>,
        Option<DomainCompletionEntry>,
    ) {
        let context = self.write_ops[id.0].retired(error);
        if context.complete() {
            (
                Ledger {
                    write_ops: self.write_ops.remove(id.0),
                    signals: match signal_of(context) {
                        Some(signal) => self.signals.push(signal),
                        None => self.signals,
                    },
                },
                report_of(id, context),
            )
        } else {
            (Ledger { write_ops: self.write_ops.insert(id.0, context), ..self }, None)
        }
    }

    /// A domain's completion arrives: the ledger afterwards, and what is reported.
    ///
    /// Only the completions of writes are counted. One of an unknown transfer is dropped,
    /// unless it is an error.
    pub open spec fn settle(self, entry: DomainCompletionEntry) -> (
        Ledger<C, A>,
        Option<DomainCompletionEntry>,
    ) {
        match entry {
            DomainCompletionEntry::Error(id, error) => if self.write_ops.contains_key(id.0) {
                self.retire(id, Some(error))
            } else {
                (self, Some(entry))
            },
            DomainCompletionEntry::Transfer(id) => if self.write_ops.contains_key(id.0) {
                self.retire(id, None)
            } else {
                (self, None)
            },
            _ => (self, Some(entry)),
        }
    }

    /// Completions arrive one after the other: the ledger afterwards, and all reports.
    pub open spec fn settle_all(self, entries: Seq<DomainCompletionEntry>) -> (
        Ledger<C, A>,
        Seq<DomainCompletionEntry>,
    )
        decreases entries.len(),
    {
        if entries.len() == 0 {
            (self, Seq::empty())
        } else {
            let (ledger, reports) = self.settle_all(entries.drop_last());
            let (ledger, report) = ledger.settle(entries.last());
            (
                ledger,
                match report {
                    Some(entry) => reports.push(entry),
                    None => reports,
                },
            )
        }
    }

    /// The domains are asked in turn until one gives something to report: the ledger
    /// afterwards, and the report.
    pub open spec fn settle_until_report(self, answers: Seq<Option<DomainCompletionEntry>>) -> (
        Ledger<C, A>,
        Option<DomainCompletionEntry>,
    )
        decreases answers.len(),
    {
        if answers.len() == 0 {
            (self, None)
        } else {
            let (ledger, report) = self.settle_until_report(answers.drop_last());
            match (report, answers.last()) {
                (None, Some(entry)) => ledger.settle(entry),
                _ => (ledger, report),
            }
        }
    }
}

/// The transfer that a completion retires a write of.
pub open spec fn write_of(entry: DomainCompletionEntry) -> Option<TransferId> {
    match entry {
        DomainCompletionEntry::Error(id, _) => Some(id),
        DomainCompletionEntry::Transfer(id) => Some(id),
        _ => None,
    }
}

/// The error that a completion carries.
pub open spec fn error_of(entry: DomainCompletionEntry) -> Option<FabricLibError> {
    match entry {
        DomainCompletionEntry::Error(_, error) => Some(error),
        _ => None,
    }
}

/// The completions, among many, of the writes of one transfer.
pub open spec fn writes_of(entries: Seq<DomainCompletionEntry>, id: TransferId) -> Seq<
    DomainCompletionEntry,
>
    decreases entries.len(),
{
    if entries.len() == 0 {
        Seq::empty()
    } else {
        let before = writes_of(entries.drop_last(), id);
        if write_of(entries.last()) == Some(id) {
            before.push(entries.last())
        } else {
            before
        }
    }
}

/// The first error among completions.
pub open spec fn first_error(entries: Seq<DomainCompletionEntry>) -> Option<FabricLibError>
    decreases entries.len(),
{
    if entries.len() == 0 {
        None
    } else if first_error(entries.drop_last()) is Some {
        first_error(entries.drop_last())
    } else {
        error_of(entries.last())
    }
}

/// As long as fewer of a transfer's writes have retired than it was divided into, whatever else
/// completes meanwhile: the transfer stays in the table with the resources it holds, remembers
/// the first error, and nothing is reported of it.
pub proof fn unfinished_transfer_is_kept<C, A>(
    ledger: Ledger<C, A>,
    entries: Seq<DomainCompletionEntry>,
    id: TransferId,
)
    requires
        ledger.write_ops.contains_key(id.0),
        ledger.write_ops[id.0].cnt_domain_completion == 0,
        ledger.write_ops[id.0].error is None,
        writes_of(entries, id).len() < ledger.write_ops[id.0].num_used_domains,
    ensures
        ({
            let context = ledger.write_ops[id.0];
            let (after, reports) = ledger.settle_all(entries);
            &&& after.write_ops.contains_key(id.0)
            &&& after.write_ops[id.0] == (WriteOpContext {
                cnt_domain_completion: writes_of(entries, id).len() as usize,
                error: first_error(writes_of(entries, id)),
                ..context
            })
            &&& forall|r: int|
                #![trigger reports[r]]
                0 <= r < reports.len() ==> write_of(reports[r]) != Some(id)
        }),
    decreases entries.len(),
{
    if entries.len() > 0 {
        let rest = entries.drop_last();
        let last = entries.last();
        unfinished_transfer_is_kept(ledger, rest, id);
        let before = ledger.settle_all(rest).0;
        if write_of(last) == Some(id) {
            assert(writes_of(entries, id).drop_last() =~= writes_of(rest, id));
            assert(before.settle(last) == before.retire(id, error_of(last)));
        } else {
            match write_of(last) {
                Some(other) => {
                    assert(other.0 != id.0);
                },
                None => {},
            }
        }
    }
}

/// The completion of the last outstanding write, and no other, ends a transfer: it leaves the
/// table, and either its counter is signalled or it is reported, as failed if any of its writes
/// failed, with the error that came first.
pub proof fn last_write_ends_the_transfer<C, A>(
    ledger: Ledger<C, A>,
    entries: Seq<DomainCompletionEntry>,
    id: TransferId,
)
    requires
        entries.len() > 0,
        ledger.write_ops.contains_key(id.0),
        ledger.write_ops[id.0].cnt_domain_completion == 0,
        ledger.write_ops[id.0].error is None,
        write_of(entries.last()) == Some(id),
        writes_of(entries, id).len() == ledger.write_ops[id.0].num_used_domains,
    ensures
        ({
            let context = ledger.write_ops[id.0];
            let error = first_error(writes_of(entries, id));
            let before = ledger.settle_all(entries.drop_last()).0;
            let (after, report) = before.settle(entries.last());
            &&& before.write_ops.contains_key(id.0)
            &&& after.write_ops == before.write_ops.remove(id.0)
            &&& match context.tx_counter {
                Some(counter) => {
                    &&& report is None
                    &&& after.signals == before.signals.push(
                        CounterSignal { counter, failed: error is Some },
                    )
                },
                None => {
                    &&& after.signals == before.signals
                    &&& report == Some(
                        match error {
                            Some(error) => DomainCompletionEntry::Error(id, error),
                            None => DomainCompletionEntry::Transfer(id),
                        },
                    )
                },
            }
        }),
{
    let rest = entries.drop_last();
    assert(writes_of(entries, id).drop_last() =~= writes_of(rest, id));
    unfinished_transfer_is_kept(ledger, rest, id);
    let before = ledger.settle_all(rest).0;
    assert(before.settle(entries.last()) == before.retire(id, error_of(entries.last())));
}

/// The completions among the answers of domains.
pub open spec fn given_in(answers: Seq<Option<DomainCompletionEntry>>) -> Seq<DomainCompletionEntry>
    decreases answers.len(),
{
    if answers.len() == 0 {
        Seq::empty()
    } else {
        match answers.last() {
            Some(entry) => given_in(answers.drop_last()).push(entry),
            None => given_in(answers.drop_last()),
        }
    }
}

/// The completions among the answers of domains in many searches.
pub open spec fn given_in_all(searches: Seq<Seq<Option<DomainCompletionEntry>>>) -> Seq<
    DomainCompletionEntry,
>
    decreases searches.len(),
{
    if searches.len() == 0 {
        Seq::empty()
    } else {
        given_in_all(searches.drop_last()) + given_in(searches.last())
    }
}

proof fn lemma_settle_joined<C, A>(
    ledger: Ledger<C, A>,
    first: Seq<DomainCompletionEntry>,
    second: Seq<DomainCompletionEntry>,
)
    ensures
        ({
            let (middle, reports) = ledger.settle_all(first);
            let (after, more) = middle.settle_all(second);
            ledger.settle_all(first + second) == (after, reports + more)
        }),
    decreases second.len(),
{
    if second.len() == 0 {
        assert(first + second =~= first);
        assert(ledger.settle_all(first).1 + Seq::<DomainCompletionEntry>::empty()
            =~= ledger.settle_all(first).1);
    } else {
        let all = first + second;
        assert(all.drop_last() =~= first + second.drop_last());
        assert(all.last() == second.last());
        lemma_settle_joined(ledger, first, second.drop_last());
        let (middle, reports) = ledger.settle_all(first);
        let (last, more) = middle.settle_all(second.drop_last());
        match last.settle(second.last()).1 {
            Some(entry) => {
                assert((reports + more).push(entry) =~= reports + more.push(entry));
            },
            None => {},
        }
    }
}

/// A search settles all completions that it was given, and reports what they lead to.
pub proof fn search_settles_its_answers<C, A>(
    ledger: Ledger<C, A>,
    answers: Seq<Option<DomainCompletionEntry>>,
)
    requires
        answers.len() > 0 ==> ledger.settle_until_report(answers.drop_last()).1 is None,
    ensures
        ledger.settle_all(given_in(answers)) == (
            ledger.settle_until_report(answers).0,
            given_in(seq![ledger.settle_until_report(answers).1]),
        ),
    decreases answers.len(),
{
    let (after, report) = ledger.settle_until_report(answers);
    assert(seq![report].drop_last() =~= Seq::<Option<DomainCompletionEntry>>::empty());
    assert(given_in(seq![report].drop_last()) =~= Seq::<DomainCompletionEntry>::empty());
    if answers.len() > 0 {
        let rest = answers.drop_last();
        let none = seq![None::<DomainCompletionEntry>];
        if rest.len() > 0 && ledger.settle_until_report(rest.drop_last()).1 is Some {
            assert(ledger.settle_until_report(rest).1 is Some);
        }
        search_settles_its_answers(ledger, rest);
        assert(none.drop_last() =~= Seq::<Option<DomainCompletionEntry>>::empty());
        assert(given_in(none) =~= Seq::<DomainCompletionEntry>::empty());
        match answers.last() {
            Some(entry) => {
                let all = given_in(answers);
                assert(all.drop_last() =~= given_in(rest));
                assert(all.last() == entry);
            },
            None => {},
        }
    }
}

/// The searches `reports` have led from each of `states` to the next.
pub open spec fn searched<D: RdmaDomain, C, A, const N: usize>(
    states: Seq<DomainGroup<D, C, A, N>>,
    reports: Seq<Option<DomainCompletionEntry>>,
) -> bool {
    &&& states.len() == reports.len() + 1
    &&& forall|i: int|
        #![trigger reports[i]]
        0 <= i < reports.len() ==> states[i + 1].reported(&states[i], reports[i])
}

/// Successive searches settle exactly the completions that the domains have given them, one
/// after the other, and their reports are all that these lead to.
pub proof fn searches_settle_all_answers<D: RdmaDomain, C, A, const N: usize>(
    states: Seq<DomainGroup<D, C, A, N>>,
    reports: Seq<Option<DomainCompletionEntry>>,
) -> (searches: Seq<Seq<Option<DomainCompletionEntry>>>)
    requires
        searched(states, reports),
    ensures
        searches.len() == reports.len(),
        forall|i: int|
            #![trigger searches[i]]
            0 <= i < searches.len() ==> states[i + 1].asked(&states[i], searches[i]),
        states[0].ledger().settle_all(given_in_all(searches)) == (
            states.last().ledger(),
            given_in(reports),
        ),
    decreases reports.len(),
{
    if reports.len() == 0 {
        Seq::empty()
    } else {
        let k = reports.len() - 1;
        let (before, after) = (states[k], states[k + 1]);
        let earlier_states = states.drop_last();
        let earlier = reports.drop_last();
        assert forall|i: int| #![trigger earlier[i]] 0 <= i < earlier.len() implies earlier_states[i
            + 1].reported(&earlier_states[i], earlier[i]) by {
            assert(reports[i] == earlier[i]);
        }
        let rest = searches_settle_all_answers(earlier_states, earlier);
        let report = reports[k];
        assert(after.reported(&before, report));
        let answers = choose|answers: Seq<Option<DomainCompletionEntry>>|
            {
                &&& #[trigger] after.asked(&before, answers)
                &&& (after.ledger(), report) == before.ledger().settle_until_report(answers)
                &&& report is None ==> answers.len() == N
                &&& report is Some ==> answers.len() > 0 && before.ledger().settle_until_report(
                    answers.drop_last(),
                ).1 is None
            };
        if answers.len() > 0 && before.ledger().settle_until_report(answers.drop_last()).1 is Some {
            assert(report is Some);
        }
        search_settles_its_answers(before.ledger(), answers);
        let searches = rest.push(answers);
        assert(searches.drop_last() =~= rest);
        assert forall|i: int| #![trigger searches[i]] 0 <= i < searches.len() implies states[i
            + 1].asked(&states[i], searches[i]) by {
            if i < k {
                assert(rest[i] == searches[i]);
                assert(earlier_states[i + 1] == states[i + 1]);
            }
        }
        lemma_settle_joined(states[0].ledger(), given_in_all(rest), given_in(answers));
        assert(seq![report].drop_last() =~= Seq::<Option<DomainCompletionEntry>>::empty());
        assert(given_in(seq![report].drop_last()) =~= Seq::<DomainCompletionEntry>::empty());
        assert(given_in(reports) =~= given_in(earlier) + given_in(seq![report]));
        searches
    }
}

impl<D: RdmaDomain, C, A, const N: usize> DomainGroup<D, C, A, N> {
    /// What the group knows of transfers.
    pub open spec fn ledger(&self) -> Ledger<C, A> {
        Ledger { write_ops: self.write_ops@, signals: self.signals@ }
    }

    /// Nothing but the transfers differs.
    pub open spec fn same_but_ledger(&self, other: &Self) -> bool {
        &&& self.domains == other.domains
        &&& self.same_but_ledger_and_domains(other)
    }

    /// The round robin and the peer groups are the same.
    pub open spec fn same_but_ledger_and_domains(&self, other: &Self) -> bool {
        &&& self.rr_next == other.rr_next
        &&& self.next_peer_group_handle == other.next_peer_group_handle
        &&& self.peer_groups == other.peer_groups
    }

    /// Counts one retired write; what is to be reported.
    fn retire_write(&mut self, id: TransferId, error: Option<FabricLibError>) -> (report: Option<
        DomainCompletionEntry,
    >)
        requires
            old(self).wf(),
        ensures
            final(self).wf(),
            final(self).same_but_ledger(old(self)),
            if old(self).write_ops@.contains_key(id.0) {
                (final(self).ledger(), report) == old(self).ledger().retire(id, error)
            } else {
                report is None && final(self).ledger() == old(self).ledger()
            },
    {
        let mut context = match self.write_ops.remove(&id.0) {
            Some(context) => context,
            None => {
                assert(self.write_ops@ =~= old(self).write_ops@);
                return None;
            },
        };
        if !context.retire_domain(error) {
            self.write_ops.insert(id.0, context);
            assert(self.write_ops@ =~= old(self).write_ops@.insert(id.0, context));
            return None;
        }
        match context.tx_counter {
            Some(counter) => {
                self.signals.push(CounterSignal { counter, failed: context.error.is_some() });
                None
            },
            None => match context.error {
                Some(error) => Some(DomainCompletionEntry::Error(id, error)),
                None => Some(DomainCompletionEntry::Transfer(id)),
            },
        }
    }

    /// Takes in one completion of a domain; what is to be reported.
    pub fn apply_completion(&mut self, entry: DomainCompletionEntry) -> (report: Option<
        DomainCompletionEntry,
    >)
        requires
            old(self).wf(),
        ensures
            final(self).wf(),
            final(self).same_but_ledger(old(self)),
            (final(self).ledger(), report) == old(self).ledger().settle(entry),
    {
        match entry {
            DomainCompletionEntry::Error(id, error) => {
                if self.write_ops.contains_key(&id.0) {
                    self.retire_write(id, Some(error))
                } else {
                    Some(DomainCompletionEntry::Error(id, error))
                }
            },
            DomainCompletionEntry::Transfer(id) => self.retire_write(id, None),
            entry => Some(entry),
        }
    }

    /// The first domains have been asked for a completion, one after the other, and have given
    /// `answers`.
    pub open spec fn asked(
        &self,
        before: &Self,
        answers: Seq<Option<DomainCompletionEntry>>,
    ) -> bool {
        &&& answers.len() <= N
        &&& forall|i: int|
            #![trigger self.histories()[i]]
            0 <= i < answers.len() ==> self.histories()[i] == before.histories()[i].push(
                DomainEvent::Completion { answer: answers[i] },
            )
        &&& forall|i: int|
            #![trigger self.domains[i]]
            answers.len() <= i < N ==> self.domains[i] == before.domains[i]
    }

    /// The domains have been asked in turn for a completion, until there was something to
    /// report.
    pub open spec fn reported(
        &self,
        before: &Self,
        report: Option<DomainCompletionEntry>,
    ) -> bool {
        &&& self.same_but_ledger_and_domains(before)
        &&& exists|answers: Seq<Option<DomainCompletionEntry>>|
            {
                &&& #[trigger] self.asked(before, answers)
                &&& (self.ledger(), report) == before.ledger().settle_until_report(answers)
                &&& report is None ==> answers.len() == N
                &&& report is Some ==> answers.len() > 0 && before.ledger().settle_until_report(
                    answers.drop_last(),
                ).1 is None
            }
    }

    /// Asks the domains in turn for a completion, until there is something to report.
    pub fn get_completion(&mut self) -> (report: Option<DomainCompletionEntry>)
        requires
            old(self).wf(),
        ensures
            final(self).wf(),
            final(self).reported(old(self), report),
    {
        let ghost mut answers: Seq<Option<DomainCompletionEntry>> = Seq::empty();
        let mut index: usize = 0;
        assert(self.asked(old(self), answers));
        while index < N
            invariant
                index <= N,
                answers.len() == index,
                self.wf(),
                self.same_but_ledger_and_domains(old(self)),
                self.asked(old(self), answers),
                old(self).ledger().settle_until_report(answers) == (
                    self.ledger(),
                    None::<DomainCompletionEntry>,
                ),
            decreases N - index,
        {
            let ghost earlier = answers;
            let ghost seen = self.histories();
            let ghost domains = self.domains;
            let answer = self.domains[index].get_completion();
            proof {
                answers = answers.push(answer);
                assert(answers.drop_last() =~= earlier);
                assert(seen[index as int] == old(self).histories()[index as int]);
                assert forall|i: int|
                    #![trigger self.histories()[i]]
                    0 <= i < answers.len() implies self.histories()[i] == old(
                    self,
                ).histories()[i].push(DomainEvent::Completion { answer: answers[i] }) by {
                    if i < index {
                        assert(self.domains[i] == domains[i]);
                        assert(seen[i] == old(self).histories()[i].push(
                            DomainEvent::Completion { answer: earlier[i] },
                        ));
                    }
                }
                assert(self.asked(old(self), answers));
            }
            let ghost asked = *self;
            if let Some(entry) = answer {
                let report = self.apply_completion(entry);
                proof {
                    assert(self.histories() =~= asked.histories());
                    assert(self.asked(old(self), answers));
                }
                if report.is_some() {
                    return report;
                }
            }
            index = index + 1;
        }
        None
    }

    /// Every domain has been polled once, and nothing else has happened.
    pub open spec fn polled(&self, before: &Self) -> bool {
        &&& self.same_but_ledger_and_domains(before)
        &&& self.ledger() == before.ledger()
        &&& self.histories() == Seq::new(
            N as nat,
            |i: int| before.histories()[i].push(DomainEvent::Poll),
        )
    }

    /// Lets every domain make progress.
    pub fn poll_progress(&mut self)
        ensures
            final(self).polled(old(self)),
            old(self).wf() ==> final(self).wf(),
    {
        let mut index: usize = 0;
        while index < N
            invariant
                index <= N,
                self.same_but_ledger_and_domains(old(self)),
                self.write_ops == old(self).write_ops,
                self.signals == old(self).signals,
                forall|i: int|
                    #![trigger self.domains[i]]
                    0 <= i < index ==> self.domains[i].history() == old(
                        self,
                    ).domains[i].history().push(DomainEvent::Poll),
                forall|i: int|
                    #![trigger self.domains[i]]
                    index <= i < N ==> self.domains[i] == old(self).domains[i],
            decreases N - index,
        {
            self.domains[index].poll_progress();
            index = index + 1;
        }
        assert(self.histories() =~= Seq::new(
            N as nat,
            |i: int| old(self).histories()[i].push(DomainEvent::Poll),
        ));
    }

    /// Takes the counters of the transfers that have ended since the last call.
    pub fn take_signals(&mut self) -> (signals: Vec<CounterSignal<C>>)
        ensures
            signals@ == old(self).signals@,
            final(self).signals@.len() == 0,
            final(self).write_ops == old(self).write_ops,
            final(self).domains == old(self).domains,
            final(self).same_but_ledger_and_domains(old(self)),
            old(self).wf() ==> final(self).wf(),
    {
        let mut signals: Vec<CounterSignal<C>> = Vec::new();
        std::mem::swap(&mut signals, &mut self.signals);
        signals
    }
}

/// Completions that are not of writes are reported as they are and change nothing. So is the
/// failure of an operation that is not in the table; the success of one is dropped.
pub proof fn other_completions_pass_through<C, A>(
    ledger: Ledger<C, A>,
    entry: DomainCompletionEntry,
)
    ensures
        ({
            let (after, report) = ledger.settle(entry);
            match entry {
                DomainCompletionEntry::Transfer(id) => !ledger.write_ops.contains_key(id.0) ==> after
                    == ledger && report is None,
                DomainCompletionEntry::Error(id, _) => !ledger.write_ops.contains_key(id.0)
                    ==> after == ledger && report == Some(entry),
                _ => after == ledger && report == Some(entry),
            }
        }),
{
}

/// The retirement of one write leaves all other transfers as they were.
pub proof fn completion_keeps_other_transfers<C, A>(
    ledger: Ledger<C, A>,
    entry: DomainCompletionEntry,
    other: u64,
)
    requires
        match entry {
            DomainCompletionEntry::Transfer(id) => id.0 != other,
            DomainCompletionEntry::Error(id, _) => id.0 != other,
            _ => true,
        },
    ensures
        ({
            let after = ledger.settle(entry).0;
            &&& after.write_ops.contains_key(other) == ledger.write_ops.contains_key(other)
            &&& ledger.write_ops.contains_key(other) ==> after.write_ops[other]
                == ledger.write_ops[other]
            &&& ledger.signals.is_prefix_of(after.signals)
            &&& after.signals.len() <= ledger.signals.len() + 1
        }),
{
}

/// To let the domains make progress is to poll each of them once, and nothing else.
pub proof fn every_domain_is_polled<D: RdmaDomain, C, A, const N: usize>(
    after: DomainGroup<D, C, A, N>,
    before: DomainGroup<D, C, A, N>,
    i: int,
)
    requires
        after.polled(&before),
        0 <= i < N,
    ensures
        after.given(&before, i) == seq![DomainEvent::Poll],
        before.domains[i].history().is_prefix_of(after.domains[i].history()),
        after.write_ops@ == before.write_ops@,
        after.signals@ == before.signals@,
        after.rr_next == before.rr_next,
{
    assert(after.histories()[i] == before.histories()[i].push(DomainEvent::Poll));
    assert(after.given(&before, i) =~= seq![DomainEvent::Poll]);
}

} // verus!
