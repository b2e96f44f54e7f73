//! A worker's queue of commands.
use crossbeam_channel::{Receiver, TryRecvError};
use vstd::prelude::*;

use crate::api::TransferCompletionEntry;
use crate::domain_group::DomainGroup;
use crate::domain_group::completion::every_domain_is_polled;
use crate::provider::{DomainEvent, RdmaDomain};
use crate::worker::WorkerCommand;
use crate::worker::step::COMMANDS_PER_STEP;

verus! {

/// The receiving end of a queue between threads.
#[verifier::external_type_specification]
#[verifier::external_body]
#[verifier::reject_recursive_types(T)]
pub struct ExReceiver<T>(crossbeam_channel::Receiver<T>);

/// What a look into a queue finds.
#[derive(Debug)]
pub enum Received<T> {
    Item(T),
    /// Nothing, but senders are left.
    Empty,
    /// Nothing, and nobody is left to send.
    Disconnected,
}

/// `crossbeam_channel::Receiver::try_recv`. Which of the three it finds, and which item, rests
/// with the threads that hold the sending ends, so nothing is claimed of it. The queue is handed
/// over and back, so that every look leads from one value of it to another.
#[verifier::external_body]
fn try_take<T>(queue: Receiver<T>) -> (looked: (Receiver<T>, Received<T>)) {
    let received = match queue.try_recv() {
        Ok(item) => Received::Item(item),
        Err(TryRecvError::Empty) => Received::Empty,
        Err(TryRecvError::Disconnected) => Received::Disconnected,
    };
    (queue, received)
}

/// Each look has led from one of `queues` to the next, and has found the next of `found`.
spec fn looks<T>(queues: Seq<Receiver<T>>, found: Seq<Received<T>>) -> bool {
    &&& queues.len() == found.len() + 1
    &&& forall|i: int|
        #![trigger found[i]]
        0 <= i < found.len() ==> call_ensures(
            try_take::<T>,
            (queues[i],),
            (queues[i + 1], found[i]),
        )
}

/// The looks that led from the queue `before` to the queue `after` have found exactly this, one
/// after the other.
pub closed spec fn looked_into<T>(
    before: Receiver<T>,
    found: Seq<Received<T>>,
    after: Receiver<T>,
) -> bool {
    exists|queues: Seq<Receiver<T>>|
        #[trigger] looks(queues, found) && queues[0] == before && queues.last() == after
}

/// Commands that were taken from a queue, oldest first, and whether the queue has senders left
/// as far as was seen.
#[derive(Debug)]
pub struct TakenCommands<C, A> {
    pub commands: Vec<WorkerCommand<C, A>>,
    pub connected: bool,
}

/// The items among what looks into a queue have found.
pub open spec fn items<T>(found: Seq<Received<T>>) -> Seq<T>
    decreases found.len(),
{
    if found.len() == 0 {
        Seq::empty()
    } else {
        match found.last() {
            Received::Item(item) => items(found.drop_last()).push(item),
            _ => items(found.drop_last()),
        }
    }
}

/// The queue has been looked into until it held nothing or the bound was reached, and exactly
/// the commands that were found have been taken, in order.
pub open spec fn taken_in<C, A>(
    found: Seq<Received<WorkerCommand<C, A>>>,
    taken: TakenCommands<C, A>,
) -> bool {
    &&& 0 < found.len() <= COMMANDS_PER_STEP
    &&& forall|i: int| #![trigger found[i]] 0 <= i < found.len() - 1 ==> found[i] is Item
    &&& taken.commands@ == items(found)
    &&& match found.last() {
        Received::Item(_) => found.len() == COMMANDS_PER_STEP && taken.connected,
        Received::Empty => taken.connected,
        Received::Disconnected => !taken.connected,
    }
}

impl<C, A> TakenCommands<C, A> {
    /// Takes note of what a look into the queue has found; whether to look again.
    pub fn note(&mut self, found: Received<WorkerCommand<C, A>>) -> (again: bool)
        ensures
            match found {
                Received::Item(command) => {
                    &&& final(self).commands@ == old(self).commands@.push(command)
                    &&& final(self).connected == old(self).connected
                    &&& again == (old(self).commands@.len() + 1 < COMMANDS_PER_STEP)
                },
                Received::Empty => *final(self) == *old(self) && !again,
                Received::Disconnected => {
                    &&& final(self).commands == old(self).commands
                    &&& !final(self).connected
                    &&& !again
                },
            },
    {
        match found {
            Received::Item(command) => {
                self.commands.push(command);
                self.commands.len() < COMMANDS_PER_STEP
            },
            Received::Empty => false,
            Received::Disconnected => {
                self.connected = false;
                false
            },
        }
    }
}

/// Takes the commands that wait in a queue, up to a bound, so that completions are looked for
/// even while commands keep coming. The queue is handed back.
pub fn take_commands<C, A>(queue: Receiver<WorkerCommand<C, A>>) -> (looked: (
    Receiver<WorkerCommand<C, A>>,
    TakenCommands<C, A>,
))
    ensures
        exists|found: Seq<Received<WorkerCommand<C, A>>>|
            #[trigger] taken_in(found, looked.1) && looked_into(queue, found, looked.0),
{
    let ghost mut queues: Seq<Receiver<WorkerCommand<C, A>>> = seq![queue];
    let mut current = queue;
    let mut taken = TakenCommands { commands: Vec::new(), connected: true };
    let ghost mut found: Seq<Received<WorkerCommand<C, A>>> = Seq::empty();
    let mut again: bool = true;
    while again
        invariant
            again ==> found.len() < COMMANDS_PER_STEP,
            again ==> forall|i: int| #![trigger found[i]] 0 <= i < found.len() ==> found[i] is Item,
            again ==> taken.connected,
            again ==> taken.commands@.len() == found.len(),
            again ==> taken.commands@ == items(found),
            !again ==> taken_in(found, taken),
            looks(queues, found),
            queues[0] == queue,
            queues.last() == current,
        decreases
                if again {
                    COMMANDS_PER_STEP - found.len()
                } else {
                    0
                },
    {
        let ghost seen = found;
        let ghost passed = queues;
        let (next, look) = try_take(current);
        proof {
            found = found.push(look);
            queues = queues.push(next);
            assert(found.drop_last() =~= seen);
            assert forall|i: int| #![trigger found[i]] 0 <= i < found.len() implies call_ensures(
                try_take::<WorkerCommand<C, A>>,
                (queues[i],),
                (queues[i + 1], found[i]),
            ) by {
                if i < seen.len() {
                    assert(seen[i] == found[i]);
                    assert(queues[i + 1] == passed[i + 1]);
                }
            }
        }
        current = next;
        again = taken.note(look);
    }
    let looked = (current, taken);
    assert(taken_in(found, looked.1) && looked_into(queue, found, looked.0));
    looked
}

/// The command `i` led from one of `states` to the next, and gave `logs[i]` to publish.
pub open spec fn command_obeyed<D: RdmaDomain, C, A, const N: usize>(
    states: Seq<DomainGroup<D, C, A, N>>,
    commands: Seq<WorkerCommand<C, A>>,
    logs: Seq<Seq<TransferCompletionEntry>>,
    i: int,
) -> bool {
    &&& states[i].obeyable(&commands[i])
    &&& states[i + 1].obeyed(&states[i], &commands[i], logs[i])
}

/// The commands have been obeyed one after the other, through `states`, and `logs` is what each
/// gave to publish.
pub open spec fn commands_obeyed<D: RdmaDomain, C, A, const N: usize>(
    states: Seq<DomainGroup<D, C, A, N>>,
    commands: Seq<WorkerCommand<C, A>>,
    logs: Seq<Seq<TransferCompletionEntry>>,
) -> bool {
    &&& states.len() == commands.len() + 1
    &&& logs.len() == commands.len()
    &&& forall|i: int|
        0 <= i < logs.len() ==> #[trigger] command_obeyed(states, commands, logs, i)
}

/// What commands gave to publish, in order.
pub open spec fn joined(logs: Seq<Seq<TransferCompletionEntry>>) -> Seq<TransferCompletionEntry>
    decreases logs.len(),
{
    if logs.len() == 0 {
        Seq::empty()
    } else {
        joined(logs.drop_last()) + logs.last()
    }
}

proof fn lemma_commands_step<D: RdmaDomain, C, A, const N: usize>(
    states: Seq<DomainGroup<D, C, A, N>>,
    commands: Seq<WorkerCommand<C, A>>,
    logs: Seq<Seq<TransferCompletionEntry>>,
    after: DomainGroup<D, C, A, N>,
    log: Seq<TransferCompletionEntry>,
    k: int,
)
    requires
        0 <= k < commands.len(),
        commands_obeyed(states, commands.take(k), logs),
        states.last().obeyable(&commands[k]),
        after.obeyed(&states.last(), &commands[k], log),
    ensures
        commands_obeyed(states.push(after), commands.take(k + 1), logs.push(log)),
        joined(logs.push(log)) == joined(logs) + log,
{
    let more = states.push(after);
    let list = commands.take(k + 1);
    let all = logs.push(log);
    assert forall|i: int| 0 <= i < all.len() implies #[trigger] command_obeyed(
        more,
        list,
        all,
        i,
    ) by {
        if i < k {
            assert(command_obeyed(states, commands.take(k), logs, i));
        } else {
            assert(more[i] == states.last());
        }
    }
    assert(all.drop_last() =~= logs);
}

/// What a list of commands gave to publish, and whether all of them could be obeyed.
pub struct ObeyedCommands {
    pub published: Vec<TransferCompletionEntry>,
    pub complete: bool,
}

/// What a worker has done about the commands that waited for it.
#[derive(Debug)]
pub struct ServedCommands {
    pub published: Vec<TransferCompletionEntry>,
    /// Whether there was a command.
    pub active: bool,
    /// Whether anybody is left to send commands.
    pub connected: bool,
    /// Whether all commands could be obeyed.
    pub complete: bool,
}

impl<D: RdmaDomain, C, A, const N: usize> DomainGroup<D, C, A, N> {
    /// Some first commands have been obeyed: all of them, or those before one that cannot be.
    pub open spec fn obeyed_all(
        &self,
        before: &Self,
        commands: Seq<WorkerCommand<C, A>>,
        published: Seq<TransferCompletionEntry>,
        complete: bool,
    ) -> bool {
        exists|states: Seq<Self>, logs: Seq<Seq<TransferCompletionEntry>>|
            {
                &&& logs.len() <= commands.len()
                &&& #[trigger] commands_obeyed(states, commands.take(logs.len() as int), logs)
                &&& states[0] == *before
                &&& states.last() == *self
                &&& published == joined(logs)
                &&& if complete {
                    logs.len() == commands.len()
                } else {
                    logs.len() < commands.len() && !self.obeyable(&commands[logs.len() as int])
                }
            }
    }

    /// Obeys commands in order, up to the first that cannot be obeyed.
    pub fn obey_all(&mut self, commands: Vec<WorkerCommand<C, A>>) -> (obeyed: ObeyedCommands)
        requires
            old(self).wf(),
        ensures
            final(self).wf(),
            final(self).obeyed_all(old(self), commands@, obeyed.published@, obeyed.complete),
    {
        let ghost list = commands@;
        let ghost mut states: Seq<Self> = seq![*self];
        let ghost mut logs: Seq<Seq<TransferCompletionEntry>> = Seq::empty();
        let mut published: Vec<TransferCompletionEntry> = Vec::new();
        assert(commands_obeyed(states, list.take(0), logs));
        for command in it: commands
            invariant
                list == it.seq(),
                list == commands@,
                self.wf(),
                states.len() == it.index() + 1,
                logs.len() == it.index(),
                states[0] == *old(self),
                states.last() == *self,
                commands_obeyed(states, list.take(it.index() as int), logs),
                published@ == joined(logs),
        {
            let ghost k = it.index() as int;
            assert(list[k] == command);
            if !self.can_obey(&command) {
                assert(commands_obeyed(states, list.take(logs.len() as int), logs));
                return ObeyedCommands { published, complete: false };
            }
            let ghost before = *self;
            let mut log = self.obey(command);
            proof {
                lemma_commands_step(states, list, logs, *self, log@, k);
                states = states.push(*self);
                logs = logs.push(log@);
            }
            published.append(&mut log);
        }
        proof {
            assert(commands_obeyed(states, list.take(logs.len() as int), logs));
        }
        ObeyedCommands { published, complete: true }
    }

    /// The commands `taken` have been obeyed, which led to `middle`; then, unless the worker is
    /// to end, the domains have been polled.
    pub open spec fn served(
        &self,
        before: &Self,
        taken: TakenCommands<C, A>,
        middle: &Self,
        served: ServedCommands,
    ) -> bool {
        &&& middle.obeyed_all(before, taken.commands@, served.published@, served.complete)
        &&& served.active == (taken.commands@.len() > 0)
        &&& served.connected == taken.connected
        &&& if served.complete && served.connected {
            self.polled(middle)
        } else {
            *self == *middle
        }
    }

    /// Obeys the commands that wait in a queue, up to a bound, and lets the domains make
    /// progress. The queue is handed back.
    pub fn serve_commands(&mut self, queue: Receiver<WorkerCommand<C, A>>) -> (worked: (
        Receiver<WorkerCommand<C, A>>,
        ServedCommands,
    ))
        requires
            old(self).wf(),
        ensures
            final(self).wf(),
            exists|
                found: Seq<Received<WorkerCommand<C, A>>>,
                taken: TakenCommands<C, A>,
                middle: Self,
            |
                #[trigger] taken_in(found, taken) && looked_into(queue, found, worked.0)
                    && #[trigger] final(self).served(old(self), taken, &middle, worked.1),
    {
        let (rest, taken) = take_commands(queue);
        let ghost found = choose|found: Seq<Received<WorkerCommand<C, A>>>|
            #[trigger] taken_in(found, taken) && looked_into(queue, found, rest);
        let ghost all = taken;
        let active: bool = taken.commands.len() > 0;
        let connected: bool = taken.connected;
        let obeyed = self.obey_all(taken.commands);
        let ghost middle = *self;
        if obeyed.complete && connected {
            self.poll_progress();
        }
        let served = ServedCommands {
            published: obeyed.published,
            active,
            connected,
            complete: obeyed.complete,
        };
        let worked = (rest, served);
        assert(taken_in(found, all) && self.served(old(self), all, &middle, worked.1));
        worked
    }
}

/// The items of looks are what the looks have found, in order.
pub proof fn items_are_in_order<T>(first: Seq<Received<T>>, second: Seq<Received<T>>, item: T)
    ensures
        items(first + second) == items(first) + items(second),
        items(seq![Received::Item(item)]) == seq![item],
        items(seq![Received::<T>::Empty]) == Seq::<T>::empty(),
        items(seq![Received::<T>::Disconnected]) == Seq::<T>::empty(),
    decreases second.len(),
{
    let none = Seq::<Received<T>>::empty();
    assert(items(none) =~= Seq::<T>::empty());
    assert(seq![Received::Item(item)].drop_last() =~= none);
    assert(seq![Received::<T>::Empty].drop_last() =~= none);
    assert(seq![Received::<T>::Disconnected].drop_last() =~= none);
    assert(items(seq![Received::Item(item)]) =~= seq![item]);
    if second.len() == 0 {
        assert(first + second =~= first);
        assert(items(first) + items(second) =~= items(first));
    } else {
        items_are_in_order(first, second.drop_last(), item);
        assert((first + second).drop_last() =~= first + second.drop_last());
        assert((first + second).last() == second.last());
        if let Received::Item(last) = second.last() {
            assert((items(first) + items(second.drop_last())).push(last) =~= items(first) + items(
                second.drop_last(),
            ).push(last));
        }
    }
}

/// Exactly the commands that were found are taken, in order and at most 64; fewer are taken only
/// if the queue then held nothing. The queue counts as having senders left unless the last look
/// has shown that it has none.
pub proof fn commands_are_taken_as_they_are_found<C, A>(
    found: Seq<Received<WorkerCommand<C, A>>>,
    taken: TakenCommands<C, A>,
)
    requires
        taken_in(found, taken),
    ensures
        taken.commands@.len() <= 64,
        forall|i: int|
            #![trigger taken.commands@[i]]
            0 <= i < taken.commands@.len() ==> found[i] == Received::Item(taken.commands@[i]),
        taken.commands@.len() == 64 ==> taken.connected || found.len() > 64,
        taken.commands@.len() < 64 ==> found.len() == taken.commands@.len() + 1 && !(
        found.last() is Item),
        taken.connected <==> !(found.last() is Disconnected),
{
    lemma_all_items(found.drop_last());
    let last = found.last();
    assert(found.last() == found[found.len() - 1]);
    assert forall|i: int|
        #![trigger taken.commands@[i]]
        0 <= i < taken.commands@.len() implies found[i] == Received::Item(taken.commands@[i]) by {
        if i < found.len() - 1 {
            assert(found.drop_last()[i] == found[i]);
        }
    }
}

proof fn lemma_all_items<T>(found: Seq<Received<T>>)
    requires
        forall|i: int| #![trigger found[i]] 0 <= i < found.len() ==> found[i] is Item,
    ensures
        items(found).len() == found.len(),
        forall|i: int|
            #![trigger items(found)[i]]
            0 <= i < found.len() ==> found[i] == Received::Item(items(found)[i]),
    decreases found.len(),
{
    if found.len() > 0 {
        let rest = found.drop_last();
        assert forall|i: int| #![trigger rest[i]] 0 <= i < rest.len() implies rest[i] is Item by {
            assert(found[i] == rest[i]);
        }
        lemma_all_items(rest);
        assert(found.last() == found[found.len() - 1]);
        assert forall|i: int|
            #![trigger items(found)[i]]
            0 <= i < found.len() implies found[i] == Received::Item(items(found)[i]) by {
            if i < rest.len() {
                assert(rest[i] == found[i]);
                assert(items(rest)[i] == items(found)[i]);
            }
        }
    }
}

/// What later commands give to publish comes after what earlier ones gave.
pub proof fn publications_are_in_order(
    first: Seq<Seq<TransferCompletionEntry>>,
    second: Seq<Seq<TransferCompletionEntry>>,
    log: Seq<TransferCompletionEntry>,
)
    ensures
        joined(first + second) == joined(first) + joined(second),
        joined(seq![log]) == log,
    decreases second.len(),
{
    let none = Seq::<Seq<TransferCompletionEntry>>::empty();
    assert(joined(none) =~= Seq::<TransferCompletionEntry>::empty());
    assert(seq![log].drop_last() =~= none);
    assert(joined(seq![log]) =~= log);
    if second.len() == 0 {
        assert(first + second =~= first);
        assert(joined(first) + joined(second) =~= joined(first));
    } else {
        publications_are_in_order(first, second.drop_last(), log);
        assert((first + second).drop_last() =~= first + second.drop_last());
        assert((first + second).last() == second.last());
        assert(joined(first) + joined(second.drop_last()) + second.last() =~= joined(first) + (
        joined(second.drop_last()) + second.last()));
    }
}

/// A worker obeys the commands that it takes one after the other, each once, and publishes what
/// they give in order. If it has obeyed all and somebody is left to send more, it then polls
/// every domain once; else it has come to an end, and does nothing more.
pub proof fn commands_are_obeyed_in_order<D: RdmaDomain, C, A, const N: usize>(
    after: DomainGroup<D, C, A, N>,
    before: DomainGroup<D, C, A, N>,
    taken: TakenCommands<C, A>,
    middle: DomainGroup<D, C, A, N>,
    served: ServedCommands,
) -> (steps: (Seq<DomainGroup<D, C, A, N>>, Seq<Seq<TransferCompletionEntry>>))
    requires
        after.served(&before, taken, &middle, served),
    ensures
        ({
            let (states, logs) = steps;
            &&& states.len() == logs.len() + 1
            &&& states[0] == before
            &&& states.last() == middle
            &&& forall|i: int|
                #![trigger logs[i]]
                0 <= i < logs.len() ==> states[i + 1].obeyed(
                    &states[i],
                    &taken.commands@[i],
                    logs[i],
                )
            &&& logs.len() == 1 ==> served.published@ == logs[0]
            &&& served.published@ == joined(logs)
            &&& served.complete <==> logs.len() == taken.commands@.len()
            &&& served.active <==> taken.commands@.len() > 0
            &&& served.connected <==> taken.connected
            &&& if logs.len() == taken.commands@.len() && taken.connected {
                forall|i: int|
                    #![trigger after.given(&middle, i)]
                    0 <= i < N ==> after.given(&middle, i) == seq![DomainEvent::Poll]
            } else {
                after == middle
            }
        }),
{
    let commands = taken.commands@;
    let (states, logs) = choose|
        states: Seq<DomainGroup<D, C, A, N>>,
        logs: Seq<Seq<TransferCompletionEntry>>,
    |
        {
            &&& logs.len() <= commands.len()
            &&& #[trigger] commands_obeyed(states, commands.take(logs.len() as int), logs)
            &&& states[0] == before
            &&& states.last() == middle
            &&& served.published@ == joined(logs)
            &&& if served.complete {
                logs.len() == commands.len()
            } else {
                logs.len() < commands.len() && !middle.obeyable(&commands[logs.len() as int])
            }
        };
    assert forall|i: int| #![trigger logs[i]] 0 <= i < logs.len() implies states[i + 1].obeyed(
        &states[i],
        &commands[i],
        logs[i],
    ) by {
        assert(command_obeyed(states, commands.take(logs.len() as int), logs, i));
    }
    if logs.len() == 1 {
        publications_are_in_order(logs, logs, logs[0]);
        assert(logs =~= seq![logs[0]]);
    }
    if served.complete && served.connected {
        assert forall|i: int|
            #![trigger after.given(&middle, i)]
            0 <= i < N implies after.given(&middle, i) == seq![DomainEvent::Poll] by {
            every_domain_is_polled(after, middle, i);
        }
    }
    (states, logs)
}

} // verus!
