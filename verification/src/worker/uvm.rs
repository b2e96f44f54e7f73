//! Watched words of host memory.
use std::collections::HashSet;

use vstd::prelude::*;

use crate::api::{TransferCompletionEntry, UvmWatcherId};
use crate::cuda_compat::{CudaHostMemory, WORD_BYTES};
use crate::sharding::lemma_ceil_div;

verus! {

/// The bytes of memory that are set aside for watched words.
pub const UVM_WATCHER_BYTES: usize = 4096;

/// What a caller asks of the thread that watches words.
#[derive(Clone, Copy, Debug)]
pub enum UvmWatcherCall {
    AcquireUvmWatcher,
    ReleaseUvmWatcher { watcher: UvmWatcherId },
}

/// What the caller is answered.
#[derive(Clone, Copy, Debug)]
pub enum UvmWatcherReply {
    Acquired(Option<UvmWatcherId>),
    Released,
}

/// Words of host memory, each free or watched for a holder.
pub struct UvmWatcherContext {
    pub uvm_memory: CudaHostMemory,
    /// The address of the first word.
    pub base: u64,
    /// What each word last held.
    pub last_values: Vec<u64>,
    /// The free words; the last is given out next.
    pub free_slots: Vec<usize>,
    pub used_slots: HashSet<usize>,
}

impl UvmWatcherContext {
    /// The number of words that can be watched.
    pub open spec fn slots(&self) -> nat {
        (self.uvm_memory.size / WORD_BYTES) as nat
    }

    /// The word is on the list of free words.
    pub open spec fn is_free(&self, slot: usize) -> bool {
        self.free_slots@.contains(slot)
    }

    /// Every word is either free, once, or watched; and all have addresses.
    pub open spec fn wf(&self) -> bool {
        &&& self.uvm_memory.wf()
        &&& self.base + self.uvm_memory.size <= u64::MAX
        &&& self.last_values@.len() == self.slots()
        &&& self.free_slots@.no_duplicates()
        &&& forall|slot: usize|
            #![trigger self.is_free(slot)]
            #![trigger self.used_slots@.contains(slot)]
            (self.is_free(slot) || self.used_slots@.contains(slot)) == (slot < self.slots())
        &&& forall|slot: usize|
            #![trigger self.is_free(slot)]
            #![trigger self.used_slots@.contains(slot)]
            !(self.is_free(slot) && self.used_slots@.contains(slot))
    }

    /// The id of a word: its address.
    pub open spec fn id_of(&self, slot: int) -> UvmWatcherId {
        UvmWatcherId((self.base + slot * WORD_BYTES) as u64)
    }

    /// The word that an id stands for.
    pub open spec fn slot_of(&self, id: UvmWatcherId) -> int {
        (id.0 - self.base) / (WORD_BYTES as int)
    }

    /// The id lies in the memory.
    pub open spec fn owns(&self, id: UvmWatcherId) -> bool {
        self.base <= id.0 < self.base + self.uvm_memory.size
    }

    /// Nothing is watched at first, and words are given out from the first on.
    pub fn new(uvm_memory: CudaHostMemory, base: u64) -> (context: Self)
        requires
            uvm_memory.wf(),
            base + uvm_memory.size <= u64::MAX,
        ensures
            context.wf(),
            context.uvm_memory == uvm_memory,
            context.base == base,
            context.last_values@ == Seq::new(context.slots(), |i: int| 0u64),
            context.used_slots@ == Set::<usize>::empty(),
            context.free_slots@ == Seq::new(
                context.slots(),
                |i: int| (context.slots() - 1 - i) as usize,
            ),
    {
        let num_slots: usize = uvm_memory.size / WORD_BYTES;
        let mut free_slots: Vec<usize> = Vec::with_capacity(num_slots);
        let mut left: usize = num_slots;
        while left > 0
            invariant
                left <= num_slots,
                free_slots@.len() == num_slots - left,
                forall|i: int|
                    #![trigger free_slots@[i]]
                    0 <= i < free_slots@.len() ==> free_slots@[i] == num_slots - 1 - i,
            decreases left,
        {
            left = left - 1;
            free_slots.push(left);
        }
        let last_values: Vec<u64> = vec![0u64; num_slots];
        let context = UvmWatcherContext {
            uvm_memory,
            base,
            last_values,
            free_slots,
            used_slots: HashSet::new(),
        };
        proof {
            assert(context.free_slots@ =~= Seq::new(
                context.slots(),
                |i: int| (context.slots() - 1 - i) as usize,
            ));
            assert(context.last_values@ =~= Seq::new(context.slots(), |i: int| 0u64));
            assert forall|slot: usize| slot < num_slots implies context.is_free(slot) by {
                assert(context.free_slots@[num_slots - 1 - slot] == slot);
            }
        }
        context
    }

    fn slot_to_id(&self, slot: usize) -> (id: UvmWatcherId)
        requires
            self.wf(),
            slot < self.slots(),
        ensures
            id == self.id_of(slot as int),
            self.owns(id),
    {
        UvmWatcherId(self.base + (slot * WORD_BYTES) as u64)
    }

    /// What a request for a word leads to.
    pub open spec fn acquired(&self, after: &Self, watcher: Option<UvmWatcherId>) -> bool {
        &&& after.uvm_memory == self.uvm_memory
        &&& after.base == self.base
        &&& after.last_values == self.last_values
        &&& if self.free_slots@.len() == 0 {
            &&& watcher is None
            &&& after.free_slots@ == self.free_slots@
            &&& after.used_slots@ == self.used_slots@
        } else {
            let slot = self.free_slots@.last();
            &&& watcher == Some(self.id_of(slot as int))
            &&& after.free_slots@ == self.free_slots@.drop_last()
            &&& after.used_slots@ == self.used_slots@.insert(slot)
        }
    }

    /// What the return of a word leads to.
    pub open spec fn released(&self, after: &Self, id: UvmWatcherId, released: bool) -> bool {
        let slot = self.slot_of(id) as usize;
        &&& after.base == self.base
        &&& after.uvm_memory.size == self.uvm_memory.size
        &&& released == self.used_slots@.contains(slot)
        &&& if released {
            &&& after.used_slots@ == self.used_slots@.remove(slot)
            &&& after.free_slots@ == self.free_slots@.push(slot)
            &&& after.uvm_memory.words() == self.uvm_memory.words().update(slot as int, 0)
            &&& after.last_values@ == self.last_values@.update(slot as int, 0)
        } else {
            &&& after.used_slots@ == self.used_slots@
            &&& after.free_slots@ == self.free_slots@
            &&& after.uvm_memory.words() == self.uvm_memory.words()
            &&& after.last_values@ == self.last_values@
        }
    }

    /// Gives out the next free word, if there is one.
    pub fn acquire(&mut self) -> (watcher: Option<UvmWatcherId>)
        requires
            old(self).wf(),
        ensures
            final(self).wf(),
            old(self).acquired(final(self), watcher),
    {
        match self.free_slots.pop() {
            Some(slot) => {
                let ghost free = old(self).free_slots@;
                self.used_slots.insert(slot);
                proof {
                    assert(self.free_slots@ =~= free.drop_last());
                    assert(free[free.len() - 1] == slot);
                    assert forall|other: usize| self.is_free(other) <==> (old(self).is_free(other)
                        && other != slot) by {
                        if old(self).is_free(other) && other != slot {
                            let i = choose|i: int| 0 <= i < free.len() && free[i] == other;
                            assert(self.free_slots@[i] == other);
                        }
                        if self.is_free(other) {
                            let i = choose|i: int|
                                0 <= i < self.free_slots@.len() && self.free_slots@[i] == other;
                            assert(free[i] == other);
                        }
                    }
                    assert(old(self).is_free(slot));
                }
                Some(self.slot_to_id(slot))
            },
            None => None,
        }
    }

    /// Takes a word back; whether it was watched. A word that was not is left alone.
    pub fn release(&mut self, id: UvmWatcherId) -> (released: bool)
        requires
            old(self).wf(),
            old(self).owns(id),
        ensures
            final(self).wf(),
            old(self).released(final(self), id, released),
    {
        let slot: usize = (id.0 - self.base) as usize / WORD_BYTES;
        if self.used_slots.remove(&slot) {
            let ghost free = old(self).free_slots@;
            proof {
                assert(old(self).used_slots@.contains(slot));
                lemma_words_hold_slots(&self.uvm_memory);
            }
            self.free_slots.push(slot);
            *self.uvm_memory.get_mut(slot) = 0;
            self.last_values.set(slot, 0);
            proof {
                assert forall|other: usize| self.is_free(other) <==> (old(self).is_free(other)
                    || other == slot) by {
                    if old(self).is_free(other) {
                        let i = choose|i: int| 0 <= i < free.len() && free[i] == other;
                        assert(self.free_slots@[i] == other);
                    }
                    if other == slot {
                        assert(self.free_slots@[free.len() as int] == slot);
                    }
                    if self.is_free(other) {
                        let i = choose|i: int|
                            0 <= i < self.free_slots@.len() && self.free_slots@[i] == other;
                        if i < free.len() {
                            assert(free[i] == other);
                        }
                    }
                }
                assert(!old(self).is_free(slot));
                assert(self.free_slots@.no_duplicates());
                assert forall|other: usize|
                    #![trigger self.is_free(other)]
                    #![trigger self.used_slots@.contains(other)]
                    (self.is_free(other) || self.used_slots@.contains(other)) == (other
                        < self.slots()) by {
                    assert((old(self).is_free(other) || old(self).used_slots@.contains(other)) == (
                    other < old(self).slots()));
                }
            }
            true
        } else {
            proof {
                assert(self.used_slots@ =~= old(self).used_slots@);
                assert forall|other: usize| #[trigger]
                    self.is_free(other) == old(self).is_free(other) by {}
            }
            false
        }
    }

    /// What a word's change is reported as.
    pub open spec fn change(&self, slot: int, value: u64) -> TransferCompletionEntry {
        TransferCompletionEntry::UvmWatch {
            id: self.id_of(slot),
            old: self.last_values@[slot],
            new: value,
        }
    }

    /// The word is watched and does not hold what it last held.
    pub open spec fn changed(&self, slot: int, value: u64) -> bool {
        self.used_slots@.contains(slot as usize) && value != self.last_values@[slot]
    }

    /// The changes among the first `upto` words.
    pub open spec fn changes(&self, readings: Seq<u64>, upto: int) -> Seq<TransferCompletionEntry>
        decreases upto,
    {
        if upto <= 0 {
            Seq::empty()
        } else {
            let before = self.changes(readings, upto - 1);
            if self.changed(upto - 1, readings[upto - 1]) {
                before.push(self.change(upto - 1, readings[upto - 1]))
            } else {
                before
            }
        }
    }

    /// Compares what the words hold now with what they last held; the changes of the watched
    /// words.
    pub fn observe(&mut self, readings: &Vec<u64>) -> (events: Vec<TransferCompletionEntry>)
        requires
            old(self).wf(),
            readings@.len() == old(self).slots(),
        ensures
            final(self).wf(),
            final(self).uvm_memory == old(self).uvm_memory,
            final(self).base == old(self).base,
            final(self).free_slots == old(self).free_slots,
            final(self).used_slots == old(self).used_slots,
            events@ == old(self).changes(readings@, old(self).slots() as int),
            final(self).last_values@ == Seq::new(
                old(self).slots(),
                |i: int|
                    if old(self).used_slots@.contains(i as usize) {
                        readings@[i]
                    } else {
                        old(self).last_values@[i]
                    },
            ),
            final(self).changes(readings@, final(self).slots() as int).len() == 0,
    {
        let mut events: Vec<TransferCompletionEntry> = Vec::new();
        let num_slots: usize = self.last_values.len();
        let mut slot: usize = 0;
        while slot < num_slots
            invariant
                slot <= num_slots,
                num_slots == self.slots(),
                old(self).wf(),
                self.wf(),
                readings@.len() == num_slots,
                self.uvm_memory == old(self).uvm_memory,
                self.base == old(self).base,
                self.free_slots == old(self).free_slots,
                self.used_slots == old(self).used_slots,
                events@ == old(self).changes(readings@, slot as int),
                forall|i: int|
                    #![trigger self.last_values@[i]]
                    0 <= i < slot ==> self.last_values@[i] == if old(self).used_slots@.contains(
                        i as usize,
                    ) {
                        readings@[i]
                    } else {
                        old(self).last_values@[i]
                    },
                forall|i: int|
                    #![trigger self.last_values@[i]]
                    slot <= i < num_slots ==> self.last_values@[i] == old(self).last_values@[i],
            decreases num_slots - slot,
        {
            if self.used_slots.contains(&slot) {
                let value: u64 = readings[slot];
                let last: u64 = self.last_values[slot];
                if value != last {
                    let id = self.slot_to_id(slot);
                    let ghost earlier = *self;
                    self.last_values.set(slot, value);
                    proof {
                        assert forall|other: usize| #[trigger]
                            self.is_free(other) == earlier.is_free(other) by {}
                        assert(self.wf());
                    }
                    events.push(TransferCompletionEntry::UvmWatch { id, old: last, new: value });
                }
            }
            slot = slot + 1;
        }
        assert(self.last_values@ =~= Seq::new(
            old(self).slots(),
            |i: int|
                if old(self).used_slots@.contains(i as usize) {
                    readings@[i]
                } else {
                    old(self).last_values@[i]
                },
        ));
        proof {
            lemma_nothing_changed(*self, readings@, num_slots as int);
        }
        events
    }
}

/// The memory has a word for every slot.
proof fn lemma_words_hold_slots(memory: &CudaHostMemory)
    requires
        memory.wf(),
    ensures
        memory.size / WORD_BYTES <= memory.words().len(),
{
    lemma_ceil_div(memory.size as int, WORD_BYTES as int);
}

/// The id of a word stands for that word, so no two words have the same id.
pub proof fn ids_name_their_slots(context: UvmWatcherContext, slot: int)
    requires
        context.wf(),
        0 <= slot < context.slots(),
    ensures
        context.owns(context.id_of(slot)),
        context.slot_of(context.id_of(slot)) == slot,
{
    assert(slot * WORD_BYTES + WORD_BYTES <= context.uvm_memory.size);
}

/// A word that has been given out is one that was not watched, and is not given out again.
pub proof fn given_out_word_is_fresh(
    before: UvmWatcherContext,
    after: UvmWatcherContext,
    id: UvmWatcherId,
)
    requires
        before.wf(),
        after.wf(),
        before.acquired(&after, Some(id)),
    ensures
        before.owns(id),
        !before.used_slots@.contains(before.slot_of(id) as usize),
        after.used_slots@.contains(after.slot_of(id) as usize),
        !after.is_free(after.slot_of(id) as usize),
{
    let slot = before.free_slots@.last();
    assert(before.free_slots@[before.free_slots@.len() - 1] == slot);
    assert(before.is_free(slot));
    ids_name_their_slots(before, slot as int);
    assert(after.id_of(slot as int) == id);
    ids_name_their_slots(after, slot as int);
}

/// Giving a word back undoes giving it out, but that the word is cleared.
pub proof fn release_undoes_acquire(
    before: UvmWatcherContext,
    held: UvmWatcherContext,
    after: UvmWatcherContext,
    id: UvmWatcherId,
    released: bool,
)
    requires
        before.wf(),
        held.wf(),
        before.acquired(&held, Some(id)),
        held.released(&after, id, released),
    ensures
        released,
        after.free_slots@ == before.free_slots@,
        after.used_slots@ == before.used_slots@,
        after.uvm_memory.words() == before.uvm_memory.words().update(before.slot_of(id), 0),
        after.last_values@ == before.last_values@.update(before.slot_of(id), 0),
{
    given_out_word_is_fresh(before, held, id);
    let slot = before.free_slots@.last();
    ids_name_their_slots(before, slot as int);
    assert(after.free_slots@ =~= before.free_slots@);
    assert(after.used_slots@ =~= before.used_slots@);
}

/// Serves one call. The context must exist before a word is asked for; a return that comes
/// before there is one is ignored.
pub fn serve_uvm_call(context: &mut Option<UvmWatcherContext>, call: UvmWatcherCall) -> (reply:
    UvmWatcherReply)
    requires
        *old(context) matches Some(before) ==> before.wf(),
        match call {
            UvmWatcherCall::AcquireUvmWatcher => *old(context) is Some,
            UvmWatcherCall::ReleaseUvmWatcher { watcher } => *old(context) matches Some(before)
                ==> before.owns(watcher),
        },
    ensures
        match (*old(context), *final(context)) {
            (Some(before), Some(after)) => {
                &&& after.wf()
                &&& match call {
                    UvmWatcherCall::AcquireUvmWatcher => reply matches UvmWatcherReply::Acquired(
                        watcher,
                    ) && before.acquired(&after, watcher),
                    UvmWatcherCall::ReleaseUvmWatcher { watcher } => reply is Released
                        && before.released(
                        &after,
                        watcher,
                        before.used_slots@.contains(before.slot_of(watcher) as usize),
                    ),
                }
            },
            (None, None) => reply is Released,
            _ => false,
        },
{
    match call {
        UvmWatcherCall::AcquireUvmWatcher => {
            let watcher = match context {
                Some(context) => context.acquire(),
                None => None,
            };
            UvmWatcherReply::Acquired(watcher)
        },
        UvmWatcherCall::ReleaseUvmWatcher { watcher } => {
            if let Some(context) = context {
                context.release(watcher);
            }
            UvmWatcherReply::Released
        },
    }
}

/// Exactly the watched words that do not hold what they last held are reported, each once, in
/// the order of the words: with the address of the word, what it last held and what it holds.
pub proof fn changes_are_reported(
    context: UvmWatcherContext,
    readings: Seq<u64>,
    upto: int,
) -> (places: Seq<int>)
    requires
        context.wf(),
        readings.len() == context.slots(),
        0 <= upto <= context.slots(),
    ensures
        places.len() == context.changes(readings, upto).len(),
        forall|p: int|
            #![trigger places[p]]
            0 <= p < places.len() ==> {
                let slot = places[p];
                &&& 0 <= slot < upto
                &&& context.used_slots@.contains(slot as usize)
                &&& context.changes(readings, upto)[p] matches TransferCompletionEntry::UvmWatch {
                    id,
                    old: was,
                    new: is,
                } && id.0 == context.base + 8 * slot && was == context.last_values@[slot] && is
                    == readings[slot] && was != is
            },
        forall|p: int, q: int|
            #![trigger places[p], places[q]]
            0 <= p < q < places.len() ==> places[p] < places[q],
        forall|slot: int|
            #![trigger readings[slot]]
            0 <= slot < upto && context.used_slots@.contains(slot as usize) && readings[slot]
                != context.last_values@[slot] ==> places.contains(slot),
    decreases upto,
{
    if upto == 0 {
        Seq::empty()
    } else {
        let last = upto - 1;
        let before = changes_are_reported(context, readings, last);
        ids_name_their_slots(context, last);
        let own = context.used_slots@.contains(last as usize) && readings[last]
            != context.last_values@[last];
        let places = if own {
            before.push(last)
        } else {
            before
        };
        assert forall|p: int| #![trigger places[p]] 0 <= p < places.len() implies {
            let slot = places[p];
            &&& 0 <= slot < upto
            &&& context.used_slots@.contains(slot as usize)
            &&& context.changes(readings, upto)[p] matches TransferCompletionEntry::UvmWatch {
                id,
                old: was,
                new: is,
            } && id.0 == context.base + 8 * slot && was == context.last_values@[slot] && is
                == readings[slot] && was != is
        } by {
            if p < before.len() {
                assert(before[p] == places[p]);
                assert(context.changes(readings, upto)[p] == context.changes(readings, last)[p]);
            }
        }
        assert forall|p: int, q: int|
            #![trigger places[p], places[q]]
            0 <= p < q < places.len() implies places[p] < places[q] by {
            assert(before[p] == places[p]);
            if q < before.len() {
                assert(before[q] == places[q]);
            }
        }
        assert forall|slot: int|
            #![trigger readings[slot]]
            0 <= slot < upto && context.used_slots@.contains(slot as usize) && readings[slot]
                != context.last_values@[slot] implies places.contains(slot) by {
            if slot < last {
                assert(before.contains(slot));
                let p = choose|p: int| 0 <= p < before.len() && before[p] == slot;
                assert(places[p] == slot);
            } else {
                assert(places[before.len() as int] == slot);
            }
        }
        places
    }
}

proof fn lemma_nothing_changed(context: UvmWatcherContext, readings: Seq<u64>, upto: int)
    requires
        forall|slot: int|
            #![trigger readings[slot]]
            0 <= slot < upto && context.used_slots@.contains(slot as usize) ==> readings[slot]
                == context.last_values@[slot],
    ensures
        context.changes(readings, upto) == Seq::<TransferCompletionEntry>::empty(),
    decreases upto,
{
    if upto > 0 {
        lemma_nothing_changed(context, readings, upto - 1);
    }
}

/// A word is given out exactly if not all are watched; its id is its address, all other words
/// are watched or not as before, and nothing is written.
pub proof fn a_word_is_given_out_if_one_is_left(
    before: UvmWatcherContext,
    after: UvmWatcherContext,
    watcher: Option<UvmWatcherId>,
) -> (slot: usize)
    requires
        before.wf(),
        before.acquired(&after, watcher),
    ensures
        after.uvm_memory == before.uvm_memory,
        after.base == before.base,
        watcher is None <==> forall|other: usize|
            #![trigger before.used_slots@.contains(other)]
            other < before.slots() ==> before.used_slots@.contains(other),
        watcher matches Some(id) ==> {
            &&& slot < before.slots()
            &&& id.0 == before.base + 8 * slot
            &&& !before.used_slots@.contains(slot)
            &&& after.used_slots@.contains(slot)
            &&& forall|other: usize|
                #![trigger after.used_slots@.contains(other)]
                other != slot ==> after.used_slots@.contains(other)
                    == before.used_slots@.contains(other)
        },
        watcher is None ==> after.used_slots@ == before.used_slots@,
{
    if before.free_slots@.len() == 0 {
        assert forall|other: usize|
            #![trigger before.used_slots@.contains(other)]
            other < before.slots() implies before.used_slots@.contains(other) by {
            assert(!before.is_free(other));
        }
        0
    } else {
        let slot = before.free_slots@.last();
        assert(before.free_slots@[before.free_slots@.len() - 1] == slot);
        assert(before.is_free(slot));
        assert(!before.used_slots@.contains(slot));
        ids_name_their_slots(before, slot as int);
        slot
    }
}

/// Giving back an address gives back the word that lies there, if it was watched: the word is
/// cleared and is free again. All other words are as they were.
pub proof fn a_word_is_given_back_alone(
    before: UvmWatcherContext,
    after: UvmWatcherContext,
    id: UvmWatcherId,
    released: bool,
    slot: usize,
    other: usize,
)
    requires
        before.wf(),
        before.owns(id),
        before.released(&after, id, released),
        before.base + 8 * slot <= id.0 < before.base + 8 * slot + 8,
        other != slot,
    ensures
        released == before.used_slots@.contains(slot),
        !after.used_slots@.contains(slot),
        released ==> after.free_slots@.contains(slot) && after.last_values@[slot as int] == 0
            && after.uvm_memory.words()[slot as int] == 0,
        after.used_slots@.contains(other) == before.used_slots@.contains(other),
        other < before.slots() ==> after.last_values@[other as int]
            == before.last_values@[other as int] && after.uvm_memory.words()[other as int]
            == before.uvm_memory.words()[other as int],
{
    assert((id.0 - before.base) / 8 == slot);
    if released {
        assert(slot < before.slots()) by {
            assert(before.used_slots@.contains(slot));
        }
        lemma_words_hold_slots(&before.uvm_memory);
        assert(after.free_slots@[before.free_slots@.len() as int] == slot);
    }
}

} // verus!
