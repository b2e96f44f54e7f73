//! A stable, bounded chain of work requests on one queue pair. Only the tail requests a
//! completion.
use vstd::prelude::*;

use crate::api::{MAX_GATHER_SEGMENTS, MAX_WRITE_BATCH_WR};
use crate::rdma_op::{GatherSource, GatherWriteOp};

verus! {

/// One range of local memory.
#[derive(Clone, Copy, Debug, PartialEq, Eq, Structural)]
pub struct Sge {
    pub addr: u64,
    pub length: u32,
    pub lkey: u32,
}

/// What a work request does.
#[derive(Clone, Copy, Debug, PartialEq, Eq, Structural)]
pub enum WrOpcode {
    RdmaWrite,
    RdmaWriteWithImm,
}

/// One work request of a chain.
#[derive(Debug)]
pub struct SendWr {
    pub wr_id: u64,
    /// The place of the next request of the chain.
    pub next: Option<usize>,
    pub sg_list: Vec<Sge>,
    pub opcode: WrOpcode,
    /// Whether its success is reported.
    pub signaled: bool,
    pub imm_data: u32,
    pub remote_addr: u64,
    pub rkey: u32,
}

/// The bytes between the tokens of successive requests. Tokens lie at even addresses, so that
/// the lowest bit of an id can tell a token from a plain context.
pub const TOKEN_STRIDE: u64 = 16;

/// A chain of writes on one queue pair.
///
/// Each request has a token, which leads from its completion back to the owner of the chain and
/// to the request. The tokens lie one after the other from `tokens` on.
#[derive(Debug)]
pub struct BatchWriteOpIter {
    pub qp: u64,
    pub parent: u64,
    pub tokens: u64,
    pub slots: Vec<SendWr>,
    pub posted: usize,
    pub end: usize,
    pub aborting: bool,
}

/// The source can be named to the device.
pub open spec fn source_in_range(source: GatherSource) -> bool {
    &&& source.src_ptr + source.src_offset <= u64::MAX
    &&& source.length <= u32::MAX
}

/// The write can be named to the device.
pub open spec fn op_in_range(op: &GatherWriteOp) -> bool {
    &&& op.sources@.len() <= MAX_GATHER_SEGMENTS
    &&& forall|s: int|
        #![trigger op.sources@[s]]
        0 <= s < op.sources@.len() ==> source_in_range(op.sources@[s])
    &&& op.dst_ptr + op.dst_offset <= u64::MAX
}

/// The writes make a chain.
pub open spec fn ops_in_range(ops: Seq<GatherWriteOp>) -> bool {
    &&& 0 < ops.len() <= MAX_WRITE_BATCH_WR
    &&& forall|i: int| #![trigger ops[i]] 0 <= i < ops.len() ==> op_in_range(&ops[i])
}

/// The tokens of a chain have even addresses.
pub open spec fn tokens_in_range(tokens: u64) -> bool {
    &&& tokens & 1 == 0
    &&& tokens + MAX_WRITE_BATCH_WR * TOKEN_STRIDE <= u64::MAX
}

/// How a source is named to the device.
pub open spec fn sge_of(source: GatherSource) -> Sge {
    Sge {
        addr: (source.src_ptr + source.src_offset) as u64,
        length: source.length as u32,
        lkey: source.src_desc.0 as u32,
    }
}

/// The address of the token of the request `i`.
pub open spec fn token_addr(tokens: u64, i: int) -> u64 {
    (tokens + i * TOKEN_STRIDE) as u64
}

/// The id of the request `i`: the address of its token, with the lowest bit set.
pub open spec fn tagged(tokens: u64, i: int) -> u64 {
    token_addr(tokens, i) | 1
}

/// Where the request `i` of a chain of `end` leads.
pub open spec fn next_of(i: int, end: int) -> Option<usize> {
    if i + 1 < end {
        Some((i + 1) as usize)
    } else {
        None
    }
}

/// The request for the write `i`.
pub open spec fn is_request(wr: &SendWr, op: &GatherWriteOp, tokens: u64, i: int, n: int) -> bool {
    &&& wr.wr_id == tagged(tokens, i)
    &&& wr.next == next_of(i, n)
    &&& wr.sg_list@ == Seq::new(op.sources@.len(), |s: int| sge_of(op.sources@[s]))
    &&& wr.opcode == if op.imm_data is Some {
        WrOpcode::RdmaWriteWithImm
    } else {
        WrOpcode::RdmaWrite
    }
    &&& wr.signaled == (i + 1 == n)
    &&& wr.imm_data == match op.imm_data {
        Some(imm) => imm,
        None => 0,
    }
    &&& wr.remote_addr == op.dst_ptr + op.dst_offset
    &&& wr.rkey == op.dst_rkey.0 as u32
}

fn gather_sges(sources: &Vec<GatherSource>) -> (sges: Vec<Sge>)
    requires
        forall|s: int|
            #![trigger sources@[s]]
            0 <= s < sources@.len() ==> source_in_range(sources@[s]),
    ensures
        sges@ == Seq::new(sources@.len(), |s: int| sge_of(sources@[s])),
{
    let mut sges: Vec<Sge> = Vec::with_capacity(sources.len());
    let mut s: usize = 0;
    while s < sources.len()
        invariant
            s <= sources@.len(),
            forall|j: int|
                #![trigger sources@[j]]
                0 <= j < sources@.len() ==> source_in_range(sources@[j]),
            sges@ == Seq::new(s as nat, |j: int| sge_of(sources@[j])),
        decreases sources@.len() - s,
    {
        let source = sources[s];
        assert(source_in_range(sources@[s as int]));
        sges.push(
            Sge {
                addr: source.src_ptr + source.src_offset,
                length: source.length as u32,
                lkey: #[verifier::truncate]
                (source.src_desc.0 as u32),
            },
        );
        s = s + 1;
        assert(sges@ =~= Seq::new(s as nat, |j: int| sge_of(sources@[j])));
    }
    sges
}

impl BatchWriteOpIter {
    /// The requests up to `end` make one chain in order, whose tail alone is signaled.
    pub open spec fn wf(&self) -> bool {
        &&& self.posted <= self.end <= self.slots@.len() <= MAX_WRITE_BATCH_WR
        &&& 0 < self.end
        &&& tokens_in_range(self.tokens)
        &&& forall|i: int|
            #![trigger self.slots@[i]]
            0 <= i < self.slots@.len() ==> self.slots@[i].wr_id == tagged(self.tokens, i)
        &&& forall|i: int|
            #![trigger self.slots@[i]]
            0 <= i < self.end ==> self.slots@[i].next == next_of(i, self.end as int)
                && self.slots@[i].signaled == (i + 1 == self.end)
    }

    /// Links writes into a chain on the queue pair `qp` for the owner `parent`.
    pub fn new(ops: Vec<GatherWriteOp>, qp: u64, parent: u64, tokens: u64) -> (batch: Self)
        requires
            ops_in_range(ops@),
            tokens_in_range(tokens),
        ensures
            batch.wf(),
            batch.qp == qp,
            batch.parent == parent,
            batch.tokens == tokens,
            batch.posted == 0,
            batch.end == ops@.len(),
            !batch.aborting,
            batch.slots@.len() == ops@.len(),
            forall|i: int|
                #![trigger batch.slots@[i]]
                0 <= i < ops@.len() ==> is_request(
                    &batch.slots@[i],
                    &ops@[i],
                    tokens,
                    i,
                    ops@.len() as int,
                ),
    {
        let length: usize = ops.len();
        let mut slots: Vec<SendWr> = Vec::with_capacity(length);
        let mut i: usize = 0;
        while i < length
            invariant
                i <= length,
                length == ops@.len(),
                ops_in_range(ops@),
                tokens_in_range(tokens),
                slots@.len() == i,
                forall|j: int|
                    #![trigger slots@[j]]
                    0 <= j < i ==> is_request(&slots@[j], &ops@[j], tokens, j, length as int),
            decreases length - i,
        {
            let op = &ops[i];
            assert(op_in_range(&ops@[i as int]));
            let tail: bool = i + 1 == length;
            let imm_data: u32 = match op.imm_data {
                Some(imm) => imm,
                None => 0,
            };
            let wr = SendWr {
                wr_id: (tokens + i as u64 * TOKEN_STRIDE) | 1,
                next: if tail {
                    None
                } else {
                    Some(i + 1)
                },
                sg_list: gather_sges(&op.sources),
                opcode: if op.imm_data.is_some() {
                    WrOpcode::RdmaWriteWithImm
                } else {
                    WrOpcode::RdmaWrite
                },
                signaled: tail,
                imm_data,
                remote_addr: op.dst_ptr + op.dst_offset,
                rkey: #[verifier::truncate]
                (op.dst_rkey.0 as u32),
            };
            slots.push(wr);
            i = i + 1;
        }
        BatchWriteOpIter { qp, parent, tokens, slots, posted: 0, end: length, aborting: false }
    }

    /// The number of requests that have been or are to be posted.
    pub fn total_ops(&self) -> (n: usize)
        ensures
            n == self.end,
    {
        self.end
    }

    /// The queue pair, the place of the first request that has not been posted, if there is
    /// one, and how many there are.
    pub fn peek(&self) -> (head: (u64, Option<usize>, usize))
        requires
            self.wf(),
        ensures
            head == if self.posted == self.end {
                (self.qp, None::<usize>, 0usize)
            } else {
                (self.qp, Some(self.posted), (self.end - self.posted) as usize)
            },
    {
        if self.posted == self.end {
            (self.qp, None, 0)
        } else {
            (self.qp, Some(self.posted), self.end - self.posted)
        }
    }

    /// The request at a place.
    pub fn wr(&self, place: usize) -> (wr: &SendWr)
        requires
            place < self.slots@.len(),
        ensures
            *wr == self.slots@[place as int],
    {
        &self.slots[place]
    }

    /// Takes note that the next `count` requests have been posted.
    pub fn advance(&mut self, count: usize)
        requires
            old(self).wf(),
            count <= old(self).end - old(self).posted,
        ensures
            final(self).wf(),
            *final(self) == (BatchWriteOpIter {
                posted: (old(self).posted + count) as usize,
                ..*old(self)
            }),
    {
        self.posted = self.posted + count;
    }

    /// The rejected suffix can be cut off: some requests have been posted and some have not.
    pub open spec fn can_abort(&self) -> bool {
        !self.aborting && self.posted != 0 && self.posted != self.end
    }

    /// Replaces the rejected suffix with one zero-byte, signaled drain marker. Its completion
    /// retires any already completed unsignaled prefix as well as still-pending requests. No
    /// notification is delivered, and the caller always reports the error of the submission.
    pub fn abort_tail(&mut self) -> (aborted: bool)
        requires
            old(self).wf(),
        ensures
            final(self).wf(),
            aborted == old(self).can_abort(),
            !aborted ==> *final(self) == *old(self),
            aborted ==> {
                let at = old(self).posted as int;
                let marker = final(self).slots@[at];
                &&& final(self).qp == old(self).qp
                &&& final(self).parent == old(self).parent
                &&& final(self).tokens == old(self).tokens
                &&& final(self).posted == old(self).posted
                &&& final(self).end == old(self).posted + 1
                &&& final(self).aborting
                &&& final(self).slots@ == old(self).slots@.update(at, marker)
                &&& marker.sg_list@.len() == 0
                &&& marker == (SendWr {
                    next: None,
                    sg_list: marker.sg_list,
                    opcode: WrOpcode::RdmaWrite,
                    signaled: true,
                    ..old(self).slots@[at]
                })
            },
            forall|i: int|
                #![trigger final(self).slots@[i]]
                0 <= i < old(self).posted ==> final(self).slots@[i] == old(self).slots@[i],
            aborted ==> forall|i: int|
                #![trigger final(self).slots@[i]]
                final(self).posted <= i < final(self).end ==> {
                    let left = final(self).slots@[i];
                    &&& left.sg_list@.len() == 0
                    &&& left.opcode != WrOpcode::RdmaWriteWithImm
                    &&& left.signaled
                    &&& left.next is None
                },
    {
        if self.aborting || self.posted == 0 || self.posted == self.end {
            return false;
        }
        let at: usize = self.posted;
        let rejected = &self.slots[at];
        let marker = SendWr {
            wr_id: rejected.wr_id,
            next: None,
            sg_list: Vec::new(),
            opcode: WrOpcode::RdmaWrite,
            signaled: true,
            imm_data: rejected.imm_data,
            remote_addr: rejected.remote_addr,
            rkey: rejected.rkey,
        };
        assert(self.slots@[at as int].wr_id == tagged(self.tokens, at as int));
        self.slots.set(at, marker);
        self.end = at + 1;
        self.aborting = true;
        true
    }

    /// The id is that of a request of this chain.
    pub open spec fn issued(&self, wr_id: u64, i: int) -> bool {
        0 <= i < self.slots@.len() && wr_id == tagged(self.tokens, i)
    }
}

/// What an id without the lowest bit stands for.
pub open spec fn untagged(wr_id: u64) -> u64 {
    wr_id & !1
}

/// The lowest bit tells tokens from plain contexts, and can be taken off again.
pub proof fn lemma_tag(addr: u64)
    requires
        addr & 1 == 0,
    ensures
        (addr | 1) & 1 != 0,
        untagged(addr | 1) == addr,
{
    assert((addr | 1) & 1 != 0) by (bit_vector);
    assert((addr | 1) & !1 == addr) by (bit_vector)
        requires
            addr & 1 == 0,
    ;
}

/// Every token has an even address.
pub proof fn lemma_token_is_even(tokens: u64, i: int)
    requires
        tokens_in_range(tokens),
        0 <= i < MAX_WRITE_BATCH_WR,
    ensures
        token_addr(tokens, i) & 1 == 0,
        token_addr(tokens, i) == tokens + i * TOKEN_STRIDE,
{
    let k: u64 = i as u64;
    let addr: u64 = token_addr(tokens, i);
    assert(addr & 1 == 0) by (bit_vector)
        requires
            tokens & 1 == 0,
            k < 64,
            addr == tokens + k * 16,
    ;
}

/// Finds what a completion is of: a token leads to the owner of the chain and to the request,
/// and any other id is itself a context.
pub fn write_completion_context(wr_id: u64, batch: &BatchWriteOpIter) -> (context: (
    u64,
    Option<usize>,
))
    requires
        batch.wf(),
        wr_id & 1 != 0 ==> exists|i: int| #[trigger] batch.issued(wr_id, i),
    ensures
        if wr_id & 1 == 0 {
            context == (wr_id, None::<usize>)
        } else {
            context.0 == batch.parent && (context.1 matches Some(i) && batch.issued(
                wr_id,
                i as int,
            ))
        },
        forall|i: int|
            #![trigger batch.slots@[i]]
            0 <= i < batch.slots@.len() && batch.slots@[i].wr_id == wr_id ==> context == (
                batch.parent,
                Some(i as usize),
            ),
{
    proof {
        assert forall|i: int| #![trigger batch.slots@[i]] 0 <= i < batch.slots@.len()
            && batch.slots@[i].wr_id == wr_id implies batch.issued(wr_id, i) && wr_id & 1 != 0 by {
            assert(batch.issued(wr_id, i));
            ids_lead_back_to_their_requests(*batch, wr_id, i, i);
        }
    }
    if wr_id & 1 == 0 {
        return (wr_id, None);
    }
    let addr: u64 = wr_id & !1;
    proof {
        let i = choose|i: int| #[trigger] batch.issued(wr_id, i);
        lemma_token_is_even(batch.tokens, i);
        lemma_tag(token_addr(batch.tokens, i));
        assert(addr == batch.tokens + i * TOKEN_STRIDE);
        assert((addr - batch.tokens) / (TOKEN_STRIDE as int) == i);
    }
    let index: usize = ((addr - batch.tokens) / TOKEN_STRIDE) as usize;
    proof {
        assert(batch.issued(wr_id, index as int));
        assert forall|i: int| #![trigger batch.slots@[i]] 0 <= i < batch.slots@.len()
            && batch.slots@[i].wr_id == wr_id implies i == index by {
            assert(batch.issued(wr_id, i));
            ids_lead_back_to_their_requests(*batch, wr_id, i, index as int);
        }
    }
    (batch.parent, Some(index))
}

/// No two requests of a chain have the same id, so a completion leads back to the very request.
pub proof fn ids_lead_back_to_their_requests(batch: BatchWriteOpIter, wr_id: u64, i: int, j: int)
    requires
        batch.wf(),
        batch.issued(wr_id, i),
        batch.issued(wr_id, j),
    ensures
        i == j,
        wr_id & 1 != 0,
{
    lemma_token_is_even(batch.tokens, i);
    lemma_token_is_even(batch.tokens, j);
    lemma_tag(token_addr(batch.tokens, i));
    lemma_tag(token_addr(batch.tokens, j));
}

/// Where `steps` steps along the chain from the request `from` lead.
pub open spec fn walked(batch: &BatchWriteOpIter, from: Option<usize>, steps: nat) -> Option<usize>
    decreases steps,
{
    if steps == 0 {
        from
    } else {
        match walked(batch, from, (steps - 1) as nat) {
            Some(place) => batch.slots@[place as int].next,
            None => None,
        }
    }
}

/// The chain that begins at the first request that has not been posted passes through all of
/// them in order, and ends with the one that is signaled, which is the only one.
pub proof fn chain_passes_through_the_rest(batch: BatchWriteOpIter, steps: nat)
    requires
        batch.wf(),
        batch.posted < batch.end,
    ensures
        steps < batch.end - batch.posted ==> walked(&batch, Some(batch.posted), steps) == Some(
            (batch.posted + steps) as usize,
        ),
        steps == batch.end - batch.posted ==> walked(&batch, Some(batch.posted), steps) is None,
        forall|i: int|
            #![trigger batch.slots@[i]]
            batch.posted <= i < batch.end ==> batch.slots@[i].signaled == (i == batch.end - 1),
    decreases steps,
{
    if steps > 0 {
        chain_passes_through_the_rest(batch, (steps - 1) as nat);
        if steps <= batch.end - batch.posted {
            let place = batch.posted + steps - 1;
            assert(batch.slots@[place].next == next_of(place, batch.end as int));
        }
    }
}

/// The request for a write tells the device what the write says: the local ranges are those of
/// its sources, in order, each with the source's own key; the remote address and key are those
/// of its destination; and an immediate goes along exactly if the write has one.
pub proof fn requests_say_what_their_writes_say(
    wr: SendWr,
    op: GatherWriteOp,
    tokens: u64,
    i: int,
    n: int,
)
    requires
        op_in_range(&op),
        0 <= i < n <= MAX_WRITE_BATCH_WR,
        is_request(&wr, &op, tokens, i, n),
    ensures
        wr.sg_list@.len() == op.sources@.len(),
        forall|s: int|
            #![trigger wr.sg_list@[s]]
            0 <= s < op.sources@.len() ==> {
                let (range, source) = (wr.sg_list@[s], op.sources@[s]);
                &&& range.addr == source.src_ptr + source.src_offset
                &&& range.length == source.length
                &&& source.src_desc.0 <= 0xffff_ffff ==> range.lkey == source.src_desc.0
            },
        wr.remote_addr == op.dst_ptr + op.dst_offset,
        op.dst_rkey.0 <= 0xffff_ffff ==> wr.rkey == op.dst_rkey.0,
        wr.opcode == WrOpcode::RdmaWriteWithImm <==> op.imm_data is Some,
        op.imm_data matches Some(imm) ==> wr.imm_data == imm,
        wr.signaled <==> i == n - 1,
        i < n - 1 ==> (wr.next matches Some(place) && place == i + 1),
        i == n - 1 ==> wr.next is None,
{
    assert forall|s: int| #![trigger wr.sg_list@[s]] 0 <= s < op.sources@.len() implies {
        let (range, source) = (wr.sg_list@[s], op.sources@[s]);
        &&& range.addr == source.src_ptr + source.src_offset
        &&& range.length == source.length
        &&& source.src_desc.0 <= 0xffff_ffff ==> range.lkey == source.src_desc.0
    } by {
        assert(source_in_range(op.sources@[s]));
    }
}

} // verus!
