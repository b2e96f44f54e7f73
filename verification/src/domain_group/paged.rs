//! Writes of pages.
use std::sync::Arc;

use vstd::arithmetic::div_mod::{
    lemma_fundamental_div_mod, lemma_mod_equivalence, lemma_small_mod,
};
use vstd::prelude::*;

use crate::api::{MemoryRegionLocalDescriptor, PagedTransferRequest, TransferId};
use crate::domain_group::delivery::{
    lemma_one_for_each, lemma_steps_lead_there, lemma_steps_to, steps_to,
};
use crate::domain_group::{
    DomainGroup, Lookups, all_found, fails_first_at, fresh_context, lemma_posted_push,
    lemma_round_robin_step, posted,
};
use crate::error::FabricLibError;
use crate::provider::{DomainEvent, RdmaDomain};
use crate::rdma_op::{PagedWriteOp, Write, WriteOp};
use crate::sharding::{
    ceil_div, divide_evenly, even_range, even_ranges_cover, even_ranges_partition, lemma_ceil_div,
    lemma_mul_le, lemma_mul_step, lemma_range_count, range_count,
};

verus! {

/// Why `n` domains refuse a write of pages.
pub open spec fn paged_fault(request: &PagedTransferRequest, n: int) -> Option<FabricLibError> {
    if request.dst_mr.width() != n {
        Some(
            FabricLibError::Custom("Number of target addresses must match the number of domains"),
        )
    } else if request.src_page_indices@.len() != request.dst_page_indices@.len() {
        Some(FabricLibError::Custom("Length of source and destination page indices must match"))
    } else {
        None
    }
}

/// Pages need a domain to carry them.
pub open spec fn paged_in_range(request: &PagedTransferRequest, n: int) -> bool {
    paged_fault(request, n) is None ==> n > 0
}

/// How many domains carry a part of the pages.
pub open spec fn paged_count(request: &PagedTransferRequest, n: int) -> nat {
    range_count(request.src_page_indices@.len() as int, n)
}

/// The write of the part `k`, on the domain `i`.
pub open spec fn paged_write(
    request: &PagedTransferRequest,
    n: int,
    k: int,
    i: int,
    src_desc: MemoryRegionLocalDescriptor,
) -> PagedWriteOp {
    let (beg, end) = even_range(request.src_page_indices@.len() as int, n, k);
    PagedWriteOp {
        src_page_indices: request.src_page_indices,
        dst_page_indices: request.dst_page_indices,
        page_indices_beg: beg as usize,
        page_indices_end: end as usize,
        length: request.length,
        src_ptr: request.src_mr.ptr,
        src_desc,
        src_stride: request.src_stride,
        src_offset: request.src_offset,
        dst_ptr: request.dst_mr.ptr,
        dst_rkey: request.dst_mr.rkey(i),
        dst_stride: request.dst_stride,
        dst_offset: request.dst_offset,
        imm_data: request.imm_data,
    }
}

/// Every page lies in exactly one part of a write of pages.
pub proof fn every_page_is_written_once(
    request: &PagedTransferRequest,
    n: int,
    page: int,
    i: int,
    src_desc: MemoryRegionLocalDescriptor,
) -> (k: int)
    requires
        paged_in_range(request, n),
        paged_fault(request, n) is None,
        0 <= page < request.src_page_indices@.len(),
    ensures
        0 <= k < paged_count(request, n),
        forall|j: int|
            #![trigger paged_write(request, n, j, i, src_desc)]
            0 <= j < paged_count(request, n) ==> {
                let write = paged_write(request, n, j, i, src_desc);
                write.page_indices_beg <= page < write.page_indices_end <==> j == k
            },
{
    let pages = request.src_page_indices@.len() as int;
    assert(pages == request.src_page_indices.len());
    even_ranges_partition(pages, n);
    let k = even_ranges_cover(pages, n, page);
    assert forall|j: int|
        #![trigger paged_write(request, n, j, i, src_desc)]
        0 <= j < paged_count(request, n) implies {
        let write = paged_write(request, n, j, i, src_desc);
        write.page_indices_beg <= page < write.page_indices_end <==> j == k
    } by {
        let (beg, end) = even_range(pages, n, j);
        assert(0 <= beg < end <= pages);
    }
    k
}

/// A round robin does not come back to a domain before it has passed all others.
pub proof fn lemma_round_robin_distinct(rr: int, j: int, k: int, n: int)
    requires
        0 <= j < k < n,
        0 <= rr,
    ensures
        (rr + j) % n != (rr + k) % n,
{
    if (rr + j) % n == (rr + k) % n {
        lemma_mod_equivalence(rr + k, rr + j, n);
        lemma_small_mod((k - j) as nat, n as nat);
    }
}

impl<D: RdmaDomain, C, A, const N: usize> DomainGroup<D, C, A, N> {
    /// The source lookups of a write of pages, one for each part.
    pub open spec fn paged_lookups(&self, request: &PagedTransferRequest) -> Lookups {
        Seq::new(
            paged_count(request, N as int),
            |k: int|
                self.domains[(self.rr_next + k) % (N as int)].mem_desc(request.src_mr.ptr),
        )
    }

    /// What a write of pages hands to the domains.
    pub open spec fn paged_posts(&self, id: TransferId, request: &PagedTransferRequest) -> Seq<
        (int, DomainEvent),
    > {
        Seq::new(
            paged_count(request, N as int),
            |k: int|
                {
                    let i = (self.rr_next + k) % (N as int);
                    (
                        i,
                        DomainEvent::Write {
                            id,
                            addr: request.dst_mr.addr(i),
                            op: Write::Paged(
                                paged_write(
                                    request,
                                    N as int,
                                    k,
                                    i,
                                    self.paged_lookups(request)[k]->Ok_0,
                                ),
                            ),
                        },
                    )
                },
        )
    }

    /// What becomes of a request for a write of pages.
    pub open spec fn paged_submitted(
        &self,
        before: &Self,
        transfer_id: TransferId,
        request: &PagedTransferRequest,
        tx_counter: Option<C>,
        result: Result<(), FabricLibError>,
    ) -> bool {
        match paged_fault(request, N as int) {
            Some(fault) => result == Err::<(), FabricLibError>(fault) && *self == *before,
            None => {
                &&& self.same_peers(before)
                &&& self.write_ops@ == before.write_ops@.insert(
                    transfer_id.0,
                    fresh_context(paged_count(request, N as int) as usize, tx_counter),
                )
                &&& if all_found(before.paged_lookups(request)) {
                    &&& result is Ok
                    &&& self.rr_next == (before.rr_next + paged_count(
                        request,
                        N as int,
                    )) % (N as int)
                    &&& self.histories() == posted(
                        before.histories(),
                        before.paged_posts(transfer_id, request),
                    )
                } else {
                    exists|k: int|
                        #![trigger before.paged_lookups(request)[k]]
                        fails_first_at(before.paged_lookups(request), k) && result == Err::<
                            (),
                            FabricLibError,
                        >(before.paged_lookups(request)[k]->Err_0) && self.rr_next
                            == (before.rr_next + k + 1) % (N as int)
                            && self.histories() == posted(
                            before.histories(),
                            before.paged_posts(transfer_id, request).take(k),
                        )
                }
            },
        }
    }

    /// Divides pages between successive domains.
    ///
    /// A refused request changes nothing. When a domain does not know the source, the domains
    /// before it have been given their parts, and the transfer stays in the table.
    pub fn submit_paged_transfer_request(
        &mut self,
        transfer_id: TransferId,
        request: PagedTransferRequest,
        tx_counter: Option<C>,
    ) -> (result: Result<(), FabricLibError>)
        requires
            old(self).wf(),
            paged_in_range(&request, N as int),
        ensures
            final(self).wf(),
            final(self).paged_submitted(old(self), transfer_id, &request, tx_counter, result),
    {
        if request.dst_mr.addr_rkey_list.len() != N {
            return Err(
                FabricLibError::Custom(
                    "Number of target addresses must match the number of domains",
                ),
            );
        }
        if request.src_page_indices.len() != request.dst_page_indices.len() {
            return Err(
                FabricLibError::Custom("Length of source and destination page indices must match"),
            );
        }
        let pages: usize = request.src_page_indices.len();
        let page_range = divide_evenly(pages, N);
        let parts: usize = page_range.len();
        proof {
            lemma_range_count(pages as int, N as int);
            lemma_small_mod(self.rr_next as nat, N as nat);
        }
        self.track(transfer_id, parts, tx_counter);

        let ghost rr = self.rr_next as int;
        let ghost start = old(self).histories();
        let ghost lookups = old(self).paged_lookups(&request);
        let ghost posts = old(self).paged_posts(transfer_id, &request);
        assert(posts.take(0) =~= Seq::<(int, DomainEvent)>::empty());
        assert(self.histories() =~= start);
        let mut part: usize = 0;
        while part < parts
            invariant
                part <= parts,
                parts == page_range@.len(),
                parts == paged_count(&request, N as int),
                parts <= N,
                0 < N,
                paged_fault(&request, N as int) is None,
                pages == request.src_page_indices@.len(),
                rr == old(self).rr_next,
                0 <= rr < N,
                start == old(self).histories(),
                lookups == old(self).paged_lookups(&request),
                posts == old(self).paged_posts(transfer_id, &request),
                forall|j: int|
                    #![trigger page_range@[j]]
                    0 <= j < page_range@.len() ==> (
                        page_range@[j].0 as int,
                        page_range@[j].1 as int,
                    ) == even_range(pages as int, N as int, j),
                forall|j: int| #![trigger lookups[j]] 0 <= j < part ==> lookups[j] is Ok,
                forall|k: int|
                    #![trigger self.domains[(rr + k) % (N as int)]]
                    part <= k < N ==> self.domains[(rr + k) % (N as int)] == old(
                        self,
                    ).domains[(rr + k) % (N as int)],
                self.wf(),
                self.same_peers(old(self)),
                self.rr_next == (rr + part) % (N as int),
                self.write_ops@ == old(self).write_ops@.insert(
                    transfer_id.0,
                    fresh_context(parts, tx_counter),
                ),
                self.histories() == posted(start, posts.take(part as int)),
            decreases parts - part,
        {
            let (beg, end) = page_range[part];
            let i: usize = self.rr_next;
            let ghost before = self.histories();
            self.rr_next = (self.rr_next + 1) % N;
            proof {
                lemma_round_robin_step(rr, part as int, N as int);
            }
            assert(self.domains[(rr + part) % (N as int)] == old(self).domains[i as int]);
            assert(lookups[part as int] == old(self).domains[i as int].mem_desc(
                request.src_mr.ptr,
            ));
            let entry = &request.dst_mr.addr_rkey_list[i];
            let src_desc = match self.domains[i].get_mem_desc(request.src_mr.ptr) {
                Ok(desc) => desc,
                Err(error) => {
                    assert(fails_first_at(lookups, part as int));
                    assert(self.histories() =~= before);
                    return Err(error);
                },
            };
            let op = WriteOp::Paged(
                PagedWriteOp {
                    src_page_indices: Arc::clone(&request.src_page_indices),
                    dst_page_indices: Arc::clone(&request.dst_page_indices),
                    page_indices_beg: beg,
                    page_indices_end: end,
                    length: request.length,
                    src_ptr: request.src_mr.ptr,
                    src_desc,
                    src_stride: request.src_stride,
                    src_offset: request.src_offset,
                    dst_ptr: request.dst_mr.ptr,
                    dst_rkey: entry.1,
                    dst_stride: request.dst_stride,
                    dst_offset: request.dst_offset,
                    imm_data: request.imm_data,
                },
            );
            proof {
                lemma_posted_push(start, posts, part as int);
                assert forall|k: int|
                    #![trigger self.domains[(rr + k) % (N as int)]]
                    part + 1 <= k < N implies (rr + k) % (N as int) != i by {
                    lemma_round_robin_distinct(rr, part as int, k, N as int);
                }
            }
            self.post(i, transfer_id, entry.0.clone(), op);
            part = part + 1;
        }
        assert(posts.take(posts.len() as int) =~= posts);
        assert(all_found(lookups));
        Ok(())
    }
}

/// The local address that a write reads the page at position `p` of its index lists from.
pub open spec fn read_at(write: PagedWriteOp, p: int) -> int {
    write.src_ptr + write.src_offset + write.src_page_indices@[p] * write.src_stride
}

/// The remote address that a write takes the page at position `p` of its index lists to.
pub open spec fn written_at(write: PagedWriteOp, p: int) -> int {
    write.dst_ptr + write.dst_offset + write.dst_page_indices@[p] * write.dst_stride
}

/// The page at position `p` is among those that a write carries.
pub open spec fn carries_page(event: DomainEvent, p: int) -> bool {
    event matches DomainEvent::Write { op: Write::Paged(write), .. } && write.page_indices_beg <= p
        < write.page_indices_end
}

/// An accepted write of pages gives `count` successive domains one write each, and the others
/// nothing. Each has `size` pages, an even share, but the last may have fewer. Each write goes
/// through the address and the key of its domain's own entry and has the immediate; it reads
/// registered memory, and takes each of its pages from where the request's source list says to
/// where its destination list says.
pub proof fn written_pages_keep_their_course<D: RdmaDomain, C, A, const N: usize>(
    after: DomainGroup<D, C, A, N>,
    before: DomainGroup<D, C, A, N>,
    id: TransferId,
    request: PagedTransferRequest,
    counter: Option<C>,
) -> (division: (int, int))
    requires
        before.wf(),
        paged_in_range(&request, N as int),
        after.paged_submitted(&before, id, &request, counter, Ok(())),
    ensures
        after.continues(&before),
        ({
            let (count, size) = division;
            let pages = request.src_page_indices@.len() as int;
            &&& after.rr_next == (before.rr_next + count) % (N as int)
            &&& after.write_ops@[id.0].num_used_domains == count
            &&& 0 <= count <= N
            &&& pages == 0 ==> count == 0
            &&& pages > 0 ==> (size - 1) * N < pages <= size * N && (count - 1) * size < pages
                <= count * size
            &&& forall|i: int|
                #![trigger after.given(&before, i)]
                0 <= i < N ==> {
                    let k = steps_to(before.rr_next as int, i, N as int);
                    let given = after.given(&before, i);
                    if k < count {
                        &&& given.len() == 1
                        &&& given[0] matches DomainEvent::Write {
                            id: given_id,
                            addr,
                            op: Write::Paged(write),
                        } && {
                            &&& given_id == id
                            &&& addr == request.dst_mr.addr_rkey_list@[i].0@
                            &&& write.dst_rkey == request.dst_mr.addr_rkey_list@[i].1
                            &&& write.imm_data == request.imm_data
                            &&& write.length == request.length
                            &&& before.domains[i].mem_desc(request.src_mr.ptr) == Ok::<
                                MemoryRegionLocalDescriptor,
                                FabricLibError,
                            >(write.src_desc)
                            &&& write.src_ptr == request.src_mr.ptr
                            &&& write.dst_ptr == request.dst_mr.ptr
                            &&& write.page_indices_beg == k * size
                            &&& write.page_indices_beg < write.page_indices_end <= pages
                            &&& write.page_indices_end == (k + 1) * size || (write.page_indices_end == pages
                                && pages < (k + 1) * size)
                            &&& write.src_page_indices@.len() == pages
                            &&& write.dst_page_indices@.len() == pages
                            &&& forall|p: int|
                                #![trigger write.src_page_indices@[p]]
                                #![trigger write.dst_page_indices@[p]]
                                write.page_indices_beg <= p < write.page_indices_end ==> read_at(write, p)
                                    == request.src_mr.ptr + request.src_offset + request.src_page_indices@[p]
                                    * request.src_stride && written_at(write, p) == request.dst_mr.ptr
                                    + request.dst_offset + request.dst_page_indices@[p] * request.dst_stride
                        }
                    } else {
                        given.len() == 0
                    }
                }
        }),
{
    let n = N as int;
    let rr = before.rr_next as int;
    let pages = request.src_page_indices@.len() as int;
    assert(pages == request.src_page_indices.len());
    let count = paged_count(&request, n) as int;
    let size = ceil_div(pages, n);
    let posts = before.paged_posts(id, &request);
    let lookups = before.paged_lookups(&request);
    assert(all_found(lookups));
    lemma_ceil_div(pages, n);
    lemma_range_count(pages, n);
    even_ranges_partition(pages, n);
    lemma_one_for_each(after, before, posts, rr);
    assert forall|i: int| #![trigger after.given(&before, i)] 0 <= i < N implies {
        let k = steps_to(rr, i, n);
        let given = after.given(&before, i);
        if k < count {
            &&& given.len() == 1
            &&& given[0] matches DomainEvent::Write {
                id: given_id,
                addr,
                op: Write::Paged(write),
            } && {
                &&& given_id == id
                &&& addr == request.dst_mr.addr_rkey_list@[i].0@
                &&& write.dst_rkey == request.dst_mr.addr_rkey_list@[i].1
                &&& write.imm_data == request.imm_data
                &&& write.length == request.length
                &&& before.domains[i].mem_desc(request.src_mr.ptr) == Ok::<
                    MemoryRegionLocalDescriptor,
                    FabricLibError,
                >(write.src_desc)
                &&& write.src_ptr == request.src_mr.ptr
                &&& write.dst_ptr == request.dst_mr.ptr
                &&& write.page_indices_beg == k * size
                &&& write.page_indices_beg < write.page_indices_end <= pages
                &&& write.page_indices_end == (k + 1) * size || (write.page_indices_end == pages
                    && pages < (k + 1) * size)
                &&& write.src_page_indices@.len() == pages
                &&& write.dst_page_indices@.len() == pages
                &&& forall|p: int|
                    #![trigger write.src_page_indices@[p]]
                    #![trigger write.dst_page_indices@[p]]
                    write.page_indices_beg <= p < write.page_indices_end ==> read_at(write, p)
                        == request.src_mr.ptr + request.src_offset + request.src_page_indices@[p]
                        * request.src_stride && written_at(write, p) == request.dst_mr.ptr
                        + request.dst_offset + request.dst_page_indices@[p] * request.dst_stride
            }
        } else {
            given.len() == 0
        }
    } by {
        lemma_steps_lead_there(rr, i, n);
        let k = steps_to(rr, i, n);
        if k < count {
            assert(lookups[k] is Ok);
            let (beg, end) = even_range(pages, n, k);
            assert(0 <= beg < end <= pages);
            lemma_mul_step(k, size);
        }
    }
    (count, size)
}

/// Every page of an accepted write of pages is carried by exactly one of the writes that the
/// domains are given.
pub proof fn every_page_reaches_its_destination<D: RdmaDomain, C, A, const N: usize>(
    after: DomainGroup<D, C, A, N>,
    before: DomainGroup<D, C, A, N>,
    id: TransferId,
    request: PagedTransferRequest,
    counter: Option<C>,
    page: int,
) -> (carrier: int)
    requires
        before.wf(),
        paged_in_range(&request, N as int),
        after.paged_submitted(&before, id, &request, counter, Ok(())),
        0 <= page < request.src_page_indices@.len(),
    ensures
        0 <= carrier < N,
        after.given(&before, carrier).len() == 1,
        forall|i: int, e: int|
            #![trigger after.given(&before, i)[e]]
            0 <= i < N && 0 <= e < after.given(&before, i).len() ==> (carries_page(
                after.given(&before, i)[e],
                page,
            ) <==> i == carrier && e == 0),
        after.given(&before, carrier)[0] matches DomainEvent::Write {
            op: Write::Paged(write),
            ..
        } && {
            &&& write.length == request.length
            &&& read_at(write, page) == request.src_mr.ptr + request.src_offset
                + request.src_page_indices@[page] * request.src_stride
            &&& written_at(write, page) == request.dst_mr.ptr + request.dst_offset
                + request.dst_page_indices@[page] * request.dst_stride
        },
{
    let n = N as int;
    let rr = before.rr_next as int;
    let pages = request.src_page_indices@.len() as int;
    let (count, size) = written_pages_keep_their_course(after, before, id, request, counter);
    if size <= 0 {
        lemma_mul_le(0, count, -size);
        assert(count * (-size) == -(count * size)) by (nonlinear_arith);
    }
    lemma_fundamental_div_mod(page, size);
    let k = page / size;
    assert(size * k == k * size) by (nonlinear_arith);
    if k < 0 {
        lemma_mul_le(k, -1, size);
    }
    if k >= count {
        lemma_mul_le(count, k, size);
    }
    lemma_mul_step(k, size);
    let carrier = (rr + k) % n;
    lemma_steps_to(rr, k, n);
    assert(after.given(&before, carrier).len() == 1);
    let carried = after.given(&before, carrier)[0]->Write_op->Paged_0;
    assert(carried.page_indices_beg <= page < carried.page_indices_end);
    assert(carried.src_page_indices@[page] == carried.src_page_indices@[page]);
    assert forall|i: int, e: int|
        #![trigger after.given(&before, i)[e]]
        0 <= i < N && 0 <= e < after.given(&before, i).len() implies (carries_page(
        after.given(&before, i)[e],
        page,
    ) <==> i == carrier && e == 0) by {
        let given = after.given(&before, i);
        lemma_steps_lead_there(rr, i, n);
        let j = steps_to(rr, i, n);
        lemma_mul_step(j, size);
        if j < k {
            lemma_mul_le(j + 1, k, size);
        }
        if j > k {
            lemma_mul_le(k + 1, j, size);
        }
    }
    carrier
}

/// A write of pages is accepted only if its descriptor has an entry for every domain and its two
/// lists are equally long; otherwise it changes nothing. If the domains know the source region
/// as well, it is accepted.
pub proof fn pages_are_accepted_if_they_can_be<D: RdmaDomain, C, A, const N: usize>(
    after: DomainGroup<D, C, A, N>,
    before: DomainGroup<D, C, A, N>,
    id: TransferId,
    request: PagedTransferRequest,
    counter: Option<C>,
    result: Result<(), FabricLibError>,
)
    requires
        before.wf(),
        paged_in_range(&request, N as int),
        after.paged_submitted(&before, id, &request, counter, result),
    ensures
        ({
            let well_formed = {
                &&& request.dst_mr.addr_rkey_list@.len() == N
                &&& request.src_page_indices@.len() == request.dst_page_indices@.len()
            };
            let known = forall|i: int|
                #![trigger before.domains[i]]
                0 <= i < N ==> before.domains[i].mem_desc(request.src_mr.ptr) is Ok;
            &&& result is Ok ==> well_formed
            &&& well_formed && known ==> result is Ok
            &&& !well_formed ==> after == before
        }),
{
    let n = N as int;
    let rr = before.rr_next as int;
    let lookups = before.paged_lookups(&request);
    if paged_fault(&request, n) is None && (forall|i: int|
        #![trigger before.domains[i]]
        0 <= i < N ==> before.domains[i].mem_desc(request.src_mr.ptr) is Ok) {
        lemma_range_count(request.src_page_indices@.len() as int, n);
        assert forall|k: int| #![trigger lookups[k]] 0 <= k < lookups.len() implies lookups[k] is Ok by {
            lemma_steps_to(rr, k, n);
            assert(before.domains[(rr + k) % n].mem_desc(request.src_mr.ptr) is Ok);
        }
        assert(all_found(lookups));
    }
}

} // verus!
