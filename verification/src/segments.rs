//! Lists of source segments, and the bytes that they stand for.
use vstd::prelude::*;

use crate::api::GatherSegment;

verus! {

/// The number of bytes of a list of segments.
pub open spec fn total_length(segments: Seq<GatherSegment>) -> int
    decreases segments.len(),
{
    if segments.len() == 0 {
        0
    } else {
        total_length(segments.drop_last()) + segments.last().length
    }
}

/// A source byte: the region that it lies in, and its offset there.
pub type SourceByte = (u64, int);

/// The bytes of one segment.
pub open spec fn segment_bytes(segment: GatherSegment) -> Seq<SourceByte> {
    Seq::new(
        segment.length as nat,
        |b: int| (segment.src_mr.ptr, segment.src_offset + b),
    )
}

/// The bytes of a list of segments, one segment after the other.
pub open spec fn source_bytes(segments: Seq<GatherSegment>) -> Seq<SourceByte>
    decreases segments.len(),
{
    if segments.len() == 0 {
        Seq::empty()
    } else {
        source_bytes(segments.drop_last()) + segment_bytes(segments.last())
    }
}

/// Where the part of a segment that lies in `begin..end` begins and ends, when the segment
/// itself begins at `at`.
pub open spec fn overlap(segment: GatherSegment, at: int, begin: int, end: int) -> (int, int) {
    (
        if begin > at {
            begin
        } else {
            at
        },
        if end < at + segment.length {
            end
        } else {
            at + segment.length
        },
    )
}

/// Whether a segment that begins at `at` has bytes in `begin..end`.
pub open spec fn overlaps(segment: GatherSegment, at: int, begin: int, end: int) -> bool {
    overlap(segment, at, begin, end).0 < overlap(segment, at, begin, end).1
}

/// The part of a segment that begins at `at` that lies in `begin..end`.
pub open spec fn piece(segment: GatherSegment, at: int, begin: int, end: int) -> GatherSegment {
    let (first, last) = overlap(segment, at, begin, end);
    GatherSegment {
        src_mr: segment.src_mr,
        src_offset: (segment.src_offset + (first - at)) as u64,
        length: (last - first) as u64,
    }
}

/// The parts of the segments that hold the bytes `begin..end` of the whole list.
pub open spec fn pieces(segments: Seq<GatherSegment>, begin: int, end: int) -> Seq<GatherSegment>
    decreases segments.len(),
{
    if segments.len() == 0 {
        Seq::empty()
    } else {
        let before = pieces(segments.drop_last(), begin, end);
        let at = total_length(segments.drop_last());
        if overlaps(segments.last(), at, begin, end) {
            before.push(piece(segments.last(), at, begin, end))
        } else {
            before
        }
    }
}

/// The offset of the part of the segment `s`, if it has one, fits in a word.
pub open spec fn piece_in_range(
    segments: Seq<GatherSegment>,
    s: int,
    begin: int,
    end: int,
) -> bool {
    let at = total_length(segments.take(s));
    overlaps(segments[s], at, begin, end) ==> segments[s].src_offset + (overlap(
        segments[s],
        at,
        begin,
        end,
    ).0 - at) <= u64::MAX
}

/// The offsets of the parts fit in a word.
pub open spec fn pieces_in_range(segments: Seq<GatherSegment>, begin: int, end: int) -> bool {
    forall|s: int|
        0 <= s < segments.len() ==> #[trigger] piece_in_range(segments, s, begin, end)
}

/// One more segment.
pub proof fn lemma_total_length_take(segments: Seq<GatherSegment>, k: int)
    requires
        0 <= k < segments.len(),
    ensures
        total_length(segments.take(k + 1)) == total_length(segments.take(k)) + segments[k].length,
{
    assert(segments.take(k + 1).drop_last() =~= segments.take(k));
}

/// A total length is never negative.
pub proof fn lemma_total_length_nonneg(segments: Seq<GatherSegment>)
    ensures
        total_length(segments) >= 0,
    decreases segments.len(),
{
    if segments.len() > 0 {
        lemma_total_length_nonneg(segments.drop_last());
    }
}

/// A prefix is no longer than the whole.
pub proof fn lemma_total_length_monotone(segments: Seq<GatherSegment>, k: int)
    requires
        0 <= k <= segments.len(),
    ensures
        0 <= total_length(segments.take(k)) <= total_length(segments),
    decreases segments.len() - k,
{
    lemma_total_length_nonneg(segments.take(k));
    if k < segments.len() {
        lemma_total_length_take(segments, k);
        lemma_total_length_monotone(segments, k + 1);
    } else {
        assert(segments.take(k) =~= segments);
    }
}

/// Nonempty segments of at most `bound` bytes each.
pub proof fn lemma_total_length_bounds(segments: Seq<GatherSegment>, bound: int)
    requires
        forall|s: int|
            #![trigger segments[s]]
            0 <= s < segments.len() ==> 0 < segments[s].length <= bound,
    ensures
        segments.len() <= total_length(segments) <= segments.len() * bound,
    decreases segments.len(),
{
    if segments.len() > 0 {
        let rest = segments.drop_last();
        assert forall|s: int| #![trigger rest[s]] 0 <= s < rest.len() implies 0 < rest[s].length
            <= bound by {
            assert(rest[s] == segments[s]);
        }
        lemma_total_length_bounds(rest, bound);
        assert(segments.len() * bound == rest.len() * bound + bound) by (nonlinear_arith)
            requires
                segments.len() == rest.len() + 1,
        ;
        assert(segments.last() == segments[segments.len() - 1]);
    } else {
        assert(segments.len() * bound == 0) by (nonlinear_arith)
            requires
                segments.len() == 0,
        ;
    }
}

/// One more segment.
pub proof fn lemma_pieces_take(segments: Seq<GatherSegment>, k: int, begin: int, end: int)
    requires
        0 <= k < segments.len(),
    ensures
        ({
            let at = total_length(segments.take(k));
            pieces(segments.take(k + 1), begin, end) == if overlaps(
                segments[k],
                at,
                begin,
                end,
            ) {
                pieces(segments.take(k), begin, end).push(piece(segments[k], at, begin, end))
            } else {
                pieces(segments.take(k), begin, end)
            }
        }),
{
    assert(segments.take(k + 1).drop_last() =~= segments.take(k));
}

/// A list of segments has as many bytes as its lengths add up to.
pub proof fn lemma_source_bytes_len(segments: Seq<GatherSegment>)
    ensures
        source_bytes(segments).len() == total_length(segments),
    decreases segments.len(),
{
    if segments.len() > 0 {
        lemma_source_bytes_len(segments.drop_last());
    }
}

/// The parts that hold `begin..end` stand for exactly these bytes of the list, in order.
pub proof fn pieces_are_the_bytes(segments: Seq<GatherSegment>, begin: int, end: int)
    requires
        0 <= begin <= end <= total_length(segments),
        pieces_in_range(segments, begin, end),
    ensures
        source_bytes(pieces(segments, begin, end)) == source_bytes(segments).subrange(begin, end),
        total_length(pieces(segments, begin, end)) == end - begin,
{
    lemma_pieces_clipped(segments, begin, end);
    lemma_source_bytes_len(segments);
    lemma_source_bytes_len(pieces(segments, begin, end));
    assert(clip(begin, total_length(segments)) == begin);
    assert(clip(end, total_length(segments)) == end);
}

/// `x`, brought into `0..=total`.
spec fn clip(x: int, total: int) -> int {
    if x < 0 {
        0
    } else if x > total {
        total
    } else {
        x
    }
}

proof fn lemma_pieces_clipped(segments: Seq<GatherSegment>, begin: int, end: int)
    requires
        0 <= begin <= end,
        pieces_in_range(segments, begin, end),
    ensures
        source_bytes(pieces(segments, begin, end)) == source_bytes(segments).subrange(
            clip(begin, total_length(segments)),
            clip(end, total_length(segments)),
        ),
    decreases segments.len(),
{
    lemma_total_length_nonneg(segments);
    lemma_source_bytes_len(segments);
    let lo = clip(begin, total_length(segments));
    let hi = clip(end, total_length(segments));
    if segments.len() == 0 {
        assert(source_bytes(segments).subrange(lo, hi) =~= Seq::<SourceByte>::empty());
    } else {
        let rest = segments.drop_last();
        let last = segments.last();
        let k = segments.len() - 1;
        assert(segments.take(k) =~= rest);
        assert(segments[k] == last);
        assert forall|s: int| 0 <= s < rest.len() implies #[trigger] piece_in_range(
            rest,
            s,
            begin,
            end,
        ) by {
            assert(piece_in_range(segments, s, begin, end));
            assert(rest.take(s) =~= segments.take(s));
        }
        assert(piece_in_range(segments, k, begin, end));
        lemma_pieces_clipped(rest, begin, end);
        lemma_total_length_nonneg(rest);
        lemma_source_bytes_len(rest);
        let at = total_length(rest);
        let rlo = clip(begin, at);
        let rhi = clip(end, at);
        let whole = source_bytes(segments);
        if overlaps(last, at, begin, end) {
            let p = piece(last, at, begin, end);
            let (first, stop) = overlap(last, at, begin, end);
            let before = pieces(rest, begin, end);
            let all = before.push(p);
            assert(pieces(segments, begin, end) == all);
            assert(all.drop_last() =~= before);
            assert(source_bytes(all) == source_bytes(before) + segment_bytes(p));
            assert(segment_bytes(p) =~= segment_bytes(last).subrange(first - at, stop - at));
            assert(source_bytes(all) =~= whole.subrange(lo, hi));
        } else {
            assert(source_bytes(rest).subrange(rlo, rhi) =~= whole.subrange(lo, hi));
        }
    }
}

} // verus!
