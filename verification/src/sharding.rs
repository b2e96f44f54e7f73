//! How lengths are divided between domains.
use vstd::arithmetic::div_mod::lemma_fundamental_div_mod;
use vstd::prelude::*;

verus! {

/// Shards of a contiguous write start at multiples of this many bytes.
pub const MIN_SHARD_SIZE: usize = 8192;

/// `n / k`, rounded up.
pub open spec fn ceil_div(n: int, k: int) -> int {
    (n + k - 1) / k
}

/// The least multiple of `multiple` that is not below `value`.
pub open spec fn rounded_up(value: int, multiple: int) -> int {
    ceil_div(value, multiple) * multiple
}

/// The smaller of two numbers.
pub open spec fn min_int(a: int, b: int) -> int {
    if a <= b {
        a
    } else {
        b
    }
}

/// The number of ranges that `n` items make when `k` takers share them evenly.
pub open spec fn range_count(n: int, k: int) -> nat {
    if n <= 0 {
        0
    } else {
        ceil_div(n, ceil_div(n, k)) as nat
    }
}

/// The range `j` of `n` items shared evenly by `k` takers.
pub open spec fn even_range(n: int, k: int, j: int) -> (int, int) {
    (j * ceil_div(n, k), min_int((j + 1) * ceil_div(n, k), n))
}

/// What one shard of a contiguous write has at most.
pub open spec fn shard_size(total: int, shards: int) -> int {
    rounded_up(ceil_div(total, shards), MIN_SHARD_SIZE as int)
}

/// The offset and length of the shard `j`: a shard that is left without bytes has both zero.
pub open spec fn single_shard(total: int, shards: int, j: int) -> (int, int) {
    let start = j * shard_size(total, shards);
    if start < total {
        (start, min_int(shard_size(total, shards), total - start))
    } else {
        (0, 0)
    }
}

/// `ceil_div` lies between the exact quotient and the next integer.
pub proof fn lemma_ceil_div(n: int, k: int)
    requires
        0 <= n,
        0 < k,
    ensures
        0 <= ceil_div(n, k) <= n,
        ceil_div(n, k) * k >= n,
        ceil_div(n, k) * k < n + k,
        n > 0 ==> (ceil_div(n, k) - 1) * k < n && ceil_div(n, k) > 0,
{
    let q = ceil_div(n, k);
    lemma_fundamental_div_mod(n + k - 1, k);
    assert(q * k == k * q) by (nonlinear_arith);
    assert((q - 1) * k == q * k - k) by (nonlinear_arith);
    if q < 0 {
        assert(q * k <= -k) by (nonlinear_arith)
            requires
                q <= -1,
                k > 0,
        ;
    }
    if q > n {
        assert(q * k >= n * k + k) by (nonlinear_arith)
            requires
                q >= n + 1,
                k > 0,
        ;
        assert(n * k >= n) by (nonlinear_arith)
            requires
                n >= 0,
                k >= 1,
        ;
    }
    if n > 0 && q <= 0 {
        assert(q * k <= 0) by (nonlinear_arith)
            requires
                q <= 0,
                k > 0,
        ;
    }
}

/// A quotient is pinned down by the products around it.
pub proof fn lemma_ceil_div_unique(n: int, k: int, q: int)
    requires
        0 < k,
        (q - 1) * k < n <= q * k,
    ensures
        ceil_div(n, k) == q,
{
    let c = ceil_div(n, k);
    lemma_fundamental_div_mod(n + k - 1, k);
    assert(c * k == k * c) by (nonlinear_arith);
    assert((q - 1) * k == q * k - k) by (nonlinear_arith);
    if c < q {
        assert(c * k <= (q - 1) * k) by (nonlinear_arith)
            requires
                c <= q - 1,
                k > 0,
        ;
    }
    if c > q {
        assert(c * k >= q * k + k) by (nonlinear_arith)
            requires
                c >= q + 1,
                k > 0,
        ;
    }
}

/// One step more.
pub proof fn lemma_mul_step(j: int, step: int)
    ensures
        (j + 1) * step == j * step + step,
{
    assert((j + 1) * step == j * step + step) by (nonlinear_arith);
}

/// More steps lead further.
pub proof fn lemma_mul_le(a: int, b: int, step: int)
    requires
        a <= b,
        0 <= step,
    ensures
        a * step <= b * step,
{
    assert(a * step <= b * step) by (nonlinear_arith)
        requires
            a <= b,
            0 <= step,
    ;
}

/// There are no more ranges than takers.
pub proof fn lemma_range_count(n: int, k: int)
    requires
        0 <= n,
        0 < k,
    ensures
        range_count(n, k) <= k,
        n > 0 ==> range_count(n, k) > 0,
        range_count(n, k) <= n,
        n > 0 ==> (range_count(n, k) - 1) * ceil_div(n, k) < n <= range_count(n, k) * ceil_div(
            n,
            k,
        ),
{
    if n > 0 {
        let step = ceil_div(n, k);
        lemma_ceil_div(n, k);
        lemma_ceil_div(n, step);
        let c = ceil_div(n, step);
        if c > k {
            lemma_mul_le(k, c - 1, step);
            assert(k * step == step * k) by (nonlinear_arith);
        }
    }
}

/// The ranges are a partition of `0..n`: none is empty, each begins where the one before it
/// ends, the first begins at 0 and the last ends at `n`; none is longer than an even share.
pub proof fn even_ranges_partition(n: int, k: int)
    requires
        0 <= n,
        0 < k,
    ensures
        range_count(n, k) <= k,
        range_count(n, k) == 0 <==> n == 0,
        n > 0 ==> even_range(n, k, 0).0 == 0,
        n > 0 ==> even_range(n, k, range_count(n, k) - 1).1 == n,
        forall|j: int|
            #![trigger even_range(n, k, j)]
            0 <= j < range_count(n, k) ==> 0 <= even_range(n, k, j).0 < even_range(n, k, j).1 <= n
                && even_range(n, k, j).1 - even_range(n, k, j).0 <= ceil_div(n, k),
        forall|j: int|
            #![trigger even_range(n, k, j + 1)]
            0 <= j && j + 1 < range_count(n, k) ==> even_range(n, k, j).1 == even_range(
                n,
                k,
                j + 1,
            ).0,
{
    let step = ceil_div(n, k);
    lemma_ceil_div(n, k);
    lemma_range_count(n, k);
    let c = range_count(n, k) as int;
    assert forall|j: int| #![trigger even_range(n, k, j)] 0 <= j < c implies 0 <= even_range(
        n,
        k,
        j,
    ).0 < even_range(n, k, j).1 <= n && even_range(n, k, j).1 - even_range(n, k, j).0 <= step by {
        lemma_mul_step(j, step);
        lemma_mul_le(0, j, step);
        lemma_mul_le(j, c - 1, step);
    }
    assert forall|j: int|
        #![trigger even_range(n, k, j + 1)]
        0 <= j && j + 1 < c implies even_range(n, k, j).1 == even_range(n, k, j + 1).0 by {
        lemma_mul_step(j, step);
        lemma_mul_le(j + 1, c - 1, step);
    }
}

/// Every item lies in exactly one range: the range whose number is its quotient by the share.
pub proof fn even_ranges_cover(n: int, k: int, item: int) -> (j: int)
    requires
        0 <= item < n,
        0 < k,
    ensures
        0 <= j < range_count(n, k),
        even_range(n, k, j).0 <= item < even_range(n, k, j).1,
        forall|i: int|
            #![trigger even_range(n, k, i)]
            0 <= i < range_count(n, k) && even_range(n, k, i).0 <= item < even_range(n, k, i).1
                ==> i == j,
{
    let step = ceil_div(n, k);
    lemma_ceil_div(n, k);
    lemma_range_count(n, k);
    let j = item / step;
    lemma_fundamental_div_mod(item, step);
    assert(step * j == j * step) by (nonlinear_arith);
    lemma_mul_step(j, step);
    if j < 0 {
        lemma_mul_le(j, -1, step);
    }
    if j >= range_count(n, k) {
        lemma_mul_le(range_count(n, k) as int, j, step);
    }
    assert forall|i: int|
        #![trigger even_range(n, k, i)]
        0 <= i < range_count(n, k) && even_range(n, k, i).0 <= item < even_range(
            n,
            k,
            i,
        ).1 implies i == j by {
        lemma_mul_step(i, step);
        if i < j {
            lemma_mul_le(i + 1, j, step);
        }
        if i > j {
            lemma_mul_le(j + 1, i, step);
        }
    }
    j
}

/// `n / k`, rounded up.
pub fn div_ceil(n: usize, k: usize) -> (q: usize)
    requires
        k > 0,
    ensures
        q == ceil_div(n as int, k as int),
{
    let q: usize = n / k;
    let r: usize = n % k;
    proof {
        lemma_fundamental_div_mod(n as int, k as int);
        assert(q * k == k * q) by (nonlinear_arith);
        lemma_mul_step(q as int, k as int);
        lemma_mul_step(q - 1, k as int);
        if r == 0 {
            lemma_ceil_div_unique(n as int, k as int, q as int);
        } else {
            lemma_ceil_div_unique(n as int, k as int, q + 1);
            lemma_ceil_div(n as int, k as int);
        }
    }
    if r == 0 {
        q
    } else {
        q + 1
    }
}

/// Shares `n` items evenly between `k` takers, as half-open ranges. Takers that would get
/// nothing get no range.
pub fn divide_evenly(n: usize, k: usize) -> (result: Vec<(usize, usize)>)
    requires
        k > 0,
    ensures
        result@.len() == range_count(n as int, k as int),
        forall|j: int|
            #![trigger result@[j]]
            0 <= j < result@.len() ==> (result@[j].0 as int, result@[j].1 as int) == even_range(
                n as int,
                k as int,
                j,
            ),
{
    let mut result: Vec<(usize, usize)> = Vec::new();
    let step: usize = div_ceil(n, k);
    let mut remainder: usize = n;
    let mut beg: usize = 0;
    let mut taken: usize = 0;
    let ghost c = range_count(n as int, k as int) as int;
    proof {
        lemma_ceil_div(n as int, k as int);
        lemma_range_count(n as int, k as int);
    }
    while taken < k && remainder != 0
        invariant
            k > 0,
            step == ceil_div(n as int, k as int),
            c == range_count(n as int, k as int),
            n > 0 ==> step > 0,
            n > 0 ==> c > 0 && (c - 1) * step < n <= c * step,
            c <= k,
            taken <= c,
            taken <= k,
            n == 0 ==> c == 0,
            beg + remainder == n,
            beg == min_int(taken * step, n as int),
            remainder > 0 ==> taken < c,
            remainder == 0 ==> taken == c,
            result@.len() == taken,
            forall|j: int|
                #![trigger result@[j]]
                0 <= j < taken ==> (result@[j].0 as int, result@[j].1 as int) == even_range(
                    n as int,
                    k as int,
                    j,
                ),
        decreases k - taken,
    {
        let chunk: usize = if remainder < step {
            remainder
        } else {
            step
        };
        proof {
            lemma_mul_step(taken as int, step as int);
            lemma_mul_le(taken as int, c - 1, step as int);
            if taken + 1 < c {
                lemma_mul_le(taken + 1, c - 1, step as int);
            }
        }
        result.push((beg, beg + chunk));
        beg = beg + chunk;
        remainder = remainder - chunk;
        taken = taken + 1;
    }
    result
}

/// Rounds `value` up to a multiple of `multiple`.
pub fn round_up(value: usize, multiple: usize) -> (rounded: usize)
    requires
        multiple > 0,
        rounded_up(value as int, multiple as int) <= usize::MAX,
    ensures
        rounded == rounded_up(value as int, multiple as int),
{
    let q: usize = div_ceil(value, multiple);
    proof {
        lemma_ceil_div(value as int, multiple as int);
    }
    q * multiple
}

/// Divides a contiguous write into exactly `num_shards` pieces of offset and length. Pieces
/// that have bytes start at multiples of the shard size. The others are zero-length writes:
/// the end of the data may be the end of the region, so these are placed at offset zero.
pub fn shard_single_transfer(total_size: usize, num_shards: usize) -> (result: Vec<(usize, usize)>)
    requires
        num_shards > 0,
        shard_size(total_size as int, num_shards as int) <= usize::MAX,
    ensures
        result@.len() == num_shards,
        forall|j: int|
            #![trigger result@[j]]
            0 <= j < result@.len() ==> (result@[j].0 as int, result@[j].1 as int) == single_shard(
                total_size as int,
                num_shards as int,
                j,
            ),
{
    let mut result: Vec<(usize, usize)> = Vec::new();
    let share: usize = div_ceil(total_size, num_shards);
    let base: usize = round_up(share, MIN_SHARD_SIZE);
    let mut offset: usize = 0;
    let mut done: usize = 0;
    proof {
        lemma_ceil_div(total_size as int, num_shards as int);
        lemma_ceil_div(share as int, MIN_SHARD_SIZE as int);
    }
    while done < num_shards
        invariant
            done <= num_shards,
            base == shard_size(total_size as int, num_shards as int),
            offset <= total_size,
            offset == min_int(done * base, total_size as int),
            total_size > 0 ==> base > 0,
            result@.len() == done,
            forall|j: int|
                #![trigger result@[j]]
                0 <= j < done ==> (result@[j].0 as int, result@[j].1 as int) == single_shard(
                    total_size as int,
                    num_shards as int,
                    j,
                ),
        decreases num_shards - done,
    {
        let left: usize = total_size - offset;
        let len: usize = if base < left {
            base
        } else {
            left
        };
        proof {
            lemma_mul_step(done as int, base as int);
            lemma_mul_le(0, done as int, base as int);
        }
        if len > 0 {
            result.push((offset, len));
            offset = offset + len;
        } else {
            result.push((0, 0));
        }
        done = done + 1;
    }
    result
}

/// The shards of a contiguous write cover its bytes exactly once: shards with bytes come
/// first and follow each other without gap from offset 0 to the end, and the shards after
/// them are empty and at offset 0. Shards with bytes start at multiples of the shard size,
/// which itself is a multiple of `MIN_SHARD_SIZE`.
pub proof fn single_shards_cover(total: int, shards: int)
    requires
        0 <= total,
        0 < shards,
    ensures
        shard_size(total, shards) % (MIN_SHARD_SIZE as int) == 0,
        forall|j: int|
            #![trigger single_shard(total, shards, j)]
            0 <= j < shards ==> 0 <= single_shard(total, shards, j).0 && single_shard(
                total,
                shards,
                j,
            ).0 + single_shard(total, shards, j).1 <= total,
        total > 0 ==> single_shard(total, shards, 0).0 == 0,
        forall|j: int|
            #![trigger single_shard(total, shards, j + 1)]
            0 <= j && j + 1 < shards && single_shard(total, shards, j + 1).1 > 0 ==> single_shard(
                total,
                shards,
                j,
            ).1 > 0 && single_shard(total, shards, j).0 + single_shard(total, shards, j).1
                == single_shard(total, shards, j + 1).0,
        forall|j: int|
            #![trigger single_shard(total, shards, j)]
            0 <= j < shards && single_shard(total, shards, j).1 == 0 ==> single_shard(
                total,
                shards,
                j,
            ).0 == 0,
        forall|j: int|
            #![trigger single_shard(total, shards, j)]
            0 <= j < shards && single_shard(total, shards, j).1 > 0 && (j + 1 == shards
                || single_shard(total, shards, j + 1).1 == 0) ==> single_shard(total, shards, j).0
                + single_shard(total, shards, j).1 == total,
{
    let base = shard_size(total, shards);
    let share = ceil_div(total, shards);
    lemma_ceil_div(total, shards);
    lemma_ceil_div(share, MIN_SHARD_SIZE as int);
    vstd::arithmetic::div_mod::lemma_mod_multiples_basic(
        ceil_div(share, MIN_SHARD_SIZE as int),
        MIN_SHARD_SIZE as int,
    );
    assert(shards * base >= total) by {
        lemma_mul_le(share, base, shards);
        assert(shards * base == base * shards) by (nonlinear_arith);
    }
    assert forall|j: int| #![trigger single_shard(total, shards, j)] 0 <= j < shards implies 0
        <= single_shard(total, shards, j).0 && single_shard(total, shards, j).0 + single_shard(
        total,
        shards,
        j,
    ).1 <= total by {
        lemma_mul_le(0, j, base);
    }
    assert forall|j: int|
        #![trigger single_shard(total, shards, j + 1)]
        0 <= j && j + 1 < shards && single_shard(total, shards, j + 1).1 > 0 implies single_shard(
        total,
        shards,
        j,
    ).1 > 0 && single_shard(total, shards, j).0 + single_shard(total, shards, j).1 == single_shard(
        total,
        shards,
        j + 1,
    ).0 by {
        lemma_mul_step(j, base);
    }
    assert forall|j: int|
        #![trigger single_shard(total, shards, j)]
        0 <= j < shards && single_shard(total, shards, j).1 > 0 && (j + 1 == shards || single_shard(
            total,
            shards,
            j + 1,
        ).1 == 0) implies single_shard(total, shards, j).0 + single_shard(total, shards, j).1
        == total by {
        lemma_mul_step(j, base);
    }
}

} // verus!
