//! The escape histogram of a chunk: how many pixels escaped after each number
//! of iterations, tallied from the per-pixel outcomes of the escape-time pass.

use crate::chunk::{Buffers, ChunkResult, PixelRect};
use crate::error::KernelError;
use vstd::prelude::*;

verus! {

/// What the escape-time iteration found at one pixel.
#[derive(Clone, Copy, Debug, PartialEq, Eq)]
pub struct Sample {
    /// The iteration count: below the budget where the orbit escaped, the
    /// budget itself where it did not.
    pub iteration: u32,
    /// The smoothing fraction of an escaped pixel, in units of 1/65536.
    pub fractional: u16,
}

/// The number of pixels counted in the buckets below `k`: those that escaped
/// in strictly fewer than `k` iterations.
pub open spec fn escaped_before(histogram: Seq<u32>, k: int) -> int
    decreases k,
{
    if k <= 0 {
        0
    } else {
        escaped_before(histogram, k - 1) + histogram[k - 1]
    }
}

/// The number of pixels counted in the whole histogram.
pub open spec fn histogram_total(histogram: Seq<u32>) -> int {
    escaped_before(histogram, histogram.len() as int)
}

/// How many of the first `n` iteration counts equal `k`.
pub open spec fn occurrences(iterations: Seq<u32>, k: int, n: int) -> int
    decreases n,
{
    if n <= 0 {
        0
    } else {
        occurrences(iterations, k, n - 1) + if iterations[n - 1] == k {
            1int
        } else {
            0int
        }
    }
}

/// How many of the first `n` iteration counts lie below the budget: the number
/// of pixels among them that escaped.
pub open spec fn escapes(iterations: Seq<u32>, budget: u32, n: int) -> int
    decreases n,
{
    if n <= 0 {
        0
    } else {
        escapes(iterations, budget, n - 1) + if iterations[n - 1] < budget {
            1int
        } else {
            0int
        }
    }
}

/// The iteration counts of a sequence of samples.
pub open spec fn iteration_counts(samples: Seq<Sample>) -> Seq<u32> {
    Seq::new(samples.len(), |i: int| samples[i].iteration)
}

/// The smoothing fractions that a chunk keeps: that of each escaped pixel, and
/// zero for a pixel that never escaped.
pub open spec fn kept_fractions(samples: Seq<Sample>, budget: u32) -> Seq<u16> {
    Seq::new(
        samples.len(),
        |i: int|
            if samples[i].iteration < budget {
                samples[i].fractional
            } else {
                0u16
            },
    )
}

/// The histogram of a sequence of iteration counts under a budget.
pub open spec fn histogram_of(iterations: Seq<u32>, budget: u32) -> Seq<u32> {
    Seq::new(budget as nat, |k: int| occurrences(iterations, k, iterations.len() as int) as u32)
}

/// Why a sequence of samples cannot be tallied for this rectangle, if it
/// cannot.
pub open spec fn tally_fault(budget: u32, rect: PixelRect, samples: Seq<Sample>) -> Option<
    KernelError,
> {
    if !(rect.fault() is None) {
        rect.fault()
    } else if samples.len() != rect.pixels() {
        Some(KernelError::IterationsLength)
    } else if exists|i: int| 0 <= i < samples.len() && (#[trigger] samples[i]).iteration > budget {
        Some(KernelError::IterationBeyondBudget)
    } else {
        None
    }
}

/// No count of occurrences among the first `n` entries exceeds `n`.
pub proof fn lemma_occurrences_bounded(iterations: Seq<u32>, k: int, n: int)
    requires
        0 <= n,
    ensures
        0 <= occurrences(iterations, k, n) <= n,
    decreases n,
{
    if n > 0 {
        lemma_occurrences_bounded(iterations, k, n - 1);
    }
}

/// No more than `n` of the first `n` pixels escaped.
pub proof fn lemma_escapes_bounded(iterations: Seq<u32>, budget: u32, n: int)
    requires
        0 <= n,
    ensures
        0 <= escapes(iterations, budget, n) <= n,
    decreases n,
{
    if n > 0 {
        lemma_escapes_bounded(iterations, budget, n - 1);
    }
}

/// A histogram whose buckets below `k` are empty counts no pixel there.
pub proof fn lemma_escaped_before_empty(histogram: Seq<u32>, k: int)
    requires
        forall|i: int| 0 <= i < k ==> histogram[i] == 0,
    ensures
        escaped_before(histogram, k) == 0,
    decreases k,
{
    if k > 0 {
        lemma_escaped_before_empty(histogram, k - 1);
    }
}

/// The buckets below `k` count at most `k` times what one bucket can hold.
pub proof fn lemma_escaped_before_ceiling(histogram: Seq<u32>, k: int)
    requires
        0 <= k,
    ensures
        0 <= escaped_before(histogram, k) <= k * u32::MAX,
    decreases k,
{
    if k > 0 {
        lemma_escaped_before_ceiling(histogram, k - 1);
    }
}

/// Raising one bucket by one raises the count below `k` by one where the
/// bucket lies below `k`, and leaves it as it was otherwise.
pub proof fn lemma_escaped_before_bump(histogram: Seq<u32>, bucket: int, k: int)
    requires
        0 <= bucket < histogram.len(),
        0 <= k <= histogram.len(),
        histogram[bucket] < u32::MAX,
    ensures
        escaped_before(histogram.update(bucket, (histogram[bucket] + 1) as u32), k)
            == escaped_before(histogram, k) + if bucket < k {
            1int
        } else {
            0int
        },
    decreases k,
{
    if k > 0 {
        lemma_escaped_before_bump(histogram, bucket, k - 1);
    }
}

/// The histogram of a sequence of iteration counts holds, in all its buckets
/// together, exactly the pixels that escaped.
pub proof fn lemma_histogram_counts_escapes(iterations: Seq<u32>, budget: u32)
    requires
        iterations.len() <= u32::MAX,
    ensures
        histogram_total(histogram_of(iterations, budget)) == escapes(
            iterations,
            budget,
            iterations.len() as int,
        ),
{
    lemma_buckets_count_escapes(iterations, budget, iterations.len() as int, budget as int);
    let whole = histogram_of(iterations, budget);
    let direct = Seq::new(
        budget as nat,
        |k: int| occurrences(iterations, k, iterations.len() as int),
    );
    assert forall|k: int| 0 <= k < budget implies whole[k] == #[trigger] direct[k] by {
        lemma_occurrences_bounded(iterations, k, iterations.len() as int);
    }
    lemma_sum_of_buckets_agrees(whole, direct, budget as int);
}

/// The sum of the first `k` entries of a sequence of bucket counts.
spec fn sum_of_buckets(buckets: Seq<int>, k: int) -> int
    decreases k,
{
    if k <= 0 {
        0
    } else {
        sum_of_buckets(buckets, k - 1) + buckets[k - 1]
    }
}

/// A histogram counts below `k` what its buckets, read as integers, add up to.
proof fn lemma_sum_of_buckets_agrees(histogram: Seq<u32>, buckets: Seq<int>, k: int)
    requires
        forall|i: int| 0 <= i < k ==> histogram[i] == #[trigger] buckets[i],
    ensures
        escaped_before(histogram, k) == sum_of_buckets(buckets, k),
    decreases k,
{
    if k > 0 {
        lemma_sum_of_buckets_agrees(histogram, buckets, k - 1);
    }
}

/// Among the first `n` iteration counts, the occurrences of the values below
/// `k` add up to the number of counts below `k`.
proof fn lemma_buckets_count_escapes(iterations: Seq<u32>, budget: u32, n: int, k: int)
    requires
        0 <= n <= iterations.len(),
        0 <= k <= budget,
    ensures
        sum_of_buckets(Seq::new(budget as nat, |b: int| occurrences(iterations, b, n)), k)
            == escapes(iterations, k as u32, n),
    decreases n,
{
    let here = Seq::new(budget as nat, |b: int| occurrences(iterations, b, n));
    if n <= 0 {
        lemma_sum_of_zero_buckets(here, k);
    } else {
        let before = Seq::new(budget as nat, |b: int| occurrences(iterations, b, n - 1));
        lemma_buckets_count_escapes(iterations, budget, n - 1, k);
        lemma_sum_of_buckets_bump(before, here, iterations[n - 1] as int, k);
    }
}

/// Empty buckets add up to nothing.
proof fn lemma_sum_of_zero_buckets(buckets: Seq<int>, k: int)
    requires
        0 <= k <= buckets.len(),
        forall|i: int| 0 <= i < k ==> #[trigger] buckets[i] == 0,
    ensures
        sum_of_buckets(buckets, k) == 0,
    decreases k,
{
    if k > 0 {
        lemma_sum_of_zero_buckets(buckets, k - 1);
    }
}

/// Raising one bucket by one raises the sum below `k` by one where the bucket
/// lies below `k`.
proof fn lemma_sum_of_buckets_bump(before: Seq<int>, after: Seq<int>, bucket: int, k: int)
    requires
        0 <= k <= before.len(),
        before.len() == after.len(),
        forall|i: int|
            0 <= i < k ==> #[trigger] after[i] == before[i] + if i == bucket {
                1int
            } else {
                0int
            },
    ensures
        sum_of_buckets(after, k) == sum_of_buckets(before, k) + if 0 <= bucket < k {
            1int
        } else {
            0int
        },
    decreases k,
{
    if k > 0 {
        lemma_sum_of_buckets_bump(before, after, bucket, k - 1);
    }
}

/// Builds the buffers of a chunk from the outcome at each of its pixels, row
/// by row: the iteration counts, the smoothing fractions of the escaped
/// pixels, the escape histogram, and the number of pixels that escaped.
pub fn tally_chunk(budget: u32, rect: &PixelRect, samples: &Vec<Sample>) -> (result: Result<
    ChunkResult,
    KernelError,
>)
    ensures
        match result {
            Ok(chunk) => {
                &&& tally_fault(budget, *rect, samples@) is None
                &&& chunk.buffers.iterations@ == iteration_counts(samples@)
                &&& chunk.buffers.fractionals@ == kept_fractions(samples@, budget)
                &&& chunk.buffers.histogram@ == histogram_of(iteration_counts(samples@), budget)
                &&& chunk.buffers.pixels is None
                &&& chunk.total == escapes(
                    iteration_counts(samples@),
                    budget,
                    samples@.len() as int,
                )
                &&& chunk.total == histogram_total(chunk.buffers.histogram@)
                &&& chunk.buffers.layout_fault(budget, *rect) is None
            },
            Err(error) => tally_fault(budget, *rect, samples@) == Some(error),
        },
{
    let count = match rect.pixel_count() {
        Ok(count) => count,
        Err(error) => {
            return Err(error);
        },
    };
    if samples.len() != count as usize {
        return Err(KernelError::IterationsLength);
    }
    let ghost counts = iteration_counts(samples@);
    let mut histogram: Vec<u32> = vec![0u32; budget as usize];
    let mut iterations: Vec<u32> = Vec::new();
    let mut fractionals: Vec<u16> = Vec::new();
    let mut escaped: u32 = 0;
    let mut done: usize = 0;
    proof {
        lemma_escaped_before_empty(histogram@, budget as int);
    }
    while done < samples.len()
        invariant
            done <= samples.len() <= u32::MAX,
            rect.fault() is None,
            samples.len() == rect.pixels(),
            counts == iteration_counts(samples@),
            histogram.len() == budget,
            iterations@ =~= counts.take(done as int),
            fractionals@ =~= kept_fractions(samples@, budget).take(done as int),
            forall|k: int|
                0 <= k < budget ==> #[trigger] histogram[k] == occurrences(counts, k, done as int),
            escaped == escapes(counts, budget, done as int),
            escaped == escaped_before(histogram@, budget as int),
            forall|i: int| 0 <= i < done ==> (#[trigger] samples[i]).iteration <= budget,
        decreases samples.len() - done,
    {
        let sample = samples[done];
        if sample.iteration > budget {
            assert(samples@[done as int].iteration > budget);
            return Err(KernelError::IterationBeyondBudget);
        }
        iterations.push(sample.iteration);
        if sample.iteration < budget {
            let bucket = sample.iteration as usize;
            proof {
                lemma_occurrences_bounded(counts, bucket as int, done as int);
                lemma_escapes_bounded(counts, budget, done as int);
                lemma_escaped_before_bump(histogram@, bucket as int, budget as int);
            }
            let raised: u32 = histogram[bucket] + 1;
            histogram.set(bucket, raised);
            escaped = escaped + 1;
            fractionals.push(sample.fractional);
        } else {
            fractionals.push(0);
        }
        done = done + 1;
    }
    proof {
        let whole = histogram_of(counts, budget);
        assert forall|k: int| 0 <= k < budget implies histogram@[k] == whole[k] by {
            assert(histogram[k] == occurrences(counts, k, done as int));
        }
        assert(histogram@ =~= whole);
        assert(iterations@ =~= counts);
        assert(fractionals@ =~= kept_fractions(samples@, budget));
    }
    Ok(
        ChunkResult {
            buffers: Buffers { histogram, iterations, fractionals, pixels: None },
            total: escaped,
        },
    )
}

} // verus!
