//! Histogram-equalised colouring of a chunk.
//!
//! The hue of a pixel that escaped after `k` iterations is the share of all
//! escaped pixels that escaped in fewer than `k` iterations:
//! `escaped_before(histogram, k) / total`. The pixel's colour lies between the
//! gradient colour of that hue and the gradient colour of the next hue,
//! `escaped_before(histogram, k + 1) / total`, as far along as the pixel's
//! smoothing fraction says. All of it is computed in exact integer arithmetic
//! and rounded down once per channel and step.

use crate::chunk::{Buffers, PixelRect};
use crate::color::{blend, lemma_blend_between, lemma_unpack_pack, pack, unpack, Channels, Color};
use crate::config::{ColorWeights, RenderConfig};
use crate::error::KernelError;
use crate::histogram::{
    escaped_before, escapes, histogram_of, histogram_total, iteration_counts, kept_fractions,
    tally_fault, Sample,
};
use vstd::prelude::*;

verus! {

/// One channel of the gradient at the hue `count / total` under the weight
/// `weight / 65536`: 255 times hue times weight, rounded down and held at 255.
pub open spec fn shade(count: int, total: int, weight: u32) -> int {
    let raw = (255 * count * weight) / (total * 65536);
    if raw > 255 {
        255
    } else {
        raw
    }
}

/// The opaque gradient colour at the hue `count / total`.
pub open spec fn gradient_spec(count: int, total: int, weights: ColorWeights) -> Channels {
    Channels {
        red: shade(count, total, weights.red) as u8,
        green: shade(count, total, weights.green) as u8,
        blue: shade(count, total, weights.blue) as u8,
        alpha: 0xff,
    }
}

/// The packed colour of a pixel with the given iteration count and smoothing
/// fraction: opaque black where the pixel never escaped.
pub open spec fn pixel_word(
    config: RenderConfig,
    histogram: Seq<u32>,
    total: u32,
    iteration: u32,
    fractional: u16,
) -> u32 {
    if iteration >= config.iteration_budget {
        pack(0, 0, 0, 0xff)
    } else {
        let low = gradient_spec(
            escaped_before(histogram, iteration as int),
            total as int,
            config.weights,
        );
        let high = gradient_spec(
            escaped_before(histogram, iteration + 1),
            total as int,
            config.weights,
        );
        pack(
            blend(low.red, high.red, fractional) as u8,
            blend(low.green, high.green, fractional) as u8,
            blend(low.blue, high.blue, fractional) as u8,
            blend(low.alpha, high.alpha, fractional) as u8,
        )
    }
}

/// The packed colours of all pixels of a chunk.
pub open spec fn painted(
    config: RenderConfig,
    histogram: Seq<u32>,
    iterations: Seq<u32>,
    fractionals: Seq<u16>,
    total: u32,
) -> Seq<u32> {
    Seq::new(
        iterations.len(),
        |i: int| pixel_word(config, histogram, total, iterations[i], fractionals[i]),
    )
}

/// Why a chunk cannot be coloured, if it cannot.
pub open spec fn color_fault(
    config: RenderConfig,
    rect: PixelRect,
    buffers: Buffers,
    total: u32,
) -> Option<KernelError> {
    if !(buffers.layout_fault(config.iteration_budget, rect) is None) {
        buffers.layout_fault(config.iteration_budget, rect)
    } else if buffers.pixels is None {
        Some(KernelError::PixelsMissing)
    } else if buffers.pixels->Some_0@.len() != rect.pixels() {
        Some(KernelError::PixelsLength)
    } else if exists|i: int|
        0 <= i < buffers.iterations@.len() && #[trigger] buffers.iterations@[i]
            > config.iteration_budget {
        Some(KernelError::IterationBeyondBudget)
    } else if total == 0 && exists|i: int|
        0 <= i < buffers.iterations@.len() && #[trigger] buffers.iterations@[i]
            < config.iteration_budget {
        Some(KernelError::ZeroTotal)
    } else {
        None
    }
}

/// The hue does not fall as the iteration count grows: no fewer pixels
/// escaped before a later iteration than before an earlier one.
pub proof fn lemma_hue_monotonic(histogram: Seq<u32>, earlier: int, later: int)
    requires
        0 <= earlier <= later <= histogram.len(),
    ensures
        0 <= escaped_before(histogram, earlier) <= escaped_before(histogram, later),
    decreases later,
{
    if earlier < later {
        lemma_hue_monotonic(histogram, earlier, later - 1);
    } else {
        lemma_escaped_before_nonnegative(histogram, earlier);
    }
}

/// No count of pixels is negative.
proof fn lemma_escaped_before_nonnegative(histogram: Seq<u32>, k: int)
    ensures
        0 <= escaped_before(histogram, k),
    decreases k,
{
    if k > 0 {
        lemma_escaped_before_nonnegative(histogram, k - 1);
    }
}

/// With a total that covers the histogram, every hue lies between 0 and 1:
/// its numerator lies between 0 and the total.
pub proof fn lemma_hue_in_unit_interval(histogram: Seq<u32>, total: int, k: int)
    requires
        histogram_total(histogram) <= total,
        0 <= k <= histogram.len(),
    ensures
        0 <= escaped_before(histogram, k) <= total,
{
    lemma_hue_monotonic(histogram, k, histogram.len() as int);
}

/// A channel of the gradient does not fall as the hue grows.
pub proof fn lemma_shade_monotonic(lower: int, higher: int, total: int, weight: u32)
    requires
        0 <= lower <= higher,
        0 < total,
    ensures
        0 <= shade(lower, total, weight) <= shade(higher, total, weight) <= 255,
{
    let divisor = total * 65536;
    assert(0 <= 255 * lower * weight <= 255 * higher * weight) by (nonlinear_arith)
        requires
            0 <= lower <= higher,
            0 <= weight,
    ;
    vstd::arithmetic::div_mod::lemma_div_is_ordered(
        255 * lower * weight,
        255 * higher * weight,
        divisor,
    );
    vstd::arithmetic::div_mod::lemma_div_pos_is_pos(255 * lower * weight, divisor);
}

/// Every pixel is painted opaque.
pub proof fn lemma_pixel_is_opaque(
    config: RenderConfig,
    histogram: Seq<u32>,
    total: u32,
    iteration: u32,
    fractional: u16,
)
    ensures
        unpack(pixel_word(config, histogram, total, iteration, fractional)).alpha == 0xff,
{
    if iteration >= config.iteration_budget {
        lemma_unpack_pack(0, 0, 0, 0xff);
    } else {
        let low = gradient_spec(
            escaped_before(histogram, iteration as int),
            total as int,
            config.weights,
        );
        let high = gradient_spec(
            escaped_before(histogram, iteration + 1),
            total as int,
            config.weights,
        );
        lemma_blend_between(0xff, 0xff, fractional);
        lemma_unpack_pack(
            blend(low.red, high.red, fractional) as u8,
            blend(low.green, high.green, fractional) as u8,
            blend(low.blue, high.blue, fractional) as u8,
            0xff,
        );
    }
}

/// Where none of the first `n` pixels escaped, none of them has an iteration
/// count below the budget.
proof fn lemma_no_escapes(iterations: Seq<u32>, budget: u32, n: int)
    requires
        0 <= n,
        escapes(iterations, budget, n) == 0,
    ensures
        forall|i: int| 0 <= i < n ==> iterations[i] >= budget,
    decreases n,
{
    if n > 0 {
        crate::histogram::lemma_escapes_bounded(iterations, budget, n - 1);
        lemma_no_escapes(iterations, budget, n - 1);
    }
}

/// The buffers that a tally built can be coloured, once they carry a pixel
/// sequence of the chunk's length, with any total that is no less than the
/// chunk's own escaped count: with the chunk's own total, or with the total
/// of a whole image that the chunk is a part of.
pub proof fn lemma_tallied_chunk_can_be_colored(
    config: RenderConfig,
    rect: PixelRect,
    samples: Seq<Sample>,
    buffers: Buffers,
    total: u32,
)
    requires
        tally_fault(config.iteration_budget, rect, samples) is None,
        buffers.iterations@ == iteration_counts(samples),
        buffers.fractionals@ == kept_fractions(samples, config.iteration_budget),
        buffers.histogram@ == histogram_of(iteration_counts(samples), config.iteration_budget),
        buffers.pixels matches Some(pixels) && pixels@.len() == rect.pixels(),
        total >= escapes(iteration_counts(samples), config.iteration_budget, samples.len() as int),
    ensures
        color_fault(config, rect, buffers, total) is None,
{
    let budget = config.iteration_budget;
    let counts = iteration_counts(samples);
    assert forall|i: int| 0 <= i < counts.len() implies counts[i] <= budget by {
        assert(samples[i].iteration <= budget);
    }
    if total == 0 {
        crate::histogram::lemma_escapes_bounded(counts, budget, samples.len() as int);
        lemma_no_escapes(counts, budget, samples.len() as int);
    }
}

/// The colours of a chunk depend on the histogram, the iteration counts, the
/// smoothing fractions, the total and the settings alone, not on what the
/// pixel sequence held before: colouring the same chunk again gives the same
/// pixels.
pub proof fn lemma_coloring_repeats(
    config: RenderConfig,
    rect: PixelRect,
    first: Buffers,
    second: Buffers,
    total: u32,
)
    requires
        color_fault(config, rect, first, total) is None,
        second.histogram@ == first.histogram@,
        second.iterations@ == first.iterations@,
        second.fractionals@ == first.fractionals@,
        second.pixels matches Some(pixels) && pixels@ == painted(
            config,
            first.histogram@,
            first.iterations@,
            first.fractionals@,
            total,
        ),
    ensures
        color_fault(config, rect, second, total) is None,
        painted(config, second.histogram@, second.iterations@, second.fractionals@, total)
            == second.pixels->Some_0@,
{
}

/// One channel of the gradient.
fn shade_channel(count: u64, total: u32, weight: u32) -> (value: u8)
    requires
        total > 0,
    ensures
        value == shade(count as int, total as int, weight),
{
    assert(255 * count * weight <= 255 * 0xffff_ffff_ffff_ffff * 0xffff_ffff) by (nonlinear_arith)
        requires
            0 <= count <= 0xffff_ffff_ffff_ffff,
            0 <= weight <= 0xffff_ffff,
    ;
    let numerator: u128 = 255u128 * (count as u128) * (weight as u128);
    let denominator: u128 = (total as u128) * 65536u128;
    let raw: u128 = numerator / denominator;
    if raw > 255 {
        255
    } else {
        raw as u8
    }
}

/// The opaque gradient colour at the hue `count / total`.
pub fn gradient(count: u64, total: u32, weights: &ColorWeights) -> (color: Color)
    requires
        total > 0,
    ensures
        color@ == gradient_spec(count as int, total as int, *weights),
{
    Color::new(
        shade_channel(count, total, weights.red),
        shade_channel(count, total, weights.green),
        shade_channel(count, total, weights.blue),
        0xff,
    )
}

/// For each bucket, the number of pixels counted in the buckets below it.
fn running_counts(histogram: &Vec<u32>) -> (running: Vec<u64>)
    requires
        histogram.len() <= u32::MAX,
    ensures
        running.len() == histogram.len(),
        forall|k: int|
            0 <= k < running.len() ==> #[trigger] running[k] == escaped_before(histogram@, k),
{
    let mut running: Vec<u64> = Vec::new();
    let mut below: u64 = 0;
    let mut k: usize = 0;
    while k < histogram.len()
        invariant
            k <= histogram.len() <= u32::MAX,
            running.len() == k,
            below == escaped_before(histogram@, k as int),
            below <= k * 0xffff_ffff,
            forall|j: int| 0 <= j < k ==> #[trigger] running[j] == escaped_before(histogram@, j),
        decreases histogram.len() - k,
    {
        running.push(below);
        assert((k + 1) * 0xffff_ffff <= 0xffff_ffff * 0xffff_ffff) by (nonlinear_arith)
            requires
                k < 0xffff_ffff,
        ;
        below = below + histogram[k] as u64;
        k = k + 1;
    }
    running
}

/// Colours every pixel of a chunk from its iteration count and smoothing
/// fraction, the histogram in the buffers and the number of escaped pixels
/// that the histogram spreads over. Writes the packed colours into the pixel
/// sequence of the buffers and changes nothing else; writes nothing at all
/// where the chunk is refused.
pub fn color_chunk(
    config: &RenderConfig,
    rect: &PixelRect,
    buffers: &mut Buffers,
    total: u32,
) -> (result: Result<(), KernelError>)
    ensures
        match result {
            Ok(_) => {
                &&& color_fault(*config, *rect, *old(buffers), total) is None
                &&& final(buffers).histogram@ == old(buffers).histogram@
                &&& final(buffers).iterations@ == old(buffers).iterations@
                &&& final(buffers).fractionals@ == old(buffers).fractionals@
                &&& final(buffers).pixels matches Some(pixels) && pixels@ == painted(
                    *config,
                    old(buffers).histogram@,
                    old(buffers).iterations@,
                    old(buffers).fractionals@,
                    total,
                )
            },
            Err(error) => {
                &&& color_fault(*config, *rect, *old(buffers), total) == Some(error)
                &&& *final(buffers) == *old(buffers)
            },
        },
{
    let budget = config.iteration_budget;
    let count = match buffers.check_layout(budget, rect) {
        Ok(count) => count as usize,
        Err(error) => {
            return Err(error);
        },
    };
    match &buffers.pixels {
        None => {
            return Err(KernelError::PixelsMissing);
        },
        Some(pixels) => {
            if pixels.len() != count {
                return Err(KernelError::PixelsLength);
            }
        },
    }
    let mut any_escaped = false;
    let mut seen: usize = 0;
    while seen < count
        invariant
            seen <= count == buffers.iterations.len(),
            budget == config.iteration_budget,
            *buffers == *old(buffers),
            buffers.layout_fault(budget, *rect) is None,
            buffers.pixels matches Some(pixels) && pixels@.len() == rect.pixels(),
            forall|i: int| 0 <= i < seen ==> #[trigger] buffers.iterations@[i] <= budget,
            any_escaped <==> exists|i: int|
                0 <= i < seen && #[trigger] buffers.iterations@[i] < budget,
        decreases count - seen,
    {
        let iteration = buffers.iterations[seen];
        if iteration > budget {
            assert(buffers.iterations@[seen as int] > budget);
            return Err(KernelError::IterationBeyondBudget);
        }
        if iteration < budget {
            any_escaped = true;
        }
        seen = seen + 1;
    }
    if any_escaped && total == 0 {
        return Err(KernelError::ZeroTotal);
    }
    let running = running_counts(&buffers.histogram);
    let mut canvas: Vec<u32> = buffers.pixels.take().unwrap();
    let ghost target = painted(
        *config,
        buffers.histogram@,
        buffers.iterations@,
        buffers.fractionals@,
        total,
    );
    let mut at: usize = 0;
    while at < count
        invariant
            at <= count,
            count == canvas.len(),
            count == buffers.iterations.len(),
            count == buffers.fractionals.len(),
            budget == config.iteration_budget,
            budget == buffers.histogram.len(),
            running.len() == buffers.histogram.len(),
            forall|k: int|
                0 <= k < running.len() ==> #[trigger] running[k] == escaped_before(
                    buffers.histogram@,
                    k,
                ),
            forall|i: int| 0 <= i < count ==> #[trigger] buffers.iterations@[i] <= budget,
            total > 0 || forall|i: int|
                0 <= i < count ==> #[trigger] buffers.iterations@[i] >= budget,
            target == painted(
                *config,
                buffers.histogram@,
                buffers.iterations@,
                buffers.fractionals@,
                total,
            ),
            forall|i: int| 0 <= i < at ==> #[trigger] canvas[i] == target[i],
        decreases count - at,
    {
        let iteration = buffers.iterations[at];
        let word = if iteration >= budget {
            Color::black().abgr()
        } else {
            let bucket = iteration as usize;
            let below: u64 = running[bucket];
            proof {
                crate::histogram::lemma_escaped_before_ceiling(buffers.histogram@, bucket + 1);
            }
            let low = gradient(below, total, &config.weights);
            let high = gradient(below + buffers.histogram[bucket] as u64, total, &config.weights);
            Color::lerp(&low, &high, buffers.fractionals[at]).abgr()
        };
        canvas.set(at, word);
        at = at + 1;
    }
    assert(canvas@ =~= target);
    buffers.pixels = Some(canvas);
    Ok(())
}

} // verus!
