//! Resolution stages and the partition of a stage into batches.
//!
//! A render passes through `STAGES` resolutions, each half the linear size of
//! the next, the last one being the viewport itself. The pixels of a stage,
//! flattened row by row, are cut into batches of `BATCH` pixels; the batches
//! are dealt out to the workers in turn.

use crate::image_utils::IPoint;
use crate::viewport::Size;
use vstd::arithmetic::div_mod::{
    lemma_div_is_ordered_by_denominator,
    lemma_fundamental_div_mod,
    lemma_fundamental_div_mod_converse,
};
use vstd::arithmetic::mul::lemma_mul_upper_bound;
use vstd::arithmetic::power2::{lemma2_to64, pow2};
use vstd::prelude::*;

verus! {

/// The number of resolution stages.
pub const STAGES: usize = 4;

/// The number of pixels in a batch.
pub const BATCH: usize = 100;

/// The factor by which a stage is smaller than the viewport, in each axis.
pub open spec fn stage_divisor(stage: int) -> int {
    pow2((STAGES - 1 - stage) as nat) as int
}

/// The width of a stage: the viewport's width over the stage's divisor,
/// rounded down.
pub open spec fn stage_width(size: Size, stage: int) -> int {
    size.width as int / stage_divisor(stage)
}

/// The height of a stage.
pub open spec fn stage_height(size: Size, stage: int) -> int {
    size.height as int / stage_divisor(stage)
}

/// The number of pixels of a stage.
pub open spec fn stage_pixels(size: Size, stage: int) -> int {
    stage_width(size, stage) * stage_height(size, stage)
}

/// The number of pixels of all stages below `stage`.
pub open spec fn pixels_before(size: Size, stage: int) -> int
    decreases stage,
{
    if stage <= 0 {
        0
    } else {
        pixels_before(size, stage - 1) + stage_pixels(size, stage - 1)
    }
}

/// The number of pixels of all stages together.
pub open spec fn total_pixels(size: Size) -> int {
    pixels_before(size, STAGES as int)
}

/// The flat index at which the batch of worker `id` in round `round` starts,
/// among `workers` workers.
pub open spec fn batch_start(workers: int, id: int, round: int) -> int {
    (workers * round + id) * BATCH
}

/// The worker that owns a pixel.
pub open spec fn batch_owner(workers: int, pixel: int) -> int {
    (pixel / BATCH as int) % workers
}

/// The round in which its owner computes a pixel.
pub open spec fn batch_round(workers: int, pixel: int) -> int {
    (pixel / BATCH as int) / workers
}

/// Where a pixel lies in its owner's buffer: batches follow one another there
/// in the order of their rounds.
pub open spec fn buffer_index(workers: int, pixel: int) -> int {
    batch_round(workers, pixel) * BATCH + pixel % BATCH as int
}

/// The divisors of the stages are 8, 4, 2 and 1.
pub proof fn stage_divisor_values()
    ensures
        stage_divisor(0) == 8,
        stage_divisor(1) == 4,
        stage_divisor(2) == 2,
        stage_divisor(3) == 1,
{
    lemma2_to64();
}

/// The divisor of a stage.
pub fn stage_factor(stage: usize) -> (d: u32)
    requires
        stage < STAGES,
    ensures
        d == stage_divisor(stage as int),
        1 <= d <= 8,
{
    proof {
        stage_divisor_values();
    }
    let mut d: u32 = 1;
    let mut s: usize = STAGES - 1;
    while s > stage
        invariant
            stage <= s < STAGES,
            d == stage_divisor(s as int),
            1 <= d <= 8,
            stage_divisor(0) == 8,
            stage_divisor(1) == 4,
            stage_divisor(2) == 2,
            stage_divisor(3) == 1,
        decreases s,
    {
        d = d * 2;
        s = s - 1;
    }
    d
}

/// The dimensions of a stage of a viewport.
pub fn stage_size(size: &Size, stage: usize) -> (r: IPoint)
    requires
        stage < STAGES,
    ensures
        r.x == stage_width(*size, stage as int),
        r.y == stage_height(*size, stage as int),
{
    let d: u32 = stage_factor(stage);
    IPoint::new((size.width / d) as usize, (size.height / d) as usize)
}

/// A stage is never larger than a later one, in either axis or in pixels, and
/// no stage is larger than the viewport.
pub proof fn stage_sizes_grow(size: Size, earlier: int, later: int)
    requires
        0 <= earlier <= later < STAGES,
    ensures
        0 <= stage_width(size, earlier) <= stage_width(size, later) <= size.width,
        0 <= stage_height(size, earlier) <= stage_height(size, later) <= size.height,
        0 <= stage_pixels(size, earlier) <= stage_pixels(size, later) <= size.pixels(),
{
    stage_divisor_values();
    let de = stage_divisor(earlier);
    let dl = stage_divisor(later);
    lemma_div_is_ordered_by_denominator(size.width as int, dl, de);
    lemma_div_is_ordered_by_denominator(size.height as int, dl, de);
    lemma_div_is_ordered_by_denominator(size.width as int, 1, dl);
    lemma_div_is_ordered_by_denominator(size.height as int, 1, dl);
    lemma_mul_upper_bound(
        stage_width(size, earlier),
        stage_width(size, later),
        stage_height(size, earlier),
        stage_height(size, later),
    );
    lemma_mul_upper_bound(
        stage_width(size, later),
        size.width as int,
        stage_height(size, later),
        size.height as int,
    );
    assert(0 <= stage_width(size, earlier) * stage_height(size, earlier)) by (nonlinear_arith)
        requires
            0 <= stage_width(size, earlier),
            0 <= stage_height(size, earlier),
    ;
}

/// The pixels below a stage, and those of the stage itself, are among the
/// pixels of all stages; each stage has at most as many pixels as the
/// viewport.
pub proof fn pixels_before_bounds(size: Size, stage: int)
    requires
        0 <= stage < STAGES,
    ensures
        0 <= pixels_before(size, stage) <= total_pixels(size),
        0 <= stage_pixels(size, stage) <= size.pixels(),
        pixels_before(size, stage + 1) == pixels_before(size, stage) + stage_pixels(size, stage),
        pixels_before(size, stage + 1) <= total_pixels(size) <= STAGES * size.pixels(),
{
    reveal_with_fuel(pixels_before, 5);
    stage_sizes_grow(size, 0, 0);
    stage_sizes_grow(size, 1, 1);
    stage_sizes_grow(size, 2, 2);
    stage_sizes_grow(size, 3, 3);
}

/// The last stage has the dimensions of the viewport.
pub proof fn last_stage_is_viewport(size: Size)
    ensures
        stage_width(size, STAGES - 1) == size.width,
        stage_height(size, STAGES - 1) == size.height,
        stage_pixels(size, STAGES - 1) == size.pixels(),
{
    stage_divisor_values();
}

/// Batches tile the pixel indices without gap or overlap: a pixel lies in the
/// batch of its owner in its round, at the offset `pixel % BATCH`, and in the
/// batch of no other worker or round.
pub proof fn batches_partition_pixels(workers: int, pixel: int)
    requires
        1 <= workers,
        0 <= pixel,
    ensures
        0 <= batch_owner(workers, pixel) < workers,
        0 <= batch_round(workers, pixel),
        batch_start(workers, batch_owner(workers, pixel), batch_round(workers, pixel)) + pixel
            % BATCH as int == pixel,
        forall|id: int, round: int|
            0 <= id < workers && #[trigger] batch_start(workers, id, round) <= pixel
                < batch_start(workers, id, round) + BATCH ==> id == batch_owner(workers, pixel)
                && round == batch_round(workers, pixel),
{
    let batch = BATCH as int;
    let k = pixel / batch;
    lemma_fundamental_div_mod(pixel, batch);
    lemma_fundamental_div_mod(k, workers);
    assert(0 <= k) by (nonlinear_arith)
        requires
            k == pixel / batch,
            0 <= pixel,
            0 < batch,
    ;
    assert(0 <= k / workers) by (nonlinear_arith)
        requires
            0 <= k,
            1 <= workers,
    ;
    assert forall|id: int, round: int|
        0 <= id < workers && #[trigger] batch_start(workers, id, round) <= pixel < batch_start(
            workers,
            id,
            round,
        ) + BATCH implies id == batch_owner(workers, pixel) && round == batch_round(
        workers,
        pixel,
    ) by {
        let j = workers * round + id;
        lemma_fundamental_div_mod_converse(pixel, batch, j, pixel - j * batch);
        assert(k == round * workers + id) by (nonlinear_arith)
            requires
                k == workers * round + id,
        ;
        lemma_fundamental_div_mod_converse(k, workers, round, id);
    }
}

/// A batch that starts inside a stage of `pixels` pixels fits into a buffer
/// of `pixels / workers + BATCH` pixels at the place of its round.
pub proof fn batch_fits_buffer(workers: int, id: int, round: int, pixels: int)
    requires
        1 <= workers,
        0 <= id,
        0 <= round,
        batch_start(workers, id, round) < pixels,
    ensures
        (round + 1) * BATCH <= pixels / workers + BATCH,
        workers * round + id < pixels,
{
    lemma_fundamental_div_mod(pixels, workers);
    let batch = BATCH as int;
    let q = pixels / workers;
    let at = round * batch;
    assert(0 <= workers * round + id) by (nonlinear_arith)
        requires
            1 <= workers,
            0 <= id,
            0 <= round,
    ;
    assert(workers * at <= (workers * round + id) * batch) by (nonlinear_arith)
        requires
            at == round * batch,
            0 <= id,
            0 < batch,
    ;
    assert(at <= q) by (nonlinear_arith)
        requires
            1 <= workers,
            workers * at < pixels,
            pixels == workers * q + pixels % workers,
            0 <= pixels % workers < workers,
    ;
    assert(workers * round + id < pixels) by (nonlinear_arith)
        requires
            0 <= workers * round + id,
            (workers * round + id) * batch < pixels,
            1 <= batch,
    ;
}

/// Where the batch before the next one starts inside a stage, the next one
/// starts less than one turn of all workers after the stage's end.
pub proof fn next_start_bounded(workers: int, id: int, round: int, pixels: int)
    requires
        0 <= id < workers,
        0 <= round,
        0 <= pixels,
        round > 0 ==> batch_start(workers, id, round - 1) < pixels,
    ensures
        0 <= workers * round,
        workers * round + id <= pixels + workers,
        0 <= round * BATCH * workers <= batch_start(workers, id, round) <= (pixels + workers)
            * BATCH,
{
    if round > 0 {
        batch_fits_buffer(workers, id, round - 1, pixels);
        assert(workers * round == workers * (round - 1) + workers) by (nonlinear_arith);
    }
    assert(0 <= workers * round) by (nonlinear_arith)
        requires
            0 <= workers,
            0 <= round,
    ;
    let batch = BATCH as int;
    assert((workers * round + id) * batch <= (pixels + workers) * batch) by (nonlinear_arith)
        requires
            workers * round + id <= pixels + workers,
            0 < batch,
    ;
    assert(0 <= round * batch * workers <= (workers * round + id) * batch) by (nonlinear_arith)
        requires
            0 <= id,
            0 <= round,
            0 <= workers,
            0 < batch,
    ;
}

/// Later rounds of a worker start later, a whole turn of all workers apart.
pub proof fn batch_start_grows(workers: int, id: int, earlier: int, later: int)
    requires
        1 <= workers,
        earlier < later,
    ensures
        batch_start(workers, id, earlier) + workers * BATCH <= batch_start(workers, id, later),
{
    let batch = BATCH as int;
    assert((workers * earlier + id) * batch + workers * batch <= (workers * later + id) * batch)
        by (nonlinear_arith)
        requires
            1 <= workers,
            earlier + 1 <= later,
            0 < batch,
    ;
}

} // verus!
