//! The renderer: a pool of workers, the stage they are in, and the image
//! that is put together from what they have stored.

use crate::image_utils::{all_opaque, resampled, transparent_image, IPoint, RGB};
use crate::progress::{
    sum_first, sum_first_bounds, sum_first_ordered, sum_first_update, sum_first_zero, Progress,
};
use crate::stage::{
    batch_fits_buffer, batch_owner, batches_partition_pixels, buffer_index, next_start_bounded,
    pixels_before_bounds, stage_height, stage_pixels, stage_size, stage_sizes_grow, stage_width,
    total_pixels, BATCH, STAGES,
};
use crate::viewport::{Focus, Size};
use crate::worker::{
    claim_leads_on, exhausted_last_stage_is_done, exhausted_worker_holds_its_pixels,
    fresh_worker_stores_nothing, held_pixel_is_stored, next_stage_keeps_progress,
    steps_keep_progress, stored_pixels_stay_opaque, Claim, Input, Ticket, Worker, WorkerView,
};
use vstd::arithmetic::mul::lemma_mul_upper_bound;
use vstd::prelude::*;

verus! {

/// What `Renderer::update` reports: the dimensions of the image it left in
/// the caller's buffer, and how far the render has come.
#[derive(Clone, Copy, Debug, PartialEq)]
pub struct RendererResult {
    pub image_size: IPoint,
    pub progress: Progress,
}

/// The renderer.
pub struct Renderer {
    stage: usize,
    size: Size,
    focus: Focus,
    workers: Vec<Worker>,
}

/// The mathematical model of a renderer.
pub struct RendererView {
    /// The stage that is being rendered.
    pub stage: usize,
    /// The viewport.
    pub size: Size,
    /// The region shown.
    pub focus: Focus,
    /// The workers of the pool, in the order of their numbers.
    pub workers: Seq<WorkerView>,
}

/// A bound on the steps of a stage: one for each worker to find the stage
/// exhausted, one for each pixel of each worker, and one to move on to the
/// stage.
pub open spec fn stage_cost(size: Size, workers: int, stage: int) -> int {
    1 + workers * (1 + stage_pixels(size, stage))
}

/// A bound on the steps of all stages after `stage`.
pub open spec fn cost_after(size: Size, workers: int, stage: int) -> int
    decreases STAGES - stage,
{
    if stage + 1 >= STAGES {
        0
    } else {
        stage_cost(size, workers, stage + 1) + cost_after(size, workers, stage + 1)
    }
}

impl RendererView {
    /// Worker `i` is in good order, and renders what the renderer renders.
    pub open spec fn tracks(self, i: int) -> bool {
        let w = self.workers[i];
        &&& w.wf()
        &&& w.id == i
        &&& w.workers == self.workers.len()
        &&& w.input.size == self.size
        &&& w.input.focus == self.focus
        &&& w.input.stage == self.stage
    }

    /// The invariant of a renderer.
    pub open spec fn wf(self) -> bool {
        &&& 1 <= self.workers.len()
        &&& self.workers.len() * BATCH <= usize::MAX
        &&& self.stage < STAGES
        &&& self.size.addressable()
        &&& forall|i: int| 0 <= i < self.workers.len() ==> #[trigger] self.tracks(i)
    }

    /// The number of pixels of the current stage.
    pub open spec fn pixels(self) -> int {
        stage_pixels(self.size, self.stage as int)
    }

    /// Every worker has found the current stage exhausted.
    pub open spec fn all_complete(self) -> bool {
        forall|i: int| 0 <= i < self.workers.len() ==> (#[trigger] self.workers[i]).complete
    }

    /// The render is over: the last stage is exhausted.
    pub open spec fn finished(self) -> bool {
        self.stage == STAGES - 1 && self.all_complete()
    }

    /// What each worker counts as done.
    pub open spec fn dones(self) -> Seq<int> {
        Seq::new(self.workers.len(), |i: int| self.workers[i].done())
    }

    /// The sum of what the workers count as done.
    pub open spec fn done(self) -> int {
        sum_first(self.dones(), self.workers.len() as int)
    }

    /// As many times the number of pixels of all stages as there are
    /// workers.
    pub open spec fn total(self) -> int {
        self.workers.len() * total_pixels(self.size)
    }

    /// How far the render has come: the mean over the workers of the share
    /// of all pixels that each counts as done, as one fraction.
    pub open spec fn progress(self) -> Progress {
        Progress { done: self.done() as u128, total: self.total() as u128 }
    }

    /// What each worker has left to do in the current stage.
    pub open spec fn works_left(self) -> Seq<int> {
        Seq::new(self.workers.len(), |i: int| self.workers[i].work_left())
    }

    /// A bound on the steps that the render has left: what the workers have
    /// left to do in the current stage, and the steps of the stages after
    /// it.
    pub open spec fn work_left(self) -> int {
        sum_first(self.works_left(), self.workers.len() as int) + cost_after(
            self.size,
            self.workers.len() as int,
            self.stage as int,
        )
    }

    /// Every pixel that a worker has stored in the current stage is opaque.
    pub open spec fn stored_opaque(self) -> bool {
        forall|i: int| 0 <= i < self.workers.len() ==> (#[trigger] self.workers[i]).stored_opaque()
    }

    /// The renderer with worker `id` replaced.
    pub open spec fn with_worker(self, id: int, w: WorkerView) -> RendererView {
        RendererView { workers: self.workers.update(id, w), ..self }
    }

    /// The image from which a frame starts. The first stage starts from a
    /// transparent image, and so does every stage where the image handed in
    /// has not the stage's length; otherwise the frame starts from the image
    /// handed in.
    pub open spec fn base(self, image: Seq<RGB>) -> Seq<RGB> {
        if self.stage == 0 || image.len() != self.pixels() {
            Seq::new(self.pixels() as nat, |p: int| RGB::transparent())
        } else {
            image
        }
    }

    /// `image` with every pixel that its owner has stored taken from the
    /// owner's buffer.
    pub open spec fn merged(self, image: Seq<RGB>) -> Seq<RGB> {
        Seq::new(
            image.len(),
            |p: int|
                {
                    let w = self.workers[batch_owner(self.workers.len() as int, p)];
                    if w.holds(p) {
                        w.buffer()[buffer_index(self.workers.len() as int, p)]
                    } else {
                        image[p]
                    }
                },
        )
    }

    /// `image` with the stored pixels of the first `count` workers.
    spec fn merged_first(self, image: Seq<RGB>, count: int) -> Seq<RGB> {
        Seq::new(
            image.len(),
            |p: int|
                {
                    let w = self.workers[batch_owner(self.workers.len() as int, p)];
                    if w.id < count && w.holds(p) {
                        w.buffer()[buffer_index(self.workers.len() as int, p)]
                    } else {
                        image[p]
                    }
                },
        )
    }

    /// The image of the current stage as far as it is known.
    pub open spec fn frame(self, image: Seq<RGB>) -> Seq<RGB> {
        self.merged(self.base(image))
    }

    /// Whether an update moves on to the next stage: there is one, and every
    /// worker has found the current one exhausted.
    pub open spec fn advances(self) -> bool {
        self.stage < STAGES - 1 && self.all_complete()
    }

    /// The renderer at the start of the next stage.
    pub open spec fn advanced(self) -> RendererView {
        RendererView {
            stage: (self.stage + 1) as usize,
            workers: Seq::new(
                self.workers.len(),
                |i: int| self.workers[i].at_stage((self.stage + 1) as usize),
            ),
            ..self
        }
    }

    /// The renderer after an update.
    pub open spec fn after_update(self) -> RendererView {
        if self.advances() {
            self.advanced()
        } else {
            self
        }
    }

    /// The image that an update leaves: the frame of the current stage; or,
    /// where the update moves on to the next stage, that frame resampled to
    /// the dimensions of the next stage.
    pub open spec fn picture(self, image: Seq<RGB>) -> Seq<RGB> {
        if self.advances() {
            resampled(
                self.frame(image),
                stage_dimensions(self.size, self.stage as int),
                stage_dimensions(self.size, self.stage + 1),
            )
        } else {
            self.frame(image)
        }
    }

    /// The renderer after it was given a viewport and a region: unchanged
    /// where both are what they were; otherwise at the first stage of the
    /// new viewport, with every worker reset. A worker that has been told
    /// to stop stays so.
    pub open spec fn resized(self, size: Size, focus: Focus) -> RendererView {
        if size == self.size && focus == self.focus {
            self
        } else {
            RendererView {
                stage: 0,
                size: size,
                focus: focus,
                workers: Seq::new(
                    self.workers.len(),
                    |i: int| self.workers[i].resized(size, focus),
                ),
            }
        }
    }

    /// The renderer after every worker was told to stop.
    pub open spec fn stopped(self) -> RendererView {
        RendererView {
            workers: Seq::new(
                self.workers.len(),
                |i: int|
                    WorkerView {
                        input: Input { quit: true, ..self.workers[i].input },
                        ..self.workers[i]
                    },
            ),
            ..self
        }
    }

    /// A renderer as `Renderer::with_workers` makes it.
    pub open spec fn initial(workers: int) -> RendererView {
        RendererView {
            stage: 0,
            size: Size { width: 0, height: 0 },
            focus: Focus { center_x: 0, center_y: 0, radius: 0 },
            workers: Seq::new(workers as nat, |i: int| WorkerView::initial(i, workers)),
        }
    }
}

/// The dimensions of a stage as a point.
pub open spec fn stage_dimensions(size: Size, stage: int) -> IPoint {
    IPoint { x: stage_width(size, stage) as usize, y: stage_height(size, stage) as usize }
}

impl View for Renderer {
    type V = RendererView;

    closed spec fn view(&self) -> RendererView {
        RendererView {
            stage: self.stage,
            size: self.size,
            focus: self.focus,
            workers: Seq::new(self.workers@.len(), |i: int| self.workers@[i]@),
        }
    }
}

/// The time in milliseconds for which an update of a pool without threads
/// lets the workers compute before it brings the image up to date.
pub const INLINE_BUDGET_MS: u128 = 30;

/// Tells whether a pool of `workers` workers runs on threads of its own. A
/// pool of one worker does not: its worker computes within the updates.
pub fn runs_on_threads(workers: usize) -> (threaded: bool)
    ensures
        threaded == (workers > 1),
{
    workers > 1
}

/// Tells whether an update that has computed for `elapsed_ms` milliseconds
/// has spent its time: it has once more than `INLINE_BUDGET_MS` are gone.
pub fn budget_spent(elapsed_ms: u128) -> (spent: bool)
    ensures
        spent == (elapsed_ms > INLINE_BUDGET_MS),
{
    elapsed_ms > INLINE_BUDGET_MS
}

/// A renderer stays in good order through a step that leaves it as many
/// workers, a stage and a viewport that it can have, and every worker in
/// good order and in step with it.
proof fn pool_stays_in_order(before: RendererView, after: RendererView)
    requires
        before.wf(),
        after.workers.len() == before.workers.len(),
        after.stage < STAGES,
        after.size.addressable(),
        forall|j: int|
            0 <= j < before.workers.len() && before.tracks(j) ==> #[trigger] after.tracks(j),
    ensures
        after.wf(),
{
    assert forall|j: int| 0 <= j < after.workers.len() implies #[trigger] after.tracks(j) by {
        assert(before.tracks(j));
    }
}

/// The largest pool whose workers can all be given a first batch.
pub open spec fn max_pool() -> int {
    usize::MAX as int / BATCH as int
}

/// The size of the pool for a machine that reports `reported` processors: a
/// worker for each processor, but at least one worker, and no more workers
/// than `max_pool()`.
pub open spec fn pool_size_for(reported: int) -> int {
    if reported < 1 {
        1
    } else if reported > max_pool() {
        max_pool()
    } else {
        reported
    }
}

/// Calls `num_cpus::get`, which gives the number of logical processors that
/// the process may use. Its documentation promises a number of at least one;
/// nothing else is claimed here.
#[verifier::external_body]
fn logical_processors() -> (n: usize)
    ensures
        n >= 1,
{
    num_cpus::get()
}

/// The size of the pool for a machine that reports `reported` processors.
pub fn pool_size(reported: usize) -> (n: usize)
    ensures
        n == pool_size_for(reported as int),
        1 <= n,
        n * BATCH <= usize::MAX,
{
    let most: usize = usize::MAX / BATCH;
    if reported < 1 {
        1
    } else if reported > most {
        most
    } else {
        reported
    }
}

impl Renderer {
    /// A renderer with a worker for each processor of the machine, and no
    /// viewport yet. How many workers that is depends on the machine; the
    /// renderer is as `with_workers` makes it for that number.
    pub fn new() -> (r: Self)
        ensures
            r@ == RendererView::initial(r@.workers.len() as int),
            1 <= r@.workers.len() <= max_pool(),
            r@.wf(),
            r@.stored_opaque(),
    {
        let workers: usize = pool_size(logical_processors());
        Renderer::with_workers(workers)
    }

    /// A renderer with a pool of `workers` workers and no viewport yet.
    pub fn with_workers(workers: usize) -> (r: Self)
        requires
            1 <= workers,
            workers * BATCH <= usize::MAX,
        ensures
            r@ == RendererView::initial(workers as int),
            r@.wf(),
            r@.stored_opaque(),
    {
        let mut pool: Vec<Worker> = Vec::new();
        let mut id: usize = 0;
        while id < workers
            invariant
                id <= workers,
                workers * BATCH <= usize::MAX,
                pool@.len() == id,
                forall|j: int|
                    0 <= j < id ==> (#[trigger] pool@[j])@ == WorkerView::initial(
                        j,
                        workers as int,
                    ) && pool@[j]@.wf(),
            decreases workers - id,
        {
            pool.push(Worker::new(id, workers));
            id += 1;
        }
        let r = Renderer {
            stage: 0,
            workers: pool,
            focus: Focus::new(0, 0, 0),
            size: Size::new(0, 0),
        };
        proof {
            assert(r@.workers =~= RendererView::initial(workers as int).workers);
            assert forall|i: int| 0 <= i < r@.workers.len() implies (
            #[trigger] r@.workers[i]).stored_opaque() by {
                fresh_worker_stores_nothing(r@.workers[i], 0, r@.size, r@.focus);
            }
        }
        r
    }

    /// The number of workers of the pool.
    pub fn worker_count(&self) -> (n: usize)
        ensures
            n == self@.workers.len(),
    {
        self.workers.len()
    }

    /// The stage that is being rendered.
    pub fn stage(&self) -> (stage: usize)
        ensures
            stage == self@.stage,
    {
        self.stage
    }

    /// The viewport.
    pub fn size(&self) -> (size: Size)
        ensures
            size == self@.size,
    {
        self.size
    }

    /// The region shown.
    pub fn focus(&self) -> (focus: Focus)
        ensures
            focus == self@.focus,
    {
        self.focus
    }

    /// Tells every worker to stop. Calling it again changes nothing, and
    /// nothing takes the order back.
    pub fn stop(&mut self)
        requires
            old(self)@.wf(),
        ensures
            final(self)@ == old(self)@.stopped(),
            final(self)@.wf(),
            final(self)@.done() == old(self)@.done(),
            final(self)@.total() == old(self)@.total(),
            final(self)@.stored_opaque() == old(self)@.stored_opaque(),
    {
        proof {
            progress_never_falls(old(self)@, 0, old(self)@.workers[0].ticket(), Seq::empty());
        }
        let n: usize = self.workers.len();
        let mut i: usize = 0;
        while i < n
            invariant
                i <= n,
                n == self.workers@.len(),
                n == old(self).workers@.len(),
                old(self)@.wf(),
                self.stage == old(self).stage,
                self.size == old(self).size,
                self.focus == old(self).focus,
                forall|j: int|
                    0 <= j < i ==> (#[trigger] self.workers@[j])@ == old(
                        self,
                    )@.stopped().workers[j],
                forall|j: int|
                    i <= j < n ==> #[trigger] self.workers@[j] == old(self).workers@[j],
            decreases n - i,
        {
            self.workers[i].stop();
            i += 1;
        }
        proof {
            assert(self@.workers =~= old(self)@.stopped().workers);
            pool_stays_in_order(old(self)@, self@);
            stop_keeps_stored(old(self)@);
        }
    }

    /// Gives the renderer a viewport and a region to show. Where both are
    /// what they were, nothing changes; otherwise the render starts again at
    /// the first stage, and every worker is reset.
    pub fn resize(&mut self, size: Size, focus: Focus)
        requires
            old(self)@.wf(),
            size.addressable(),
        ensures
            final(self)@ == old(self)@.resized(size, focus),
            final(self)@.wf(),
            size == old(self)@.size && focus == old(self)@.focus ==> *final(self) == *old(self),
            size != old(self)@.size || focus != old(self)@.focus ==> final(self)@.stored_opaque(),
            forall|i: int|
                0 <= i < old(self)@.workers.len() ==> (
                #[trigger] final(self)@.workers[i]).input.quit
                    == old(self)@.workers[i].input.quit,
    {
        if size != self.size || focus != self.focus {
            self.stage = 0;
            self.size = size;
            self.focus = focus;
            let n: usize = self.workers.len();
            let mut i: usize = 0;
            while i < n
                invariant
                    i <= n,
                    n == self.workers@.len(),
                    n == old(self).workers@.len(),
                    old(self)@.wf(),
                    size.addressable(),
                    self.stage == 0,
                    self.size == size,
                    self.focus == focus,
                    forall|j: int|
                        0 <= j < i ==> (#[trigger] self.workers@[j])@ == old(
                            self,
                        )@.workers[j].resized(size, focus) && self.workers@[j]@.wf(),
                    forall|j: int|
                        i <= j < n ==> #[trigger] self.workers@[j] == old(self).workers@[j],
                decreases n - i,
            {
                assert(old(self)@.tracks(i as int));
                self.workers[i].resize(size, focus);
                i += 1;
            }
            proof {
                assert(self@.workers =~= old(self)@.resized(size, focus).workers);
                pool_stays_in_order(old(self)@, self@);
                assert forall|j: int| 0 <= j < self@.workers.len() implies (
                #[trigger] self@.workers[j]).stored_opaque() by {
                    fresh_worker_stores_nothing(old(self)@.workers[j], 0, size, focus);
                }
            }
        }
    }

    /// Asks for work on behalf of worker `id`.
    pub fn claim(&mut self, id: usize) -> (c: Claim)
        requires
            old(self)@.wf(),
            id < old(self)@.workers.len(),
        ensures
            c == old(self)@.workers[id as int].claim(),
            final(self)@ == old(self)@.with_worker(
                id as int,
                old(self)@.workers[id as int].after_claim(),
            ),
            final(self)@.wf(),
            final(self)@.done() >= old(self)@.done(),
            final(self)@.total() == old(self)@.total(),
            old(self)@.stored_opaque() ==> final(self)@.stored_opaque(),
            c matches Claim::Batch(t) ==> t.wf(),
    {
        proof {
            progress_never_falls(
                old(self)@,
                id as int,
                old(self)@.workers[id as int].ticket(),
                Seq::empty(),
            );
        }
        assert(old(self)@.tracks(id as int));
        let c: Claim = self.workers[id].claim();
        proof {
            assert(self@.workers =~= old(self)@.workers.update(
                id as int,
                old(self)@.workers[id as int].after_claim(),
            ));
            pool_stays_in_order(old(self)@, self@);
            if old(self)@.stored_opaque() {
                stored_pixels_stay_opaque(
                    old(self)@.workers[id as int],
                    old(self)@.workers[id as int].ticket(),
                    Seq::new(BATCH as nat, |k: int| RGB::black()),
                );
            }
        }
        c
    }

    /// Hands in a batch that was computed on `ticket` for worker `id`. The
    /// result tells whether the batch was stored.
    pub fn commit(&mut self, id: usize, ticket: &Ticket, pixels: &[RGB; BATCH]) -> (stored: bool)
        requires
            old(self)@.wf(),
            id < old(self)@.workers.len(),
        ensures
            stored == old(self)@.workers[id as int].accepts(*ticket),
            final(self)@ == old(self)@.with_worker(
                id as int,
                old(self)@.workers[id as int].after_commit(*ticket, pixels@),
            ),
            final(self)@.wf(),
            final(self)@.done() >= old(self)@.done(),
            final(self)@.total() == old(self)@.total(),
            old(self)@.stored_opaque() && all_opaque(pixels@) ==> final(self)@.stored_opaque(),
    {
        proof {
            progress_never_falls(old(self)@, id as int, *ticket, pixels@);
        }
        assert(old(self)@.tracks(id as int));
        let stored: bool = self.workers[id].commit(ticket, pixels);
        proof {
            assert(self@.workers =~= old(self)@.workers.update(
                id as int,
                old(self)@.workers[id as int].after_commit(*ticket, pixels@),
            ));
            pool_stays_in_order(old(self)@, self@);
            if old(self)@.stored_opaque() && all_opaque(pixels@) {
                stored_pixels_stay_opaque(old(self)@.workers[id as int], *ticket, pixels@);
            }
        }
        stored
    }

    /// Copies what every worker has stored into `image`, which has the
    /// length of the current stage.
    fn merge(&self, image: &mut Vec<RGB>)
        requires
            self@.wf(),
            old(image)@.len() == self@.pixels(),
        ensures
            final(image)@ == self@.merged(old(image)@),
    {
        let ghost view = self@;
        let ghost base = image@;
        let n: usize = self.workers.len();
        let mut i: usize = 0;
        assert(image@ =~= view.merged_first(base, 0)) by {
            assert forall|p: int| 0 <= p < base.len() implies 0 <= (
            #[trigger] view.workers[batch_owner(n as int, p)]).id by {
                batches_partition_pixels(n as int, p);
                assert(view.tracks(batch_owner(n as int, p)));
            }
        }
        while i < n
            invariant
                i <= n,
                n == self.workers@.len(),
                view == self@,
                view.wf(),
                base.len() == view.pixels(),
                image@ == view.merged_first(base, i as int),
            decreases n - i,
        {
            let ghost before = image@;
            assert(view.tracks(i as int));
            self.workers[i].populate_image(image);
            i += 1;
            assert(image@ =~= view.merged_first(base, i as int)) by {
                assert forall|p: int| 0 <= p < base.len() implies image@[p] == view.merged_first(
                    base,
                    i as int,
                )[p] by {
                    batches_partition_pixels(n as int, p);
                    assert(view.tracks(batch_owner(n as int, p)));
                }
            }
        }
        assert(image@ =~= view.merged(base)) by {
            assert forall|p: int| 0 <= p < base.len() implies image@[p] == view.merged(base)[p] by {
                batches_partition_pixels(n as int, p);
                assert(view.tracks(batch_owner(n as int, p)));
            }
        }
    }

    /// Adds up what the workers count as done, and tells whether every
    /// worker has found the current stage exhausted.
    fn survey(&self) -> (r: (bool, Progress))
        requires
            self@.wf(),
        ensures
            r.0 == self@.all_complete(),
            r.1 == self@.progress(),
            r.1.wf(),
    {
        let ghost view = self@;
        let ghost each = total_pixels(view.size);
        let n: usize = self.workers.len();
        let mut complete_count: usize = 0;
        let mut done: u128 = 0;
        let mut total: u128 = 0;
        let mut i: usize = 0;
        proof {
            pixels_before_bounds(view.size, 0);
            assert(view.size.pixels() <= 0xffff_ffff * 0xffff_ffff) by (nonlinear_arith)
                requires
                    view.size.pixels() == view.size.width * view.size.height,
                    view.size.width <= 0xffff_ffff,
                    view.size.height <= 0xffff_ffff,
            ;
        }
        while i < n
            invariant
                i <= n,
                n == self.workers@.len(),
                n * BATCH <= usize::MAX,
                view == self@,
                view.wf(),
                each == total_pixels(view.size),
                0 <= each <= 4 * (0xffff_ffff * 0xffff_ffff),
                done == sum_first(view.dones(), i as int),
                total == i * each,
                done <= total,
                complete_count <= i,
                (complete_count == i) == (forall|j: int|
                    0 <= j < i ==> (#[trigger] view.workers[j]).complete),
            decreases n - i,
        {
            assert(view.tracks(i as int));
            proof {
                lemma_mul_upper_bound(
                    i as int + 1,
                    0x400_0000_0000_0000,
                    each,
                    4 * (0xffff_ffff * 0xffff_ffff) as int,
                );
                assert((i + 1) * each == i * each + each) by (nonlinear_arith);
            }
            let status: (bool, Progress) = self.workers[i].status(self.stage);
            done = done + status.1.done;
            total = total + status.1.total;
            if status.0 {
                complete_count = complete_count + 1;
            }
            i += 1;
        }
        (complete_count == n, Progress { done: done, total: total })
    }

    /// Brings the image up to date and tells how far the render has come.
    ///
    /// The image is made the frame of the current stage: what the workers
    /// have stored, over what the image held before, or over a transparent
    /// image at the first stage and wherever the image had not the stage's
    /// length. If every worker has then exhausted the stage and a finer one
    /// is left, the renderer moves on to it: every worker starts the new
    /// stage, and the image is resampled to the new stage's dimensions.
    pub fn update(&mut self, image: &mut Vec<RGB>) -> (res: RendererResult)
        requires
            old(self)@.wf(),
        ensures
            final(self)@ == old(self)@.after_update(),
            final(self)@.wf(),
            res.progress == old(self)@.progress(),
            res.progress.wf(),
            old(self)@.finished() ==> res.progress.complete(),
            final(self)@.done() >= old(self)@.done(),
            final(self)@.total() == old(self)@.total(),
            res.image_size == stage_dimensions(final(self)@.size, final(self)@.stage as int),
            final(image)@ == old(self)@.picture(old(image)@),
            old(self)@.stored_opaque() ==> final(self)@.stored_opaque(),
            old(self)@.finished() && old(self)@.stored_opaque() ==> all_opaque(final(image)@),
    {
        let ghost view = self@;
        proof {
            stage_sizes_grow(self.size, self.stage as int, self.stage as int);
            render_comes_to_an_end(view, 0, Seq::empty());
            progress_never_falls(view, 0, view.workers[0].ticket(), Seq::empty());
        }
        let old_size: IPoint = stage_size(&self.size, self.stage);
        let pixels: usize = old_size.x * old_size.y;
        if self.stage == 0 || image.len() != pixels {
            *image = transparent_image(pixels);
        }
        self.merge(image);
        let survey: (bool, Progress) = self.survey();
        let mut size: IPoint = old_size;
        if self.stage < STAGES - 1 && survey.0 {
            self.stage = self.stage + 1;
            let stage: usize = self.stage;
            let n: usize = self.workers.len();
            let mut i: usize = 0;
            while i < n
                invariant
                    i <= n,
                    n == self.workers@.len(),
                    n == old(self).workers@.len(),
                    view == old(self)@,
                    view.wf(),
                    stage == view.stage + 1,
                    stage < STAGES,
                    self.stage == stage,
                    self.size == view.size,
                    self.focus == view.focus,
                    forall|j: int|
                        0 <= j < i ==> (#[trigger] self.workers@[j])@ == view.workers[j].at_stage(
                            stage,
                        ) && self.workers@[j]@.wf(),
                    forall|j: int|
                        i <= j < n ==> #[trigger] self.workers@[j] == old(self).workers@[j],
                decreases n - i,
            {
                assert(view.tracks(i as int));
                self.workers[i].set_stage(stage);
                i += 1;
            }
            proof {
                assert(self@.workers =~= view.advanced().workers);
                pool_stays_in_order(view, self@);
                assert forall|j: int| 0 <= j < self@.workers.len() implies (
                #[trigger] self@.workers[j]).stored_opaque() by {
                    fresh_worker_stores_nothing(view.workers[j], stage, self.size, self.focus);
                }
                stage_sizes_grow(self.size, stage as int, stage as int);
            }
            size = stage_size(&self.size, self.stage);
            let mut next: Vec<RGB> = Vec::new();
            RGB::resize_image(image.as_slice(), &old_size, &mut next, &size);
            *image = next;
        }
        proof {
            if view.finished() && view.stored_opaque() {
                assert forall|p: int| 0 <= p < image@.len() implies (#[trigger] image@[p]).a
                    != 0 by {
                    exhausted_frame_is_opaque(view, old(image)@, p);
                }
            }
        }
        RendererResult { image_size: size, progress: survey.1 }
    }
}

/// The order to stop changes nothing of what the workers have stored.
proof fn stop_keeps_stored(r: RendererView)
    ensures
        r.stopped().stored_opaque() == r.stored_opaque(),
{
    if r.stored_opaque() {
        assert forall|i: int| 0 <= i < r.workers.len() implies (
        #[trigger] r.stopped().workers[i]).stored_opaque() by {
            assert(r.workers[i].stored_opaque());
            assert(r.stopped().workers[i].buffer() == r.workers[i].buffer());
        }
    }
    if r.stopped().stored_opaque() {
        assert forall|i: int| 0 <= i < r.workers.len() implies (
        #[trigger] r.workers[i]).stored_opaque() by {
            assert(r.stopped().workers[i].stored_opaque());
            assert(r.stopped().workers[i].buffer() == r.workers[i].buffer());
        }
    }
}

/// Progress never falls but by a resize. What the workers count as done is
/// never negative and never more than there is, and no other step lowers it:
/// not a worker's asking for work, not the handing in of a batch, whatever
/// the ticket and the pixels, not an update, and not the order to stop. None
/// of these steps changes the total either.
pub proof fn progress_never_falls(r: RendererView, id: int, ticket: Ticket, pixels: Seq<RGB>)
    requires
        r.wf(),
        0 <= id < r.workers.len(),
    ensures
        0 <= r.done() <= r.total(),
        r.with_worker(id, r.workers[id].after_claim()).done() >= r.done(),
        r.with_worker(id, r.workers[id].after_claim()).total() == r.total(),
        r.with_worker(id, r.workers[id].after_commit(ticket, pixels)).done() >= r.done(),
        r.with_worker(id, r.workers[id].after_commit(ticket, pixels)).total() == r.total(),
        r.after_update().done() >= r.done(),
        r.after_update().total() == r.total(),
        r.stopped().done() == r.done(),
        r.stopped().total() == r.total(),
{
    let n = r.workers.len() as int;
    assert forall|i: int| 0 <= i < n implies 0 <= #[trigger] r.dones()[i] <= total_pixels(
        r.size,
    ) by {
        assert(r.tracks(i));
        steps_keep_progress(r.workers[i], ticket, pixels);
    }
    sum_first_bounds(r.dones(), n, 0, total_pixels(r.size));
    assert(r.tracks(id));
    steps_keep_progress(r.workers[id], ticket, pixels);
    let claimed = r.with_worker(id, r.workers[id].after_claim());
    assert(claimed.dones() =~= r.dones().update(id, r.workers[id].after_claim().done()));
    sum_first_update(r.dones(), n, id, r.workers[id].after_claim().done());
    let stored = r.with_worker(id, r.workers[id].after_commit(ticket, pixels));
    assert(stored.dones() =~= r.dones().update(
        id,
        r.workers[id].after_commit(ticket, pixels).done(),
    ));
    sum_first_update(r.dones(), n, id, r.workers[id].after_commit(ticket, pixels).done());
    assert(r.stopped().dones() =~= r.dones());
    if r.advances() {
        assert forall|i: int| 0 <= i < n implies #[trigger] r.dones()[i]
            <= r.advanced().dones()[i] by {
            assert(r.tracks(i));
            next_stage_keeps_progress(r.workers[i]);
        }
        sum_first_ordered(r.dones(), r.advanced().dones(), n);
    }
}

/// A render comes to an end. What the render has left to do is a natural
/// number, and it is zero exactly where the render is over, at which point
/// the progress is one. Until then a step can be taken that lowers it: where
/// every worker has found the stage exhausted, an update moves on to the
/// next stage; and a worker that has not found so, and has not been told to
/// stop, either finds so when it asks for work, or is handed a ticket, and
/// the batch it computes on the ticket is stored.
pub proof fn render_comes_to_an_end(r: RendererView, id: int, pixels: Seq<RGB>)
    requires
        r.wf(),
        0 <= id < r.workers.len(),
    ensures
        0 <= r.work_left(),
        r.work_left() == 0 <==> r.finished(),
        r.finished() ==> r.done() == r.total(),
        !r.finished() ==> r.advances() || exists|i: int|
            0 <= i < r.workers.len() && !(#[trigger] r.workers[i]).complete,
        r.advances() ==> r.after_update().work_left() < r.work_left(),
        !r.workers[id].input.quit && !r.workers[id].complete ==> if r.workers[id].claim()
            == Claim::Idle {
            r.with_worker(id, r.workers[id].after_claim()).work_left() < r.work_left()
        } else {
            &&& r.workers[id].claim() == Claim::Batch(r.workers[id].ticket())
            &&& r.workers[id].accepts(r.workers[id].ticket())
            &&& r.with_worker(
                id,
                r.workers[id].after_commit(r.workers[id].ticket(), pixels),
            ).work_left() < r.work_left()
        },
{
    let n = r.workers.len() as int;
    let w = r.workers[id];
    assert(r.tracks(id));
    cost_after_bounds(r.size, n, r.stage as int);
    assert forall|i: int| 0 <= i < n implies 0 <= #[trigger] r.works_left()[i] by {
        assert(r.tracks(i));
        steps_keep_progress(r.workers[i], w.ticket(), pixels);
    }
    sum_first_zero(r.works_left(), n);
    if !r.all_complete() {
        let i = choose|i: int| 0 <= i < n && !(#[trigger] r.workers[i]).complete;
        assert(r.works_left()[i] > 0);
    }
    if r.finished() {
        assert forall|i: int| 0 <= i < n implies #[trigger] r.dones()[i] == total_pixels(
            r.size,
        ) by {
            assert(r.tracks(i));
            exhausted_last_stage_is_done(r.workers[i]);
        }
        sum_first_bounds(r.dones(), n, total_pixels(r.size), total_pixels(r.size));
    }
    if r.advances() {
        let next = r.advanced();
        let pixels_next = stage_pixels(r.size, r.stage + 1);
        assert forall|i: int| 0 <= i < n implies 0 <= #[trigger] next.works_left()[i] <= 1
            + pixels_next by {
            assert(r.tracks(i));
            next_stage_keeps_progress(r.workers[i]);
        }
        sum_first_bounds(next.works_left(), n, 0, 1 + pixels_next);
    }
    if !w.input.quit && !w.complete {
        claim_leads_on(w, pixels);
        if w.claim() == Claim::Idle {
            let after = r.with_worker(id, w.after_claim());
            assert(after.works_left() =~= r.works_left().update(id, w.after_claim().work_left()));
            sum_first_update(r.works_left(), n, id, w.after_claim().work_left());
        } else {
            let after = r.with_worker(id, w.after_commit(w.ticket(), pixels));
            assert(after.works_left() =~= r.works_left().update(
                id,
                w.after_commit(w.ticket(), pixels).work_left(),
            ));
            sum_first_update(
                r.works_left(),
                n,
                id,
                w.after_commit(w.ticket(), pixels).work_left(),
            );
        }
    }
}

/// The steps of the stages after a stage are a natural number, and none are
/// left after the last stage.
pub proof fn cost_after_bounds(size: Size, workers: int, stage: int)
    requires
        1 <= workers,
        0 <= stage < STAGES,
    ensures
        0 <= cost_after(size, workers, stage),
        cost_after(size, workers, stage) == 0 <==> stage == STAGES - 1,
        stage + 1 < STAGES ==> cost_after(size, workers, stage) == stage_cost(
            size,
            workers,
            stage + 1,
        ) + cost_after(size, workers, stage + 1),
        stage + 1 < STAGES ==> stage_cost(size, workers, stage + 1) >= 1,
    decreases STAGES - stage,
{
    if stage + 1 < STAGES {
        cost_after_bounds(size, workers, stage + 1);
        stage_sizes_grow(size, stage + 1, stage + 1);
        assert(0 <= workers * (1 + stage_pixels(size, stage + 1))) by (nonlinear_arith)
            requires
                1 <= workers,
                0 <= stage_pixels(size, stage + 1),
        ;
    }
}

/// The frame of an exhausted stage is complete: every worker has stored
/// every pixel of the stage that is its own, so each pixel of the frame is
/// the one that its owner stored for it, and none is left from the image
/// that the frame started from.
pub proof fn exhausted_stage_is_covered(r: RendererView, image: Seq<RGB>, pixel: int)
    requires
        r.wf(),
        r.all_complete(),
        0 <= pixel < r.pixels(),
    ensures
        r.frame(image).len() == r.pixels(),
        0 <= batch_owner(r.workers.len() as int, pixel) < r.workers.len(),
        r.workers[batch_owner(r.workers.len() as int, pixel)].holds(pixel),
        r.frame(image)[pixel] == r.workers[batch_owner(
            r.workers.len() as int,
            pixel,
        )].buffer()[buffer_index(r.workers.len() as int, pixel)],
{
    let n = r.workers.len() as int;
    batches_partition_pixels(n, pixel);
    let owner = batch_owner(n, pixel);
    assert(r.tracks(owner));
    exhausted_worker_holds_its_pixels(r.workers[owner], pixel);
    stage_sizes_grow(r.size, r.stage as int, r.stage as int);
}

/// Where the workers have stored only opaque pixels, the frame of an
/// exhausted stage has no transparent pixel, whatever the image held that
/// the frame started from.
pub proof fn exhausted_frame_is_opaque(r: RendererView, image: Seq<RGB>, pixel: int)
    requires
        r.wf(),
        r.all_complete(),
        r.stored_opaque(),
        0 <= pixel < r.pixels(),
    ensures
        r.frame(image).len() == r.pixels(),
        r.frame(image)[pixel].a != 0,
{
    let n = r.workers.len() as int;
    exhausted_stage_is_covered(r, image, pixel);
    let owner = batch_owner(n, pixel);
    assert(r.tracks(owner));
    held_pixel_is_stored(r.workers[owner], pixel);
}

/// A batch that is stored shows in the frame, and changes nothing else
/// there. Where worker `id` hands in the batch `pixels` on the ticket for
/// its next batch, pixel `k` of the batch becomes the pixel of the frame
/// `k` places after the start of the batch, if the stage reaches that far;
/// and a pixel `other` of the frame outside the batch is what it was.
pub proof fn stored_batch_shows_in_frame(
    r: RendererView,
    id: int,
    pixels: Seq<RGB>,
    image: Seq<RGB>,
    k: int,
    other: int,
)
    requires
        r.wf(),
        0 <= id < r.workers.len(),
        r.workers[id].accepts(r.workers[id].ticket()),
        pixels.len() == BATCH,
    ensures
        0 <= k < BATCH && r.workers[id].next_start() + k < r.pixels() ==> r.with_worker(
            id,
            r.workers[id].after_commit(r.workers[id].ticket(), pixels),
        ).frame(image)[r.workers[id].next_start() + k] == pixels[k],
        0 <= other < r.pixels() && !(r.workers[id].next_start() <= other
            < r.workers[id].next_start() + BATCH) ==> r.with_worker(
            id,
            r.workers[id].after_commit(r.workers[id].ticket(), pixels),
        ).frame(image)[other] == r.frame(image)[other],
{
    let n = r.workers.len() as int;
    let w = r.workers[id];
    let after = r.with_worker(id, w.after_commit(w.ticket(), pixels));
    let p = w.next_start() + k;
    assert(r.tracks(id));
    stage_sizes_grow(r.size, r.stage as int, r.stage as int);
    next_start_bounded(n, id, w.round, r.pixels());
    batch_fits_buffer(n, id, w.round, r.pixels());
    if 0 <= k < BATCH && p < r.pixels() {
        batches_partition_pixels(n, p);
    }
    if 0 <= other < r.pixels() {
        batches_partition_pixels(n, other);
        let o = batch_owner(n, other);
        assert(r.tracks(o));
        if o == id && r.workers[o].holds(other) {
            held_pixel_is_stored(r.workers[o], other);
        }
    }
}

/// A resize that changes the viewport or the region starts the render
/// afresh: the frame of the renderer is transparent throughout, whatever the
/// image held, and no batch computed on a ticket from before the resize is
/// stored any more.
pub proof fn resize_starts_afresh(
    r: RendererView,
    size: Size,
    focus: Focus,
    image: Seq<RGB>,
    id: int,
)
    requires
        r.wf(),
        size.addressable(),
        size != r.size || focus != r.focus,
        0 <= id < r.workers.len(),
    ensures
        r.resized(size, focus).wf(),
        r.resized(size, focus).stage == 0,
        r.resized(size, focus).frame(image) == Seq::new(
            stage_pixels(size, 0) as nat,
            |p: int| RGB::transparent(),
        ),
        !r.resized(size, focus).workers[id].accepts(r.workers[id].ticket()),
{
    let n = r.workers.len() as int;
    let after = r.resized(size, focus);
    stage_sizes_grow(size, 0, 0);
    assert forall|i: int| 0 <= i < n implies #[trigger] after.tracks(i) by {
        assert(r.tracks(i));
        assert(0 <= stage_pixels(size, 0) / n) by (nonlinear_arith)
            requires
                0 <= stage_pixels(size, 0),
                0 < n,
        ;
    }
    assert(r.tracks(id));
    assert(after.frame(image) =~= Seq::new(
        stage_pixels(size, 0) as nat,
        |p: int| RGB::transparent(),
    )) by {
        assert forall|p: int| 0 <= p < stage_pixels(size, 0) implies after.frame(image)[p]
            == RGB::transparent() by {
            batches_partition_pixels(n, p);
            let o = batch_owner(n, p);
            assert(r.tracks(o));
        }
    }
}

} // verus!
