//! A worker: the state of one member of the pool, and the steps that change it.

use crate::image_utils::{all_opaque, transparent_image, IPoint, RGB};
use crate::progress::Progress;
use crate::stage::{
    batch_fits_buffer, batch_owner, batch_round, batch_start, batch_start_grows,
    batches_partition_pixels, buffer_index, next_start_bounded, pixels_before,
    pixels_before_bounds, stage_height, stage_pixels, stage_size, stage_sizes_grow, stage_width,
    total_pixels, BATCH, STAGES,
};
use crate::viewport::{Focus, Size};
use vstd::prelude::*;

verus! {

/// What a worker renders: the viewport, the stage, and whether to stop. The
/// order to stop is given once and stays: neither a new viewport nor a new
/// stage takes it back.
#[derive(Clone, Copy, Debug, PartialEq, Eq, Structural)]
pub struct Input {
    pub size: Size,
    pub focus: Focus,
    pub stage: usize,
    pub quit: bool,
}

impl Input {
    /// The input of a worker that has been given no viewport yet.
    pub fn new() -> (input: Self)
        ensures
            input == (Input {
                size: Size { width: 0, height: 0 },
                focus: Focus { center_x: 0, center_y: 0, radius: 0 },
                stage: 0,
                quit: false,
            }),
    {
        Input { size: Size::new(0, 0), focus: Focus::new(0, 0, 0), stage: 0, quit: false }
    }

    /// The input that follows this one for a new viewport and region: their
    /// first stage. The order to stop is kept as it was.
    pub fn resize(&self, size: Size, focus: Focus) -> (input: Self)
        ensures
            input == (Input { size: size, focus: focus, stage: 0, quit: self.quit }),
    {
        Input { size: size, focus: focus, stage: 0, quit: self.quit }
    }
}

/// The right to compute one batch: what the pixels of the batch depend on,
/// and where the batch belongs.
#[derive(Clone, Copy, Debug, PartialEq)]
pub struct Ticket {
    /// The viewport the batch was claimed for.
    pub size: Size,
    /// The region the batch was claimed for.
    pub focus: Focus,
    /// The stage the batch was claimed for.
    pub stage: usize,
    /// The dimensions of that stage.
    pub stage_size: IPoint,
    /// The round of the batch.
    pub round: usize,
    /// The flat index of the first pixel of the batch.
    pub start: usize,
}

impl Ticket {
    /// A ticket that `Worker::claim` hands out names pixels of a stage that
    /// is not empty.
    pub open spec fn wf(self) -> bool {
        &&& 0 < self.stage_size.x
        &&& self.start + BATCH <= usize::MAX
    }

    /// The position in the stage of pixel `k` of the batch: its column and
    /// its row. Where the batch runs past the end of the stage, the rows go
    /// on below it.
    pub fn pixel(&self, k: usize) -> (p: IPoint)
        requires
            self.wf(),
            k < BATCH,
        ensures
            p.x == (self.start + k) % (self.stage_size.x as int),
            p.y == (self.start + k) / (self.stage_size.x as int),
    {
        let index: usize = self.start + k;
        IPoint::new(index % self.stage_size.x, index / self.stage_size.x)
    }
}

/// What a worker finds when it asks for work.
#[derive(Clone, Copy, Debug, PartialEq)]
pub enum Claim {
    /// The worker has been told to stop.
    Quit,
    /// There is nothing left to do in this stage.
    Idle,
    /// The next batch is to be computed.
    Batch(Ticket),
}

/// The state of one worker.
pub struct Worker {
    id: usize,
    workers: usize,
    batch_idx: usize,
    complete: bool,
    input: Input,
    buffers: Vec<Vec<RGB>>,
}

/// The mathematical model of a worker.
pub struct WorkerView {
    /// The worker's number in the pool.
    pub id: int,
    /// The size of the pool.
    pub workers: int,
    /// The number of batches of the current stage that the worker has
    /// stored: the round of its next batch.
    pub round: int,
    /// Whether the worker has found the current stage exhausted.
    pub complete: bool,
    /// What the worker renders.
    pub input: Input,
    /// One buffer for each stage.
    pub buffers: Seq<Seq<RGB>>,
}

impl WorkerView {
    /// The number of pixels of the current stage.
    pub open spec fn pixels(self) -> int {
        stage_pixels(self.input.size, self.input.stage as int)
    }

    /// The buffer of the current stage.
    pub open spec fn buffer(self) -> Seq<RGB> {
        self.buffers[self.input.stage as int]
    }

    /// The length that the buffer of the current stage has: the worker's
    /// share of the stage's pixels, and one batch of slack.
    pub open spec fn buffer_length(self) -> int {
        self.pixels() / self.workers + BATCH
    }

    /// The flat index at which the worker's next batch starts.
    pub open spec fn next_start(self) -> int {
        batch_start(self.workers, self.id, self.round)
    }

    /// The invariant of a worker.
    pub open spec fn wf(self) -> bool {
        &&& 0 <= self.id < self.workers
        &&& self.workers * BATCH <= usize::MAX
        &&& self.input.stage < STAGES
        &&& self.input.size.addressable()
        &&& self.buffers.len() == STAGES
        &&& self.buffer().len() == self.buffer_length()
        &&& 0 <= self.round
        &&& self.round > 0 ==> batch_start(self.workers, self.id, self.round - 1) < self.pixels()
        &&& self.complete ==> self.next_start() >= self.pixels()
    }

    /// The ticket for the worker's next batch.
    pub open spec fn ticket(self) -> Ticket {
        Ticket {
            size: self.input.size,
            focus: self.input.focus,
            stage: self.input.stage,
            stage_size: IPoint {
                x: stage_width(self.input.size, self.input.stage as int) as usize,
                y: stage_height(self.input.size, self.input.stage as int) as usize,
            },
            round: self.round as usize,
            start: self.next_start() as usize,
        }
    }

    /// What the worker finds when it asks for work: it is to stop; or its
    /// stage is exhausted, because it has found so before or because its
    /// next batch would start past the stage's last pixel; or it is to
    /// compute its next batch.
    pub open spec fn claim(self) -> Claim {
        if self.input.quit {
            Claim::Quit
        } else if self.complete || self.next_start() >= self.pixels() {
            Claim::Idle
        } else {
            Claim::Batch(self.ticket())
        }
    }

    /// The worker after it asked for work: where it found its stage
    /// exhausted, it remembers that.
    pub open spec fn after_claim(self) -> WorkerView {
        if !self.input.quit && self.next_start() >= self.pixels() {
            WorkerView { complete: true, ..self }
        } else {
            self
        }
    }

    /// Whether a batch computed on `ticket` is still wanted: the ticket is
    /// for the viewport, region and stage that the worker renders now, and
    /// for its next batch, and that batch starts inside the stage.
    pub open spec fn accepts(self, ticket: Ticket) -> bool {
        &&& ticket.size == self.input.size
        &&& ticket.focus == self.input.focus
        &&& ticket.stage == self.input.stage
        &&& ticket.round == self.round
        &&& self.next_start() < self.pixels()
    }

    /// The worker after a batch computed on `ticket` was handed in: a batch
    /// that is still wanted is stored behind the batches before it, and the
    /// worker moves on to the next round; any other batch is dropped.
    pub open spec fn after_commit(self, ticket: Ticket, pixels: Seq<RGB>) -> WorkerView {
        if self.accepts(ticket) {
            WorkerView {
                round: self.round + 1,
                buffers: self.buffers.update(
                    self.input.stage as int,
                    Seq::new(
                        self.buffer().len(),
                        |i: int|
                            if self.round * BATCH <= i < (self.round + 1) * BATCH {
                                pixels[i - self.round * BATCH]
                            } else {
                                self.buffer()[i]
                            },
                    ),
                ),
                ..self
            }
        } else {
            self
        }
    }

    /// Whether the worker has stored the pixel with flat index `pixel`: the
    /// pixel is the worker's, and it lies in a round before the next one.
    pub open spec fn holds(self, pixel: int) -> bool {
        &&& batch_owner(self.workers, pixel) == self.id
        &&& batch_round(self.workers, pixel) < self.round
    }

    /// The image after the worker's stored batches were copied into it. Each
    /// pixel that the worker has stored takes its value from the worker's
    /// buffer; the others stay. An image that has not the length of the
    /// current stage stays as it is.
    pub open spec fn merged(self, image: Seq<RGB>) -> Seq<RGB> {
        if image.len() == self.pixels() {
            Seq::new(
                image.len(),
                |p: int|
                    if self.holds(p) {
                        self.buffer()[buffer_index(self.workers, p)]
                    } else {
                        image[p]
                    },
            )
        } else {
            image
        }
    }

    /// The image after the batches of the rounds before `round` were copied
    /// into it, and the pixels before `limit` of the batch of `round`.
    spec fn merged_until(self, image: Seq<RGB>, round: int, limit: int) -> Seq<RGB> {
        Seq::new(
            image.len(),
            |p: int|
                if batch_owner(self.workers, p) == self.id && (batch_round(self.workers, p) < round
                    || (batch_round(self.workers, p) == round && p < limit)) {
                    self.buffer()[buffer_index(self.workers, p)]
                } else {
                    image[p]
                },
        )
    }

    /// The worker's estimate of how many pixels of the current stage are
    /// done, over all workers: all of them once the worker has found the
    /// stage exhausted; before that, as many as all workers would have
    /// stored had each stored as many batches as this one, but no more than
    /// the stage has.
    pub open spec fn done_in_stage(self) -> int {
        if self.complete || self.round * BATCH * self.workers >= self.pixels() {
            self.pixels()
        } else {
            self.round * BATCH * self.workers
        }
    }

    /// The number of pixels that count as done: those of the stages below
    /// the current one, and the estimate for the current stage.
    pub open spec fn done(self) -> int {
        pixels_before(self.input.size, self.input.stage as int) + self.done_in_stage()
    }

    /// The number of pixels of all stages.
    pub open spec fn total(self) -> int {
        total_pixels(self.input.size)
    }

    /// Every pixel that the worker has stored in the current stage is
    /// opaque.
    pub open spec fn stored_opaque(self) -> bool {
        forall|i: int| 0 <= i < self.round * BATCH ==> (#[trigger] self.buffer()[i]).a != 0
    }

    /// A bound on the steps that the worker has left in its stage: none once
    /// it has found the stage exhausted; else one, to find that, and one
    /// more for each pixel from the start of its next batch to the end of
    /// the stage.
    pub open spec fn work_left(self) -> int {
        if self.complete {
            0
        } else if self.next_start() >= self.pixels() {
            1
        } else {
            1 + self.pixels() - self.next_start()
        }
    }

    /// A worker as `Worker::new` makes it.
    pub open spec fn initial(id: int, workers: int) -> WorkerView {
        WorkerView {
            id: id,
            workers: workers,
            round: 0,
            complete: false,
            input: Input {
                size: Size { width: 0, height: 0 },
                focus: Focus { center_x: 0, center_y: 0, radius: 0 },
                stage: 0,
                quit: false,
            },
            buffers: Seq::new(
                STAGES as nat,
                |s: int|
                    if s == 0 {
                        Seq::new(BATCH as nat, |i: int| RGB::transparent())
                    } else {
                        Seq::empty()
                    },
            ),
        }
    }

    /// The worker at the start of `stage`: nothing stored, the stage's
    /// buffer all transparent.
    pub open spec fn at_stage(self, stage: usize) -> WorkerView {
        let input = Input { stage: stage, ..self.input };
        let length = stage_pixels(input.size, stage as int) / self.workers + BATCH;
        WorkerView {
            round: 0,
            complete: false,
            input: input,
            buffers: self.buffers.update(
                stage as int,
                Seq::new(length as nat, |i: int| RGB::transparent()),
            ),
            ..self
        }
    }

    /// The worker after it was given a new viewport: at the start of the
    /// viewport's first stage. Whether it has been told to stop is as it
    /// was.
    pub open spec fn resized(self, size: Size, focus: Focus) -> WorkerView {
        (WorkerView {
            input: Input { size: size, focus: focus, stage: 0, quit: self.input.quit },
            ..self
        }).at_stage(0)
    }
}

impl View for Worker {
    type V = WorkerView;

    closed spec fn view(&self) -> WorkerView {
        WorkerView {
            id: self.id as int,
            workers: self.workers as int,
            round: self.batch_idx as int,
            complete: self.complete,
            input: self.input,
            buffers: Seq::new(self.buffers@.len(), |s: int| self.buffers@[s]@),
        }
    }
}

impl Worker {
    /// Worker `id` of a pool of `workers` workers, with no viewport yet.
    pub fn new(id: usize, workers: usize) -> (w: Self)
        requires
            id < workers,
            workers * BATCH <= usize::MAX,
        ensures
            w@ == WorkerView::initial(id as int, workers as int),
            w@.wf(),
    {
        let mut buffers: Vec<Vec<RGB>> = Vec::new();
        buffers.push(transparent_image(BATCH));
        let mut s: usize = 1;
        while s < STAGES
            invariant
                1 <= s <= STAGES,
                buffers@.len() == s,
                buffers@[0]@ == Seq::new(BATCH as nat, |i: int| RGB::transparent()),
                forall|t: int| 1 <= t < s ==> (#[trigger] buffers@[t])@ == Seq::<RGB>::empty(),
            decreases STAGES - s,
        {
            buffers.push(Vec::new());
            s += 1;
        }
        let w = Worker {
            id: id,
            workers: workers,
            batch_idx: 0,
            complete: false,
            input: Input::new(),
            buffers: buffers,
        };
        proof {
            assert(w@.buffers =~= WorkerView::initial(id as int, workers as int).buffers);
            crate::stage::stage_divisor_values();
            assert(stage_pixels(w@.input.size, 0) == 0);
        }
        w
    }

    /// The worker's number in the pool.
    pub fn id(&self) -> (id: usize)
        ensures
            id == self@.id,
    {
        self.id
    }

    /// What the worker renders.
    pub fn input(&self) -> (input: Input)
        ensures
            input == self@.input,
    {
        self.input
    }

    /// The number of batches of the current stage that the worker has stored.
    pub fn batch_idx(&self) -> (round: usize)
        ensures
            round == self@.round,
    {
        self.batch_idx
    }

    /// Whether the worker has found the current stage exhausted.
    pub fn is_complete(&self) -> (complete: bool)
        ensures
            complete == self@.complete,
    {
        self.complete
    }

    /// The dimensions of the current stage.
    pub fn current_size(&self) -> (r: IPoint)
        requires
            self@.wf(),
        ensures
            r.x == stage_width(self@.input.size, self@.input.stage as int),
            r.y == stage_height(self@.input.size, self@.input.stage as int),
            r.x * r.y == self@.pixels(),
            r.x * r.y + BATCH <= usize::MAX,
    {
        proof {
            stage_sizes_grow(self.input.size, self.input.stage as int, self.input.stage as int);
        }
        stage_size(&self.input.size, self.input.stage)
    }

    /// The length that the buffer of the current stage is to have.
    pub fn buffer_length(&self) -> (length: usize)
        requires
            self@.wf(),
        ensures
            length == self@.buffer_length(),
    {
        let size: IPoint = self.current_size();
        size.x * size.y / self.workers + BATCH
    }

    /// Makes the buffer of the current stage transparent, at its proper length.
    fn init_buffer(&mut self)
        requires
            0 < old(self).workers,
            old(self).input.stage < STAGES,
            old(self).input.size.addressable(),
            old(self).buffers@.len() == STAGES,
        ensures
            final(self)@ == (WorkerView {
                buffers: old(self)@.buffers.update(
                    old(self).input.stage as int,
                    Seq::new(
                        (old(self)@.pixels() / old(self)@.workers + BATCH) as nat,
                        |i: int| RGB::transparent(),
                    ),
                ),
                ..old(self)@
            }),
    {
        proof {
            stage_sizes_grow(self.input.size, self.input.stage as int, self.input.stage as int);
        }
        let size: IPoint = stage_size(&self.input.size, self.input.stage);
        let length: usize = size.x * size.y / self.workers + BATCH;
        let stage: usize = self.input.stage;
        self.buffers[stage] = transparent_image(length);
        assert(self@.buffers =~= old(self)@.buffers.update(
            stage as int,
            Seq::new(length as nat, |i: int| RGB::transparent()),
        ));
    }

    /// Tells the worker to stop.
    pub fn stop(&mut self)
        ensures
            final(self)@ == (WorkerView {
                input: Input { quit: true, ..old(self)@.input },
                ..old(self)@
            }),
            old(self)@.wf() ==> final(self)@.wf(),
    {
        self.input.quit = true;
    }

    /// Gives the worker a new viewport, to be rendered from its first stage.
    pub fn resize(&mut self, size: Size, focus: Focus)
        requires
            old(self)@.wf(),
            size.addressable(),
        ensures
            final(self)@ == old(self)@.resized(size, focus),
            final(self)@.input.quit == old(self)@.input.quit,
            final(self)@.wf(),
    {
        self.input = self.input.resize(size, focus);
        self.set_stage(0);
    }

    /// Moves the worker to the start of `stage`.
    pub fn set_stage(&mut self, stage: usize)
        requires
            0 <= old(self)@.id < old(self)@.workers,
            old(self)@.workers * BATCH <= usize::MAX,
            old(self)@.input.size.addressable(),
            old(self)@.buffers.len() == STAGES,
            stage < STAGES,
        ensures
            final(self)@ == old(self)@.at_stage(stage),
            final(self)@.wf(),
    {
        self.input.stage = stage;
        self.complete = false;
        self.batch_idx = 0;
        self.init_buffer();
        proof {
            let pixels = stage_pixels(self.input.size, stage as int);
            stage_sizes_grow(self.input.size, stage as int, stage as int);
            assert(0 <= pixels / (self.workers as int)) by (nonlinear_arith)
                requires
                    0 <= pixels,
                    0 < self.workers,
            ;
        }
    }

    /// The flat index at which the worker's next batch starts.
    fn next_start(&self) -> (start: u128)
        requires
            self@.wf(),
        ensures
            start == self@.next_start(),
            start <= (self@.pixels() + self@.workers) * BATCH,
    {
        proof {
            stage_sizes_grow(self.input.size, self.input.stage as int, self.input.stage as int);
            next_start_bounded(
                self.workers as int,
                self.id as int,
                self.batch_idx as int,
                self@.pixels(),
            );
        }
        ((self.workers as u128) * (self.batch_idx as u128) + (self.id as u128)) * (
        BATCH as u128)
    }

    /// Asks for work. A worker that is not told to stop and whose next batch
    /// would start past the last pixel of its stage marks the stage as
    /// exhausted; otherwise nothing changes.
    pub fn claim(&mut self) -> (c: Claim)
        requires
            old(self)@.wf(),
        ensures
            c == old(self)@.claim(),
            final(self)@ == old(self)@.after_claim(),
            final(self)@.wf(),
            c matches Claim::Batch(t) ==> t.wf(),
    {
        if self.input.quit {
            return Claim::Quit;
        }
        if self.complete {
            return Claim::Idle;
        }
        let size: IPoint = self.current_size();
        let pixels: usize = size.x * size.y;
        let start: u128 = self.next_start();
        if start >= pixels as u128 {
            self.complete = true;
            return Claim::Idle;
        }
        assert(0 < size.x) by (nonlinear_arith)
            requires
                0 <= start < size.x * size.y,
        ;
        Claim::Batch(
            Ticket {
                size: self.input.size,
                focus: self.input.focus,
                stage: self.input.stage,
                stage_size: size,
                round: self.batch_idx,
                start: start as usize,
            },
        )
    }

    /// Hands in a batch computed on `ticket`. It is stored if it is still
    /// wanted, and dropped if not; the result tells which.
    pub fn commit(&mut self, ticket: &Ticket, pixels: &[RGB; BATCH]) -> (stored: bool)
        requires
            old(self)@.wf(),
        ensures
            stored == old(self)@.accepts(*ticket),
            final(self)@ == old(self)@.after_commit(*ticket, pixels@),
            final(self)@.wf(),
    {
        if !(ticket.size == self.input.size && ticket.focus == self.input.focus && ticket.stage
            == self.input.stage && ticket.round == self.batch_idx) {
            return false;
        }
        let size: IPoint = self.current_size();
        let limit: usize = size.x * size.y;
        let start: u128 = self.next_start();
        if start >= limit as u128 {
            return false;
        }
        proof {
            batch_fits_buffer(
                self.workers as int,
                self.id as int,
                self.batch_idx as int,
                self@.pixels(),
            );
        }
        let stage: usize = self.input.stage;
        let at: usize = self.batch_idx * BATCH;
        store_batch(&mut self.buffers[stage], at, pixels);
        self.batch_idx = self.batch_idx + 1;
        proof {
            assert(self@.buffers =~= old(self)@.after_commit(*ticket, pixels@).buffers);
        }
        true
    }
}

impl Worker {
    /// Copies the batches that the worker has stored into `image`, each to
    /// the place of its pixels in the stage. An image that has not the
    /// length of the current stage is left as it is.
    pub fn populate_image(&self, image: &mut Vec<RGB>)
        requires
            self@.wf(),
        ensures
            final(image)@ == self@.merged(old(image)@),
    {
        let size: IPoint = self.current_size();
        let pixels: usize = size.x * size.y;
        if image.len() != pixels {
            return;
        }
        let stage: usize = self.input.stage;
        let ghost view = self@;
        let ghost before = image@;
        let mut round: usize = 0;
        assert(image@ =~= view.merged_until(before, 0, 0)) by {
            assert forall|q: int| 0 <= q < before.len() implies 0 <= batch_round(
                view.workers,
                q,
            ) by {
                batches_partition_pixels(view.workers, q);
            }
        }
        while round < self.batch_idx
            invariant
                view == self@,
                view.wf(),
                round <= self.batch_idx,
                stage == self.input.stage,
                pixels == view.pixels(),
                pixels + BATCH <= usize::MAX,
                image@.len() == pixels,
                before.len() == pixels,
                image@ == view.merged_until(before, round as int, 0),
            decreases self.batch_idx - round,
        {
            proof {
                if round + 1 < self.batch_idx {
                    batch_start_grows(
                        view.workers,
                        view.id,
                        round as int,
                        self.batch_idx as int - 1,
                    );
                }
                batch_fits_buffer(view.workers, view.id, round as int, view.pixels());
                assert(0 <= view.workers * round) by (nonlinear_arith)
                    requires
                        0 <= view.workers,
                        0 <= round,
                ;
            }
            let start: usize = (self.workers * round + self.id) * BATCH;
            let end: usize = if start + BATCH < pixels {
                start + BATCH
            } else {
                pixels
            };
            let at: usize = round * BATCH;
            let mut p: usize = start;
            assert(image@ =~= view.merged_until(before, round as int, start as int)) by {
                assert forall|q: int|
                    0 <= q < start && batch_owner(view.workers, q) == view.id implies batch_round(
                    view.workers,
                    q,
                ) != round by {
                    batches_partition_pixels(view.workers, q);
                }
            }
            while p < end
                invariant
                    view == self@,
                    view.wf(),
                    stage == self.input.stage,
                    start == batch_start(view.workers, view.id, round as int),
                    start <= p <= end,
                    end <= start + BATCH,
                    end <= pixels,
                    at == round * BATCH,
                    at + BATCH <= view.buffer().len(),
                    image@.len() == pixels,
                    before.len() == pixels,
                    image@ == view.merged_until(before, round as int, p as int),
                decreases end - p,
            {
                proof {
                    batches_partition_pixels(view.workers, p as int);
                }
                let value: RGB = self.buffers[stage][at + (p - start)];
                image[p] = value;
                p += 1;
            }
            round += 1;
            assert(image@ =~= view.merged_until(before, round as int, 0)) by {
                assert forall|q: int|
                    0 <= q < pixels && batch_owner(view.workers, q) == view.id && batch_round(
                        view.workers,
                        q,
                    ) == round - 1 implies q < end by {
                    batches_partition_pixels(view.workers, q);
                }
            }
        }
    }
}

impl Worker {
    /// Tells whether the worker has exhausted `stage`, and how far it has
    /// come with the whole render.
    pub fn status(&self, stage: usize) -> (r: (bool, Progress))
        requires
            self@.wf(),
        ensures
            r.0 == (self@.input.stage == stage && self@.complete),
            r.1.done == self@.done(),
            r.1.total == self@.total(),
            r.1.wf(),
    {
        let ghost view = self@;
        let current: usize = self.input.stage;
        let mut total: u128 = 0;
        let mut done: u128 = 0;
        let mut s: usize = 0;
        proof {
            assert(view.input.size.pixels() <= 0xffff_ffff * 0xffff_ffff) by (nonlinear_arith)
                requires
                    view.input.size.pixels() == view.input.size.width * view.input.size.height,
                    view.input.size.width <= 0xffff_ffff,
                    view.input.size.height <= 0xffff_ffff,
            ;
            pixels_before_bounds(view.input.size, 0);
        }
        while s < STAGES
            invariant
                view == self@,
                view.wf(),
                current == view.input.stage,
                s <= STAGES,
                view.input.size.pixels() <= 0xffff_ffff * 0xffff_ffff,
                total == pixels_before(view.input.size, s as int),
                total <= STAGES * view.input.size.pixels(),
                s < STAGES ==> total + stage_pixels(view.input.size, s as int) <= STAGES
                    * view.input.size.pixels(),
                s <= current ==> done == total,
                s > current ==> done == view.done(),
                done <= total,
            decreases STAGES - s,
        {
            proof {
                pixels_before_bounds(view.input.size, s as int);
                stage_sizes_grow(view.input.size, s as int, s as int);
            }
            let size: IPoint = stage_size(&self.input.size, s);
            let px: u128 = (size.x as u128) * (size.y as u128);
            total = total + px;
            if s < current {
                done = done + px;
            } else if s == current {
                if self.complete {
                    done = done + px;
                } else {
                    proof {
                        next_start_bounded(view.workers, view.id, view.round, view.pixels());
                    }
                    let spread: u128 = (self.batch_idx as u128) * (BATCH as u128) * (
                    self.workers as u128);
                    if spread < px {
                        done = done + spread;
                    } else {
                        done = done + px;
                    }
                }
            }
            s += 1;
            proof {
                if s < STAGES {
                    pixels_before_bounds(view.input.size, s as int);
                }
            }
        }
        (self.input.stage == stage && self.complete, Progress { done: done, total: total })
    }
}

/// A worker that has not been told to stop and has not found its stage
/// exhausted can take a step. Either its stage is exhausted and it finds
/// that; or it is handed the ticket for its next batch, and a batch
/// computed on that ticket is stored whatever its pixels are. Either way the
/// worker has less left to do afterwards.
pub proof fn claim_leads_on(w: WorkerView, pixels: Seq<RGB>)
    requires
        w.wf(),
        !w.input.quit,
        !w.complete,
    ensures
        w.claim() == Claim::Idle ==> w.after_claim().complete && w.after_claim().work_left()
            < w.work_left(),
        w.claim() != Claim::Idle ==> w.claim() == Claim::Batch(w.ticket()) && w.after_claim() == w
            && w.accepts(w.ticket()) && w.after_commit(w.ticket(), pixels).work_left()
            < w.work_left(),
{
    stage_sizes_grow(w.input.size, w.input.stage as int, w.input.stage as int);
    next_start_bounded(w.workers, w.id, w.round, w.pixels());
    if w.next_start() < w.pixels() {
        batch_fits_buffer(w.workers, w.id, w.round, w.pixels());
        batch_start_grows(w.workers, w.id, w.round, w.round + 1);
        assert(w.round <= w.workers * w.round) by (nonlinear_arith)
            requires
                1 <= w.workers,
                0 <= w.round,
        ;
    }
}

/// No step of a worker lowers what it counts as done, raises what it has
/// left to do, or breaks its invariant; and what it counts as done is never
/// more than there is.
pub proof fn steps_keep_progress(w: WorkerView, ticket: Ticket, pixels: Seq<RGB>)
    requires
        w.wf(),
    ensures
        0 <= w.done() <= w.total(),
        0 <= w.work_left(),
        w.after_claim().wf(),
        w.after_claim().done() >= w.done(),
        w.after_claim().work_left() <= w.work_left(),
        w.after_commit(ticket, pixels).wf(),
        w.after_commit(ticket, pixels).done() >= w.done(),
        w.after_commit(ticket, pixels).work_left() <= w.work_left(),
{
    stage_sizes_grow(w.input.size, w.input.stage as int, w.input.stage as int);
    pixels_before_bounds(w.input.size, w.input.stage as int);
    next_start_bounded(w.workers, w.id, w.round, w.pixels());
    assert(0 <= w.round * BATCH * w.workers) by (nonlinear_arith)
        requires
            0 <= w.round,
            0 <= w.workers,
    ;
    assert(w.round * BATCH * w.workers <= (w.round + 1) * BATCH * w.workers) by (nonlinear_arith)
        requires
            0 <= w.round,
            0 <= w.workers,
    ;
    if w.accepts(ticket) {
        batch_fits_buffer(w.workers, w.id, w.round, w.pixels());
        batch_start_grows(w.workers, w.id, w.round, w.round + 1);
    }
}

/// A worker that moves on to the next stage counts no less as done than
/// before, and has at most one step more left than the stage has pixels.
pub proof fn next_stage_keeps_progress(w: WorkerView)
    requires
        w.wf(),
        w.input.stage + 1 < STAGES,
    ensures
        w.at_stage((w.input.stage + 1) as usize).wf(),
        w.at_stage((w.input.stage + 1) as usize).done() >= w.done(),
        w.at_stage((w.input.stage + 1) as usize).total() == w.total(),
        0 <= w.at_stage((w.input.stage + 1) as usize).work_left() <= 1 + stage_pixels(
            w.input.size,
            w.input.stage + 1,
        ),
{
    let next = w.at_stage((w.input.stage + 1) as usize);
    stage_sizes_grow(w.input.size, w.input.stage as int, w.input.stage + 1);
    pixels_before_bounds(w.input.size, w.input.stage as int);
    pixels_before_bounds(w.input.size, w.input.stage + 1);
    assert(0 <= next.pixels() / next.workers) by (nonlinear_arith)
        requires
            0 <= next.pixels(),
            0 < next.workers,
    ;
    next_start_bounded(w.workers, w.id, w.round, w.pixels());
    next_start_bounded(next.workers, next.id, 0, next.pixels());
    assert(next.round * BATCH * next.workers == 0) by (nonlinear_arith)
        requires
            next.round == 0,
    ;
}

/// A worker that has found the last stage exhausted counts every pixel of
/// every stage as done.
pub proof fn exhausted_last_stage_is_done(w: WorkerView)
    requires
        w.wf(),
        w.complete,
        w.input.stage == STAGES - 1,
    ensures
        w.done() == w.total(),
{
    pixels_before_bounds(w.input.size, w.input.stage as int);
}

/// A pixel that a worker has stored lies in the stored part of its buffer.
pub proof fn held_pixel_is_stored(w: WorkerView, pixel: int)
    requires
        w.wf(),
        0 <= pixel,
        w.holds(pixel),
    ensures
        0 <= buffer_index(w.workers, pixel) < w.round * BATCH <= w.buffer().len(),
{
    batches_partition_pixels(w.workers, pixel);
    stage_sizes_grow(w.input.size, w.input.stage as int, w.input.stage as int);
    batch_fits_buffer(w.workers, w.id, w.round - 1, w.pixels());
}

/// A worker at the start of a stage has stored no pixel, so none that is
/// not opaque: at whatever stage it starts, and after whatever viewport and
/// region it was given.
pub proof fn fresh_worker_stores_nothing(w: WorkerView, stage: usize, size: Size, focus: Focus)
    ensures
        w.at_stage(stage).stored_opaque(),
        w.resized(size, focus).stored_opaque(),
        WorkerView::initial(w.id, w.workers).stored_opaque(),
{
    let batch = BATCH as int;
    assert(0 * batch == 0) by (nonlinear_arith);
}

/// A worker that is only ever handed opaque pixels stores only opaque
/// pixels: asking for work stores none, the order to stop stores none, and
/// a batch of opaque pixels adds only opaque ones.
pub proof fn stored_pixels_stay_opaque(w: WorkerView, ticket: Ticket, pixels: Seq<RGB>)
    requires
        w.wf(),
        w.stored_opaque(),
        pixels.len() == BATCH,
        all_opaque(pixels),
    ensures
        w.after_claim().stored_opaque(),
        w.after_commit(ticket, pixels).stored_opaque(),
        (WorkerView { input: Input { quit: true, ..w.input }, ..w }).stored_opaque(),
{
    let batch = BATCH as int;
    if w.stored_opaque() && w.accepts(ticket) {
        let after = w.after_commit(ticket, pixels);
        stage_sizes_grow(w.input.size, w.input.stage as int, w.input.stage as int);
        batch_fits_buffer(w.workers, w.id, w.round, w.pixels());
        assert(0 <= w.round * batch) by (nonlinear_arith)
            requires
                0 <= w.round,
                0 < batch,
        ;
        assert forall|i: int| 0 <= i < after.round * BATCH implies (
        #[trigger] after.buffer()[i]).a != 0 by {
            if i >= w.round * batch {
                assert(after.buffer()[i] == pixels[i - w.round * batch]);
            } else {
                assert(after.buffer()[i] == w.buffer()[i]);
            }
        }
    }
}

/// A worker that has found its stage exhausted has stored every pixel of the
/// stage that is its own.
pub proof fn exhausted_worker_holds_its_pixels(w: WorkerView, pixel: int)
    requires
        w.wf(),
        w.complete,
        0 <= pixel < w.pixels(),
        batch_owner(w.workers, pixel) == w.id,
    ensures
        w.holds(pixel),
{
    batches_partition_pixels(w.workers, pixel);
    let round = batch_round(w.workers, pixel);
    if round > w.round {
        batch_start_grows(w.workers, w.id, w.round, round);
    }
}

/// Writes a batch into a buffer, from index `at` on.
fn store_batch(buffer: &mut Vec<RGB>, at: usize, pixels: &[RGB; BATCH])
    requires
        at + BATCH <= old(buffer)@.len(),
    ensures
        final(buffer)@ == Seq::new(
            old(buffer)@.len(),
            |i: int|
                if at <= i < at + BATCH {
                    pixels@[i - at]
                } else {
                    old(buffer)@[i]
                },
        ),
{
    let length: usize = buffer.len();
    let mut k: usize = 0;
    while k < BATCH
        invariant
            k <= BATCH,
            at + BATCH <= length,
            length == buffer@.len(),
            buffer@ == Seq::new(
                old(buffer)@.len(),
                |i: int|
                    if at <= i < at + k {
                        pixels@[i - at]
                    } else {
                        old(buffer)@[i]
                    },
            ),
        decreases BATCH - k,
    {
        buffer[at + k] = pixels[k];
        k += 1;
        assert(buffer@ =~= Seq::new(
            old(buffer)@.len(),
            |i: int|
                if at <= i < at + k {
                    pixels@[i - at]
                } else {
                    old(buffer)@[i]
                },
        ));
    }
}

} // verus!
