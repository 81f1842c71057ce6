//! The counting side of the escape-time kernel: how long a point is
//! iterated, what the kernel reports of it, and the colour that follows.

use crate::image_utils::RGB;
use vstd::prelude::*;

verus! {

/// The outcome of iterating a point: the bound on the number of iterations,
/// the number of iterations run until the point escaped or the bound was
/// reached, and the squared magnitude reached, as the 64 bits of its IEEE 754
/// double precision encoding.
#[derive(Clone, Copy, Debug, PartialEq, Eq, Structural)]
pub struct ConvResult {
    pub max_iter: usize,
    pub iter: usize,
    pub norm_sqr: u64,
}

impl ConvResult {
    pub fn new(max_iter: usize, iter: usize, norm_sqr: u64) -> (res: Self)
        ensures
            res == (ConvResult { max_iter: max_iter, iter: iter, norm_sqr: norm_sqr }),
    {
        ConvResult { max_iter: max_iter, iter: iter, norm_sqr: norm_sqr }
    }

    /// The point escaped: the iteration stopped before its bound.
    pub open spec fn spec_escaped(&self) -> bool {
        self.iter != self.max_iter
    }

    /// Tells whether the point escaped.
    #[verifier::when_used_as_spec(spec_escaped)]
    pub fn escaped(&self) -> (b: bool)
        ensures
            b == self.spec_escaped(),
    {
        self.iter != self.max_iter
    }
}

/// The number of iterations that are run past the escape or the bound, for
/// the sake of smooth colours.
pub const EXTRA_ITER: usize = 5;

/// The count of the iterations of one point. The point is iterated until it
/// escapes or the bound on the iterations is reached, whichever comes
/// first, and then `EXTRA_ITER` times more. With a bound of zero no
/// iteration is counted, and only the `EXTRA_ITER` are run.
#[derive(Clone, Copy, Debug, PartialEq, Eq, Structural)]
pub struct EscapeCounter {
    /// The bound on the iterations.
    pub max_iter: usize,
    /// The iterations counted until the escape or the bound.
    pub iter: usize,
    /// Zero until the escape or the bound; from then on one more than the
    /// number of iterations run since.
    pub terminate_iter: usize,
}

impl EscapeCounter {
    /// The number of iterations at which a point that never escapes stops
    /// being counted: the bound.
    pub open spec fn limit(self) -> int {
        self.max_iter as int
    }

    /// The invariant of a counter: while it counts, the count is below the
    /// bound; afterwards it is at most the bound.
    pub open spec fn wf(self) -> bool {
        if self.terminate_iter == 0 {
            self.iter < self.max_iter
        } else {
            self.iter <= self.max_iter && self.terminate_iter <= EXTRA_ITER + 1
        }
    }

    /// The counter at the start of a run of at most `max_iter` counted
    /// iterations. Where the bound is zero it is met before the first
    /// iteration, and the counter starts past the counting.
    pub open spec fn start(max_iter: usize) -> EscapeCounter {
        EscapeCounter {
            max_iter: max_iter,
            iter: 0,
            terminate_iter: if max_iter == 0 {
                1
            } else {
                0
            },
        }
    }

    /// The run is over.
    pub open spec fn ended(self) -> bool {
        self.terminate_iter > EXTRA_ITER
    }

    /// The counter after one more iteration, after which the point has
    /// escaped or not. A run that is over stays as it is.
    pub open spec fn next(self, escaped: bool) -> EscapeCounter {
        if self.ended() {
            self
        } else if self.terminate_iter == 0 {
            EscapeCounter {
                iter: (self.iter + 1) as usize,
                terminate_iter: if self.iter + 1 >= self.max_iter || escaped {
                    1
                } else {
                    0
                },
                ..self
            }
        } else {
            EscapeCounter { terminate_iter: (self.terminate_iter + 1) as usize, ..self }
        }
    }

    /// The number of iterations that the run has left at most.
    pub open spec fn steps_left(self) -> int {
        if self.terminate_iter == 0 {
            self.limit() - self.iter + EXTRA_ITER
        } else {
            EXTRA_ITER + 1 - self.terminate_iter
        }
    }

    /// No escape has cut the count short: the count is still running, or
    /// it stopped at the bound.
    pub open spec fn on_course(self) -> bool {
        self.terminate_iter == 0 || self.iter == self.limit()
    }

    /// A counter for a run of at most `max_iter` counted iterations.
    pub fn new(max_iter: usize) -> (counter: Self)
        ensures
            counter == Self::start(max_iter),
            counter.wf(),
            counter.on_course(),
    {
        let terminate_iter: usize = if max_iter == 0 {
            1
        } else {
            0
        };
        EscapeCounter { max_iter: max_iter, iter: 0, terminate_iter: terminate_iter }
    }

    /// Counts one iteration, after which the point has escaped or not, and
    /// tells whether the run is over.
    pub fn advance(&mut self, escaped: bool) -> (ended: bool)
        requires
            old(self).wf(),
        ensures
            *final(self) == old(self).next(escaped),
            ended == final(self).ended(),
            final(self).wf(),
    {
        if self.terminate_iter > EXTRA_ITER {
            return true;
        }
        if self.terminate_iter == 0 {
            self.iter = self.iter + 1;
            if self.iter >= self.max_iter || escaped {
                self.terminate_iter = 1;
            }
        } else {
            self.terminate_iter = self.terminate_iter + 1;
        }
        self.terminate_iter > EXTRA_ITER
    }

    /// What the kernel reports of the point, with the squared magnitude
    /// that it has reached.
    pub fn result(&self, norm_sqr: u64) -> (res: ConvResult)
        ensures
            res == (ConvResult { max_iter: self.max_iter, iter: self.iter, norm_sqr: norm_sqr }),
    {
        ConvResult { max_iter: self.max_iter, iter: self.iter, norm_sqr: norm_sqr }
    }
}

/// Every run ends. What a run has left is a natural number, it is zero
/// exactly where the run is over, and every iteration before that lowers
/// it; so a run takes no more iterations than its bound and `EXTRA_ITER`
/// together.
pub proof fn run_ends(counter: EscapeCounter, escaped: bool)
    requires
        counter.wf(),
    ensures
        0 <= counter.steps_left() <= counter.limit() + EXTRA_ITER,
        EscapeCounter::start(counter.max_iter).steps_left() == counter.limit() + EXTRA_ITER,
        counter.steps_left() == 0 <==> counter.ended(),
        counter.next(escaped).wf(),
        !counter.ended() ==> counter.next(escaped).steps_left() < counter.steps_left(),
{
}

/// A point that never escapes is counted up to the bound, whatever the
/// bound. A run starts on course; while no iteration leaves the point
/// escaped the counter stays on course; and a run that ends on course has
/// counted exactly as many iterations as the bound allows, so that its
/// result does not count as escaped.
pub proof fn quiet_run_reaches_bound(counter: EscapeCounter, norm_sqr: u64)
    requires
        counter.wf(),
        counter.on_course(),
    ensures
        EscapeCounter::start(counter.max_iter).on_course(),
        counter.next(false).on_course(),
        counter.ended() ==> counter.iter == counter.max_iter,
        counter.ended() ==> !(ConvResult {
            max_iter: counter.max_iter,
            iter: counter.iter,
            norm_sqr: norm_sqr,
        }).escaped(),
{
}

/// The colour of a point, which is opaque. A point that did not escape is
/// black. A point that escaped has the red, green and blue of the colour
/// `smooth`, which the smoothed iteration count gave, with red and blue
/// exchanged.
pub fn color_scheme(res: &ConvResult, smooth: RGB) -> (c: RGB)
    ensures
        !res.escaped() ==> c == RGB::black(),
        res.escaped() ==> c == (RGB { r: smooth.b, g: smooth.g, b: smooth.r, a: 255 }),
        c.a == 255,
{
    if res.iter == res.max_iter {
        return RGB::black();
    }
    RGB::opaque(smooth.b, smooth.g, smooth.r)
}

} // verus!
