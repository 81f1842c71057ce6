//! The geometry of a view: its size in pixels and the region of the complex
//! plane that it shows.

use crate::stage::BATCH;
use vstd::prelude::*;

verus! {

/// The width and height of a viewport in pixels.
#[derive(Clone, Copy, Debug, PartialEq, Eq, Structural)]
pub struct Size {
    pub width: u32,
    pub height: u32,
}

impl Size {
    pub fn new(width: u32, height: u32) -> (s: Self)
        ensures
            s.width == width,
            s.height == height,
    {
        Size { width: width, height: height }
    }

    /// The number of pixels of the viewport.
    pub open spec fn pixels(self) -> int {
        self.width * self.height
    }

    /// A viewport is addressable when its pixels, and one batch of slack
    /// after them, can be indexed by a `usize`.
    pub open spec fn addressable(self) -> bool {
        self.pixels() + BATCH <= usize::MAX
    }

    /// Tells whether the viewport is addressable on this machine.
    pub fn is_addressable(&self) -> (ok: bool)
        ensures
            ok == self.addressable(),
    {
        assert(self.width * self.height <= 0xffff_ffff * 0xffff_ffff) by (nonlinear_arith)
            requires
                self.width <= 0xffff_ffff,
                self.height <= 0xffff_ffff,
        ;
        let pixels: u64 = (self.width as u64) * (self.height as u64);
        pixels <= (usize::MAX - BATCH) as u64
    }
}

/// The region of the complex plane that a view shows: a disc, given by its
/// centre and its radius. Each of the three reals is held as the 64 bits of
/// its IEEE 754 double precision encoding; the renderer hands them on
/// unchanged and tells two regions apart by their bits.
#[derive(Clone, Copy, Debug, PartialEq, Eq, Structural)]
pub struct Focus {
    pub center_x: u64,
    pub center_y: u64,
    pub radius: u64,
}

impl Focus {
    pub fn new(center_x: u64, center_y: u64, radius: u64) -> (f: Self)
        ensures
            f.center_x == center_x,
            f.center_y == center_y,
            f.radius == radius,
    {
        Focus { center_x: center_x, center_y: center_y, radius: radius }
    }
}

} // verus!
