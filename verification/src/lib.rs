//! Staged progressive rendering of an escape-time fractal image.
//!
//! A render passes through a fixed number of resolutions, from coarse to
//! full. At each of them the pixels are cut into batches, which a pool of
//! workers computes: a worker asks for work, is handed a ticket for its next
//! batch, and hands the batch in. The renderer gathers what the workers have
//! stored into one image, reports how far the render has come, and moves on
//! to the next resolution once every worker has exhausted the current one.
//!
//! The crate holds the part of this that is done in whole numbers: the
//! stages and batches, the state of a worker and of the renderer, the image
//! buffers, the accounting of progress, and the counting of the kernel's
//! iterations. The orbit of a point and its colour are floating-point work
//! and are left to the caller, who computes the pixels of a batch from its
//! ticket. So are the threads on which the workers run.
//!
//! The functions carry contracts that Verus proves. Two calls leave the
//! crate and are taken on trust: the number of processors, in `renderer`,
//! and a random byte, in `image_utils`.

pub mod fractal;
pub mod image_utils;
pub mod progress;
pub mod renderer;
pub mod stage;
pub mod viewport;
pub mod worker;
