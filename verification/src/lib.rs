//! Core of an image-tournament viewer: a tournament engine that schedules
//! matches between image entrants and settles them from left/right decisions,
//! and a compositor that scales rasters and blends placed layers into a
//! fixed-size framebuffer of packed 32-bit pixels.

pub mod draw;
pub mod pixel;
pub mod raster;
pub mod tournament;

use vstd::prelude::*;

verus! {

} // verus!
