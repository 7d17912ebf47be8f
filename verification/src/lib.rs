//! Verified core of a pair of 2D canvas demos: a population of bouncing,
//! splitting, blasting circles driven by pointer input, and a grid-based
//! breadth-first-search path finder with weighted backtracking.
//!
//! All geometry is carried in fixed-point integer units, `SUBPIXELS` units to
//! the pixel, so that every rule of the model is stated and proved exactly.
//! Randomness never originates here: callers draw random values and hand them
//! in as plain `RandomDraw` records, which keeps every function deterministic
//! and fully specified.
use vstd::prelude::*;

pub mod action;
pub mod canvas;
pub mod data_structures;
pub mod frame;
pub mod layout;
pub mod shapes;

verus! {

/// Fixed-point scale: the number of integer units in one canvas pixel.
pub const SUBPIXELS: i64 = 10;

} // verus!
