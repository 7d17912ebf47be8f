//! A plain square, drawn by the embedder at the origin of its own transform.
use vstd::prelude::*;

verus! {

/// An axis-aligned square of the given side, in fixed-point units.
#[derive(Clone, Copy, Debug, PartialEq, Eq, Structural)]
pub struct Square {
    pub side: i64,
}

impl Square {
    pub fn new(side: i64) -> (s: Square)
        requires
            side >= 0,
        ensures
            s.side == side,
    {
        Square { side }
    }
}

} // verus!
