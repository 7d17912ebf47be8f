//! Where the grid demo puts things on the canvas: every cell is a
//! `NODE_SIZE` square drawn one pixel apart, and a canvas of a given pixel
//! size holds one cell less than fits, per axis.
use vstd::prelude::*;

verus! {

/// The side of one drawn grid cell, in pixels.
pub const NODE_SIZE: u32 = 20;

/// The canvas offset, in pixels, of grid line (or cell) number `i`: cells
/// sit one pixel apart, shifted one pixel in.
pub fn node_offset(i: u32) -> (offset: u64)
    ensures
        offset == i * (NODE_SIZE + 1) + 1,
{
    proof {
        vstd::arithmetic::mul::lemma_mul_inequality(
            i as int,
            u32::MAX as int,
            (NODE_SIZE + 1) as int,
        );
    }
    (i as u64) * ((NODE_SIZE + 1) as u64) + 1
}

/// How many grid cells fit one axis of a canvas `pixels` wide: one less
/// than the number of whole cells.
pub fn grid_dimension(pixels: u32) -> (cells: u32)
    requires
        pixels >= 2 * NODE_SIZE,
    ensures
        cells == pixels / NODE_SIZE - 1,
        cells >= 1,
{
    pixels / NODE_SIZE - 1
}

} // verus!
