//! The grid demo's canvas layout formulas.
use canvas_demos::layout::{grid_dimension, node_offset, NODE_SIZE};

#[test]
fn offsets_step_by_a_cell_and_a_line() {
    assert_eq!(NODE_SIZE, 20);
    assert_eq!(node_offset(0), 1);
    assert_eq!(node_offset(1), 22);
    assert_eq!(node_offset(3), 64);
}

#[test]
fn grid_dimension_leaves_one_cell_of_margin() {
    assert_eq!(grid_dimension(800), 39);
    assert_eq!(grid_dimension(419), 19);
    assert_eq!(grid_dimension(40), 1);
}
