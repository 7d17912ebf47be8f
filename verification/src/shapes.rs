//! The drawable shapes of the demos.
pub mod circle;
pub mod square;
