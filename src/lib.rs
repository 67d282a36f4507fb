use vstd::prelude::*;

pub mod canvas;
pub mod color;
pub mod fixed;
pub mod geo;
pub mod graphics;
pub mod helpers;
pub mod raycast;
pub mod world;

verus! {

/// Fixed-point unit: coordinates and brightness values are counted in steps of
/// `1 / ONE` of a pixel (or of full brightness).
pub const ONE: i64 = 65536;

} // verus!
