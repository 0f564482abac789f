//! Overlap test for oriented rectangles in the plane, by the separating axis
//! theorem, over exact integer coordinates.
use vstd::prelude::*;

pub mod vec2;
pub mod sat;
pub mod laws;

verus! {

} // verus!
