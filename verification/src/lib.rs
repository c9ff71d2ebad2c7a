//! Integer and byte-level logic of a small software 3D renderer: colour
//! shading, keyboard and mouse message decoding, the decision table of
//! triangle clipping, and the Wavefront OBJ mesh format.
use vstd::prelude::*;

pub mod color;
pub mod input;
pub mod clip;
pub mod obj;

verus! {

} // verus!
