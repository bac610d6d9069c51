use vstd::prelude::*;

verus! {

/// How the camera maps image coordinates to ray directions.
#[derive(Clone, Copy, Debug, PartialEq, Eq, Structural)]
pub enum Projection {
    Perspective,
    Orthographic,
    FishEye,
}

} // verus!
