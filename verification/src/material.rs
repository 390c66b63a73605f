use vstd::prelude::*;

use crate::ray::Vec3;

verus! {

/// A flat material: a single color, each component nominally in `[0, SCALE]`
/// (the fixed-point image of `[0, 1]`); nothing enforces the nominal range,
/// packing clamps instead.
#[derive(Clone, Copy, PartialEq, Eq, Structural, Debug)]
pub struct Material {
    pub color: Vec3,
}

impl Material {
    pub open spec fn wf(self) -> bool {
        self.color.wf()
    }
}

} // verus!
