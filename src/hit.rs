use vstd::prelude::*;

use crate::ray::Ratio;
use crate::vec3::{within, Vec3, UNIT};

verus! {

/// What a ray meets: the parameter `t`, the point, the surface normal (a
/// fixed-point vector of length about `UNIT`) and the index of the
/// surface's material in the scene's material list.
#[derive(Clone, Copy, Debug, PartialEq, Eq, Structural)]
pub struct HitRecord {
    pub t: Ratio,
    pub point: Vec3,
    pub normal: Vec3,
    pub material: usize,
}

impl HitRecord {
    /// The bounds that every intersection routine guarantees.
    pub open spec fn wf(&self) -> bool {
        self.t.wf() && within(self.point@, 0x200_0000_0000) && within(self.normal@, UNIT as int)
    }
}

} // verus!
