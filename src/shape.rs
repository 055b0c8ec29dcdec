use vstd::prelude::*;

use crate::hit::HitRecord;
use crate::mesh::Mesh;
use crate::ray::{at3, in_range, valid_range, Ratio, Ray};
use crate::sphere::Sphere;
use crate::triangle::Triangle;

verus! {

/// The surfaces a scene is made of.
#[derive(Clone, Debug)]
pub enum Shape {
    Sphere(Sphere),
    Triangle(Triangle),
    Mesh(Mesh),
}

impl Shape {
    pub open spec fn wf(&self) -> bool {
        match self {
            Shape::Sphere(s) => s.wf(),
            Shape::Triangle(t) => t.wf(),
            Shape::Mesh(m) => m.wf(),
        }
    }

    /// Every material index that the shape's records may carry is below `n`.
    pub open spec fn materials_below(&self, n: nat) -> bool {
        match self {
            Shape::Sphere(s) => s.material < n,
            Shape::Triangle(t) => t.material < n,
            Shape::Mesh(m) => forall|i: int| 0 <= i < m.triangles@.len() ==> (#[trigger] m.triangles@[i]).material < n,
        }
    }

    /// Whether `ray` meets the shape strictly inside `(t_min, t_max)`.
    pub open spec fn hits(&self, ray: Ray, t_min: Ratio, t_max: Ratio) -> bool {
        match self {
            Shape::Sphere(s) => s.hits(ray, t_min, t_max),
            Shape::Triangle(t) => t.hits(ray, t_min, t_max),
            Shape::Mesh(m) => m.hits(ray, t_min, t_max),
        }
    }

    /// `h` is what the shape's intersection routine returns for `ray` in `(t_min, t_max)`.
    pub open spec fn record_ok(&self, ray: Ray, t_min: Ratio, t_max: Ratio, h: HitRecord) -> bool {
        &&& h.wf()
        &&& match self {
            Shape::Sphere(s) => s.record_ok(ray, t_min, t_max, h),
            Shape::Triangle(t) => t.hits(ray, t_min, t_max) && t.record_ok(ray, h),
            Shape::Mesh(m) => m.record_ok(ray, t_min, t_max, h),
        }
    }

    /// The nearest intersection with `ray` strictly inside `(t_min, t_max)`.
    pub fn hit(&self, ray: &Ray, t_min: &Ratio, t_max: &Ratio) -> (r: Option<HitRecord>)
        requires
            self.wf(),
            ray.wf(),
            valid_range(*t_min, *t_max),
        ensures
            r.is_some() == self.hits(*ray, *t_min, *t_max),
            r.is_some() ==> in_range(r.unwrap().t, *t_min, *t_max)
                && r.unwrap().point@ == at3(ray.origin@, ray.direction@, r.unwrap().t),
            r.is_some() ==> self.record_ok(*ray, *t_min, *t_max, r.unwrap()) && r.unwrap().wf(),
    {
        match self {
            Shape::Sphere(s) => s.hit(ray, t_min, t_max),
            Shape::Triangle(t) => t.hit(ray, t_min, t_max),
            Shape::Mesh(m) => m.hit(ray, t_min, t_max),
        }
    }
}

} // verus!
