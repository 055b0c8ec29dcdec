use vstd::prelude::*;

use crate::camera::Camera;
use crate::hit::HitRecord;
use crate::material::{
    color_within, lambert_color, shadow_origin, Lambertian, PointLight, COLOR_ONE, LIGHT_LIMIT,
};
use crate::ray::{at3, in_box, in_range, lemma_le_trans, lemma_lt_le_trans, lemma_not_lt_trans, valid_range, Ratio, Ray};
use crate::shape::Shape;
use crate::num::lemma_sqrt_exists;
use crate::vec3::{div3, len_sq3, length3, sub3, trunc_div, within, V3, Vec3, UNIT};

verus! {

/// The vector with the given components, when they fit.
pub open spec fn vec_of(v: V3) -> Vec3 {
    Vec3 { x: v.0 as i64, y: v.1 as i64, z: v.2 as i64 }
}

/// Smallest parameter of a primary ray that counts as a hit: `1 / 1024`.
pub open spec fn primary_t_min() -> Ratio {
    Ratio { num: 1, den: 1024 }
}

/// Largest parameter of a primary ray: 256. A primary ray has a direction
/// of length about `UNIT`, so it reaches 256 * `UNIT` coordinates, past any
/// point of the coordinate box.
pub open spec fn primary_t_max() -> Ratio {
    Ratio { num: 256, den: 1 }
}

/// Bound on the coordinates of a hit that a primary ray finds.
pub open spec fn hit_point_limit() -> int {
    0x8_0000
}

pub open spec fn shadow_t_max() -> Ratio {
    Ratio { num: 1, den: 1 }
}

/// Everything that is rendered: lights, shapes, the materials they refer to
/// by index, the background color (one byte per channel) and the ambient
/// light (fixed-point, `UNIT` per channel is an intensity of one).
#[derive(Clone, Debug)]
pub struct Scene {
    pub camera: Camera,
    pub lights: Vec<PointLight>,
    pub shapes: Vec<Shape>,
    pub materials: Vec<Lambertian>,
    pub background_color: [u8; 3],
    pub ambient_light: Vec3,
}

impl Scene {
    pub open spec fn wf(&self) -> bool {
        &&& self.camera.wf()
        &&& self.shapes@.len() > 0 ==> self.lights@.len() > 0
        &&& forall|i: int| 0 <= i < self.lights@.len() ==> (#[trigger] self.lights@[i]).wf()
        &&& forall|i: int| 0 <= i < self.shapes@.len() ==> (#[trigger] self.shapes@[i]).wf()
        &&& forall|i: int| 0 <= i < self.shapes@.len() ==> (#[trigger] self.shapes@[i]).materials_below(self.materials@.len())
        &&& forall|i: int| 0 <= i < self.materials@.len() ==> (#[trigger] self.materials@[i]).wf()
        &&& color_within(self.ambient_light@, LIGHT_LIMIT as int)
    }

    /// Whether `ray` meets some shape inside `(t_min, t_max)`.
    pub open spec fn hits(&self, ray: Ray, t_min: Ratio, t_max: Ratio) -> bool {
        exists|i: int| 0 <= i < self.shapes@.len() && (#[trigger] self.shapes@[i]).hits(ray, t_min, t_max)
    }

    /// `h` is the record of shape `i`, met inside `(t_min, t_max)`, and the
    /// records of earlier shapes lie at larger parameters.
    pub open spec fn first_at(&self, ray: Ray, t_min: Ratio, t_max: Ratio, h: HitRecord, i: int) -> bool {
        &&& 0 <= i < self.shapes@.len()
        &&& self.shapes@[i].hits(ray, t_min, t_max)
        &&& self.shapes@[i].record_ok(ray, t_min, t_max, h)
        &&& forall|j: int, g: HitRecord| 0 <= j < i && #[trigger] self.shapes@[j].record_ok(ray, t_min, t_max, g)
                ==> h.t.lt(&g.t)
    }

    /// `h` is the record of some shape met inside `(t_min, t_max)`, no
    /// shape's record lies at a smaller parameter, and of shapes met at the
    /// same parameter it belongs to the first.
    pub open spec fn nearest_ok(&self, ray: Ray, t_min: Ratio, t_max: Ratio, h: HitRecord) -> bool {
        &&& exists|i: int| #[trigger] self.first_at(ray, t_min, t_max, h, i)
        &&& forall|j: int, g: HitRecord| 0 <= j < self.shapes@.len() && #[trigger] self.shapes@[j].record_ok(ray, t_min, t_max, g)
                ==> !g.t.lt(&h.t)
    }

    /// The shadow ray of a hit toward the first light.
    pub open spec fn shadow_ray(&self, h: HitRecord) -> Ray {
        let o = shadow_origin(h);
        Ray { origin: vec_of(o), direction: vec_of(sub3(self.lights@[0].position@, o)) }
    }

    /// A shadow ray runs from just off the surface to the light, which it
    /// reaches at `t = 1`. Hits closer than one coordinate unit to its start,
    /// below `t = 1 / |direction|`, do not count.
    pub open spec fn shadow_t_min(&self, h: HitRecord) -> Ratio {
        let l = length3(sub3(self.lights@[0].position@, shadow_origin(h)));
        Ratio { num: 1, den: (if l < 1 { 1 } else { l }) as i128 }
    }

    /// The first light is visible from `h` unless a shape lies on the shadow
    /// ray between the surface and the light.
    pub open spec fn light_visible(&self, h: HitRecord) -> bool {
        !self.hits(self.shadow_ray(h), self.shadow_t_min(h), shadow_t_max())
    }

    /// The color of a hit: its material's Lambertian color under the first light.
    pub open spec fn shade_color(&self, h: HitRecord) -> V3 {
        lambert_color(self.materials@[h.material as int].albedo@, self.ambient_light@, self.lights@[0], h,
            self.light_visible(h))
    }

    /// The background as a fixed-point color.
    pub open spec fn background(&self) -> V3 {
        (self.background_color[0] * UNIT, self.background_color[1] * UNIT, self.background_color[2] * UNIT)
    }

    /// `c` is the color that `ray` sees: the shaded nearest hit in
    /// `(1 / 1024, 256)`, or the background if the ray meets nothing.
    pub open spec fn trace_ok(&self, ray: Ray, c: V3) -> bool {
        if self.hits(ray, primary_t_min(), primary_t_max()) {
            exists|h: HitRecord| self.nearest_ok(ray, primary_t_min(), primary_t_max(), h) && c == self.shade_color(h)
        } else {
            c == self.background()
        }
    }

    pub fn new(
        camera: Camera,
        lights: Vec<PointLight>,
        shapes: Vec<Shape>,
        materials: Vec<Lambertian>,
        background_color: [u8; 3],
        ambient_light: Vec3,
    ) -> (r: Scene)
        ensures
            r.camera == camera,
            r.lights@ == lights@,
            r.shapes@ == shapes@,
            r.materials@ == materials@,
            r.background_color == background_color,
            r.ambient_light == ambient_light,
    {
        Scene { camera, lights, shapes, materials, background_color, ambient_light }
    }

    /// Whether some shape meets `ray` inside `(t_min, t_max)`.
    pub fn any_hit(&self, ray: &Ray, t_min: &Ratio, t_max: &Ratio) -> (r: bool)
        requires
            self.wf(),
            ray.wf(),
            valid_range(*t_min, *t_max),
        ensures
            r == self.hits(*ray, *t_min, *t_max),
    {
        let mut i: usize = 0;
        while i < self.shapes.len()
            invariant
                self.wf(),
                ray.wf(),
                valid_range(*t_min, *t_max),
                i <= self.shapes@.len(),
                forall|j: int| 0 <= j < i ==> !(#[trigger] self.shapes@[j]).hits(*ray, *t_min, *t_max),
            decreases self.shapes@.len() - i,
        {
            let shape = &self.shapes[i];
            assert(shape.wf());
            if shape.hit(ray, t_min, t_max).is_some() {
                return true;
            }
            i = i + 1;
        }
        false
    }

    /// The color at a hit, by its material and the first light, with one
    /// shadow ray toward that light.
    pub fn shade(&self, h: &HitRecord) -> (r: Vec3)
        requires
            self.wf(),
            self.lights@.len() > 0,
            h.wf(),
            within(h.point@, hit_point_limit()),
            h.material < self.materials@.len(),
        ensures
            r@ == self.shade_color(*h),
            color_within(r@, 2 * 255 * LIGHT_LIMIT),
    {
        let light = &self.lights[0];
        assert(self.lights@[0].wf());
        let offset = h.normal.div(UNIT);
        proof {
            lemma_unit_offset(h.normal@);
        }
        let origin = h.point.add(&offset);
        let direction = light.position.sub(&origin);
        let shadow = Ray::new(origin, direction);
        assert(shadow == self.shadow_ray(*h));
        let len = direction.length();
        proof {
            assert(len_sq3(direction@) >= 0) by (nonlinear_arith)
                requires len_sq3(direction@) == direction.x * direction.x + direction.y * direction.y + direction.z * direction.z;
            lemma_sqrt_exists(len_sq3(direction@));
            assert(len_sq3(direction@) <= 3 * (0x10_0000 * 0x10_0000)) by (nonlinear_arith)
                requires
                    within(direction@, 0x10_0000),
                    len_sq3(direction@) == direction.x * direction.x + direction.y * direction.y + direction.z * direction.z;
            assert(len <= 0x40_0000) by (nonlinear_arith)
                requires len * len <= len_sq3(direction@), len_sq3(direction@) <= 3 * (0x10_0000 * 0x10_0000), len >= 0;
        }
        let den: i128 = if len < 1 { 1 } else { len };
        let t_min = Ratio::new(1, den);
        let t_max = Ratio::new(1, 1);
        assert(t_min == self.shadow_t_min(*h));
        let visible = !self.any_hit(&shadow, &t_min, &t_max);
        let m = &self.materials[h.material];
        assert(self.materials@[h.material as int].wf());
        m.shade_with(h, &self.ambient_light, light, visible)
    }

    /// The color that `ray` sees. The ray starts inside the coordinate box
    /// and its direction has length about `UNIT`, as a camera's rays do.
    pub fn trace(&self, ray: &Ray) -> (r: Vec3)
        requires
            self.wf(),
            in_box(ray.origin@),
            within(ray.direction@, UNIT as int),
        ensures
            self.trace_ok(*ray, r@),
            color_within(r@, 2 * 255 * LIGHT_LIMIT),
    {
        let t_min = Ratio::new(1, 1024);
        let t_max = Ratio::new(256, 1);
        match self.nearest_hit(ray, &t_min, &t_max) {
            Some(h) => {
                proof {
                    let i = choose|i: int| #[trigger] self.first_at(*ray, t_min, t_max, h, i);
                    lemma_record_material(self.shapes@[i], *ray, t_min, t_max, h, self.materials@.len());
                    lemma_primary_point(ray.origin@, ray.direction@, h.t);
                }
                self.shade(&h)
            },
            None => {
                let b = self.background_color;
                Vec3::new((b[0] as i64) * UNIT, (b[1] as i64) * UNIT, (b[2] as i64) * UNIT)
            },
        }
    }

    /// The nearest hit among all shapes, each intersected with the same
    /// interval; among shapes met at the same parameter, the first.
    pub fn nearest_hit(&self, ray: &Ray, t_min: &Ratio, t_max: &Ratio) -> (r: Option<HitRecord>)
        requires
            self.wf(),
            ray.wf(),
            valid_range(*t_min, *t_max),
        ensures
            r.is_some() == self.hits(*ray, *t_min, *t_max),
            r.is_some() ==> self.nearest_ok(*ray, *t_min, *t_max, r.unwrap()) && r.unwrap().wf(),
            r.is_some() ==> in_range(r.unwrap().t, *t_min, *t_max)
                && r.unwrap().point@ == at3(ray.origin@, ray.direction@, r.unwrap().t),
    {
        let mut best: Option<HitRecord> = None;
        let mut i: usize = 0;
        let ghost mut bk: int = 0;
        while i < self.shapes.len()
            invariant
                self.wf(),
                ray.wf(),
                valid_range(*t_min, *t_max),
                i <= self.shapes@.len(),
                best.is_none() ==> forall|j: int| 0 <= j < i ==> !(#[trigger] self.shapes@[j]).hits(*ray, *t_min, *t_max),
                best.is_some() ==> {
                    let h = best.unwrap();
                    &&& h.wf()
                    &&& bk < i
                    &&& self.first_at(*ray, *t_min, *t_max, h, bk)
                    &&& in_range(h.t, *t_min, *t_max)
                    &&& h.point@ == at3(ray.origin@, ray.direction@, h.t)
                    &&& forall|j: int, g: HitRecord| 0 <= j < i && #[trigger] self.shapes@[j].record_ok(*ray, *t_min, *t_max, g)
                            ==> !g.t.lt(&h.t)
                },
            decreases self.shapes@.len() - i,
        {
            let shape = &self.shapes[i];
            assert(shape.wf());
            let found = shape.hit(ray, t_min, t_max);
            match found {
                Some(h) => {
                    let better = match &best {
                        None => true,
                        Some(b) => h.t.less(&b.t),
                    };
                    if better {
                        proof {
                            assert forall|j: int, g: HitRecord| 0 <= j <= i && #[trigger] self.shapes@[j].record_ok(*ray, *t_min, *t_max, g)
                                implies !g.t.lt(&h.t) by {
                                if j == i {
                                    lemma_record_t_least(self.shapes@[j], *ray, *t_min, *t_max, g, h);
                                } else {
                                    let old = best.unwrap();
                                    lemma_not_lt_trans(old.t, h.t, g.t);
                                }
                            }
                            assert forall|j: int, g: HitRecord| 0 <= j < i && #[trigger] self.shapes@[j].record_ok(*ray, *t_min, *t_max, g)
                                implies h.t.lt(&g.t) by {
                                lemma_record_implies_hits(self.shapes@[j], *ray, *t_min, *t_max, g);
                                let old = best.unwrap();
                                lemma_lt_le_trans(h.t, old.t, g.t);
                            }
                            bk = i as int;
                        }
                        best = Some(h);
                    } else {
                        proof {
                            let old = best.unwrap();
                            assert forall|j: int, g: HitRecord| 0 <= j <= i && #[trigger] self.shapes@[j].record_ok(*ray, *t_min, *t_max, g)
                                implies !g.t.lt(&old.t) by {
                                if j == i {
                                    lemma_record_t_least(self.shapes@[j], *ray, *t_min, *t_max, g, h);
                                    lemma_le_trans(old.t, h.t, g.t);
                                }
                            }
                        }
                    }
                },
                None => {
                    proof {
                        assert forall|g: HitRecord| !self.shapes@[i as int].record_ok(*ray, *t_min, *t_max, g) by {
                            if self.shapes@[i as int].record_ok(*ray, *t_min, *t_max, g) {
                                lemma_record_implies_hits(self.shapes@[i as int], *ray, *t_min, *t_max, g);
                            }
                        }
                    }
                },
            }
            i = i + 1;
        }
        proof {
            if best.is_some() {
                assert(self.first_at(*ray, *t_min, *t_max, best.unwrap(), bk));
            }
        }
        best
    }
}

/// A point at most one coordinate away from the surface: a fixed-point
/// normal divided by `UNIT` has components in `[-1, 1]`.
pub proof fn lemma_unit_offset(n: V3)
    requires
        within(n, UNIT as int),
    ensures
        within(div3(n, UNIT as int), 1),
{
    assert(within(div3(n, UNIT as int), 1)) by (nonlinear_arith)
        requires within(n, 1024), UNIT == 1024;
}

/// A camera ray that starts in the coordinate box, with a direction within
/// `UNIT`, stays within `hit_point_limit()` up to `t = 256`.
pub proof fn lemma_primary_point(o: V3, d: V3, t: Ratio)
    requires
        in_box(o),
        within(d, UNIT as int),
        in_range(t, primary_t_min(), primary_t_max()),
    ensures
        within(at3(o, d, t), hit_point_limit()),
{
    let n = t.num as int;
    let dd = t.den as int;
    assert(dd > 0 && 0 <= n <= 256 * dd) by (nonlinear_arith)
        requires 1 * dd < n * 1024, n * 1 < 256 * dd;
    lemma_component_near(d.0, n, dd);
    lemma_component_near(d.1, n, dd);
    lemma_component_near(d.2, n, dd);
}

/// `|trunc(c * n / d)| <= UNIT * 256` for `|c| <= UNIT` and `0 <= n <= 256 d`.
proof fn lemma_component_near(c: int, n: int, d: int)
    requires
        -1024 <= c <= 1024,
        d > 0,
        0 <= n <= 256 * d,
    ensures
        -0x4_0000 <= trunc_div(c * n, d) <= 0x4_0000,
{
    let m: int = if c >= 0 { c } else { -c };
    assert(0 <= m * n <= 0x4_0000 * d) by (nonlinear_arith)
        requires 0 <= m <= 1024, 0 <= n <= 256 * d, d > 0;
    assert((m * n) / d <= 0x4_0000) by (nonlinear_arith)
        requires 0 <= m * n <= 0x4_0000 * d, d > 0;
    if c >= 0 {
        assert(c * n == m * n);
    } else {
        assert(-(c * n) == m * n) by (nonlinear_arith)
            requires m == -c;
    }
}

/// The material index of a shape's record is one the shape carries.
pub proof fn lemma_record_material(s: Shape, ray: Ray, t_min: Ratio, t_max: Ratio, g: HitRecord, n: nat)
    requires
        s.record_ok(ray, t_min, t_max, g),
        s.materials_below(n),
    ensures
        g.material < n,
{
    match s {
        Shape::Mesh(m) => {
            let k = choose|k: int| #[trigger] m.first_at(ray, t_min, t_max, g, k);
            assert(m.triangles@[k].material < n);
        },
        _ => {},
    }
}

/// A shape with a record is met by the ray.
pub proof fn lemma_record_implies_hits(s: Shape, ray: Ray, t_min: Ratio, t_max: Ratio, g: HitRecord)
    requires
        s.record_ok(ray, t_min, t_max, g),
    ensures
        s.hits(ray, t_min, t_max),
{
}

/// No record that a shape's routine may return for one query lies below another.
pub proof fn lemma_record_t_least(s: Shape, ray: Ray, t_min: Ratio, t_max: Ratio, g: HitRecord, h: HitRecord)
    requires
        s.record_ok(ray, t_min, t_max, g),
        s.record_ok(ray, t_min, t_max, h),
    ensures
        !g.t.lt(&h.t),
{
    match s {
        Shape::Mesh(m) => {
            let kg = choose|k: int| #[trigger] m.first_at(ray, t_min, t_max, g, k);
            assert(!m.triangles@[kg].t_of(ray).lt(&h.t));
        },
        _ => {},
    }
}

} // verus!
