use vstd::prelude::*;

use crate::hit::HitRecord;
use crate::ray::{in_box, Ray};
use crate::num::{lemma_isqrt_unique, sqrt_floor};
use crate::vec3::{add3, div3, dot3, mul3, norm3, scale3, sub3, within, zero3, V3, Vec3, UNIT};

verus! {

/// Colors are fixed-point: a channel of `COLOR_ONE` is full intensity.
pub const COLOR_ONE: i64 = 261120;

/// A diffuse material. Its albedo holds one byte per channel, `255` being
/// full reflectance.
#[derive(Clone, Copy, Debug, PartialEq, Eq, Structural)]
pub struct Lambertian {
    pub albedo: Vec3,
}

/// A point light with a fixed-point intensity (`UNIT` is an intensity of one).
#[derive(Clone, Copy, Debug, PartialEq, Eq, Structural)]
pub struct PointLight {
    pub position: Vec3,
    pub intensity: i64,
}

/// Largest intensity of a light, and largest channel of the ambient term.
pub const LIGHT_LIMIT: i64 = 65536;

impl PointLight {
    pub open spec fn wf(&self) -> bool {
        in_box(self.position@) && 0 <= self.intensity <= LIGHT_LIMIT
    }

    pub fn new(position: Vec3, intensity: i64) -> (r: PointLight)
        ensures
            r.position == position && r.intensity == intensity,
    {
        PointLight { position, intensity }
    }
}

/// Channels in `[0, b]`.
pub open spec fn color_within(c: V3, b: int) -> bool {
    0 <= c.0 <= b && 0 <= c.1 <= b && 0 <= c.2 <= b
}

/// `max(0, min(x, hi))`.
pub open spec fn clamp(x: int, hi: int) -> int {
    if x < 0 { 0 } else if x > hi { hi } else { x }
}

/// The origin of the shadow ray: the hit point moved off the surface by
/// about one coordinate unit along the normal.
pub open spec fn shadow_origin(h: HitRecord) -> V3 {
    add3(h.point@, div3(h.normal@, UNIT as int))
}

/// The Lambertian color at a hit: the ambient term `albedo * ambient`, plus,
/// when the light is visible, `albedo * intensity * cos`, where `cos` is the
/// dot product of the normal and the direction to the light, clamped to
/// `[0, 1]`.
pub open spec fn lambert_color(albedo: V3, ambient: V3, light: PointLight, h: HitRecord, visible: bool) -> V3 {
    let amb = mul3(albedo, ambient);
    if !visible {
        amb
    } else {
        let l = norm3(sub3(light.position@, h.point@));
        let cos = clamp(dot3(h.normal@, l), UNIT * UNIT);
        add3(amb, div3(scale3(albedo, light.intensity * cos), UNIT * UNIT))
    }
}

impl Lambertian {
    pub open spec fn wf(&self) -> bool {
        color_within(self.albedo@, 255)
    }

    pub fn new(color: [u8; 3]) -> (r: Lambertian)
        ensures
            r.albedo@ == (color[0] as int, color[1] as int, color[2] as int),
            r.wf(),
    {
        Lambertian { albedo: Vec3::new(color[0] as i64, color[1] as i64, color[2] as i64) }
    }

    /// The color at `h`, given whether the light is visible from it.
    pub fn shade_with(&self, h: &HitRecord, ambient: &Vec3, light: &PointLight, visible: bool) -> (r: Vec3)
        requires
            self.wf(),
            h.wf(),
            color_within(ambient@, LIGHT_LIMIT as int),
            light.wf(),
        ensures
            r@ == lambert_color(self.albedo@, ambient@, *light, *h, visible),
            color_within(r@, 2 * 255 * LIGHT_LIMIT),
    {
        let ghost ll: int = LIGHT_LIMIT as int;
        proof {
            crate::vec3::lemma_mul_bound(self.albedo.x as int, ambient.x as int, 255, ll);
            crate::vec3::lemma_mul_bound(self.albedo.y as int, ambient.y as int, 255, ll);
            crate::vec3::lemma_mul_bound(self.albedo.z as int, ambient.z as int, 255, ll);
            assert(0 <= self.albedo.x * ambient.x && 0 <= self.albedo.y * ambient.y && 0 <= self.albedo.z * ambient.z) by (nonlinear_arith)
                requires color_within(self.albedo@, 255), color_within(ambient@, ll);
        }
        let amb = self.albedo.mul(ambient);
        if !visible {
            return amb;
        }
        let to_light = light.position.sub(&h.point);
        let l = to_light.normalize();
        let d = h.normal.dot(&l);
        let uu: i128 = (UNIT as i128) * (UNIT as i128);
        let cos: i128 = if d < 0 { 0 } else if d > uu { uu } else { d };
        let c64: i64 = cos as i64;
        assert(0 <= light.intensity * c64 <= ll * (UNIT * UNIT)) by (nonlinear_arith)
            requires 0 <= light.intensity <= ll, 0 <= c64 <= UNIT * UNIT, ll == 65536;
        let k: i64 = light.intensity * c64;
        proof {
            assert(0 <= k <= ll * (UNIT * UNIT)) by (nonlinear_arith)
                requires k == light.intensity * cos, 0 <= light.intensity <= ll, 0 <= cos <= UNIT * UNIT;
            crate::vec3::lemma_mul_bound(self.albedo.x as int, k as int, 255, ll * (UNIT * UNIT));
            crate::vec3::lemma_mul_bound(self.albedo.y as int, k as int, 255, ll * (UNIT * UNIT));
            crate::vec3::lemma_mul_bound(self.albedo.z as int, k as int, 255, ll * (UNIT * UNIT));
        }
        let sc = self.albedo.scale(k);
        let diffuse = sc.div(UNIT * UNIT);
        proof {
            assert(color_within(diffuse@, 255 * ll)) by (nonlinear_arith)
                requires
                    diffuse@ == div3(sc@, UNIT * UNIT),
                    sc@ == scale3(self.albedo@, k as int),
                    color_within(self.albedo@, 255),
                    0 <= k <= ll * (UNIT * UNIT);
        }
        amb.add(&diffuse)
    }
}

/// With no ambient light and the light not visible, a point is black.
pub proof fn lemma_dark(albedo: V3, light: PointLight, h: HitRecord)
    ensures
        lambert_color(albedo, zero3(), light, h, false) == zero3(),
{
}

/// A point that the light cannot see gets the ambient term alone.
pub proof fn lemma_occluded_ambient_only(albedo: V3, ambient: V3, light: PointLight, h: HitRecord)
    ensures
        lambert_color(albedo, ambient, light, h, false) == mul3(albedo, ambient),
{
}

/// A white surface facing a light straight above it, with no ambient light,
/// reflects the light's full intensity: each channel is `255 * intensity`,
/// that is `intensity / UNIT` of `COLOR_ONE`.
pub proof fn lemma_full_light(light: PointLight, h: HitRecord, k: int)
    requires
        light.wf(),
        k > 0,
        h.normal@ == (0int, UNIT as int, 0int),
        sub3(light.position@, h.point@) == (0int, k, 0int),
    ensures
        lambert_color((255int, 255int, 255int), zero3(), light, h, true)
            == (255 * light.intensity, 255 * light.intensity, 255 * light.intensity),
{
    let u: int = UNIT as int;
    let v = sub3(light.position@, h.point@);
    assert(v.0 * v.0 + v.1 * v.1 + v.2 * v.2 == k * k) by (nonlinear_arith)
        requires v == (0int, k, 0int);
    assert((k * u) * (k * u) == k * k * (u * u)) by (nonlinear_arith);
    assert((k * u + 1) * (k * u + 1) > k * k * (u * u)) by (nonlinear_arith)
        requires k > 0, u == 1024;
    assert(k * u >= 0) by (nonlinear_arith)
        requires k > 0, u == 1024;
    lemma_isqrt_unique(k * k * (u * u), k * u);
    assert((k * (u * u)) / (k * u) == u) by (nonlinear_arith)
        requires k > 0, u == 1024;
    assert(crate::vec3::len_sq3(v) == k * k);
    assert(crate::vec3::len_sq3(v) * (UNIT * UNIT) == k * k * (u * u));
    assert(sqrt_floor(crate::vec3::len_sq3(v) * (UNIT * UNIT)) == k * u);
    assert(scale3(v, UNIT * UNIT) == (0int, k * (u * u), 0int));
    assert(k * (u * u) >= 0) by (nonlinear_arith)
        requires k > 0, u == 1024;
    assert(0int / (k * u) == 0) by (nonlinear_arith)
        requires k > 0, u == 1024;
    assert(k * u > 0) by (nonlinear_arith)
        requires k > 0, u == 1024;
    assert(crate::vec3::trunc_div(0, k * u) == 0);
    assert(crate::vec3::trunc_div(k * (u * u), k * u) == u);
    assert(div3((0int, k * (u * u), 0int), k * u) == (0int, u, 0int));
    assert(k * k > 0) by (nonlinear_arith)
        requires k > 0;
    assert(norm3(v) == div3(scale3(v, UNIT * UNIT), sqrt_floor(crate::vec3::len_sq3(v) * (UNIT * UNIT))));
    assert(norm3(v) == div3(scale3(v, UNIT * UNIT), k * u));
    assert(norm3(v) == (0int, u, 0int));
    assert(scale3((255int, 255int, 255int), light.intensity * (u * u)) == (255 * (light.intensity * (u * u)), 255 * (light.intensity * (u * u)), 255 * (light.intensity * (u * u))));
    assert(255 * (light.intensity * (u * u)) >= 0) by (nonlinear_arith)
        requires light.intensity >= 0, u == 1024;
    assert(clamp(u * u, UNIT * UNIT) == u * u);
    assert(mul3((255int, 255int, 255int), zero3()) == zero3());
    assert(255 * (light.intensity * (u * u)) >= 0 ==> crate::vec3::trunc_div(255 * (light.intensity * (u * u)), u * u) == 255 * light.intensity) by {
        assert((255 * (light.intensity * (u * u))) / (u * u) == 255 * light.intensity) by (nonlinear_arith)
            requires u == 1024;
    }
    assert(dot3(h.normal@, norm3(v)) == u * u);
    assert((255 * (light.intensity * (u * u))) / (u * u) == 255 * light.intensity) by (nonlinear_arith)
        requires u == 1024;
}

} // verus!
