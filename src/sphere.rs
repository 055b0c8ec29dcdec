use vstd::prelude::*;

use crate::hit::HitRecord;
use crate::num::{isqrt, lemma_isqrt_unique, lemma_sqrt_exists, sqrt_floor};
use crate::ray::{in_range, at3, in_box, in_range_q, ratio_bound, RAY_LIMIT, valid_range, Ratio, Ray, COORD_LIMIT};
use crate::vec3::{div3, dot3, norm3, lemma_normalize_at_least_unit, lemma_normalize_at_most_unit, zero3, lemma_mul_bound, len_sq3, scale3, sub3, within, V3, Vec3, UNIT};

verus! {

/// The parameter at which a ray `o + d * t` first meets the sphere inside
/// `(t_min, t_max)`, as a numerator and a positive denominator: the nearer
/// root of `a t^2 + 2 half_b t + c = 0` if it lies in range, else the farther
/// one, with the square root of the discriminant rounded down. `None` when
/// the discriminant is negative, the direction is zero, or neither root lies
/// in range.
pub open spec fn sphere_root(center: V3, radius: int, o: V3, d: V3, t_min: Ratio, t_max: Ratio) -> Option<(int, int)> {
    let oc = sub3(o, center);
    let a = len_sq3(d);
    let half_b = dot3(oc, d);
    let c = len_sq3(oc) - radius * radius;
    let disc = half_b * half_b - a * c;
    if a == 0 || disc < 0 {
        None
    } else {
        let sq = sqrt_floor(disc);
        if in_range_q(-half_b - sq, a, t_min, t_max) {
            Some((-half_b - sq, a))
        } else if in_range_q(-half_b + sq, a, t_min, t_max) {
            Some((-half_b + sq, a))
        } else {
            None
        }
    }
}

/// The fixed-point outward normal at `p`: the direction from the center to
/// `p`, normalized to length about `UNIT`.
pub open spec fn sphere_normal(center: V3, radius: int, p: V3) -> V3 {
    norm3(sub3(p, center))
}

/// A sphere with a positive radius, and the index of its material.
#[derive(Clone, Copy, Debug, PartialEq, Eq, Structural)]
pub struct Sphere {
    pub center: Vec3,
    pub radius: i64,
    pub material: usize,
}

impl Sphere {
    pub open spec fn wf(&self) -> bool {
        in_box(self.center@) && 0 < self.radius <= COORD_LIMIT
    }

    /// Whether `ray` meets the sphere strictly inside `(t_min, t_max)`.
    pub open spec fn hits(&self, ray: Ray, t_min: Ratio, t_max: Ratio) -> bool {
        sphere_root(self.center@, self.radius as int, ray.origin@, ray.direction@, t_min, t_max).is_some()
    }

    /// `h` is the record of the root that `sphere_root` picks: its parameter,
    /// the point there, the normal and the sphere's material.
    pub open spec fn record_ok(&self, ray: Ray, t_min: Ratio, t_max: Ratio, h: HitRecord) -> bool {
        match sphere_root(self.center@, self.radius as int, ray.origin@, ray.direction@, t_min, t_max) {
            None => false,
            Some((n, d)) => {
                &&& h.t.num == n && h.t.den == d
                &&& h.point@ == at3(ray.origin@, ray.direction@, h.t)
                &&& h.normal@ == sphere_normal(self.center@, self.radius as int, h.point@)
                &&& h.material == self.material
            },
        }
    }

    pub fn new(center: Vec3, radius: i64, material: usize) -> (r: Sphere)
        ensures
            r.center == center && r.radius == radius && r.material == material,
    {
        Sphere { center, radius, material }
    }

    /// The nearest intersection with `ray` strictly inside `(t_min, t_max)`.
    pub fn hit(&self, ray: &Ray, t_min: &Ratio, t_max: &Ratio) -> (r: Option<HitRecord>)
        requires
            self.wf(),
            ray.wf(),
            valid_range(*t_min, *t_max),
        ensures
            r.is_some() == self.hits(*ray, *t_min, *t_max),
            r.is_some() ==> in_range(r.unwrap().t, *t_min, *t_max)
                && r.unwrap().point@ == at3(ray.origin@, ray.direction@, r.unwrap().t),
            r.is_some() ==> self.record_ok(*ray, *t_min, *t_max, r.unwrap()) && r.unwrap().wf(),
    {
        let ghost lim: int = RAY_LIMIT as int;
        let oc = ray.origin.sub(&self.center);
        let a = ray.direction.length_squared();
        let half_b = oc.dot(&ray.direction);
        let ocl = oc.length_squared();
        proof {
            lemma_mul_bound(ray.direction.x as int, ray.direction.x as int, lim, lim);
            lemma_mul_bound(ray.direction.y as int, ray.direction.y as int, lim, lim);
            lemma_mul_bound(ray.direction.z as int, ray.direction.z as int, lim, lim);
            lemma_mul_bound(oc.x as int, oc.x as int, 2 * lim, 2 * lim);
            lemma_mul_bound(oc.y as int, oc.y as int, 2 * lim, 2 * lim);
            lemma_mul_bound(oc.z as int, oc.z as int, 2 * lim, 2 * lim);
            lemma_mul_bound(oc.x as int, ray.direction.x as int, 2 * lim, lim);
            lemma_mul_bound(oc.y as int, ray.direction.y as int, 2 * lim, lim);
            lemma_mul_bound(oc.z as int, ray.direction.z as int, 2 * lim, lim);
            lemma_mul_bound(self.radius as int, self.radius as int, lim, lim);
        }
        let c = ocl - (self.radius as i128) * (self.radius as i128);
        let ghost hb_lim: int = 3 * (2 * lim) * lim;
        let ghost a_lim: int = 3 * lim * lim;
        let ghost c_lim: int = 3 * (2 * lim) * (2 * lim) + lim * lim;
        proof {
            assert(-hb_lim <= half_b <= hb_lim);
            assert(0 <= a <= a_lim);
            assert(-c_lim <= c <= c_lim);
            lemma_mul_bound(half_b as int, half_b as int, hb_lim, hb_lim);
            lemma_mul_bound(a as int, c as int, a_lim, c_lim);
        }
        assert(hb_lim * hb_lim + a_lim * c_lim < 0x1000_0000_0000_0000_0000_0000_0000) by (
        nonlinear_arith)
            requires
                hb_lim == 3 * (2 * lim) * lim,
                a_lim == 3 * lim * lim,
                c_lim == 3 * (2 * lim) * (2 * lim) + lim * lim,
                lim == 1048576;
        let disc = half_b * half_b - a * c;
        if a == 0 || disc < 0 {
            return None;
        }
        let sq = isqrt(disc as u128) as i128;
        proof {
            assert(sq <= 0x1000_0000_0000) by (nonlinear_arith)
                requires
                    sq * sq <= disc,
                    disc <= hb_lim * hb_lim + a_lim * c_lim,
                    hb_lim == 3 * (2 * lim) * lim,
                    a_lim == 3 * lim * lim,
                    c_lim == 3 * (2 * lim) * (2 * lim) + lim * lim,
                    lim == 1048576,
                    sq >= 0;
        }
        let near = Ratio { num: -half_b - sq, den: a };
        let far = Ratio { num: -half_b + sq, den: a };
        let t = if t_min.less(&near) && near.less(t_max) {
            near
        } else if t_min.less(&far) && far.less(t_max) {
            far
        } else {
            return None;
        };
        proof {
            // t lies in (t_min, t_max) and t_max <= T_FAR, so 0 <= t <= T_FAR.
            let tn = t.num as int;
            let td = t.den as int;
            assert(tn >= 0) by (nonlinear_arith)
                requires t_min.num * td < tn * t_min.den, t_min.num >= 0, td > 0, t_min.den > 0;
            assert(tn <= 1048576 * td) by (nonlinear_arith)
                requires
                    tn * t_max.den < t_max.num * td,
                    t_max.num <= 1048576 * t_max.den,
                    td > 0,
                    t_max.den > 0;
        }
        let point = ray.at(&t);
        let rel = point.sub(&self.center);
        let normal = rel.normalize();
        Some(HitRecord { t, point, normal, material: self.material })
    }
}

/// A ray aimed straight at a sphere's center from outside it meets the
/// sphere's front at `t = (distance - radius) / |direction|`. Here the
/// direction has integer length `m`, and the center lies `k` direction
/// lengths ahead, at distance `k * m` from the origin.
#[verifier::rlimit(40)]
pub proof fn lemma_sphere_head_on(center: V3, radius: int, o: V3, d: V3, k: int, m: int, t_min: Ratio, t_max: Ratio)
    requires
        radius > 0,
        m > 0,
        len_sq3(d) == m * m,
        sub3(o, center) == scale3(d, -k),
        k * m > radius,
        in_range_q(k * m * m - radius * m, m * m, t_min, t_max),
    ensures
        sphere_root(center, radius, o, d, t_min, t_max) == Some((k * m * m - radius * m, m * m)),
{
    let oc = sub3(o, center);
    let a = len_sq3(d);
    let half_b = dot3(oc, d);
    let c = len_sq3(oc) - radius * radius;
    assert(half_b == -k * a) by (nonlinear_arith)
        requires oc == scale3(d, -k), half_b == dot3(oc, d), a == len_sq3(d);
    assert(oc.0 * oc.0 == k * k * (d.0 * d.0)) by (nonlinear_arith)
        requires oc.0 == d.0 * -k;
    assert(oc.1 * oc.1 == k * k * (d.1 * d.1)) by (nonlinear_arith)
        requires oc.1 == d.1 * -k;
    assert(oc.2 * oc.2 == k * k * (d.2 * d.2)) by (nonlinear_arith)
        requires oc.2 == d.2 * -k;
    assert(len_sq3(oc) == k * k * a) by (nonlinear_arith)
        requires
            len_sq3(oc) == oc.0 * oc.0 + oc.1 * oc.1 + oc.2 * oc.2,
            oc.0 * oc.0 == k * k * (d.0 * d.0),
            oc.1 * oc.1 == k * k * (d.1 * d.1),
            oc.2 * oc.2 == k * k * (d.2 * d.2),
            a == d.0 * d.0 + d.1 * d.1 + d.2 * d.2;
    let disc = half_b * half_b - a * c;
    assert(half_b * half_b == k * k * (a * a)) by (nonlinear_arith)
        requires half_b == -k * a;
    assert(a * c == k * k * (a * a) - a * (radius * radius)) by (nonlinear_arith)
        requires c == k * k * a - radius * radius;
    assert(a * (radius * radius) == (radius * m) * (radius * m)) by (nonlinear_arith)
        requires a == m * m;
    assert(radius * m > 0) by (nonlinear_arith)
        requires radius > 0, m > 0;
    assert((radius * m + 1) * (radius * m + 1) > disc) by (nonlinear_arith)
        requires disc == (radius * m) * (radius * m), radius * m > 0;
    lemma_isqrt_unique(disc, radius * m);
    assert(-half_b - radius * m == k * m * m - radius * m) by (nonlinear_arith)
        requires half_b == -k * a, a == m * m;
    assert(a > 0) by (nonlinear_arith)
        requires a == m * m, m > 0;
    assert(sqrt_floor(disc) == radius * m);
}

/// A ray that starts outside a sphere and points away from its center
/// never meets it at a non-negative parameter.
pub proof fn lemma_sphere_away(center: V3, radius: int, o: V3, d: V3, t_min: Ratio, t_max: Ratio)
    requires
        dot3(sub3(o, center), d) > 0,
        len_sq3(sub3(o, center)) > radius * radius,
        t_min.num >= 0,
        t_min.den > 0,
    ensures
        sphere_root(center, radius, o, d, t_min, t_max).is_none(),
{
    let oc = sub3(o, center);
    let a = len_sq3(d);
    let half_b = dot3(oc, d);
    let c = len_sq3(oc) - radius * radius;
    let disc = half_b * half_b - a * c;
    if a != 0 && disc >= 0 {
        let sq = sqrt_floor(disc);
        assert(a > 0) by (nonlinear_arith)
            requires a == d.0 * d.0 + d.1 * d.1 + d.2 * d.2, a != 0;
        assert(sq >= 0 && sq * sq <= disc) by {
            lemma_sqrt_exists(disc);
        }
        assert(sq < half_b) by (nonlinear_arith)
            requires sq * sq <= disc, disc == half_b * half_b - a * c, a > 0, c > 0, half_b > 0, sq >= 0;
        assert(!(t_min.num * a < (-half_b - sq) * t_min.den)) by (nonlinear_arith)
            requires t_min.num >= 0, t_min.den > 0, -half_b - sq < 0, a > 0;
        assert(!(t_min.num * a < (-half_b + sq) * t_min.den)) by (nonlinear_arith)
            requires t_min.num >= 0, t_min.den > 0, -half_b + sq < 0, a > 0;
    }
}

/// The normal of a sphere at any point other than its center has length
/// between `UNIT - 3` and `UNIT`.
pub proof fn lemma_sphere_normal_unit(center: V3, radius: int, p: V3)
    requires
        p != center,
    ensures
        (UNIT - 3) * (UNIT - 3) <= len_sq3(sphere_normal(center, radius, p)) < (UNIT + 1) * (UNIT + 1),
{
    assert(sub3(p, center) != zero3());
    lemma_normalize_at_least_unit(sub3(p, center));
    lemma_normalize_at_most_unit(sub3(p, center));
}

} // verus!
