use vstd::prelude::*;

use crate::hit::HitRecord;
use crate::ray::{in_range, at3, in_box, in_range_q, valid_range, RAY_LIMIT, Ratio, Ray, COORD_LIMIT};
use crate::vec3::{
    add3, cross3, dot3, lemma_cross_bound, lemma_dot_bound, lemma_cross_linear, lemma_dot_bilinear, lemma_len_sq_pos, lemma_mul_bound,
    lemma_triple, len_sq3, norm3, scale3, sub3, within, zero3, V3, Vec3, UNIT,
};

verus! {

/// The quantities of the Möller–Trumbore test for the ray `o + d * t`,
/// with the sign of the determinant folded in so that the determinant is
/// non-negative: `(det, u_num, v_num, t_num)`. The barycentric coordinates
/// are `u_num / det` and `v_num / det`, and the parameter is `t_num / det`.
pub open spec fn mt_terms(v0: V3, v1: V3, v2: V3, o: V3, d: V3) -> (int, int, int, int) {
    let e1 = sub3(v1, v0);
    let e2 = sub3(v2, v0);
    let h = cross3(d, e2);
    let a = dot3(e1, h);
    let s = sub3(o, v0);
    let q = cross3(s, e1);
    if a < 0 {
        (-a, -dot3(s, h), -dot3(d, q), -dot3(e2, q))
    } else {
        (a, dot3(s, h), dot3(d, q), dot3(e2, q))
    }
}

/// Whether the ray meets the triangle inside `(t_min, t_max)`: the
/// determinant is not zero (the ray is not parallel to the plane), both
/// barycentric coordinates and their sum lie in `[0, 1]`, and the parameter
/// lies in range.
pub open spec fn triangle_hits(v0: V3, v1: V3, v2: V3, o: V3, d: V3, t_min: Ratio, t_max: Ratio) -> bool {
    let (a, u, v, t) = mt_terms(v0, v1, v2, o, d);
    &&& a != 0
    &&& 0 <= u <= a
    &&& 0 <= v
    &&& u + v <= a
    &&& in_range_q(t, a, t_min, t_max)
}

/// The fixed-point barycentric weights `(w, u, v)` of the hit, which add up to `UNIT`.
pub open spec fn bary_weights(v0: V3, v1: V3, v2: V3, o: V3, d: V3) -> (int, int, int) {
    let (a, u, v, t) = mt_terms(v0, v1, v2, o, d);
    let bu = (u * UNIT) / a;
    let bv = (v * UNIT) / a;
    (UNIT - bu - bv, bu, bv)
}

/// The shading normal: the vertex normals weighted by the barycentric
/// weights, then normalized.
pub open spec fn interpolated_normal(n0: V3, n1: V3, n2: V3, w: (int, int, int)) -> V3 {
    norm3(add3(add3(scale3(n0, w.0), scale3(n1, w.1)), scale3(n2, w.2)))
}

/// Two fixed-point barycentric weights of a hit lie in `[0, UNIT]` and add up to at most `UNIT`.
proof fn lemma_weights(u: int, v: int, a: int)
    requires
        0 <= u,
        0 <= v,
        u + v <= a,
        a > 0,
    ensures
        0 <= (u * 1024) / a <= 1024,
        0 <= (v * 1024) / a <= 1024,
        (u * 1024) / a + (v * 1024) / a <= 1024,
{
    assert((u * 1024) / a + (v * 1024) / a <= ((u + v) * 1024) / a) by (nonlinear_arith)
        requires a > 0, u >= 0, v >= 0;
    assert(((u + v) * 1024) / a <= 1024) by (nonlinear_arith)
        requires a > 0, u + v <= a, u + v >= 0;
    assert(0 <= (u * 1024) / a) by (nonlinear_arith)
        requires a > 0, u >= 0;
    assert(0 <= (v * 1024) / a) by (nonlinear_arith)
        requires a > 0, v >= 0;
}

/// Bound on the terms of the test: `3 * 2^59`.
pub open spec fn term_bound() -> int {
    0x1800_0000_0000_0000
}

/// The terms of the test are bounded for a triangle inside the coordinate
/// box and a ray within `RAY_LIMIT`.
#[verifier::rlimit(40)]
pub proof fn lemma_terms_bounded(v0: V3, v1: V3, v2: V3, o: V3, d: V3)
    requires
        in_box(v0),
        in_box(v1),
        in_box(v2),
        within(o, RAY_LIMIT as int),
        within(d, RAY_LIMIT as int),
    ensures
        ({
            let e1 = sub3(v1, v0);
            let e2 = sub3(v2, v0);
            let h = cross3(d, e2);
            let s = sub3(o, v0);
            let q = cross3(s, e1);
            &&& -term_bound() <= dot3(e1, h) <= term_bound()
            &&& -term_bound() <= dot3(s, h) <= term_bound()
            &&& -term_bound() <= dot3(d, q) <= term_bound()
            &&& -term_bound() <= dot3(e2, q) <= term_bound()
        }),
        ({
            let (a, u, v, t) = mt_terms(v0, v1, v2, o, d);
            &&& 0 <= a <= term_bound()
            &&& -term_bound() <= t <= term_bound()
        }),
{
    let cl: int = COORD_LIMIT as int;
    let rl: int = RAY_LIMIT as int;
    let e1 = sub3(v1, v0);
    let e2 = sub3(v2, v0);
    let h = cross3(d, e2);
    let s = sub3(o, v0);
    let q = cross3(s, e1);
    assert(within(e1, 2 * cl) && within(e2, 2 * cl) && within(s, 2 * rl));
    lemma_cross_bound(d, e2, rl, 2 * cl);
    lemma_cross_bound(s, e1, 2 * rl, 2 * cl);
    let hb: int = 2 * (rl * (2 * cl));
    let qb: int = 2 * ((2 * rl) * (2 * cl));
    lemma_dot_bound(e1, h, 2 * cl, hb);
    lemma_dot_bound(s, h, 2 * rl, hb);
    lemma_dot_bound(d, q, rl, qb);
    lemma_dot_bound(e2, q, 2 * cl, qb);
    assert(3 * ((2 * cl) * hb) <= term_bound() && 3 * ((2 * rl) * hb) <= term_bound()
        && 3 * (rl * qb) <= term_bound() && 3 * ((2 * cl) * qb) <= term_bound()) by (nonlinear_arith)
        requires
            hb == 2 * (rl * (2 * cl)),
            qb == 2 * ((2 * rl) * (2 * cl)),
            cl == 65536,
            rl == 1048576;
}

/// A triangle with a normal at each vertex, and the index of its material.
#[derive(Clone, Copy, Debug, PartialEq, Eq, Structural)]
pub struct Triangle {
    pub v0: Vec3,
    pub v1: Vec3,
    pub v2: Vec3,
    pub n0: Vec3,
    pub n1: Vec3,
    pub n2: Vec3,
    pub material: usize,
}

impl Triangle {
    pub open spec fn wf(&self) -> bool {
        &&& in_box(self.v0@) && in_box(self.v1@) && in_box(self.v2@)
        &&& in_box(self.n0@) && in_box(self.n1@) && in_box(self.n2@)
    }

    /// Whether `ray` meets the triangle strictly inside `(t_min, t_max)`.
    pub open spec fn hits(&self, ray: Ray, t_min: Ratio, t_max: Ratio) -> bool {
        triangle_hits(self.v0@, self.v1@, self.v2@, ray.origin@, ray.direction@, t_min, t_max)
    }

    /// The parameter at which `ray` meets the triangle's plane.
    pub open spec fn t_of(&self, ray: Ray) -> Ratio {
        let (a, u, v, t) = mt_terms(self.v0@, self.v1@, self.v2@, ray.origin@, ray.direction@);
        Ratio { num: t as i128, den: a as i128 }
    }

    /// `h` is the record of `ray` meeting this triangle: its parameter, the
    /// point there, the interpolated normal and the triangle's material.
    pub open spec fn record_ok(&self, ray: Ray, h: HitRecord) -> bool {
        &&& h.t == self.t_of(ray)
        &&& h.point@ == at3(ray.origin@, ray.direction@, h.t)
        &&& h.normal@ == interpolated_normal(self.n0@, self.n1@, self.n2@,
                bary_weights(self.v0@, self.v1@, self.v2@, ray.origin@, ray.direction@))
        &&& h.material == self.material
    }

    pub fn new(v0: Vec3, v1: Vec3, v2: Vec3, n0: Vec3, n1: Vec3, n2: Vec3, material: usize) -> (r: Triangle)
        ensures
            r == (Triangle { v0, v1, v2, n0, n1, n2, material }),
    {
        Triangle { v0, v1, v2, n0, n1, n2, material }
    }

    /// The intersection with `ray` strictly inside `(t_min, t_max)`, by the
    /// Möller–Trumbore test in exact integer arithmetic.
    pub fn hit(&self, ray: &Ray, t_min: &Ratio, t_max: &Ratio) -> (r: Option<HitRecord>)
        requires
            self.wf(),
            ray.wf(),
            valid_range(*t_min, *t_max),
        ensures
            r.is_some() == self.hits(*ray, *t_min, *t_max),
            r.is_some() ==> in_range(r.unwrap().t, *t_min, *t_max)
                && r.unwrap().point@ == at3(ray.origin@, ray.direction@, r.unwrap().t),
            r.is_some() ==> self.record_ok(*ray, r.unwrap()) && r.unwrap().wf(),
    {
        let e1 = self.v1.sub(&self.v0);
        let e2 = self.v2.sub(&self.v0);
        proof {
            lemma_cross_bound(ray.direction@, e2@, RAY_LIMIT as int, 2 * COORD_LIMIT);
        }
        let h = ray.direction.cross(&e2);
        let a0 = e1.dot(&h);
        if a0 == 0 {
            return None;
        }
        let s = ray.origin.sub(&self.v0);
        proof {
            lemma_cross_bound(s@, e1@, 2 * RAY_LIMIT, 2 * COORD_LIMIT);
        }
        let q = s.cross(&e1);
        let u0 = s.dot(&h);
        let v0 = ray.direction.dot(&q);
        let t0 = e2.dot(&q);
        proof {
            lemma_terms_bounded(self.v0@, self.v1@, self.v2@, ray.origin@, ray.direction@);
        }
        let (a, u, v, tn) = if a0 < 0 { (-a0, -u0, -v0, -t0) } else { (a0, u0, v0, t0) };
        proof {
            let m = mt_terms(self.v0@, self.v1@, self.v2@, ray.origin@, ray.direction@);
            assert(m.0 == a && m.1 == u && m.2 == v && m.3 == tn);
        }
        if u < 0 || u > a || v < 0 || u + v > a {
            return None;
        }
        let t = Ratio { num: tn, den: a };
        if !(t_min.less(&t) && t.less(t_max)) {
            return None;
        }
        proof {
            let tt = t.num as int;
            let td = t.den as int;
            assert(tt >= 0) by (nonlinear_arith)
                requires t_min.num * td < tt * t_min.den, t_min.num >= 0, td > 0, t_min.den > 0;
            assert(tt <= 1048576 * td) by (nonlinear_arith)
                requires
                    tt * t_max.den < t_max.num * td,
                    t_max.num <= 1048576 * t_max.den,
                    td > 0,
                    t_max.den > 0;
        }
        let point = ray.at(&t);
        assert(0 <= u <= term_bound() && 0 <= v <= term_bound());
        let unit: i128 = UNIT as i128;
        assert(unit == 1024);
        assert(0 <= u * unit <= term_bound() * 1024 && 0 <= v * unit <= term_bound() * 1024) by (nonlinear_arith)
            requires 0 <= u <= term_bound(), 0 <= v <= term_bound(), unit == 1024;
        let bu = (u * unit) / a;
        let bv = (v * unit) / a;
        proof {
            lemma_weights(u as int, v as int, a as int);
        }
        let bw = (UNIT as i128) - bu - bv;
        let ghost lim: int = COORD_LIMIT as int;
        proof {
            lemma_mul_bound(self.n0.x as int, bw as int, lim, 1024);
            lemma_mul_bound(self.n0.y as int, bw as int, lim, 1024);
            lemma_mul_bound(self.n0.z as int, bw as int, lim, 1024);
            lemma_mul_bound(self.n1.x as int, bu as int, lim, 1024);
            lemma_mul_bound(self.n1.y as int, bu as int, lim, 1024);
            lemma_mul_bound(self.n1.z as int, bu as int, lim, 1024);
            lemma_mul_bound(self.n2.x as int, bv as int, lim, 1024);
            lemma_mul_bound(self.n2.y as int, bv as int, lim, 1024);
            lemma_mul_bound(self.n2.z as int, bv as int, lim, 1024);
        }
        let c0 = self.n0.scale(bw as i64);
        let c1 = self.n1.scale(bu as i64);
        let c2 = self.n2.scale(bv as i64);
        let normal = c0.add(&c1).add(&c2).normalize();
        Some(HitRecord { t, point, normal, material: self.material })
    }
}

/// A ray parallel to the triangle's plane (orthogonal to its normal
/// `(v1 - v0) x (v2 - v0)`) never meets the triangle, wherever it starts.
pub proof fn lemma_parallel_misses(v0: V3, v1: V3, v2: V3, o: V3, d: V3, t_min: Ratio, t_max: Ratio)
    requires
        dot3(d, cross3(sub3(v1, v0), sub3(v2, v0))) == 0,
    ensures
        !triangle_hits(v0, v1, v2, o, d, t_min, t_max),
{
    let e1 = sub3(v1, v0);
    let e2 = sub3(v2, v0);
    lemma_triple(e1, d, e2);
    lemma_triple(e2, e1, d);
    lemma_triple(d, e2, e1);
    lemma_dot_bilinear(cross3(e1, e2), d, d, -1);
}

/// A ray along the triangle's normal through its centroid (the origin `o`
/// satisfies `3 (o - v0) = (v1 - v0) + (v2 - v0) + l * normal`) has
/// barycentric coordinates `u = v = w = 1/3`: all positive, adding up to one.
#[verifier::rlimit(40)]
pub proof fn lemma_centroid_weights(v0: V3, v1: V3, v2: V3, o: V3, l: int)
    requires
        cross3(sub3(v1, v0), sub3(v2, v0)) != zero3(),
        scale3(sub3(o, v0), 3) == add3(add3(sub3(v1, v0), sub3(v2, v0)),
            scale3(cross3(sub3(v1, v0), sub3(v2, v0)), l)),
    ensures
        ({
            let (a, u, v, t) = mt_terms(v0, v1, v2, o, cross3(sub3(v1, v0), sub3(v2, v0)));
            &&& a > 0
            &&& 3 * u == a
            &&& 3 * v == a
            &&& u > 0 && v > 0 && a - u - v > 0
        }),
{
    let e1 = sub3(v1, v0);
    let e2 = sub3(v2, v0);
    let n = cross3(e1, e2);
    let h = cross3(n, e2);
    let s = sub3(o, v0);
    let q = cross3(s, e1);
    let a = dot3(e1, h);
    let big = add3(add3(e1, e2), scale3(n, l));
    // 3 (s . h) == a
    lemma_dot_bilinear(s, h, h, 3);
    lemma_dot_bilinear(add3(e1, e2), scale3(n, l), h, l);
    lemma_dot_bilinear(e1, e2, h, l);
    lemma_dot_bilinear(n, h, h, l);
    lemma_triple(n, e2, e1);
    assert(dot3(scale3(n, l), h) == l * dot3(n, h));
    assert(dot3(e2, h) == 0);
    assert(dot3(n, h) == 0);
    assert(dot3(big, h) == a);
    assert(3 * dot3(s, h) == a);
    // 3 (n . q) == n . (e2 x e1)
    lemma_cross_linear(s, s, e1, 3);
    lemma_cross_linear(add3(e1, e2), scale3(n, l), e1, l);
    lemma_cross_linear(e1, e2, e1, l);
    lemma_cross_linear(n, n, e1, l);
    lemma_triple(e1, e1, e1);
    assert(cross3(e1, e1) == zero3()) by (nonlinear_arith);
    assert(cross3(big, e1) == scale3(q, 3));
    lemma_dot_bilinear(q, n, n, 3);
    lemma_dot_bilinear(add3(e1, e2), scale3(n, l), n, l);
    lemma_dot_bilinear(cross3(e1, e1), cross3(e2, e1), n, l);
    lemma_dot_bilinear(cross3(n, e1), n, n, l);
    lemma_dot_bilinear(add3(cross3(e1, e1), cross3(e2, e1)), scale3(cross3(n, e1), l), n, l);
    lemma_triple(n, e1, e1);
    assert(dot3(n, cross3(n, e1)) == 0);
    assert(dot3(n, scale3(cross3(n, e1), l)) == l * dot3(n, cross3(n, e1)));
    assert(dot3(n, add3(add3(cross3(e1, e1), cross3(e2, e1)), scale3(cross3(n, e1), l))) == dot3(n, cross3(e2, e1)));
    assert(3 * dot3(n, q) == dot3(n, cross3(e2, e1)));
    // a == n . (e2 x e1) == -|n|^2
    lemma_triple(e1, n, e2);
    assert(a == dot3(n, cross3(e2, e1)));
    lemma_triple(e2, e1, n);
    lemma_dot_bilinear(n, n, n, -1);
    assert(dot3(n, cross3(e2, e1)) == -len_sq3(n));
    lemma_len_sq_pos(n);
}

} // verus!
