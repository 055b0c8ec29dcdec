use vstd::prelude::*;

use crate::vec3::{add3, div3, lemma_mul_bound, scale3, trunc_div, within, V3, Vec3};

verus! {

/// Largest magnitude of a coordinate of a scene position: of a light, a
/// camera, a vertex or normal of a triangle, a sphere's center or radius.
pub const COORD_LIMIT: i64 = 65536;

/// Largest magnitude of a coordinate of a ray's origin or direction. It is
/// large enough for every shadow ray of a hit that a camera ray finds.
pub const RAY_LIMIT: i64 = 1048576;

/// Largest parameter (in magnitude) along a ray that a query may ask about.
pub const T_FAR: i128 = 1048576;

/// A point or direction inside the scene's coordinate box.
pub open spec fn in_box(a: V3) -> bool {
    within(a, COORD_LIMIT as int)
}

/// A rational number `num / den` with a positive denominator: a distance along a ray.
#[derive(Clone, Copy, Debug, PartialEq, Eq, Structural)]
pub struct Ratio {
    pub num: i128,
    pub den: i128,
}

/// Bound on the numerator and denominator of a `Ratio`, so that two may be
/// compared by cross multiplication.
pub open spec fn ratio_bound() -> int {
    0x4000_0000_0000_0000
}

impl Ratio {
    pub open spec fn wf(&self) -> bool {
        0 < self.den <= ratio_bound() && -ratio_bound() <= self.num <= ratio_bound()
    }

    /// The exact value, as a pair to be compared by cross multiplication.
    pub open spec fn lt(&self, o: &Ratio) -> bool {
        self.num * o.den < o.num * self.den
    }

    pub fn new(num: i128, den: i128) -> (r: Ratio)
        ensures
            r.num == num && r.den == den,
    {
        Ratio { num, den }
    }

    pub fn less(&self, o: &Ratio) -> (r: bool)
        requires
            self.wf(),
            o.wf(),
        ensures
            r == self.lt(o),
    {
        proof {
            lemma_mul_bound(self.num as int, o.den as int, ratio_bound(), ratio_bound());
            lemma_mul_bound(o.num as int, self.den as int, ratio_bound(), ratio_bound());
        }
        self.num * o.den < o.num * self.den
    }
}

/// A query interval of ray parameters: `t_min < t < t_max`, with `t_max` at most `T_FAR`.
pub open spec fn valid_range(t_min: Ratio, t_max: Ratio) -> bool {
    t_min.wf() && t_max.wf() && t_max.num <= T_FAR * t_max.den && 0 <= t_min.num
}

/// `t_min < n / d < t_max`, for `d > 0`.
pub open spec fn in_range_q(n: int, d: int, t_min: Ratio, t_max: Ratio) -> bool {
    t_min.num * d < n * t_min.den && n * t_max.den < t_max.num * d
}

/// `t_min < t < t_max`.
pub open spec fn in_range(t: Ratio, t_min: Ratio, t_max: Ratio) -> bool {
    in_range_q(t.num as int, t.den as int, t_min, t_max)
}

/// The point `origin + direction * t`, each component truncated toward zero.
pub open spec fn at3(origin: V3, direction: V3, t: Ratio) -> V3 {
    add3(origin, div3(scale3(direction, t.num as int), t.den as int))
}

/// A ray: an origin and a direction, which need not have unit length.
#[derive(Clone, Copy, Debug, PartialEq, Eq, Structural)]
pub struct Ray {
    pub origin: Vec3,
    pub direction: Vec3,
}

impl Ray {
    /// Both the origin and the direction lie within `RAY_LIMIT`.
    pub open spec fn wf(&self) -> bool {
        within(self.origin@, RAY_LIMIT as int) && within(self.direction@, RAY_LIMIT as int)
    }

    pub fn new(origin: Vec3, direction: Vec3) -> (r: Ray)
        ensures
            r.origin == origin && r.direction == direction,
    {
        Ray { origin, direction }
    }

    /// The point at parameter `t`, for `|t| <= T_FAR`.
    pub fn at(&self, t: &Ratio) -> (r: Vec3)
        requires
            self.wf(),
            t.wf(),
            -T_FAR * t.den <= t.num <= T_FAR * t.den,
        ensures
            r@ == at3(self.origin@, self.direction@, *t),
            within(r@, 0x200_0000_0000),
    {
        let d = self.direction;
        let x = component_at(d.x, t);
        let y = component_at(d.y, t);
        let z = component_at(d.z, t);
        Vec3 { x: self.origin.x + x, y: self.origin.y + y, z: self.origin.z + z }
    }
}

/// `c * t`, truncated toward zero, for a coordinate `c` and `|t| <= T_FAR`.
fn component_at(c: i64, t: &Ratio) -> (r: i64)
    requires
        -RAY_LIMIT <= c <= RAY_LIMIT,
        t.wf(),
        -T_FAR * t.den <= t.num <= T_FAR * t.den,
    ensures
        r as int == trunc_div(c as int * t.num as int, t.den as int),
        -0x100_0000_0000 <= r <= 0x100_0000_0000,
{
    let ghost lim: int = RAY_LIMIT as int;
    proof {
        lemma_mul_bound(c as int, t.num as int, lim, ratio_bound());
    }
    let p: i128 = (c as i128) * t.num;
    let q: i128 = if p >= 0 { p / t.den } else { -((-p) / t.den) };
    proof {
        let dd = t.den as int;
        let pm: int = if p >= 0 { p as int } else { -(p as int) };
        assert(-(T_FAR * dd) <= t.num <= T_FAR * dd) by (nonlinear_arith)
            requires -T_FAR * dd <= t.num <= T_FAR * dd;
        lemma_mul_bound(c as int, t.num as int, lim, T_FAR * dd);
        assert(pm <= lim * (T_FAR * dd));
        assert(pm / dd <= lim * T_FAR) by (nonlinear_arith)
            requires pm <= lim * (T_FAR * dd), dd > 0, pm >= 0;
    }
    q as i64
}

/// A parameter found inside a query interval may itself close a narrower interval.
pub proof fn lemma_narrow(t_min: Ratio, t: Ratio, t_max: Ratio)
    requires
        valid_range(t_min, t_max),
        t.wf(),
        in_range(t, t_min, t_max),
    ensures
        valid_range(t_min, t),
{
    assert(t.num <= T_FAR * t.den) by (nonlinear_arith)
        requires
            t.num * t_max.den < t_max.num * t.den,
            t_max.num <= T_FAR * t_max.den,
            t.den > 0,
            t_max.den > 0;
}

/// The order of parameters is transitive: `b < a <= c` gives `b <= c`.
pub proof fn lemma_not_lt_trans(a: Ratio, b: Ratio, c: Ratio)
    requires
        a.den > 0,
        b.den > 0,
        c.den > 0,
        b.lt(&a),
        !c.lt(&a),
    ensures
        !c.lt(&b),
{
    assert(!(c.num * b.den < b.num * c.den)) by (nonlinear_arith)
        requires
            b.num * a.den < a.num * b.den,
            c.num * a.den >= a.num * c.den,
            a.den > 0,
            b.den > 0,
            c.den > 0;
}

/// The order of parameters is transitive.
pub proof fn lemma_lt_trans(a: Ratio, b: Ratio, c: Ratio)
    requires
        a.den > 0,
        b.den > 0,
        c.den > 0,
        a.lt(&b),
        b.lt(&c),
    ensures
        a.lt(&c),
{
    assert(a.num * c.den < c.num * a.den) by (nonlinear_arith)
        requires
            a.num * b.den < b.num * a.den,
            b.num * c.den < c.num * b.den,
            a.den > 0,
            b.den > 0,
            c.den > 0;
}

/// `<=` on parameters is transitive.
pub proof fn lemma_le_trans(a: Ratio, b: Ratio, c: Ratio)
    requires
        a.den > 0,
        b.den > 0,
        c.den > 0,
        !b.lt(&a),
        !c.lt(&b),
    ensures
        !c.lt(&a),
{
    assert(!(c.num * a.den < a.num * c.den)) by (nonlinear_arith)
        requires
            b.num * a.den >= a.num * b.den,
            c.num * b.den >= b.num * c.den,
            a.den > 0,
            b.den > 0,
            c.den > 0;
}

/// `a < b <= c` gives `a < c`.
pub proof fn lemma_lt_le_trans(a: Ratio, b: Ratio, c: Ratio)
    requires
        a.den > 0,
        b.den > 0,
        c.den > 0,
        a.lt(&b),
        !c.lt(&b),
    ensures
        a.lt(&c),
{
    assert(a.num * c.den < c.num * a.den) by (nonlinear_arith)
        requires
            a.num * b.den < b.num * a.den,
            c.num * b.den >= b.num * c.den,
            a.den > 0,
            b.den > 0,
            c.den > 0;
}

} // verus!
