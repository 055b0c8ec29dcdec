use vstd::prelude::*;

use crate::num::{is_isqrt, isqrt, lemma_sqrt_exists, sqrt_floor};

verus! {

/// A point or direction as three mathematical integers.
pub type V3 = (int, int, int);

/// Rust's truncating integer division by a positive divisor.
pub open spec fn trunc_div_pos(n: int, d: int) -> int {
    if n >= 0 { n / d } else { -((-n) / d) }
}

/// Rust's truncating integer division, as a mathematical function (`d != 0`).
pub open spec fn trunc_div(n: int, d: int) -> int {
    if d > 0 { trunc_div_pos(n, d) } else { -trunc_div_pos(n, -d) }
}

pub open spec fn add3(a: V3, b: V3) -> V3 {
    (a.0 + b.0, a.1 + b.1, a.2 + b.2)
}

pub open spec fn sub3(a: V3, b: V3) -> V3 {
    (a.0 - b.0, a.1 - b.1, a.2 - b.2)
}

pub open spec fn scale3(a: V3, k: int) -> V3 {
    (a.0 * k, a.1 * k, a.2 * k)
}

pub open spec fn mul3(a: V3, b: V3) -> V3 {
    (a.0 * b.0, a.1 * b.1, a.2 * b.2)
}

pub open spec fn div3(a: V3, d: int) -> V3 {
    (trunc_div(a.0, d), trunc_div(a.1, d), trunc_div(a.2, d))
}

pub open spec fn dot3(a: V3, b: V3) -> int {
    a.0 * b.0 + a.1 * b.1 + a.2 * b.2
}

pub open spec fn cross3(a: V3, b: V3) -> V3 {
    (a.1 * b.2 - a.2 * b.1, a.2 * b.0 - a.0 * b.2, a.0 * b.1 - a.1 * b.0)
}

pub open spec fn len_sq3(a: V3) -> int {
    dot3(a, a)
}

pub open spec fn zero3() -> V3 {
    (0, 0, 0)
}

/// Every component lies in `[-b, b]`.
pub open spec fn within(a: V3, b: int) -> bool {
    -b <= a.0 <= b && -b <= a.1 <= b && -b <= a.2 <= b
}

pub open spec fn in_i64(n: int) -> bool {
    i64::MIN <= n <= i64::MAX
}

pub open spec fn fits3(a: V3) -> bool {
    in_i64(a.0) && in_i64(a.1) && in_i64(a.2)
}

/// Fixed-point scale of a unit vector: a unit vector has length `UNIT`.
pub const UNIT: i64 = 1024;

/// The integer length of `a`: the floor of its Euclidean length.
pub open spec fn length3(a: V3) -> int {
    sqrt_floor(len_sq3(a))
}

/// The direction of `a` as a fixed-point vector of length about `UNIT`;
/// the zero vector stays zero.
pub open spec fn norm3(a: V3) -> V3 {
    if len_sq3(a) == 0 {
        zero3()
    } else {
        div3(scale3(a, UNIT * UNIT), sqrt_floor(len_sq3(a) * (UNIT * UNIT)))
    }
}

/// A component of a normalized vector is at most `UNIT` in magnitude: with
/// `c * c <= s` and `l = floor(sqrt(s * UNIT^2))`, `|c * UNIT^2 / l| <= UNIT`.
proof fn lemma_component_unit(c: int, s: int, l: int)
    requires
        c * c <= s,
        s * (UNIT * UNIT) < (l + 1) * (l + 1),
        l >= 1,
    ensures
        c * c <= s ==> -(UNIT as int) <= trunc_div(c * (UNIT * UNIT), l) <= UNIT,
{
    let m: int = if c >= 0 { c } else { -c };
    let u: int = UNIT as int;
    assert(m * m == c * c) by (nonlinear_arith)
        requires m == (if c >= 0 { c } else { -c });
    assert(m * u <= l) by (nonlinear_arith)
        requires m * m <= s, s * (u * u) < (l + 1) * (l + 1), l >= 1, m >= 0, u == 1024;
    assert((m * (u * u)) / l <= u) by (nonlinear_arith)
        requires m * u <= l, l >= 1, m >= 0, u == 1024;
    if c >= 0 {
        assert(c * (u * u) == m * (u * u));
    } else {
        assert(-(c * (u * u)) == m * (u * u)) by (nonlinear_arith)
            requires m == -c;
    }
}

/// `|a * b| <= x * y` whenever `|a| <= x` and `|b| <= y`.
pub proof fn lemma_mul_bound(a: int, b: int, x: int, y: int)
    requires
        -x <= a <= x,
        -y <= b <= y,
    ensures
        -(x * y) <= a * b <= x * y,
{
    assert(-(x * y) <= a * b <= x * y) by (nonlinear_arith)
        requires -x <= a <= x, -y <= b <= y;
}

/// Truncating division of one component.
fn div_trunc(n: i64, d: i64) -> (r: i64)
    requires
        d != 0,
        d != i64::MIN,
        !(n == i64::MIN && d == -1),
    ensures
        r as int == trunc_div(n as int, d as int),
{
    if d > 0 {
        n / d
    } else {
        let e: i64 = -d;
        let q: i64 = n / e;
        assert(q as int == trunc_div_pos(n as int, e as int));
        if e == 1 {
            assert((n as int) / 1 == n as int);
            assert((-(n as int)) / 1 == -(n as int));
            assert(q == n);
        } else {
            assert(q > i64::MIN) by (nonlinear_arith)
                requires
                    q as int == trunc_div_pos(n as int, e as int),
                    e >= 2,
                    n >= i64::MIN,
            {
                if n < 0 {
                    assert((-(n as int)) / (e as int) <= -(n as int));
                }
            }
        }
        -q
    }
}

/// A three-component integer vector.
#[derive(Clone, Copy, Debug, PartialEq, Eq, Structural)]
pub struct Vec3 {
    pub x: i64,
    pub y: i64,
    pub z: i64,
}

impl View for Vec3 {
    type V = V3;

    open spec fn view(&self) -> V3 {
        (self.x as int, self.y as int, self.z as int)
    }
}

impl Vec3 {
    pub fn new(x: i64, y: i64, z: i64) -> (r: Vec3)
        ensures
            r@ == (x as int, y as int, z as int),
    {
        Vec3 { x, y, z }
    }

    pub fn zero() -> (r: Vec3)
        ensures
            r@ == zero3(),
    {
        Vec3 { x: 0, y: 0, z: 0 }
    }

    pub fn add(&self, o: &Vec3) -> (r: Vec3)
        requires
            fits3(add3(self@, o@)),
        ensures
            r@ == add3(self@, o@),
    {
        Vec3 { x: self.x + o.x, y: self.y + o.y, z: self.z + o.z }
    }

    pub fn sub(&self, o: &Vec3) -> (r: Vec3)
        requires
            fits3(sub3(self@, o@)),
        ensures
            r@ == sub3(self@, o@),
    {
        Vec3 { x: self.x - o.x, y: self.y - o.y, z: self.z - o.z }
    }

    /// Multiplication by a scalar.
    pub fn scale(&self, k: i64) -> (r: Vec3)
        requires
            fits3(scale3(self@, k as int)),
        ensures
            r@ == scale3(self@, k as int),
    {
        Vec3 { x: self.x * k, y: self.y * k, z: self.z * k }
    }

    /// Component-wise multiplication.
    pub fn mul(&self, o: &Vec3) -> (r: Vec3)
        requires
            fits3(mul3(self@, o@)),
        ensures
            r@ == mul3(self@, o@),
    {
        Vec3 { x: self.x * o.x, y: self.y * o.y, z: self.z * o.z }
    }

    /// Division by a scalar, truncating each component toward zero.
    /// Division by zero is not allowed.
    pub fn div(&self, d: i64) -> (r: Vec3)
        requires
            d != 0,
            d != i64::MIN,
            d == -1 ==> self.x != i64::MIN && self.y != i64::MIN && self.z != i64::MIN,
        ensures
            r@ == div3(self@, d as int),
    {
        Vec3 { x: div_trunc(self.x, d), y: div_trunc(self.y, d), z: div_trunc(self.z, d) }
    }

    pub fn dot(&self, o: &Vec3) -> (r: i128)
        requires
            within(self@, 0x1000_0000_0000_0000),
            within(o@, 0x1000_0000_0000_0000),
        ensures
            r as int == dot3(self@, o@),
    {
        let ghost b: int = 0x1000_0000_0000_0000;
        proof {
            lemma_mul_bound(self.x as int, o.x as int, b, b);
            lemma_mul_bound(self.y as int, o.y as int, b, b);
            lemma_mul_bound(self.z as int, o.z as int, b, b);
        }
        (self.x as i128) * (o.x as i128) + (self.y as i128) * (o.y as i128) + (self.z as i128) * (
        o.z as i128)
    }

    pub fn cross(&self, o: &Vec3) -> (r: Vec3)
        requires
            within(self@, 0x4000_0000),
            within(o@, 0x4000_0000),
        ensures
            r@ == cross3(self@, o@),
    {
        let ghost b: int = 0x4000_0000;
        proof {
            lemma_mul_bound(self.x as int, o.y as int, b, b);
            lemma_mul_bound(self.x as int, o.z as int, b, b);
            lemma_mul_bound(self.y as int, o.x as int, b, b);
            lemma_mul_bound(self.y as int, o.z as int, b, b);
            lemma_mul_bound(self.z as int, o.x as int, b, b);
            lemma_mul_bound(self.z as int, o.y as int, b, b);
        }
        Vec3 {
            x: self.y * o.z - self.z * o.y,
            y: self.z * o.x - self.x * o.z,
            z: self.x * o.y - self.y * o.x,
        }
    }

    pub fn length(&self) -> (r: i128)
        requires
            within(self@, 0x1000_0000_0000_0000),
        ensures
            r as int == length3(self@),
    {
        let s = self.length_squared();
        isqrt(s as u128) as i128
    }

    /// Scales the vector to length about `UNIT`; the zero vector is returned unchanged.
    pub fn normalize(&self) -> (r: Vec3)
        requires
            within(self@, 0x400_0000_0000),
        ensures
            r@ == norm3(self@),
            self@ == zero3() ==> r@ == zero3(),
            within(r@, UNIT as int),
    {
        let ghost b: int = 0x400_0000_0000;
        let s = self.length_squared();
        proof {
            lemma_mul_bound(self.x as int, self.x as int, b, b);
            lemma_mul_bound(self.y as int, self.y as int, b, b);
            lemma_mul_bound(self.z as int, self.z as int, b, b);
        }
        if s == 0 {
            return Vec3::zero();
        }
        let l = isqrt((s as u128) * ((UNIT * UNIT) as u128));
        assert(l <= 0x40_0000_0000_0000) by (nonlinear_arith)
            requires
                l * l <= s * (UNIT * UNIT),
                s <= 3 * b * b,
                b == 0x400_0000_0000,
                UNIT == 1024;
        assert(l >= 1) by (nonlinear_arith)
            requires
                s * (UNIT * UNIT) < (l + 1) * (l + 1),
                s >= 1,
                UNIT == 1024,
                l >= 0;
        let k: i64 = UNIT * UNIT;
        let u = self.scale(k);
        proof {
            assert(self.x * self.x <= s && self.y * self.y <= s && self.z * self.z <= s) by (
            nonlinear_arith)
                requires s == self.x * self.x + self.y * self.y + self.z * self.z;
            lemma_component_unit(self.x as int, s as int, l as int);
            lemma_component_unit(self.y as int, s as int, l as int);
            lemma_component_unit(self.z as int, s as int, l as int);
        }
        u.div(l as i64)
    }

    pub fn length_squared(&self) -> (r: i128)
        requires
            within(self@, 0x1000_0000_0000_0000),
        ensures
            r as int == len_sq3(self@),
            r >= 0,
    {
        proof {
            assert(len_sq3(self@) >= 0) by (nonlinear_arith)
                requires len_sq3(self@) == self.x * self.x + self.y * self.y + self.z * self.z;
        }
        self.dot(self)
    }
}

/// Vector addition is commutative.
pub proof fn lemma_add_commutative(a: V3, b: V3)
    ensures
        add3(a, b) == add3(b, a),
{
}

/// Vector addition is associative, and the zero vector is its identity.
pub proof fn lemma_add_associative(a: V3, b: V3, c: V3)
    ensures
        add3(add3(a, b), c) == add3(a, add3(b, c)),
        add3(a, zero3()) == a,
{
}

/// Subtracting what was added gives back the first vector, and
/// subtraction associates with addition: `(a + b) - c == a + (b - c)`.
pub proof fn lemma_sub_add(a: V3, b: V3, c: V3)
    ensures
        sub3(add3(a, b), b) == a,
        sub3(add3(a, b), c) == add3(a, sub3(b, c)),
{
}

/// The cross product of a vector with itself is the zero vector.
pub proof fn lemma_cross_self_zero(a: V3)
    ensures
        cross3(a, a) == zero3(),
{
    assert(a.1 * a.2 - a.2 * a.1 == 0) by (nonlinear_arith);
    assert(a.2 * a.0 - a.0 * a.2 == 0) by (nonlinear_arith);
    assert(a.0 * a.1 - a.1 * a.0 == 0) by (nonlinear_arith);
}

/// The dot product is symmetric and linear in each argument.
#[verifier::rlimit(40)]
pub proof fn lemma_dot_bilinear(a: V3, b: V3, c: V3, k: int)
    ensures
        dot3(a, b) == dot3(b, a),
        dot3(add3(a, b), c) == dot3(a, c) + dot3(b, c),
        dot3(c, add3(a, b)) == dot3(c, a) + dot3(c, b),
        dot3(scale3(a, k), b) == k * dot3(a, b),
        dot3(b, scale3(a, k)) == k * dot3(b, a),
{
    assert(dot3(a, b) == dot3(b, a)) by (nonlinear_arith);
    assert(dot3(add3(a, b), c) == dot3(a, c) + dot3(b, c)) by (nonlinear_arith);
    assert(dot3(c, add3(a, b)) == dot3(c, a) + dot3(c, b)) by (nonlinear_arith);
    assert((a.0 * k) * b.0 == k * (a.0 * b.0)) by (nonlinear_arith);
    assert((a.1 * k) * b.1 == k * (a.1 * b.1)) by (nonlinear_arith);
    assert((a.2 * k) * b.2 == k * (a.2 * b.2)) by (nonlinear_arith);
    assert(k * (a.0 * b.0) + k * (a.1 * b.1) + k * (a.2 * b.2) == k * (a.0 * b.0 + a.1 * b.1
        + a.2 * b.2)) by (nonlinear_arith);
    assert(dot3(scale3(a, k), b) == k * dot3(a, b));
    assert(b.0 * (a.0 * k) == k * (b.0 * a.0)) by (nonlinear_arith);
    assert(b.1 * (a.1 * k) == k * (b.1 * a.1)) by (nonlinear_arith);
    assert(b.2 * (a.2 * k) == k * (b.2 * a.2)) by (nonlinear_arith);
    assert(k * (b.0 * a.0) + k * (b.1 * a.1) + k * (b.2 * a.2) == k * (b.0 * a.0 + b.1 * a.1
        + b.2 * a.2)) by (nonlinear_arith);
    assert(dot3(b, scale3(a, k)) == k * dot3(b, a));
}

/// Bound on the components of a cross product.
pub proof fn lemma_cross_bound(a: V3, b: V3, x: int, y: int)
    requires
        within(a, x),
        within(b, y),
    ensures
        within(cross3(a, b), 2 * (x * y)),
{
    lemma_mul_bound(a.0, b.1, x, y);
    lemma_mul_bound(a.0, b.2, x, y);
    lemma_mul_bound(a.1, b.0, x, y);
    lemma_mul_bound(a.1, b.2, x, y);
    lemma_mul_bound(a.2, b.0, x, y);
    lemma_mul_bound(a.2, b.1, x, y);
}

/// The scalar triple product is invariant under cyclic rotation, and a
/// vector is orthogonal to its cross product with any other.
#[verifier::rlimit(40)]
pub proof fn lemma_triple(a: V3, b: V3, c: V3)
    ensures
        dot3(a, cross3(b, c)) == dot3(b, cross3(c, a)),
        dot3(a, cross3(a, b)) == 0,
        dot3(b, cross3(a, b)) == 0,
        cross3(a, b) == scale3(cross3(b, a), -1),
{
    let t = a.0 * b.1 * c.2 - a.0 * b.2 * c.1 + a.1 * b.2 * c.0 - a.1 * b.0 * c.2 + a.2 * b.0 * c.1
        - a.2 * b.1 * c.0;
    assert(a.0 * (b.1 * c.2 - b.2 * c.1) == a.0 * b.1 * c.2 - a.0 * b.2 * c.1) by (nonlinear_arith);
    assert(a.1 * (b.2 * c.0 - b.0 * c.2) == a.1 * b.2 * c.0 - a.1 * b.0 * c.2) by (nonlinear_arith);
    assert(a.2 * (b.0 * c.1 - b.1 * c.0) == a.2 * b.0 * c.1 - a.2 * b.1 * c.0) by (nonlinear_arith);
    assert(b.0 * (c.1 * a.2 - c.2 * a.1) == a.2 * b.0 * c.1 - a.1 * b.0 * c.2) by (nonlinear_arith);
    assert(b.1 * (c.2 * a.0 - c.0 * a.2) == a.0 * b.1 * c.2 - a.2 * b.1 * c.0) by (nonlinear_arith);
    assert(b.2 * (c.0 * a.1 - c.1 * a.0) == a.1 * b.2 * c.0 - a.0 * b.2 * c.1) by (nonlinear_arith);
    assert(dot3(a, cross3(b, c)) == t);
    assert(dot3(b, cross3(c, a)) == t);
    assert(dot3(a, cross3(a, b)) == 0) by (nonlinear_arith);
    assert(dot3(b, cross3(a, b)) == 0) by (nonlinear_arith);
}

/// The cross product is linear in its first argument.
#[verifier::rlimit(40)]
pub proof fn lemma_cross_linear(a: V3, b: V3, c: V3, k: int)
    ensures
        cross3(add3(a, b), c) == add3(cross3(a, c), cross3(b, c)),
        cross3(scale3(a, k), c) == scale3(cross3(a, c), k),
{
    assert((a.1 + b.1) * c.2 - (a.2 + b.2) * c.1 == (a.1 * c.2 - a.2 * c.1) + (b.1 * c.2 - b.2 * c.1)) by (nonlinear_arith);
    assert((a.2 + b.2) * c.0 - (a.0 + b.0) * c.2 == (a.2 * c.0 - a.0 * c.2) + (b.2 * c.0 - b.0 * c.2)) by (nonlinear_arith);
    assert((a.0 + b.0) * c.1 - (a.1 + b.1) * c.0 == (a.0 * c.1 - a.1 * c.0) + (b.0 * c.1 - b.1 * c.0)) by (nonlinear_arith);
    assert((a.1 * k) * c.2 - (a.2 * k) * c.1 == (a.1 * c.2 - a.2 * c.1) * k) by (nonlinear_arith);
    assert((a.2 * k) * c.0 - (a.0 * k) * c.2 == (a.2 * c.0 - a.0 * c.2) * k) by (nonlinear_arith);
    assert((a.0 * k) * c.1 - (a.1 * k) * c.0 == (a.0 * c.1 - a.1 * c.0) * k) by (nonlinear_arith);
}

/// A nonzero vector has a positive squared length.
pub proof fn lemma_len_sq_pos(a: V3)
    requires
        a != zero3(),
    ensures
        len_sq3(a) > 0,
{
    assert(len_sq3(a) > 0) by (nonlinear_arith)
        requires a.0 != 0 || a.1 != 0 || a.2 != 0;
}

/// `(trunc(x / l) * l)^2 <= x^2` for `l > 0`.
proof fn lemma_trunc_div_sq(x: int, l: int)
    requires
        l > 0,
    ensures
        (trunc_div(x, l) * l) * (trunc_div(x, l) * l) <= x * x,
{
    let q = trunc_div(x, l);
    if x >= 0 {
        assert(0 <= q * l <= x) by (nonlinear_arith)
            requires q == x / l, x >= 0, l > 0;
        assert((q * l) * (q * l) <= x * x) by (nonlinear_arith)
            requires 0 <= q * l <= x;
    } else {
        let y = -x;
        assert(0 <= (y / l) * l <= y) by (nonlinear_arith)
            requires y >= 0, l > 0;
        assert(q * l == -((y / l) * l)) by (nonlinear_arith)
            requires q == -(y / l);
        assert((q * l) * (q * l) <= x * x) by (nonlinear_arith)
            requires q * l == -((y / l) * l), 0 <= (y / l) * l <= y, y == -x;
    }
}

/// Normalizing never gives a vector longer than `UNIT`: its squared length
/// is below `(UNIT + 1)^2`.
#[verifier::rlimit(40)]
pub proof fn lemma_normalize_at_most_unit(v: V3)
    ensures
        len_sq3(norm3(v)) < (UNIT + 1) * (UNIT + 1),
{
    let s = len_sq3(v);
    let u: int = UNIT as int;
    if s != 0 {
        assert(s > 0) by (nonlinear_arith)
            requires s == v.0 * v.0 + v.1 * v.1 + v.2 * v.2, s != 0;
        assert(s * (u * u) >= 0) by (nonlinear_arith)
            requires s > 0;
        lemma_sqrt_exists(s * (u * u));
        let l = sqrt_floor(s * (u * u));
        assert(l >= u) by (nonlinear_arith)
            requires is_isqrt(s * (u * u), l), s >= 1, u == 1024;
        let n = norm3(v);
        lemma_trunc_div_sq(v.0 * (u * u), l);
        lemma_trunc_div_sq(v.1 * (u * u), l);
        lemma_trunc_div_sq(v.2 * (u * u), l);
        assert(n == (trunc_div(v.0 * (u * u), l), trunc_div(v.1 * (u * u), l), trunc_div(v.2 * (u * u), l)));
        let uu = u * u;
        assert((n.0 * l) * (n.0 * l) == (n.0 * n.0) * (l * l)) by (nonlinear_arith);
        assert((n.1 * l) * (n.1 * l) == (n.1 * n.1) * (l * l)) by (nonlinear_arith);
        assert((n.2 * l) * (n.2 * l) == (n.2 * n.2) * (l * l)) by (nonlinear_arith);
        assert((v.0 * uu) * (v.0 * uu) == (v.0 * v.0) * (uu * uu)) by (nonlinear_arith);
        assert((v.1 * uu) * (v.1 * uu) == (v.1 * v.1) * (uu * uu)) by (nonlinear_arith);
        assert((v.2 * uu) * (v.2 * uu) == (v.2 * v.2) * (uu * uu)) by (nonlinear_arith);
        assert(len_sq3(n) * (l * l) == (n.0 * n.0) * (l * l) + (n.1 * n.1) * (l * l) + (n.2 * n.2) * (l * l)) by (nonlinear_arith);
        assert(s * (uu * uu) == (v.0 * v.0) * (uu * uu) + (v.1 * v.1) * (uu * uu) + (v.2 * v.2) * (uu * uu)) by (nonlinear_arith)
            requires s == v.0 * v.0 + v.1 * v.1 + v.2 * v.2;
        assert(s * (u * u) * (u * u) == s * (uu * uu)) by (nonlinear_arith)
            requires uu == u * u;
        assert(len_sq3(n) * (l * l) <= s * (u * u) * (u * u));
        assert(len_sq3(n) >= 0) by (nonlinear_arith)
            requires len_sq3(n) == n.0 * n.0 + n.1 * n.1 + n.2 * n.2;
        assert(s * (u * u) * (u * u) < (l + 1) * (l + 1) * (u * u)) by (nonlinear_arith)
            requires s * (u * u) < (l + 1) * (l + 1), u == 1024;
        assert(len_sq3(n) < (u + 1) * (u + 1)) by (nonlinear_arith)
            requires
                len_sq3(n) * (l * l) < (l + 1) * (l + 1) * (u * u),
                l >= u,
                u == 1024,
                len_sq3(n) >= 0;
    }
}

/// Rounding toward zero loses less than one divisor:
/// `(trunc(c / l) * l)^2 >= |c|^2 - 2 |c| l` for `l > 0`.
proof fn lemma_trunc_div_sq_lower(c: int, l: int)
    requires
        l > 0,
    ensures
        (trunc_div(c, l) * l) * (trunc_div(c, l) * l) >= c * c - 2 * (if c >= 0 { c } else { -c }) * l,
{
    let x: int = if c >= 0 { c } else { -c };
    vstd::arithmetic::div_mod::lemma_fundamental_div_mod(x, l);
    let r = x % l;
    let f = x / l;
    assert(f * l == x - r) by (nonlinear_arith)
        requires x == l * f + r;
    assert((x - r) * (x - r) >= x * x - 2 * x * l) by (nonlinear_arith)
        requires 0 <= r < l, x >= 0;
    let q = trunc_div(c, l);
    if c >= 0 {
        assert(q == f);
    } else {
        assert(q == -f);
        assert((q * l) * (q * l) == (f * l) * (f * l)) by (nonlinear_arith)
            requires q == -f;
    }
    assert(x * x == c * c) by (nonlinear_arith)
        requires x == (if c >= 0 { c } else { -c });
}

/// Normalizing a nonzero vector gives a vector of length at least
/// `UNIT - 3`: its squared length is at least `(UNIT - 3)^2`.
#[verifier::rlimit(40)]
pub proof fn lemma_normalize_at_least_unit(v: V3)
    requires
        v != zero3(),
    ensures
        len_sq3(norm3(v)) >= (UNIT - 3) * (UNIT - 3),
{
    let s = len_sq3(v);
    let u: int = UNIT as int;
    let uu = u * u;
    lemma_len_sq_pos(v);
    assert(s * uu >= 0) by (nonlinear_arith)
        requires s > 0, uu == u * u;
    lemma_sqrt_exists(s * uu);
    let l = sqrt_floor(s * uu);
    assert(l >= u) by (nonlinear_arith)
        requires is_isqrt(s * uu, l), s >= 1, u == 1024, uu == u * u;
    let n = norm3(v);
    assert(n == (trunc_div(v.0 * uu, l), trunc_div(v.1 * uu, l), trunc_div(v.2 * uu, l)));
    let a0: int = if v.0 >= 0 { v.0 } else { -v.0 };
    let a1: int = if v.1 >= 0 { v.1 } else { -v.1 };
    let a2: int = if v.2 >= 0 { v.2 } else { -v.2 };
    lemma_trunc_div_sq_lower(v.0 * uu, l);
    lemma_trunc_div_sq_lower(v.1 * uu, l);
    lemma_trunc_div_sq_lower(v.2 * uu, l);
    assert((if v.0 * uu >= 0 { v.0 * uu } else { -(v.0 * uu) }) == a0 * uu) by (nonlinear_arith)
        requires a0 == (if v.0 >= 0 { v.0 } else { -v.0 }), uu > 0;
    assert((if v.1 * uu >= 0 { v.1 * uu } else { -(v.1 * uu) }) == a1 * uu) by (nonlinear_arith)
        requires a1 == (if v.1 >= 0 { v.1 } else { -v.1 }), uu > 0;
    assert((if v.2 * uu >= 0 { v.2 * uu } else { -(v.2 * uu) }) == a2 * uu) by (nonlinear_arith)
        requires a2 == (if v.2 >= 0 { v.2 } else { -v.2 }), uu > 0;
    // Sum of the three component bounds.
    assert((n.0 * l) * (n.0 * l) == (n.0 * n.0) * (l * l)) by (nonlinear_arith);
    assert((n.1 * l) * (n.1 * l) == (n.1 * n.1) * (l * l)) by (nonlinear_arith);
    assert((n.2 * l) * (n.2 * l) == (n.2 * n.2) * (l * l)) by (nonlinear_arith);
    assert((v.0 * uu) * (v.0 * uu) == (v.0 * v.0) * (uu * uu)) by (nonlinear_arith);
    assert((v.1 * uu) * (v.1 * uu) == (v.1 * v.1) * (uu * uu)) by (nonlinear_arith);
    assert((v.2 * uu) * (v.2 * uu) == (v.2 * v.2) * (uu * uu)) by (nonlinear_arith);
    let sa = a0 + a1 + a2;
    assert(a0 * a0 == v.0 * v.0 && a1 * a1 == v.1 * v.1 && a2 * a2 == v.2 * v.2) by (nonlinear_arith)
        requires
            a0 == (if v.0 >= 0 { v.0 } else { -v.0 }),
            a1 == (if v.1 >= 0 { v.1 } else { -v.1 }),
            a2 == (if v.2 >= 0 { v.2 } else { -v.2 });
    let ll = l * l;
    let u4 = uu * uu;
    assert(len_sq3(n) * ll == (n.0 * n.0) * ll + (n.1 * n.1) * ll + (n.2 * n.2) * ll) by (nonlinear_arith)
        requires len_sq3(n) == n.0 * n.0 + n.1 * n.1 + n.2 * n.2;
    assert(s * u4 == (v.0 * v.0) * u4 + (v.1 * v.1) * u4 + (v.2 * v.2) * u4) by (nonlinear_arith)
        requires s == v.0 * v.0 + v.1 * v.1 + v.2 * v.2;
    assert(2 * (sa * uu) * l == 2 * (a0 * uu) * l + 2 * (a1 * uu) * l + 2 * (a2 * uu) * l) by (nonlinear_arith)
        requires sa == a0 + a1 + a2;
    assert(len_sq3(n) * (l * l) >= s * (uu * uu) - 2 * (sa * uu) * l);
    // Cauchy-Schwarz: (a0 + a1 + a2)^2 <= 3 s, so sa * u < 2 (l + 1).
    assert(sa * sa <= 3 * s) by (nonlinear_arith)
        requires
            s == v.0 * v.0 + v.1 * v.1 + v.2 * v.2,
            a0 * a0 == v.0 * v.0,
            a1 * a1 == v.1 * v.1,
            a2 * a2 == v.2 * v.2,
            sa == a0 + a1 + a2;
    assert((sa * u) * (sa * u) < (2 * (l + 1)) * (2 * (l + 1))) by (nonlinear_arith)
        requires sa * sa <= 3 * s, s * uu < (l + 1) * (l + 1), uu == u * u, u == 1024;
    assert(sa * u < 2 * (l + 1)) by (nonlinear_arith)
        requires (sa * u) * (sa * u) < (2 * (l + 1)) * (2 * (l + 1)), l >= 0, sa >= 0, u > 0;
    assert(s * (uu * uu) >= (l * l) * uu) by (nonlinear_arith)
        requires l * l <= s * uu, uu > 0;
    assert(2 * (sa * uu) * l <= 4 * u * (l + 1) * l) by (nonlinear_arith)
        requires sa * u < 2 * (l + 1), uu == u * u, u > 0, l >= 0;
    assert(len_sq3(n) * (l * l) >= (uu - 4 * u - 4) * (l * l)) by (nonlinear_arith)
        requires
            len_sq3(n) * (l * l) >= s * (uu * uu) - 2 * (sa * uu) * l,
            s * (uu * uu) >= (l * l) * uu,
            2 * (sa * uu) * l <= 4 * u * (l + 1) * l,
            l >= u,
            u == 1024,
            uu == u * u;
    assert(len_sq3(n) >= uu - 4 * u - 4) by (nonlinear_arith)
        requires len_sq3(n) * (l * l) >= (uu - 4 * u - 4) * (l * l), l >= 1;
}

/// Bound on a dot product.
pub proof fn lemma_dot_bound(a: V3, b: V3, x: int, y: int)
    requires
        within(a, x),
        within(b, y),
    ensures
        -(3 * (x * y)) <= dot3(a, b) <= 3 * (x * y),
{
    lemma_mul_bound(a.0, b.0, x, y);
    lemma_mul_bound(a.1, b.1, x, y);
    lemma_mul_bound(a.2, b.2, x, y);
}

} // verus!
