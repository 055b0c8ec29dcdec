use vstd::prelude::*;

use crate::camera::{view_direction, Camera};
use crate::material::{color_within, COLOR_ONE, LIGHT_LIMIT};
use crate::num::{isqrt, sqrt_floor};
use crate::ray::Ray;
use crate::scene::{vec_of, Scene};
use crate::vec3::{add3, norm3, zero3, V3, Vec3, UNIT};

verus! {

/// Samples along each side of a pixel's grid: the integer square root of the
/// requested count, and at least one.
pub open spec fn side_of(samples_per_pixel: int) -> int {
    let s = sqrt_floor(samples_per_pixel);
    if s == 0 { 1 } else { s }
}

/// A linear channel as a byte: gamma 2 (the square root), clamped to
/// `[0, 0.999]` and scaled by 256, rounding down.
pub open spec fn byte_of(c: int) -> int {
    if c <= 0 {
        0
    } else {
        let g = sqrt_floor(c * COLOR_ONE);
        let b = (g * 256) / (COLOR_ONE as int);
        if b > 255 { 255 } else { b }
    }
}

/// The bytes of a pixel whose `n` samples add up to `sum`.
pub open spec fn pixel_bytes(sum: V3, n: int) -> (int, int, int) {
    (byte_of(sum.0 / n), byte_of(sum.1 / n), byte_of(sum.2 / n))
}

/// The sum of a sequence of colors.
pub open spec fn sum_colors(cs: Seq<V3>) -> V3
    decreases cs.len(),
{
    if cs.len() == 0 {
        zero3()
    } else {
        add3(sum_colors(cs.drop_last()), cs.last())
    }
}

/// Viewport coordinates of sample `(i, j)` of pixel `(px, py)` on a grid of
/// `side` by `side`, jittered by `(jx, jy)` (fixed-point in `[0, UNIT)`):
/// `u = (px + (i + jx) / side) / (width - 1)`, and `v` likewise from the
/// bottom, since row 0 is the top of the image.
pub open spec fn sample_uv(width: int, height: int, side: int, px: int, py: int, i: int, j: int, jx: int, jy: int) -> (int, int) {
    (((px * side + i) * UNIT + jx) / (side * (width - 1)),
     UNIT - ((py * side + j) * UNIT + jy) / (side * (height - 1)))
}

/// The primary ray of sample `k = i * side + j` of pixel `(px, py)`.
pub open spec fn sample_ray(c: Camera, side: int, px: int, py: int, k: int, jitter: Seq<(i64, i64)>) -> Ray {
    let (u, v) = sample_uv(c.width as int, c.height as int, side, px, py, k / side, k % side,
        jitter[k].0 as int, jitter[k].1 as int);
    Ray { origin: c.origin, direction: vec_of(norm3(view_direction(c, u, v))) }
}

/// The stratified sampling settings of a render.
#[derive(Clone, Copy, Debug, PartialEq, Eq, Structural)]
pub struct Renderer {
    pub samples_per_pixel: u32,
}

/// Samples along each side of the grid for a requested count per pixel.
pub fn samples_per_side(samples_per_pixel: u32) -> (r: u32)
    ensures
        r as int == side_of(samples_per_pixel as int),
        1 <= r <= 65535,
{
    let s = isqrt(samples_per_pixel as u128);
    proof {
        assert(s <= 65535) by (nonlinear_arith)
            requires s * s <= samples_per_pixel, samples_per_pixel <= u32::MAX, s >= 0;
    }
    if s == 0 { 1 } else { s as u32 }
}

/// A linear fixed-point channel as a byte of the image.
pub fn to_byte(c: i64) -> (r: u8)
    requires
        c <= 2 * 255 * LIGHT_LIMIT,
    ensures
        r as int == byte_of(c as int),
{
    if c <= 0 {
        return 0;
    }
    let g = isqrt((c as u128) * (COLOR_ONE as u128));
    proof {
        assert(g <= 0x1000_0000) by (nonlinear_arith)
            requires g * g <= c * COLOR_ONE, c <= 2 * 255 * LIGHT_LIMIT, COLOR_ONE == 261120, LIGHT_LIMIT == 65536, g >= 0;
    }
    let b = (g * 256) / (COLOR_ONE as u128);
    if b > 255 { 255 } else { b as u8 }
}

/// The bytes of a pixel from the sum of its `n` samples.
pub fn finish_pixel(sum: &Vec3, n: i64) -> (r: [u8; 3])
    requires
        n >= 1,
        color_within(sum@, n * (2 * 255 * LIGHT_LIMIT)),
    ensures
        (r[0] as int, r[1] as int, r[2] as int) == pixel_bytes(sum@, n as int),
{
    proof {
        assert(sum.x / n <= 2 * 255 * LIGHT_LIMIT && sum.y / n <= 2 * 255 * LIGHT_LIMIT && sum.z / n <= 2 * 255 * LIGHT_LIMIT) by (nonlinear_arith)
            requires color_within(sum@, n * (2 * 255 * LIGHT_LIMIT)), n >= 1;
    }
    [to_byte(sum.x / n), to_byte(sum.y / n), to_byte(sum.z / n)]
}

impl Renderer {
    pub fn new(samples_per_pixel: u32) -> (r: Renderer)
        ensures
            r.samples_per_pixel == samples_per_pixel,
    {
        Renderer { samples_per_pixel }
    }

    /// How many samples each pixel gets: the requested count rounded down
    /// to a square, and at least one.
    pub fn samples_traced(&self) -> (r: u64)
        ensures
            r == side_of(self.samples_per_pixel as int) * side_of(self.samples_per_pixel as int),
    {
        let s = samples_per_side(self.samples_per_pixel) as u64;
        assert(s * s <= 65535 * 65535) by (nonlinear_arith)
            requires 1 <= s <= 65535;
        s * s
    }

    /// The color of pixel `(px, py)`: the average of `side * side` stratified
    /// samples, sample `i * side + j` jittered by `jitter[i * side + j]`.
    pub fn render_pixel(&self, scene: &Scene, px: u32, py: u32, jitter: &Vec<(i64, i64)>) -> (r: [u8; 3])
        requires
            scene.wf(),
            scene.camera.width >= 2,
            scene.camera.height >= 2,
            px < scene.camera.width,
            py < scene.camera.height,
            jitter@.len() == side_of(self.samples_per_pixel as int) * side_of(self.samples_per_pixel as int),
            forall|k: int| 0 <= k < jitter@.len() ==> 0 <= (#[trigger] jitter@[k]).0 < UNIT && 0 <= jitter@[k].1 < UNIT,
        ensures
            exists|cs: Seq<V3>| #![trigger sum_colors(cs)] {
                let side = side_of(self.samples_per_pixel as int);
                &&& cs.len() == side * side
                &&& forall|k: int| 0 <= k < cs.len() ==>
                    scene.trace_ok(sample_ray(scene.camera, side, px as int, py as int, k, jitter@), #[trigger] cs[k])
                &&& (r[0] as int, r[1] as int, r[2] as int) == pixel_bytes(sum_colors(cs), side * side)
            },
    {
        let side = samples_per_side(self.samples_per_pixel) as i64;
        assert(1 <= side * side <= 65535 * 65535) by (nonlinear_arith)
            requires 1 <= side <= 65535;
        let n: i64 = side * side;
        let w = scene.camera.width as i64;
        let h = scene.camera.height as i64;
        let mut sum = Vec3::zero();
        let ghost mut cs: Seq<V3> = Seq::empty();
        let mut k: i64 = 0;
        while k < n
            invariant
                scene.wf(),
                2 <= w <= 65536,
                2 <= h <= 65536,
                w == scene.camera.width,
                h == scene.camera.height,
                px < w,
                py < h,
                1 <= side <= 65535,
                side == side_of(self.samples_per_pixel as int),
                n == side * side,
                1 <= n <= 65535 * 65535,
                jitter@.len() == n,
                forall|k: int| 0 <= k < jitter@.len() ==> 0 <= (#[trigger] jitter@[k]).0 < UNIT && 0 <= jitter@[k].1 < UNIT,
                0 <= k <= n,
                cs.len() == k,
                sum@ == sum_colors(cs),
                color_within(sum@, k * (2 * 255 * LIGHT_LIMIT)),
                forall|m: int| 0 <= m < cs.len() ==>
                    scene.trace_ok(sample_ray(scene.camera, side as int, px as int, py as int, m, jitter@), #[trigger] cs[m]),
            decreases n - k,
        {
            let i = k / side;
            let j = k % side;
            assert(0 <= i < side && 0 <= j < side) by (nonlinear_arith)
                requires i == k / side, j == k % side, 0 <= k < side * side, side >= 1;
            let (jx, jy) = jitter[k as usize];
            let (u, v) = sample_coords(w, h, side, px as i64, py as i64, i, j, jx, jy);
            let ray = scene.camera.get_ray(u, v);
            proof {
                assert(vec_of(ray.direction@) == ray.direction);
                assert(ray == sample_ray(scene.camera, side as int, px as int, py as int, k as int, jitter@));
            }
            let c = scene.trace(&ray);
            proof {
                assert(sum_colors(cs.push(c@)) == add3(sum_colors(cs), c@)) by {
                    assert(cs.push(c@).drop_last() == cs);
                }
                assert(color_within(add3(sum@, c@), (k + 1) * (2 * 255 * LIGHT_LIMIT))) by (nonlinear_arith)
                    requires color_within(sum@, k * (2 * 255 * LIGHT_LIMIT)), color_within(c@, 2 * 255 * LIGHT_LIMIT);
                assert(k + 1 <= 65535 * 65535) by (nonlinear_arith)
                    requires k < n, n <= 65535 * 65535;
                assert((k + 1) * (2 * 255 * LIGHT_LIMIT) <= 65535 * 65535 * (2 * 255 * LIGHT_LIMIT)) by (nonlinear_arith)
                    requires k + 1 <= 65535 * 65535;
            }
            sum = sum.add(&c);
            proof {
                cs = cs.push(c@);
            }
            k = k + 1;
        }
        let r = finish_pixel(&sum, n);
        proof {
            let side_s = side_of(self.samples_per_pixel as int);
            assert(pixel_bytes(sum_colors(cs), side_s * side_s) == (r[0] as int, r[1] as int, r[2] as int));
        }
        r
    }
}

/// Fixed-point viewport coordinates of one sample; see `sample_uv`.
pub fn sample_coords(w: i64, h: i64, side: i64, px: i64, py: i64, i: i64, j: i64, jx: i64, jy: i64) -> (r: (i64, i64))
    requires
        2 <= w <= 65536,
        2 <= h <= 65536,
        1 <= side <= 65535,
        0 <= px < w,
        0 <= py < h,
        0 <= i < side,
        0 <= j < side,
        0 <= jx < UNIT,
        0 <= jy < UNIT,
    ensures
        (r.0 as int, r.1 as int) == sample_uv(w as int, h as int, side as int, px as int, py as int, i as int, j as int, jx as int, jy as int),
        -2 * UNIT <= r.0 <= 2 * UNIT,
        -2 * UNIT <= r.1 <= 2 * UNIT,
{
    proof {
        assert(0 <= (px * side + i) * UNIT + jx < w * side * UNIT) by (nonlinear_arith)
            requires 0 <= px < w, 0 <= i < side, 0 <= jx < UNIT, UNIT == 1024;
        assert(0 <= (py * side + j) * UNIT + jy < h * side * UNIT) by (nonlinear_arith)
            requires 0 <= py < h, 0 <= j < side, 0 <= jy < UNIT, UNIT == 1024;
        assert(w * side * UNIT <= 65536 * 65535 * 1024) by (nonlinear_arith)
            requires 0 <= w <= 65536, 0 <= side <= 65535, UNIT == 1024;
        assert(h * side * UNIT <= 65536 * 65535 * 1024) by (nonlinear_arith)
            requires 0 <= h <= 65536, 0 <= side <= 65535, UNIT == 1024;
        assert(side * (w - 1) <= 65535 * 65535) by (nonlinear_arith)
            requires w <= 65536, side <= 65535, side >= 1, w >= 2;
        assert(side * (h - 1) <= 65535 * 65535) by (nonlinear_arith)
            requires h <= 65536, side <= 65535, side >= 1, h >= 2;
        assert(side * (w - 1) >= 1 && side * (h - 1) >= 1) by (nonlinear_arith)
            requires side >= 1, w >= 2, h >= 2;
    }
    let un = (px * side + i) * UNIT + jx;
    let vn = (py * side + j) * UNIT + jy;
    let du = side * (w - 1);
    let dv = side * (h - 1);
    let u = un / du;
    let v = vn / dv;
    proof {
        assert(u <= 2 * UNIT) by (nonlinear_arith)
            requires u == un / du, 0 <= un < w * side * UNIT, du == side * (w - 1), w >= 2, side >= 1, UNIT == 1024;
        assert(v <= 2 * UNIT) by (nonlinear_arith)
            requires v == vn / dv, 0 <= vn < h * side * UNIT, dv == side * (h - 1), h >= 2, side >= 1, UNIT == 1024;
        assert(u >= 0 && v >= 0) by (nonlinear_arith)
            requires u == un / du, v == vn / dv, un >= 0, vn >= 0, du >= 1, dv >= 1;
    }
    (u, UNIT - v)
}

} // verus!
