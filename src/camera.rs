use vstd::prelude::*;

use crate::ray::{in_box, Ray, COORD_LIMIT};
use crate::vec3::{
    add3, cross3, div3, lemma_cross_bound, lemma_mul_bound, norm3, scale3, sub3, trunc_div, within,
    V3, Vec3, UNIT,
};

verus! {

/// Largest width or height of an image, in pixels.
pub const MAX_SIDE: u32 = 65536;

/// The viewport basis of a camera looking from `from` toward `at` with up
/// direction `up`: `w` points back toward the eye, `u` to the right and `v`
/// up, all of length about `UNIT`.
pub open spec fn camera_basis(from: V3, at: V3, up: V3) -> (V3, V3, V3) {
    let w = norm3(sub3(from, at));
    let u = norm3(cross3(up, w));
    let v = div3(cross3(w, u), UNIT as int);
    (w, u, v)
}

/// Viewport height and width, fixed-point: `2 * half_height` and that times
/// the aspect ratio `width / height`, rounded toward zero. `half_height` is
/// the tangent of half the vertical field of view.
pub open spec fn viewport(width: int, height: int, half_height: int) -> (int, int) {
    (2 * half_height, (2 * half_height * width) / height)
}

/// A pinhole camera: rays leave `origin` through the viewport spanned by
/// `horizontal` and `vertical` from `lower_left_corner`.
#[derive(Clone, Copy, Debug, PartialEq, Eq, Structural)]
pub struct Camera {
    pub origin: Vec3,
    pub lower_left_corner: Vec3,
    pub horizontal: Vec3,
    pub vertical: Vec3,
    pub width: u32,
    pub height: u32,
}

/// The direction through viewport coordinates `(u, v)`, fixed-point with
/// `UNIT` for the full span, before normalization.
pub open spec fn view_direction(c: Camera, u: int, v: int) -> V3 {
    sub3(
        add3(add3(c.lower_left_corner@, div3(scale3(c.horizontal@, u), UNIT as int)),
            div3(scale3(c.vertical@, v), UNIT as int)),
        c.origin@,
    )
}

impl Camera {
    pub open spec fn wf(&self) -> bool {
        &&& in_box(self.origin@)
        &&& within(self.lower_left_corner@, 0x4_0000_0000)
        &&& within(self.horizontal@, 0x4_0000_0000)
        &&& within(self.vertical@, 0x4_0000_0000)
        &&& 0 < self.width <= MAX_SIDE
        &&& 0 < self.height <= MAX_SIDE
    }

    /// Builds the camera for an image of `width` by `height` pixels.
    pub fn new(width: u32, height: u32, lookfrom: Vec3, lookat: Vec3, vup: Vec3, half_height: i64) -> (r: Camera)
        requires
            0 < width <= MAX_SIDE,
            0 < height <= MAX_SIDE,
            in_box(lookfrom@),
            in_box(lookat@),
            in_box(vup@),
            0 < half_height <= COORD_LIMIT,
        ensures
            r.wf(),
            r.width == width && r.height == height,
            r.origin == lookfrom,
            ({
                let (w, u, v) = camera_basis(lookfrom@, lookat@, vup@);
                let (vh, vw) = viewport(width as int, height as int, half_height as int);
                let hor = div3(scale3(u, vw), UNIT as int);
                let ver = div3(scale3(v, vh), UNIT as int);
                &&& r.horizontal@ == hor
                &&& r.vertical@ == ver
                &&& r.lower_left_corner@ == sub3(sub3(sub3(lookfrom@, div3(hor, 2)), div3(ver, 2)), w)
            }),
    {
        let ghost lim: int = COORD_LIMIT as int;
        let w = lookfrom.sub(&lookat).normalize();
        proof {
            lemma_cross_bound(vup@, w@, lim, UNIT as int);
        }
        let u = vup.cross(&w).normalize();
        proof {
            lemma_cross_bound(w@, u@, UNIT as int, UNIT as int);
        }
        let v = w.cross(&u).div(UNIT);
        let vh: i64 = 2 * half_height;
        let wi: i64 = width as i64;
        assert(0 < vh * wi <= 2 * lim * lim) by (nonlinear_arith)
            requires vh == 2 * half_height, 0 < half_height <= lim, 0 < wi <= lim, lim == 65536;
        let vw: i64 = (vh * wi) / (height as i64);
        proof {
            assert(0 <= vw <= 2 * lim * lim) by (nonlinear_arith)
                requires
                    vw == (vh as int * width as int) / (height as int),
                    vh == 2 * half_height,
                    0 < half_height <= lim,
                    0 < width <= lim,
                    0 < height,
                    lim == 65536;
            lemma_mul_bound(u.x as int, vw as int, UNIT as int, 2 * lim * lim);
            lemma_mul_bound(u.y as int, vw as int, UNIT as int, 2 * lim * lim);
            lemma_mul_bound(u.z as int, vw as int, UNIT as int, 2 * lim * lim);
            assert(within(v@, 2 * UNIT)) by (nonlinear_arith)
                requires v@ == div3(cross3(w@, u@), UNIT as int), within(cross3(w@, u@), 2 * (UNIT * UNIT));
            lemma_mul_bound(v.x as int, vh as int, 2 * UNIT, 2 * lim);
            lemma_mul_bound(v.y as int, vh as int, 2 * UNIT, 2 * lim);
            lemma_mul_bound(v.z as int, vh as int, 2 * UNIT, 2 * lim);
        }
        let horizontal = u.scale(vw).div(UNIT);
        let vertical = v.scale(vh).div(UNIT);
        proof {
            assert(within(horizontal@, 2 * lim * lim)) by (nonlinear_arith)
                requires
                    horizontal@ == div3(scale3(u@, vw as int), UNIT as int),
                    within(scale3(u@, vw as int), UNIT * (2 * lim * lim));
            assert(within(vertical@, 4 * lim)) by (nonlinear_arith)
                requires
                    vertical@ == div3(scale3(v@, vh as int), UNIT as int),
                    within(scale3(v@, vh as int), 2 * UNIT * (2 * lim));
            assert(within(div3(horizontal@, 2), lim * lim)) by (nonlinear_arith)
                requires within(horizontal@, 2 * lim * lim);
            assert(within(div3(vertical@, 2), 2 * lim)) by (nonlinear_arith)
                requires within(vertical@, 4 * lim);
        }
        let llc = lookfrom.sub(&horizontal.div(2)).sub(&vertical.div(2)).sub(&w);
        Camera { origin: lookfrom, lower_left_corner: llc, horizontal, vertical, width, height }
    }

    /// The ray through viewport coordinates `(u, v)`: `(0, 0)` is the lower
    /// left corner and `(UNIT, UNIT)` the upper right one. Its direction has
    /// length about `UNIT`.
    pub fn get_ray(&self, u: i64, v: i64) -> (r: Ray)
        requires
            self.wf(),
            -2 * UNIT <= u <= 2 * UNIT,
            -2 * UNIT <= v <= 2 * UNIT,
        ensures
            r.origin == self.origin,
            r.direction@ == norm3(view_direction(*self, u as int, v as int)),
            within(r.direction@, UNIT as int),
            r.wf(),
    {
        let ghost b: int = 0x4_0000_0000;
        proof {
            lemma_mul_bound(self.horizontal.x as int, u as int, b, 2 * UNIT);
            lemma_mul_bound(self.horizontal.y as int, u as int, b, 2 * UNIT);
            lemma_mul_bound(self.horizontal.z as int, u as int, b, 2 * UNIT);
            lemma_mul_bound(self.vertical.x as int, v as int, b, 2 * UNIT);
            lemma_mul_bound(self.vertical.y as int, v as int, b, 2 * UNIT);
            lemma_mul_bound(self.vertical.z as int, v as int, b, 2 * UNIT);
        }
        let hu = self.horizontal.scale(u).div(UNIT);
        let vv = self.vertical.scale(v).div(UNIT);
        proof {
            assert(within(hu@, 2 * b)) by (nonlinear_arith)
                requires hu@ == div3(scale3(self.horizontal@, u as int), UNIT as int), within(scale3(self.horizontal@, u as int), b * (2 * UNIT));
            assert(within(vv@, 2 * b)) by (nonlinear_arith)
                requires vv@ == div3(scale3(self.vertical@, v as int), UNIT as int), within(scale3(self.vertical@, v as int), b * (2 * UNIT));
        }
        let d = self.lower_left_corner.add(&hu).add(&vv).sub(&self.origin);
        let direction = d.normalize();
        Ray { origin: self.origin, direction }
    }
}

} // verus!
