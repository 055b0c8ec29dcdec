//! A ray tracer in exact integer arithmetic: points are integer coordinates,
//! distances along rays are fractions, unit vectors and colors are
//! fixed-point. Spheres, triangles and meshes are intersected exactly, the
//! nearest hit is shaded by a Lambertian model with one shadow ray, and each
//! pixel averages a square grid of jittered samples.

use vstd::prelude::*;

pub mod camera;
pub mod definitions;
pub mod hit;
pub mod material;
pub mod mesh;
pub mod num;
pub mod ray;
pub mod renderer;
pub mod scene;
pub mod shape;
pub mod sphere;
pub mod triangle;
pub mod vec3;

verus! {

} // verus!
