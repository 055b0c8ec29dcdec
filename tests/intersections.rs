use ray_tracer::definitions::{MaterialDef, MeshDef, MeshError};
use ray_tracer::mesh::Mesh;
use ray_tracer::ray::{Ratio, Ray};
use ray_tracer::sphere::Sphere;
use ray_tracer::triangle::Triangle;
use ray_tracer::vec3::Vec3;

fn range() -> (Ratio, Ratio) {
    (Ratio::new(1, 1024), Ratio::new(1048576, 1))
}

fn flat_triangle(z: i64, size: i64) -> Triangle {
    let n = Vec3::new(0, 0, 1);
    Triangle::new(Vec3::new(0, 0, z), Vec3::new(size, 0, z), Vec3::new(0, size, z), n, n, n, 0)
}

#[test]
fn sphere_hit_at_three() {
    let (lo, hi) = range();
    let s = Sphere::new(Vec3::new(0, 0, 0), 2, 0);
    let r = Ray::new(Vec3::new(0, 0, -5), Vec3::new(0, 0, 1));
    let h = s.hit(&r, &lo, &hi).unwrap();
    assert_eq!(h.t.num, 3 * h.t.den);
    assert_eq!(h.point, Vec3::new(0, 0, -2));
    assert_eq!(h.normal, Vec3::new(0, 0, -1024));
}

#[test]
fn sphere_front_face_is_distance_minus_radius() {
    let (lo, hi) = range();
    let s = Sphere::new(Vec3::new(0, 0, -3072), 1024, 0);
    let r = Ray::new(Vec3::new(0, 0, 0), Vec3::new(0, 0, -1024));
    let h = s.hit(&r, &lo, &hi).unwrap();
    assert_eq!(h.t.num, 2 * h.t.den);
    assert_eq!(h.point, Vec3::new(0, 0, -2048));
}

#[test]
fn sphere_behind_the_ray_is_missed() {
    let (lo, hi) = range();
    let s = Sphere::new(Vec3::new(0, 0, 0), 2, 0);
    let r = Ray::new(Vec3::new(0, 0, -5), Vec3::new(0, 0, -1));
    assert!(s.hit(&r, &lo, &hi).is_none());
}

#[test]
fn sphere_far_root_from_inside() {
    let (lo, hi) = range();
    let s = Sphere::new(Vec3::new(0, 0, 0), 2, 0);
    let r = Ray::new(Vec3::new(0, 0, 0), Vec3::new(0, 0, 1));
    let h = s.hit(&r, &lo, &hi).unwrap();
    assert_eq!(h.t.num, 2 * h.t.den);
    assert_eq!(h.normal, Vec3::new(0, 0, 1024));
}

#[test]
fn triangle_centroid_hit() {
    let (lo, hi) = range();
    let t = flat_triangle(0, 3);
    let r = Ray::new(Vec3::new(1, 1, -5), Vec3::new(0, 0, 1));
    let h = t.hit(&r, &lo, &hi).unwrap();
    assert_eq!((h.t.num, h.t.den), (45, 9));
    assert_eq!(h.point, Vec3::new(1, 1, 0));
    assert_eq!(h.normal, Vec3::new(0, 0, 1024));
}

#[test]
fn triangle_missed_outside() {
    let (lo, hi) = range();
    let t = flat_triangle(0, 3);
    let r = Ray::new(Vec3::new(5, 5, -5), Vec3::new(0, 0, 1));
    assert!(t.hit(&r, &lo, &hi).is_none());
}

#[test]
fn triangle_parallel_ray_misses() {
    let (lo, hi) = range();
    let t = flat_triangle(0, 3);
    let above = Ray::new(Vec3::new(-5, 1, 1), Vec3::new(1, 0, 0));
    let inside = Ray::new(Vec3::new(-5, 1, 0), Vec3::new(1, 0, 0));
    assert!(t.hit(&above, &lo, &hi).is_none());
    assert!(t.hit(&inside, &lo, &hi).is_none());
}

#[test]
fn triangle_normal_is_interpolated() {
    let (lo, hi) = range();
    let t = Triangle::new(
        Vec3::new(0, 0, 0),
        Vec3::new(4, 0, 0),
        Vec3::new(0, 4, 0),
        Vec3::new(0, 0, 1),
        Vec3::new(1, 0, 0),
        Vec3::new(1, 0, 0),
        0,
    );
    let r = Ray::new(Vec3::new(2, 2, -1), Vec3::new(0, 0, 1));
    let h = t.hit(&r, &lo, &hi).unwrap();
    assert_eq!(h.normal, Vec3::new(1024, 0, 0));
}

fn two_layer_mesh() -> Mesh {
    let vertices = vec![
        Vec3::new(0, 0, 0),
        Vec3::new(3, 0, 0),
        Vec3::new(0, 3, 0),
        Vec3::new(0, 0, 5),
        Vec3::new(10, 0, 5),
        Vec3::new(0, 10, 5),
    ];
    let normals = vec![Vec3::new(0, 0, 1); 6];
    Mesh::new(vertices, vec![[0, 1, 2], [3, 4, 5]], normals, 0)
}

#[test]
fn mesh_ray_hitting_only_the_farther_triangle() {
    let (lo, hi) = range();
    let m = two_layer_mesh();
    let r = Ray::new(Vec3::new(4, 4, -5), Vec3::new(0, 0, 1));
    let h = m.hit(&r, &lo, &hi).unwrap();
    assert_eq!(h.t.num, 10 * h.t.den);
    assert_eq!(h.point, Vec3::new(4, 4, 5));
}

#[test]
fn mesh_ray_hitting_both_returns_nearer() {
    let (lo, hi) = range();
    let m = two_layer_mesh();
    let r = Ray::new(Vec3::new(1, 1, -5), Vec3::new(0, 0, 1));
    let h = m.hit(&r, &lo, &hi).unwrap();
    assert_eq!(h.t.num, 5 * h.t.den);
    assert_eq!(h.point, Vec3::new(1, 1, 0));
}

#[test]
fn mesh_builds_one_triangle_per_triple() {
    let m = two_layer_mesh();
    assert_eq!(m.triangles.len(), 2);
    assert_eq!(m.triangles[1].v1, Vec3::new(10, 0, 5));
}

fn mesh_def(indices: Vec<[usize; 3]>, normals: usize) -> MeshDef {
    MeshDef {
        obj_type: "Mesh".to_string(),
        vertices: vec![Vec3::new(0, 0, 0), Vec3::new(1, 0, 0), Vec3::new(0, 1, 0)],
        indices,
        normals: vec![Vec3::new(0, 0, 1); normals],
        material: MaterialDef { mat_type: "Lambertian".to_string(), color: [180, 180, 180] },
    }
}

#[test]
fn mesh_def_errors() {
    assert_eq!(mesh_def(vec![[0, 1, 2]], 2).build(0).unwrap_err(), MeshError::LengthMismatch);
    assert_eq!(mesh_def(vec![[0, 1, 3]], 3).build(0).unwrap_err(), MeshError::IndexOutOfRange);
    let m = mesh_def(vec![[0, 1, 2], [2, 1, 0]], 3).build(4).unwrap();
    assert_eq!(m.triangles.len(), 2);
    assert_eq!(m.triangles[1].v0, Vec3::new(0, 1, 0));
    assert_eq!(m.triangles[1].material, 4);
}

#[test]
fn material_def_builds_albedo() {
    let d = MaterialDef { mat_type: "Lambertian".to_string(), color: [10, 20, 30] };
    assert_eq!(d.build().albedo, Vec3::new(10, 20, 30));
}

#[test]
fn mesh_equal_hits_go_to_the_first_triangle() {
    let (lo, hi) = range();
    let n = Vec3::new(0, 0, 1);
    let first = Triangle::new(Vec3::new(0, 0, 0), Vec3::new(3, 0, 0), Vec3::new(0, 3, 0), n, n, n, 0);
    let second = Triangle::new(Vec3::new(0, 0, 0), Vec3::new(6, 0, 0), Vec3::new(0, 6, 0), n, n, n, 0);
    let m = Mesh { triangles: vec![first, second] };
    let r = Ray::new(Vec3::new(1, 1, -5), Vec3::new(0, 0, 1));
    let h = m.hit(&r, &lo, &hi).unwrap();
    assert_eq!(h.t, first.hit(&r, &lo, &hi).unwrap().t);
}

#[test]
fn ray_point_at_negative_parameter() {
    let r = Ray::new(Vec3::new(1, 2, 3), Vec3::new(2, 0, -4));
    assert_eq!(r.at(&Ratio::new(-3, 2)), Vec3::new(-2, 2, 9));
    assert_eq!(r.at(&Ratio::new(0, 1)), Vec3::new(1, 2, 3));
}
