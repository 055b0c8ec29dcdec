use ray_tracer::camera::Camera;
use ray_tracer::hit::HitRecord;
use ray_tracer::material::{Lambertian, PointLight, COLOR_ONE};
use ray_tracer::ray::{Ratio, Ray};
use ray_tracer::renderer::{finish_pixel, sample_coords, samples_per_side, to_byte, Renderer};
use ray_tracer::scene::Scene;
use ray_tracer::shape::Shape;
use ray_tracer::sphere::Sphere;
use ray_tracer::vec3::Vec3;

fn camera(side: u32) -> Camera {
    Camera::new(side, side, Vec3::new(0, 0, 0), Vec3::new(0, 0, -1024), Vec3::new(0, 1024, 0), 1024)
}

fn gray_sphere_scene(ambient: Vec3) -> Scene {
    let sphere = Sphere::new(Vec3::new(0, 0, -3072), 1024, 0);
    Scene::new(
        camera(11),
        vec![PointLight::new(Vec3::new(0, 2048, 0), 1024)],
        vec![Shape::Sphere(sphere)],
        vec![Lambertian::new([180, 180, 180])],
        [0, 0, 0],
        ambient,
    )
}

fn record(point: Vec3, normal: Vec3) -> HitRecord {
    HitRecord { t: Ratio::new(1, 1), point, normal, material: 0 }
}

#[test]
fn samples_round_down_to_a_square() {
    assert_eq!(samples_per_side(99), 9);
    assert_eq!(Renderer::new(99).samples_traced(), 81);
    assert_eq!(Renderer::new(100).samples_traced(), 100);
    assert_eq!(samples_per_side(0), 1);
    assert_eq!(Renderer::new(0).samples_traced(), 1);
    assert_eq!(samples_per_side(u32::MAX), 65535);
}

#[test]
fn bytes_use_gamma_two_and_scale_256() {
    assert_eq!(to_byte(0), 0);
    assert_eq!(to_byte(-5), 0);
    assert_eq!(to_byte(COLOR_ONE), 255);
    assert_eq!(to_byte(2 * COLOR_ONE), 255);
    assert_eq!(to_byte(COLOR_ONE / 4), 128);
}

#[test]
fn pixel_is_the_average_of_its_samples() {
    let sum = Vec3::new(4 * COLOR_ONE, COLOR_ONE, 0);
    assert_eq!(finish_pixel(&sum, 4), [255, 128, 0]);
}

#[test]
fn camera_center_ray_points_forward() {
    let c = camera(11);
    assert_eq!(c.horizontal, Vec3::new(2048, 0, 0));
    assert_eq!(c.vertical, Vec3::new(0, 2048, 0));
    assert_eq!(c.lower_left_corner, Vec3::new(-1024, -1024, -1024));
    let r = c.get_ray(512, 512);
    assert_eq!(r.origin, Vec3::new(0, 0, 0));
    assert_eq!(r.direction, Vec3::new(0, 0, -1024));
}

#[test]
fn sample_coordinates_flip_rows() {
    assert_eq!(sample_coords(11, 11, 1, 5, 5, 0, 0, 0, 0), (512, 512));
    assert_eq!(sample_coords(11, 11, 1, 0, 0, 0, 0, 0, 0), (0, 1024));
    assert_eq!(sample_coords(11, 11, 1, 10, 10, 0, 0, 0, 0), (1024, 0));
    assert_eq!(sample_coords(11, 11, 2, 5, 5, 1, 1, 0, 0), (563, 461));
}

#[test]
fn dark_point_is_black() {
    let m = Lambertian::new([200, 100, 50]);
    let light = PointLight::new(Vec3::new(0, 10, 0), 1024);
    let h = record(Vec3::new(0, 0, 0), Vec3::new(0, 1024, 0));
    assert_eq!(m.shade_with(&h, &Vec3::zero(), &light, false), Vec3::zero());
}

#[test]
fn white_surface_under_light_gets_full_intensity() {
    let m = Lambertian::new([255, 255, 255]);
    let light = PointLight::new(Vec3::new(0, 10, 0), 1024);
    let h = record(Vec3::new(0, 0, 0), Vec3::new(0, 1024, 0));
    let c = m.shade_with(&h, &Vec3::zero(), &light, true);
    assert_eq!(c, Vec3::new(COLOR_ONE, COLOR_ONE, COLOR_ONE));
}

#[test]
fn occluded_point_gets_ambient_only() {
    // A small sphere between the hit point and the light blocks it.
    let blocker = Sphere::new(Vec3::new(0, 1000, 0), 100, 0);
    let scene = Scene::new(
        camera(11),
        vec![PointLight::new(Vec3::new(0, 2000, 0), 1024)],
        vec![Shape::Sphere(blocker)],
        vec![Lambertian::new([255, 255, 255])],
        [0, 0, 0],
        Vec3::new(100, 200, 300),
    );
    let h = record(Vec3::new(0, 0, 0), Vec3::new(0, 1024, 0));
    assert_eq!(scene.shade(&h), Vec3::new(255 * 100, 255 * 200, 255 * 300));
    let lit = record(Vec3::new(3000, 0, 0), Vec3::new(0, 1024, 0));
    assert!(scene.shade(&lit).x > 255 * 100);
}

#[test]
fn ray_that_meets_nothing_sees_background() {
    let scene = Scene::new(
        camera(11),
        vec![PointLight::new(Vec3::new(0, 2048, 0), 1024)],
        vec![],
        vec![],
        [10, 20, 30],
        Vec3::zero(),
    );
    let r = Ray::new(Vec3::new(0, 0, 0), Vec3::new(0, 0, -1024));
    assert_eq!(scene.trace(&r), Vec3::new(10 * 1024, 20 * 1024, 30 * 1024));
}

#[test]
fn gray_sphere_center_pixel_is_gray_and_lit() {
    let scene = gray_sphere_scene(Vec3::zero());
    let renderer = Renderer::new(1);
    let px = renderer.render_pixel(&scene, 5, 5, &vec![(0, 0)]);
    assert!(px[0] > 0);
    assert_eq!(px[0], px[1]);
    assert_eq!(px[1], px[2]);
    let corner = renderer.render_pixel(&scene, 0, 0, &vec![(0, 0)]);
    assert_eq!(corner, [0, 0, 0]);
}

#[test]
fn pixel_with_many_samples_stays_gray() {
    let scene = gray_sphere_scene(Vec3::new(50, 50, 50));
    let renderer = Renderer::new(99);
    let jitter: Vec<(i64, i64)> = (0..81).map(|k| ((k * 37) % 1024, (k * 91) % 1024)).collect();
    let px = renderer.render_pixel(&scene, 5, 5, &jitter);
    assert!(px[0] > 0);
    assert_eq!(px[0], px[1]);
    assert_eq!(px[1], px[2]);
}

#[test]
fn far_blocked_point_is_dark() {
    // The shadow ray spans nearly the whole box and the sphere blocks it.
    let blocker = Sphere::new(Vec3::new(0, 0, 0), 100, 0);
    let scene = Scene::new(
        camera(11),
        vec![PointLight::new(Vec3::new(-60000, 0, 0), 1024)],
        vec![Shape::Sphere(blocker)],
        vec![Lambertian::new([255, 255, 255])],
        [0, 0, 0],
        Vec3::zero(),
    );
    let h = record(Vec3::new(60000, 0, 0), Vec3::new(-1024, 0, 0));
    assert_eq!(scene.shade(&h), Vec3::zero());
}

#[test]
fn scene_without_lights_or_shapes_renders_background() {
    let scene = Scene::new(camera(4), vec![], vec![], vec![], [255, 255, 255], Vec3::zero());
    let renderer = Renderer::new(1);
    for py in 0..4 {
        for px in 0..4 {
            assert_eq!(renderer.render_pixel(&scene, px, py, &vec![(0, 0)]), [255, 255, 255]);
        }
    }
}

#[test]
fn equal_hits_go_to_the_first_shape() {
    let a = Sphere::new(Vec3::new(0, 0, -3072), 1024, 0);
    let b = Sphere::new(Vec3::new(0, 0, -3072), 1024, 1);
    let scene = Scene::new(
        camera(11),
        vec![PointLight::new(Vec3::new(0, 2048, 0), 1024)],
        vec![Shape::Sphere(a), Shape::Sphere(b)],
        vec![Lambertian::new([255, 0, 0]), Lambertian::new([0, 0, 255])],
        [0, 0, 0],
        Vec3::zero(),
    );
    let r = Ray::new(Vec3::new(0, 0, 0), Vec3::new(0, 0, -1024));
    let h = scene.nearest_hit(&r, &Ratio::new(1, 1024), &Ratio::new(256, 1)).unwrap();
    assert_eq!(h.material, 0);
    let c = scene.trace(&r);
    assert!(c.x > 0);
    assert_eq!(c.z, 0);
}

#[test]
fn sphere_normal_is_unit_even_for_small_radius() {
    let s = Sphere::new(Vec3::new(0, 0, 0), 1, 0);
    let r = Ray::new(Vec3::new(5, 3, -7), Vec3::new(-5, -3, 7));
    let h = s.hit(&r, &Ratio::new(1, 1024), &Ratio::new(1048576, 1)).unwrap();
    let l = h.normal.length_squared();
    assert!(l <= 1024 * 1024 && l >= 1021 * 1021);
}
