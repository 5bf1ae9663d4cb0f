use raytrace::fixed::SCALE;
use raytrace::vec3::Vec3;
use raytrace::ray::Ray;
use raytrace::hitable::{Sphere, HitableList};
use raytrace::material::{Lambertian, Material};
use raytrace::camera::Camera;
use raytrace::render::render;
use raytrace::rng::Rng;

const S: i64 = SCALE;

fn empty_scene() -> HitableList {
    HitableList::new()
}

#[test]
fn rng_is_deterministic_per_seed() {
    let mut a = Rng::new(42);
    let mut b = Rng::new(42);
    let mut k = 0;
    while k < 50 {
        assert_eq!(a.next_unit(), b.next_unit());
        k += 1;
    }
    let u = a.next_unit();
    assert!(0 <= u && u < S);
    let sgn = a.next_signed();
    assert!(-S <= sgn && sgn < S);
}

#[test]
fn background_endpoints_are_exact() {
    let scene = empty_scene();
    let mut rng = Rng::new(1);
    let up = scene.color(&Ray::new(Vec3::new(0, 0, 0), Vec3::new(0, S, 0)), 0, &mut rng);
    assert_eq!((up.x, up.y, up.z), (S / 2, 45875, S));
    let down = scene.color(&Ray::new(Vec3::new(0, 0, 0), Vec3::new(0, -S, 0)), 0, &mut rng);
    assert_eq!((down.x, down.y, down.z), (S, S, S));
}

#[test]
fn background_interpolates_monotonically() {
    // sweep the direction's vertical component from -1 to 1: as the unit
    // vertical component grows, each channel moves monotonically toward the
    // sky blue
    let scene = empty_scene();
    let mut rng = Rng::new(2);
    let mut prev_uy: i64 = -2 * S;
    let mut prev = Vec3::new(0, 0, 0);
    let mut first = true;
    let mut y: i64 = -8 * S;
    while y <= 8 * S {
        let dir = Vec3::new(4 * S, y, 3 * S);
        let ud = Vec3::unit_vector(&dir);
        let col = scene.color(&Ray::new(Vec3::new(0, 0, 0), dir), 0, &mut rng);
        if !first && ud.y >= prev_uy {
            assert!(col.x <= prev.x);
            assert!(col.y <= prev.y);
            assert!(col.z <= prev.z);
        }
        prev_uy = ud.y;
        prev = col;
        first = false;
        y += S;
    }
}

#[test]
fn color_at_bounce_budget_is_black() {
    // a hit at the depth bound returns exactly black, with no recursion
    let mut scene = HitableList::new();
    let m = scene.push_material(
        Material::Lambertian(Lambertian::new(Vec3::new(S / 2, S / 2, S / 2))),
    );
    scene.push_sphere(Sphere::new(Vec3::new(0, 0, -2 * S), S, m));
    let r = Ray::new(Vec3::new(0, 0, 0), Vec3::new(0, 0, -S));
    let mut rng = Rng::new(3);
    let col = scene.color(&r, 50, &mut rng);
    assert_eq!((col.x, col.y, col.z), (0, 0, 0));
    // one step below the budget the same ray is not black (it bounces out)
    let col49 = scene.color(&r, 49, &mut rng);
    assert!(col49.x > 0 || col49.y > 0 || col49.z > 0);
}

fn ground_scene() -> HitableList {
    // a single large ground sphere: center (0, -100.5, -1), radius 100,
    // Lambertian albedo (0.8, 0.8, 0.0)
    let mut scene = HitableList::new();
    let m = scene.push_material(
        Material::Lambertian(Lambertian::new(Vec3::new(52429, 52429, 0))),
    );
    scene.push_sphere(Sphere::new(Vec3::new(0, -6586368, -S), 100 * S, m));
    scene
}

fn down_looking_camera() -> Camera {
    Camera::new(
        Vec3::new(0, 0, 0),
        Vec3::new(0, -45875, -S),
        Vec3::new(0, S, 0),
        20 * S,
        S,
        0,
        S,
    )
}

#[test]
fn ground_sphere_scene_gives_tinted_non_saturated_color() {
    let scene = ground_scene();
    let cam = down_looking_camera();
    let mut rng = Rng::new(77);
    let ray = cam.get_ray(S / 2, S / 2, &mut rng);
    let col = scene.color(&ray, 0, &mut rng);
    // the center ray hits the ground, not the background: the blue channel is
    // killed by the albedo and the others are tinted but not black
    assert!(col.x > 0 && col.x < S);
    assert!(col.y > 0 && col.y < S);
    assert_eq!(col.z, 0);
}

#[test]
fn render_framebuffer_shape_and_content() {
    let scene = ground_scene();
    let cam = down_looking_camera();
    let buf = render(&scene, &cam, 4, 3, 4, 2024);
    assert_eq!(buf.len(), 36);
    let mut any_nonzero = false;
    let mut any_nonsaturated = false;
    let mut i = 0;
    while i < buf.len() {
        if buf[i] > 0 {
            any_nonzero = true;
        }
        if buf[i] < 255 {
            any_nonsaturated = true;
        }
        i += 1;
    }
    assert!(any_nonzero);
    assert!(any_nonsaturated);
}

#[test]
fn renders_with_equal_seed_are_bit_identical() {
    let scene = ground_scene();
    let cam = down_looking_camera();
    let a = render(&scene, &cam, 6, 4, 3, 12345);
    let b = render(&scene, &cam, 6, 4, 3, 12345);
    assert_eq!(a, b);
    assert_eq!(a.len(), 72);
}
