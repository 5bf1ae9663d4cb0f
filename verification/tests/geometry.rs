use raytrace::fixed::SCALE;
use raytrace::vec3::Vec3;
use raytrace::ray::Ray;
use raytrace::hitable::{Sphere, HitableList};
use raytrace::material::{Material, Lambertian};

const S: i64 = SCALE;
const FAR: i64 = 0x40000000;

fn gray() -> Material {
    Material::Lambertian(Lambertian::new(Vec3::new(S / 2, S / 2, S / 2)))
}

#[test]
fn sphere_hit_through_center_entry_and_exit() {
    // a ray through the center hits at distance_to_center - radius ...
    let s = Sphere::new(Vec3::new(0, 0, -2 * S), S, 0);
    let r = Ray::new(Vec3::new(0, 0, 0), Vec3::new(0, 0, -S));
    let entry = s.hit(&r, 66, FAR).expect("entry hit");
    assert_eq!(entry.t, S);
    assert_eq!((entry.p.x, entry.p.y, entry.p.z), (0, 0, -S));
    assert_eq!((entry.normal.x, entry.normal.y, entry.normal.z), (0, 0, S));
    assert_eq!(entry.mat, 0);
    // ... and, excluding the entry, at distance_to_center + radius
    let exit = s.hit(&r, S, FAR).expect("exit hit");
    assert_eq!(exit.t, 3 * S);
    assert_eq!((exit.p.x, exit.p.y, exit.p.z), (0, 0, -3 * S));
    assert_eq!((exit.normal.x, exit.normal.y, exit.normal.z), (0, 0, -S));
    // both normals point radially outward: dot(normal, p - center) > 0
    let d_entry = (entry.normal.z as i128) * ((entry.p.z - (-2 * S)) as i128);
    let d_exit = (exit.normal.z as i128) * ((exit.p.z - (-2 * S)) as i128);
    assert!(d_entry > 0);
    assert!(d_exit > 0);
}

#[test]
fn ray_pointing_away_misses() {
    let s = Sphere::new(Vec3::new(0, 0, -2 * S), S, 0);
    let r = Ray::new(Vec3::new(0, 0, 0), Vec3::new(0, 0, S));
    assert!(s.hit(&r, 66, FAR).is_none());
    let r2 = Ray::new(Vec3::new(0, 3 * S, 0), Vec3::new(0, S, S));
    assert!(s.hit(&r2, 66, FAR).is_none());
}

#[test]
fn scene_returns_nearest_hit_regardless_of_order() {
    // two overlapping spheres along the same ray
    let near = Sphere::new(Vec3::new(0, 0, -2 * S), S, 0);
    let far_overlapping = Sphere::new(Vec3::new(0, 0, -7 * S / 2), 2 * S, 1);
    let r = Ray::new(Vec3::new(0, 0, 0), Vec3::new(0, 0, -S));

    let mut scene_a = HitableList::new();
    scene_a.push_material(gray());
    scene_a.push_material(gray());
    scene_a.push_sphere(near);
    scene_a.push_sphere(far_overlapping);
    let ha = scene_a.hit(&r, 66, FAR).expect("hit");
    assert_eq!(ha.t, S);
    assert_eq!(ha.mat, 0);

    let mut scene_b = HitableList::new();
    scene_b.push_material(gray());
    scene_b.push_material(gray());
    scene_b.push_sphere(far_overlapping);
    scene_b.push_sphere(near);
    let hb = scene_b.hit(&r, 66, FAR).expect("hit");
    assert_eq!(hb.t, S);
    assert_eq!(hb.mat, 0);

    assert_eq!(ha, hb);
}

#[test]
fn scene_miss_when_no_sphere_on_ray() {
    let mut scene = HitableList::new();
    scene.push_material(gray());
    scene.push_sphere(Sphere::new(Vec3::new(0, 0, -2 * S), S, 0));
    let up = Ray::new(Vec3::new(0, 0, 0), Vec3::new(0, S, 0));
    assert!(scene.hit(&up, 66, FAR).is_none());
}

#[test]
fn scene_narrowing_keeps_closest_of_many() {
    let mut scene = HitableList::new();
    scene.push_material(gray());
    let mut k: i64 = 8;
    while k >= 2 {
        scene.push_sphere(Sphere::new(Vec3::new(0, 0, -2 * k * S), S, 0));
        k -= 1;
    }
    let r = Ray::new(Vec3::new(0, 0, 0), Vec3::new(0, 0, -S));
    let h = scene.hit(&r, 66, FAR).expect("hit");
    // nearest sphere sits at z = -4: entry at t = 3
    assert_eq!(h.t, 3 * S);
}
