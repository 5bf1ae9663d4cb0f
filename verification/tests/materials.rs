use raytrace::fixed::SCALE;
use raytrace::vec3::Vec3;
use raytrace::ray::Ray;
use raytrace::hitable::HitRecord;
use raytrace::material::{
    Lambertian, Metal, Dielectrics, Material, reflect, refract, schlick, random_in_unit_sphere,
};
use raytrace::rng::Rng;

const S: i64 = SCALE;

fn rec_at_origin() -> HitRecord {
    HitRecord { t: S, p: Vec3::new(0, 0, 0), normal: Vec3::new(0, S, 0), mat: 0 }
}

#[test]
fn unit_sphere_samples_stay_inside() {
    let mut rng = Rng::new(7);
    let mut k = 0;
    while k < 200 {
        let p = random_in_unit_sphere(&mut rng);
        assert!(p.dot(&p) < (S as i128) * (S as i128));
        k += 1;
    }
}

#[test]
fn lambertian_always_scatters() {
    let lam = Lambertian::new(Vec3::new(S / 2, S / 4, S / 8));
    let r_in = Ray::new(Vec3::new(0, S, 0), Vec3::new(0, -S, 0));
    let mut rng = Rng::new(1);
    let mut k = 0;
    while k < 100 {
        let res = lam.scatter(&r_in, &rec_at_origin(), &mut rng);
        let (ray, att) = res.expect("lambertian never absorbs");
        assert_eq!((ray.origin.x, ray.origin.y, ray.origin.z), (0, 0, 0));
        assert_eq!((att.x, att.y, att.z), (S / 2, S / 4, S / 8));
        k += 1;
    }
}

#[test]
fn metal_zero_fuzz_reflects_exactly_and_deterministically() {
    let metal = Metal::new(Vec3::new(S, S, S), 0);
    let r_in = Ray::new(Vec3::new(-S, S, 0), Vec3::new(S, -S, 0));
    let mut rng1 = Rng::new(11);
    let mut rng2 = Rng::new(987654321);
    let (ray1, _) = metal.scatter(&r_in, &rec_at_origin(), &mut rng1).expect("reflects");
    let (ray2, _) = metal.scatter(&r_in, &rec_at_origin(), &mut rng2).expect("reflects");
    // the exact geometric reflection of the unit incoming direction
    assert_eq!((ray1.direction.x, ray1.direction.y, ray1.direction.z), (46341, 46342, 0));
    // independent of the random stream
    assert_eq!(ray1.direction, ray2.direction);
    // matches the free-standing reflect on the unit direction
    let uv = Vec3::unit_vector(&r_in.direction);
    let refl = reflect(uv, Vec3::new(0, S, 0));
    assert_eq!(ray1.direction, refl);
}

#[test]
fn metal_grazing_ray_is_absorbed() {
    let metal = Metal::new(Vec3::new(S, S, S), 0);
    // reflection stays in the surface plane: dot with the normal is zero
    let r_in = Ray::new(Vec3::new(-S, 0, 0), Vec3::new(S, 0, 0));
    let mut rng = Rng::new(3);
    assert!(metal.scatter(&r_in, &rec_at_origin(), &mut rng).is_none());
}

#[test]
fn dielectric_matched_index_does_not_bend() {
    // normal incidence: the refracted ray continues exactly straight
    let glass = Dielectrics::new(S);
    let r_in = Ray::new(Vec3::new(0, S, 0), Vec3::new(0, -S, 0));
    let mut rng = Rng::new(5);
    let (ray, att) = glass.scatter(&r_in, &rec_at_origin(), &mut rng).expect("scatters");
    assert_eq!((ray.direction.x, ray.direction.y, ray.direction.z), (0, -S, 0));
    assert_eq!((att.x, att.y, att.z), (S, S, S));
    // oblique incidence: within one fixed-point step of the incoming unit direction
    let v = Vec3::unit_vector(&Vec3::new(S, -S, 0));
    let refr = refract(v, Vec3::new(0, S, 0), S).expect("refracts");
    assert!(refr.x >= v.x && refr.x <= v.x + 1);
    assert!(refr.y >= v.y && refr.y <= v.y + 1);
    assert!(refr.z >= v.z && refr.z <= v.z + 1);
}

#[test]
fn schlick_values() {
    // normal incidence at matched index: reflectance is exactly zero
    assert_eq!(schlick(S, S), 0);
    // grazing incidence (cosine 0): reflectance is exactly one
    assert_eq!(schlick(0, 3 * S / 2), S);
}

#[test]
fn dielectric_total_internal_reflection_reflects() {
    // leaving a dense medium at a steep angle: no refracted direction exists
    let v = Vec3::unit_vector(&Vec3::new(S, -S / 4, 0));
    assert!(refract(v, Vec3::new(0, S, 0), 3 * S).is_none());
}

#[test]
fn material_dispatch_matches_variants() {
    let lam = Material::Lambertian(Lambertian::new(Vec3::new(S / 2, S / 2, S / 2)));
    let r_in = Ray::new(Vec3::new(0, S, 0), Vec3::new(0, -S, 0));
    let mut rng = Rng::new(9);
    assert!(lam.scatter(&r_in, &rec_at_origin(), &mut rng).is_some());
    let metal = Material::Metal(Metal::new(Vec3::new(S, S, S), 0));
    let graze = Ray::new(Vec3::new(-S, 0, 0), Vec3::new(S, 0, 0));
    assert!(metal.scatter(&graze, &rec_at_origin(), &mut rng).is_none());
}
