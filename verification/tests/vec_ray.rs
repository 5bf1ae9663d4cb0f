use raytrace::fixed::{fmul, fdiv, isqrt, SCALE};
use raytrace::vec3::Vec3;
use raytrace::ray::Ray;

const S: i64 = SCALE;

#[test]
fn fixed_point_basics() {
    assert_eq!(fmul(3 * S, 2 * S), 6 * S);
    assert_eq!(fmul(-S, S), -S);
    // floor semantics: -1/65536 rounds toward negative infinity
    assert_eq!(fmul(-1, 1), -1);
    assert_eq!(fmul(1, 1), 0);
    assert_eq!(fdiv(S, 2 * S), S / 2);
    assert_eq!(fdiv(-S, 2 * S), -S / 2);
    assert_eq!(isqrt(10), 3);
    assert_eq!(isqrt(0), 0);
    assert_eq!(isqrt(4294967296), 65536);
}

#[test]
fn vec3_arithmetic() {
    let a = Vec3::new(S, 2 * S, 3 * S);
    let b = Vec3::new(S, S, S);
    let sum = a.add(b);
    assert_eq!((sum.x, sum.y, sum.z), (2 * S, 3 * S, 4 * S));
    let diff = a.sub(b);
    assert_eq!((diff.x, diff.y, diff.z), (0, S, 2 * S));
    let n = a.neg();
    assert_eq!((n.x, n.y, n.z), (-S, -2 * S, -3 * S));
    let m = Vec3::new(2 * S, 0, S).mul(Vec3::new(3 * S, 5 * S, 2 * S));
    assert_eq!((m.x, m.y, m.z), (6 * S, 0, 2 * S));
    let sc = Vec3::new(S, 2 * S, -S).scale(S / 2);
    assert_eq!((sc.x, sc.y, sc.z), (S / 2, S, -S / 2));
    let d = Vec3::new(2 * S, -2 * S, 0).div(2 * S);
    assert_eq!((d.x, d.y, d.z), (S, -S, 0));
    assert_eq!(a.x(), S);
    assert_eq!(a.y(), 2 * S);
    assert_eq!(a.z(), 3 * S);
    assert_eq!(a.index(0), S);
    assert_eq!(a.index(1), 2 * S);
    assert_eq!(a.index(2), 3 * S);
}

#[test]
fn vec3_dot_cross_length() {
    let ex = Vec3::new(S, 0, 0);
    let ey = Vec3::new(0, S, 0);
    assert_eq!(ex.dot(&ex), (S as i128) * (S as i128));
    assert_eq!(ex.dot(&ey), 0);
    let c = ex.cross(ey);
    assert_eq!((c.x, c.y, c.z), (0, 0, S));
    let c2 = ey.cross(ex);
    assert_eq!((c2.x, c2.y, c2.z), (0, 0, -S));
    let v = Vec3::new(3 * S, 4 * S, 0);
    assert_eq!(v.length(), 5 * S);
    assert_eq!(v.squared_length(), 25 * (S as i128) * (S as i128));
    let u = Vec3::unit_vector(&Vec3::new(0, 3 * S, 0));
    assert_eq!((u.x, u.y, u.z), (0, S, 0));
    let u2 = Vec3::unit_vector(&Vec3::new(S, -S, 0));
    assert_eq!((u2.x, u2.y, u2.z), (46341, -46342, 0));
}

#[test]
fn ray_accessors_and_point_at() {
    let r = Ray::new(Vec3::new(S, 2 * S, 3 * S), Vec3::new(0, 0, -S));
    assert_eq!(r.origin().z, 3 * S);
    assert_eq!(r.direction().z, -S);
    let p = r.point_at_parameter(2 * S);
    assert_eq!((p.x, p.y, p.z), (S, 2 * S, S));
}

#[test]
fn point_at_parameter_monotonic_along_direction() {
    // the evaluated points march monotonically along the ray's direction
    let r = Ray::new(Vec3::new(0, 0, 0), Vec3::new(S / 4, -S, 0));
    let mut prev = r.point_at_parameter(-4 * S);
    let mut t = -4 * S + S / 2;
    while t <= 4 * S {
        let p = r.point_at_parameter(t);
        assert!(p.x >= prev.x);
        assert!(p.y <= prev.y);
        assert_eq!(p.z, prev.z);
        prev = p;
        t += S / 2;
    }
}
