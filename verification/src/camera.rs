use vstd::prelude::*;
use crate::fixed::{
    fmul, fmul_s, fdiv, fdiv_s, SCALE, div_floor_i128, lemma_div_abs_bound, lemma_fmul_bound,
    lemma_mul_abs,
};
use crate::vec3::{Vec3, bounded, dot_s, unit_spec, cross_x, cross_y, cross_z};
use crate::ray::Ray;
use crate::rng::{Rng, rng_ok, next_state, signed_draw_of};
use crate::material::in_unit;
use vstd::arithmetic::div_mod::{lemma_div_pos_is_pos, lemma_div_is_ordered};

verus! {

/// Largest eye / target / focus-distance scalar a camera may use.
pub const CAM_LIMIT: i64 = 0x40000000;

/// The half-angle of the vertical field of view, in radians at fixed scale:
/// `vfov * pi / 360` with `pi ~ 205887 / SCALE`.
pub open spec fn theta_half(vfov: int) -> int {
    (vfov * 205887) / 23592960
}

/// The tangent of the field-of-view half-angle, by a fixed-point series for
/// sine and cosine (accurate to a fraction of a percent over the admitted
/// field of view).
pub open spec fn tan_half_spec(vfov: int) -> int {
    let x = theta_half(vfov);
    let x2 = fmul_s(x, x);
    let x3 = fmul_s(x2, x);
    let x5 = fmul_s(x3, x2);
    let s = x - x3 / 6 + x5 / 120;
    let c = SCALE - x2 / 2 + fmul_s(x2, x2) / 24;
    fdiv_s(s, c)
}

/// The tangent of half the vertical field of view (`vfov` in degrees, fixed
/// point, within `(0, 120]`).
pub fn tan_half(vfov: i64) -> (r: i64)
    requires
        1 <= vfov <= 120 * SCALE,
    ensures
        r == tan_half_spec(vfov as int),
        -3 * SCALE <= r <= 3 * SCALE,
{
    proof {
        lemma_div_pos_is_pos((vfov as int) * 205887, 23592960);
        lemma_div_abs_bound((vfov as int) * 205887, 23592960, 68640);
    }
    let x = div_floor_i128((vfov as i128) * 205887, 23592960) as i64;
    proof {
        lemma_fmul_bound(x as int, x as int, 68640, 68640, 72000);
        assert(0 <= (x as int) * (x as int)) by (nonlinear_arith);
        lemma_div_pos_is_pos((x as int) * (x as int), SCALE as int);
    }
    let x2 = fmul(x, x);
    proof {
        lemma_fmul_bound(x2 as int, x as int, 72000, 68640, 76000);
        assert(0 <= (x2 as int) * (x as int)) by (nonlinear_arith)
            requires
                x2 >= 0,
                x >= 0,
        ;
        lemma_div_pos_is_pos((x2 as int) * (x as int), SCALE as int);
    }
    let x3 = fmul(x2, x);
    proof {
        lemma_fmul_bound(x3 as int, x2 as int, 76000, 72000, 84000);
        assert(0 <= (x3 as int) * (x2 as int)) by (nonlinear_arith)
            requires
                x3 >= 0,
                x2 >= 0,
        ;
        lemma_div_pos_is_pos((x3 as int) * (x2 as int), SCALE as int);
        lemma_fmul_bound(x2 as int, x2 as int, 72000, 72000, 80000);
        assert(0 <= (x2 as int) * (x2 as int)) by (nonlinear_arith);
        lemma_div_pos_is_pos((x2 as int) * (x2 as int), SCALE as int);
    }
    let x5 = fmul(x3, x2);
    let s = x - x3 / 6 + x5 / 120;
    let c = SCALE - x2 / 2 + fmul(x2, x2) / 24;
    proof {
        lemma_div_pos_is_pos(x3 as int, 6);
        lemma_div_is_ordered(x3 as int, 76000, 6);
        lemma_div_pos_is_pos(x5 as int, 120);
        lemma_div_is_ordered(x5 as int, 84000, 120);
        lemma_div_pos_is_pos(x2 as int, 2);
        lemma_div_is_ordered(x2 as int, 72000, 2);
        assert(c >= 29536);
        assert((s as int) * (SCALE as int) <= 3 * (SCALE as int) * c
            && -(3 * (SCALE as int) * c) <= (s as int) * (SCALE as int)) by (nonlinear_arith)
            requires
                -13000 <= s <= 69340,
                c >= 29536,
                SCALE == 65536,
        ;
        lemma_div_abs_bound((s as int) * (SCALE as int), c as int, 3 * (SCALE as int));
    }
    fdiv(s, c)
}

/// Maps image-plane coordinates to world-space rays, with a lens aperture for
/// depth of field. Fully determined at construction.
pub struct Camera {
    pub origin: Vec3,
    pub lower_left_corner: Vec3,
    pub horizontal: Vec3,
    pub vertical: Vec3,
    pub lens_radius: i64,
    pub u: Vec3,
    pub v: Vec3,
    pub w: Vec3,
}

/// Bounds under which `get_ray` produces rays the integrator accepts.
pub open spec fn cam_wf(c: Camera) -> bool {
    &&& bounded(c.origin, CAM_LIMIT as int)
    &&& bounded(c.lower_left_corner, 0x1000000000)
    &&& bounded(c.horizontal, 0x1000000000)
    &&& bounded(c.vertical, 0x1000000000)
    &&& 0 <= c.lens_radius <= 0x100000
    &&& bounded(c.u, SCALE as int)
    &&& bounded(c.v, 2 * (SCALE as int))
    &&& bounded(c.w, SCALE as int)
}

/// The cross product of componentwise-bounded vectors is componentwise
/// bounded by `2 * ba * bb / SCALE`.
pub proof fn lemma_cross_bound(a: Vec3, b: Vec3, ba: int, bb: int, c: int)
    requires
        bounded(a, ba),
        bounded(b, bb),
        ba >= 0,
        bb >= 0,
        2 * (ba * bb) <= c * (SCALE as int),
    ensures
        -c <= cross_x(a, b) <= c,
        -c <= cross_y(a, b) <= c,
        -c <= cross_z(a, b) <= c,
{
    lemma_mul_abs(a.y as int, b.z as int, ba, bb);
    lemma_mul_abs(a.z as int, b.y as int, ba, bb);
    lemma_mul_abs(a.z as int, b.x as int, ba, bb);
    lemma_mul_abs(a.x as int, b.z as int, ba, bb);
    lemma_mul_abs(a.x as int, b.y as int, ba, bb);
    lemma_mul_abs(a.y as int, b.x as int, ba, bb);
    lemma_div_abs_bound(a.y * b.z - a.z * b.y, SCALE as int, c);
    lemma_div_abs_bound(a.z * b.x - a.x * b.z, SCALE as int, c);
    lemma_div_abs_bound(a.x * b.y - a.y * b.x, SCALE as int, c);
}

/// The difference `a - b` as a vector.
pub open spec fn sub3(a: Vec3, b: Vec3) -> Vec3 {
    Vec3 { x: (a.x - b.x) as i64, y: (a.y - b.y) as i64, z: (a.z - b.z) as i64 }
}

/// The cross product of `a` and `b` as a vector.
pub open spec fn cross3(a: Vec3, b: Vec3) -> Vec3 {
    Vec3 { x: cross_x(a, b) as i64, y: cross_y(a, b) as i64, z: cross_z(a, b) as i64 }
}

impl Camera {
    /// Derive the camera frame from eye position, look-at target, up
    /// direction, vertical field of view (degrees), aspect ratio, aperture
    /// and focus distance.
    pub fn new(
        lookfrom: Vec3,
        lookat: Vec3,
        vup: Vec3,
        vfov: i64,
        aspect: i64,
        aperture: i64,
        focus_dist: i64,
    ) -> (cam: Camera)
        requires
            bounded(lookfrom, CAM_LIMIT as int),
            bounded(lookat, CAM_LIMIT as int),
            bounded(vup, CAM_LIMIT as int),
            1 <= vfov <= 120 * SCALE,
            0 < aspect <= 8 * SCALE,
            0 <= aperture <= 0x200000,
            1 <= focus_dist <= CAM_LIMIT,
            dot_s(sub3(lookfrom, lookat), sub3(lookfrom, lookat)) >= 1,
            dot_s(cross3(vup, unit_spec(sub3(lookfrom, lookat))), cross3(vup, unit_spec(sub3(lookfrom, lookat)))) >= 1,
        ensures
            cam_wf(cam),
            cam.origin == lookfrom,
            cam.w == unit_spec(sub3(lookfrom, lookat)),
            cam.u == unit_spec(cross3(vup, cam.w)),
            cam.v == cross3(cam.w, cam.u),
            cam.lens_radius == aperture / 2,
            ({
                let hh = tan_half_spec(vfov as int);
                let hw = fmul_s(aspect as int, hh);
                let hwfd = fmul_s(hw, focus_dist as int);
                let hhfd = fmul_s(hh, focus_dist as int);
                &&& cam.lower_left_corner.x == lookfrom.x - fmul_s(cam.u.x as int, hwfd) - fmul_s(
                    cam.v.x as int,
                    hhfd,
                ) - fmul_s(cam.w.x as int, focus_dist as int)
                &&& cam.lower_left_corner.y == lookfrom.y - fmul_s(cam.u.y as int, hwfd) - fmul_s(
                    cam.v.y as int,
                    hhfd,
                ) - fmul_s(cam.w.y as int, focus_dist as int)
                &&& cam.lower_left_corner.z == lookfrom.z - fmul_s(cam.u.z as int, hwfd) - fmul_s(
                    cam.v.z as int,
                    hhfd,
                ) - fmul_s(cam.w.z as int, focus_dist as int)
                &&& cam.horizontal.x == fmul_s(cam.u.x as int, 2 * hwfd)
                &&& cam.horizontal.y == fmul_s(cam.u.y as int, 2 * hwfd)
                &&& cam.horizontal.z == fmul_s(cam.u.z as int, 2 * hwfd)
                &&& cam.vertical.x == fmul_s(cam.v.x as int, 2 * hhfd)
                &&& cam.vertical.y == fmul_s(cam.v.y as int, 2 * hhfd)
                &&& cam.vertical.z == fmul_s(cam.v.z as int, 2 * hhfd)
            }),
    {
        let half_height = tan_half(vfov);
        proof {
            lemma_fmul_bound(aspect as int, half_height as int, 8 * (SCALE as int), 3 * (SCALE as int), 24 * (SCALE as int));
        }
        let half_width = fmul(aspect, half_height);
        let dirv = lookfrom.sub(lookat);
        let w = Vec3::unit_vector(&dirv);
        let cuw = vup.cross(w);
        proof {
            lemma_cross_bound(vup, w, CAM_LIMIT as int, SCALE as int, 0x80000000);
        }
        let u = Vec3::unit_vector(&cuw);
        let v = w.cross(u);
        proof {
            lemma_cross_bound(w, u, SCALE as int, SCALE as int, 2 * (SCALE as int));
        }
        proof {
            lemma_fmul_bound(half_width as int, focus_dist as int, 24 * (SCALE as int), CAM_LIMIT as int, 0x800000000);
            lemma_fmul_bound(half_height as int, focus_dist as int, 3 * (SCALE as int), CAM_LIMIT as int, 0x100000000);
        }
        let hwfd = fmul(half_width, focus_dist);
        let hhfd = fmul(half_height, focus_dist);
        proof {
            lemma_fmul_bound(u.x as int, hwfd as int, SCALE as int, 0x800000000, 0x800000000);
            lemma_fmul_bound(u.y as int, hwfd as int, SCALE as int, 0x800000000, 0x800000000);
            lemma_fmul_bound(u.z as int, hwfd as int, SCALE as int, 0x800000000, 0x800000000);
            lemma_fmul_bound(v.x as int, hhfd as int, 2 * (SCALE as int), 0x100000000, 0x200000000);
            lemma_fmul_bound(v.y as int, hhfd as int, 2 * (SCALE as int), 0x100000000, 0x200000000);
            lemma_fmul_bound(v.z as int, hhfd as int, 2 * (SCALE as int), 0x100000000, 0x200000000);
            lemma_fmul_bound(w.x as int, focus_dist as int, SCALE as int, CAM_LIMIT as int, CAM_LIMIT as int);
            lemma_fmul_bound(w.y as int, focus_dist as int, SCALE as int, CAM_LIMIT as int, CAM_LIMIT as int);
            lemma_fmul_bound(w.z as int, focus_dist as int, SCALE as int, CAM_LIMIT as int, CAM_LIMIT as int);
            lemma_fmul_bound(u.x as int, 2 * (hwfd as int), SCALE as int, 0x1000000000, 0x1000000000);
            lemma_fmul_bound(u.y as int, 2 * (hwfd as int), SCALE as int, 0x1000000000, 0x1000000000);
            lemma_fmul_bound(u.z as int, 2 * (hwfd as int), SCALE as int, 0x1000000000, 0x1000000000);
            lemma_fmul_bound(v.x as int, 2 * (hhfd as int), 2 * (SCALE as int), 0x400000000, 0x800000000);
            lemma_fmul_bound(v.y as int, 2 * (hhfd as int), 2 * (SCALE as int), 0x400000000, 0x800000000);
            lemma_fmul_bound(v.z as int, 2 * (hhfd as int), 2 * (SCALE as int), 0x400000000, 0x800000000);
        }
        let lower_left_corner = Vec3::new(
            lookfrom.x - fmul(u.x, hwfd) - fmul(v.x, hhfd) - fmul(w.x, focus_dist),
            lookfrom.y - fmul(u.y, hwfd) - fmul(v.y, hhfd) - fmul(w.y, focus_dist),
            lookfrom.z - fmul(u.z, hwfd) - fmul(v.z, hhfd) - fmul(w.z, focus_dist),
        );
        let horizontal = Vec3::new(
            fmul(u.x, 2 * hwfd),
            fmul(u.y, 2 * hwfd),
            fmul(u.z, 2 * hwfd),
        );
        let vertical = Vec3::new(
            fmul(v.x, 2 * hhfd),
            fmul(v.y, 2 * hhfd),
            fmul(v.z, 2 * hhfd),
        );
        Camera {
            origin: lookfrom,
            lower_left_corner,
            horizontal,
            vertical,
            lens_radius: aperture / 2,
            u,
            v,
            w,
        }
    }
}

/// One disk-sampling attempt: two signed draws, z fixed at zero.
pub open spec fn disk_step(st: u64) -> (Vec3, u64) {
    let x = signed_draw_of(st);
    let st1 = next_state(st);
    let y = signed_draw_of(st1);
    let st2 = next_state(st1);
    (Vec3 { x, y, z: 0 }, st2)
}

/// Rejection sampling of a point in the unit disk, with bounded retries;
/// after the last retry the center is used.
pub open spec fn sample_disk_spec(st: u64, tries: nat) -> (Vec3, u64)
    decreases tries,
{
    let (p, st2) = disk_step(st);
    if in_unit(p) {
        (p, st2)
    } else if tries == 0 {
        (Vec3 { x: 0, y: 0, z: 0 }, st2)
    } else {
        sample_disk_spec(st2, (tries - 1) as nat)
    }
}

/// Rejection-sample a point uniformly in the unit disk (z = 0).
pub fn random_in_unit_disk(rng: &mut Rng) -> (p: Vec3)
    requires
        rng_ok(old(rng).state),
    ensures
        rng_ok(final(rng).state),
        (p, final(rng).state) == sample_disk_spec(old(rng).state, 63),
        in_unit(p),
        bounded(p, SCALE as int),
        p.z == 0,
{
    let mut i: u64 = 0;
    loop
        invariant
            rng_ok(rng.state),
            i <= 63,
            sample_disk_spec(rng.state, (63 - i) as nat) == sample_disk_spec(
                old(rng).state,
                63,
            ),
        decreases 64 - i,
    {
        let ghost st = rng.state;
        let x = rng.next_signed();
        let y = rng.next_signed();
        let p = Vec3::new(x, y, 0);
        let d = p.dot(&p);
        proof {
            assert(disk_step(st) == (p, rng.state));
        }
        if d < 0x100000000 {
            return p;
        }
        if i == 63 {
            return Vec3::new(0, 0, 0);
        }
        i = i + 1;
    }
}

/// The ray that `get_ray` produces for image-plane coordinates `(s, t)`: its
/// origin jittered over the lens disk, its direction aimed at the viewport
/// point.
pub open spec fn get_ray_spec(c: Camera, s: int, t: int, st: u64) -> (Ray, u64) {
    let (rd, st2) = sample_disk_spec(st, 63);
    let rdx = fmul_s(rd.x as int, c.lens_radius as int);
    let rdy = fmul_s(rd.y as int, c.lens_radius as int);
    let offx = fmul_s(c.u.x as int, rdx) + fmul_s(c.v.x as int, rdy);
    let offy = fmul_s(c.u.y as int, rdx) + fmul_s(c.v.y as int, rdy);
    let offz = fmul_s(c.u.z as int, rdx) + fmul_s(c.v.z as int, rdy);
    (
        Ray {
            origin: Vec3 {
                x: (c.origin.x + offx) as i64,
                y: (c.origin.y + offy) as i64,
                z: (c.origin.z + offz) as i64,
            },
            direction: Vec3 {
                x: (c.lower_left_corner.x + fmul_s(c.horizontal.x as int, s) + fmul_s(
                    c.vertical.x as int,
                    t,
                ) - c.origin.x - offx) as i64,
                y: (c.lower_left_corner.y + fmul_s(c.horizontal.y as int, s) + fmul_s(
                    c.vertical.y as int,
                    t,
                ) - c.origin.y - offy) as i64,
                z: (c.lower_left_corner.z + fmul_s(c.horizontal.z as int, s) + fmul_s(
                    c.vertical.z as int,
                    t,
                ) - c.origin.z - offz) as i64,
            },
        },
        st2,
    )
}

impl Camera {
    /// The world-space ray for image-plane coordinates `(s, t)` in `[0, 1]`,
    /// with the origin jittered over the lens disk for depth of field.
    pub fn get_ray(&self, s: i64, t: i64, rng: &mut Rng) -> (r: Ray)
        requires
            cam_wf(*self),
            rng_ok(old(rng).state),
            0 <= s <= SCALE,
            0 <= t <= SCALE,
        ensures
            rng_ok(final(rng).state),
            (r, final(rng).state) == get_ray_spec(*self, s as int, t as int, old(rng).state),
            bounded(r.origin, crate::hitable::P_LIMIT as int),
            bounded(r.direction, crate::integrator::COLOR_DIR_LIMIT as int),
    {
        let rd = random_in_unit_disk(rng);
        proof {
            lemma_fmul_bound(rd.x as int, self.lens_radius as int, SCALE as int, 0x100000, 0x100000);
            lemma_fmul_bound(rd.y as int, self.lens_radius as int, SCALE as int, 0x100000, 0x100000);
        }
        let rdx = fmul(rd.x, self.lens_radius);
        let rdy = fmul(rd.y, self.lens_radius);
        proof {
            lemma_fmul_bound(self.u.x as int, rdx as int, SCALE as int, 0x100000, 0x100000);
            lemma_fmul_bound(self.u.y as int, rdx as int, SCALE as int, 0x100000, 0x100000);
            lemma_fmul_bound(self.u.z as int, rdx as int, SCALE as int, 0x100000, 0x100000);
            lemma_fmul_bound(self.v.x as int, rdy as int, 2 * (SCALE as int), 0x100000, 0x200000);
            lemma_fmul_bound(self.v.y as int, rdy as int, 2 * (SCALE as int), 0x100000, 0x200000);
            lemma_fmul_bound(self.v.z as int, rdy as int, 2 * (SCALE as int), 0x100000, 0x200000);
            lemma_fmul_bound(self.horizontal.x as int, s as int, 0x1000000000, SCALE as int, 0x1000000000);
            lemma_fmul_bound(self.horizontal.y as int, s as int, 0x1000000000, SCALE as int, 0x1000000000);
            lemma_fmul_bound(self.horizontal.z as int, s as int, 0x1000000000, SCALE as int, 0x1000000000);
            lemma_fmul_bound(self.vertical.x as int, t as int, 0x1000000000, SCALE as int, 0x1000000000);
            lemma_fmul_bound(self.vertical.y as int, t as int, 0x1000000000, SCALE as int, 0x1000000000);
            lemma_fmul_bound(self.vertical.z as int, t as int, 0x1000000000, SCALE as int, 0x1000000000);
        }
        let offx = fmul(self.u.x, rdx) + fmul(self.v.x, rdy);
        let offy = fmul(self.u.y, rdx) + fmul(self.v.y, rdy);
        let offz = fmul(self.u.z, rdx) + fmul(self.v.z, rdy);
        let orig = Vec3::new(self.origin.x + offx, self.origin.y + offy, self.origin.z + offz);
        let dir = Vec3::new(
            self.lower_left_corner.x + fmul(self.horizontal.x, s) + fmul(self.vertical.x, t)
                - self.origin.x - offx,
            self.lower_left_corner.y + fmul(self.horizontal.y, s) + fmul(self.vertical.y, t)
                - self.origin.y - offy,
            self.lower_left_corner.z + fmul(self.horizontal.z, s) + fmul(self.vertical.z, t)
                - self.origin.z - offz,
        );
        Ray::new(orig, dir)
    }
}

} // verus!
