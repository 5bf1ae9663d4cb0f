use vstd::prelude::*;
use crate::fixed::{fmul, fmul_s, fdiv, fdiv_s, SCALE, isqrt, sqrt_floor, is_sqrt_floor, div_floor_i128, lemma_mul_abs, lemma_div_abs_bound, lemma_fmul_bound};
use crate::vec3::{Vec3, bounded, dot_s, unit_spec};
use crate::ray::Ray;
use crate::hitable::HitRecord;
use crate::rng::{Rng, rng_ok, next_state, signed_draw_of, draw_of};

verus! {

/// A color: every channel within `[0, SCALE]`.
pub open spec fn color_ok(v: Vec3) -> bool {
    &&& 0 <= v.x <= SCALE
    &&& 0 <= v.y <= SCALE
    &&& 0 <= v.z <= SCALE
}

/// A record a scatter call can work on: bounded hit point and normal.
pub open spec fn rec_ok(rec: HitRecord) -> bool {
    &&& bounded(rec.p, crate::hitable::P_LIMIT as int)
    &&& bounded(rec.normal, 2 * (SCALE as int))
}

/// An incoming ray a scatter call can work on: bounded nonzero direction.
pub open spec fn ray_in_ok(r: Ray) -> bool {
    &&& bounded(r.direction, crate::hitable::HIT_DIR_LIMIT as int)
    &&& dot_s(r.direction, r.direction) >= 1
}

/// Diffuse material: scatters into the unit sphere around the normal.
#[derive(Clone, Copy, PartialEq, Eq, Structural, Debug)]
pub struct Lambertian {
    pub albedo: Vec3,
}

/// Reflective material with a fuzz factor in `[0, 1]`.
#[derive(Clone, Copy, PartialEq, Eq, Structural, Debug)]
pub struct Metal {
    pub albedo: Vec3,
    pub fuzz: i64,
}

/// Refractive material with a refractive index.
#[derive(Clone, Copy, PartialEq, Eq, Structural, Debug)]
pub struct Dielectrics {
    pub ref_idx: i64,
}

/// The closed set of material kinds, dispatched by match.
#[derive(Clone, Copy, PartialEq, Eq, Structural, Debug)]
pub enum Material {
    Lambertian(Lambertian),
    Metal(Metal),
    Dielectric(Dielectrics),
}

/// Well-formedness of a material's parameters.
pub open spec fn material_wf(m: Material) -> bool {
    match m {
        Material::Lambertian(l) => color_ok(l.albedo),
        Material::Metal(mt) => color_ok(mt.albedo) && 0 <= mt.fuzz <= SCALE,
        Material::Dielectric(d) => SCALE <= d.ref_idx <= 8 * SCALE,
    }
}

/// One sampling attempt: three signed draws and the state after them.
pub open spec fn sample_step(st: u64) -> (Vec3, u64) {
    let x = signed_draw_of(st);
    let st1 = next_state(st);
    let y = signed_draw_of(st1);
    let st2 = next_state(st1);
    let z = signed_draw_of(st2);
    let st3 = next_state(st2);
    (Vec3 { x, y, z }, st3)
}

/// The point lies strictly inside the unit sphere.
pub open spec fn in_unit(p: Vec3) -> bool {
    dot_s(p, p) < (SCALE as int) * (SCALE as int)
}

/// Rejection sampling of a point in the unit sphere, with a bounded number of
/// retries; after the last retry the center is used, which is a valid (if not
/// uniform) sample.
pub open spec fn sample_sphere_spec(st: u64, tries: nat) -> (Vec3, u64)
    decreases tries,
{
    let (p, st2) = sample_step(st);
    if in_unit(p) {
        (p, st2)
    } else if tries == 0 {
        (Vec3 { x: 0, y: 0, z: 0 }, st2)
    } else {
        sample_sphere_spec(st2, (tries - 1) as nat)
    }
}

/// Rejection-sample a point uniformly in `[-1, 1)^3` until it falls strictly
/// inside the unit sphere (bounded retries; see `sample_sphere_spec`).
pub fn random_in_unit_sphere(rng: &mut Rng) -> (p: Vec3)
    requires
        rng_ok(old(rng).state),
    ensures
        rng_ok(final(rng).state),
        (p, final(rng).state) == sample_sphere_spec(old(rng).state, 63),
        in_unit(p),
        bounded(p, SCALE as int),
{
    let mut i: u64 = 0;
    loop
        invariant
            rng_ok(rng.state),
            i <= 63,
            sample_sphere_spec(rng.state, (63 - i) as nat) == sample_sphere_spec(
                old(rng).state,
                63,
            ),
        decreases 64 - i,
    {
        let ghost st = rng.state;
        let x = rng.next_signed();
        let y = rng.next_signed();
        let z = rng.next_signed();
        let p = Vec3::new(x, y, z);
        let d = p.dot(&p);
        proof {
            assert(sample_step(st) == (p, rng.state));
        }
        if d < 0x100000000 {
            return p;
        }
        if i == 63 {
            return Vec3::new(0, 0, 0);
        }
        i = i + 1;
    }
}

/// The scaled projection `2 * (v . n) / SCALE` used by reflection.
pub open spec fn reflect_k(v: Vec3, n: Vec3) -> int {
    (2 * dot_s(v, n)) / (SCALE as int)
}

/// Components of the reflection `v - 2 * (v . n) * n`.
pub open spec fn reflect_x(v: Vec3, n: Vec3) -> int {
    v.x - fmul_s(n.x as int, reflect_k(v, n))
}

pub open spec fn reflect_y(v: Vec3, n: Vec3) -> int {
    v.y - fmul_s(n.y as int, reflect_k(v, n))
}

pub open spec fn reflect_z(v: Vec3, n: Vec3) -> int {
    v.z - fmul_s(n.z as int, reflect_k(v, n))
}

/// The reflection of `v` about the normal `n`: `v - 2 * (v . n) * n`.
pub fn reflect(v: Vec3, n: Vec3) -> (r: Vec3)
    requires
        bounded(v, crate::hitable::HIT_DIR_LIMIT as int),
        bounded(n, 2 * (SCALE as int)),
    ensures
        r.x == reflect_x(v, n),
        r.y == reflect_y(v, n),
        r.z == reflect_z(v, n),
        bounded(r, 0x8000000),
{
    proof {
        crate::vec3::lemma_dot_bound(v, n, crate::hitable::HIT_DIR_LIMIT as int, 2 * (SCALE as int));
    }
    let d: i128 = v.dot(&n);
    let k_wide = div_floor_i128(2 * d, 65536);
    proof {
        lemma_div_abs_bound(2 * (d as int), SCALE as int, 0x2000000);
    }
    let k = k_wide as i64;
    proof {
        lemma_fmul_bound(n.x as int, k as int, 2 * (SCALE as int), 0x2000000, 0x4000000);
        lemma_fmul_bound(n.y as int, k as int, 2 * (SCALE as int), 0x2000000, 0x4000000);
        lemma_fmul_bound(n.z as int, k as int, 2 * (SCALE as int), 0x2000000, 0x4000000);
    }
    Vec3::new(v.x - fmul(n.x, k), v.y - fmul(n.y, k), v.z - fmul(n.z, k))
}

/// The scaled projection `(v . n) / SCALE` used by refraction.
pub open spec fn refract_dt(v: Vec3, n: Vec3) -> int {
    dot_s(v, n) / (SCALE as int)
}

/// The refraction discriminant `1 - ni^2 * (1 - dt^2)`, at scale
/// `SCALE * SCALE`.
pub open spec fn refract_disc(v: Vec3, n: Vec3, ni: int) -> int {
    (SCALE as int) * (SCALE as int) - (fmul_s(ni, ni) * ((SCALE as int) * (SCALE as int)
        - refract_dt(v, n) * refract_dt(v, n))) / (SCALE as int)
}

/// Components of the refracted direction
/// `ni * (v - n * dt) - n * sqrt(disc)`.
pub open spec fn refract_x(v: Vec3, n: Vec3, ni: int) -> int {
    fmul_s(v.x - fmul_s(n.x as int, refract_dt(v, n)), ni) - fmul_s(
        n.x as int,
        sqrt_floor(refract_disc(v, n, ni)),
    )
}

pub open spec fn refract_y(v: Vec3, n: Vec3, ni: int) -> int {
    fmul_s(v.y - fmul_s(n.y as int, refract_dt(v, n)), ni) - fmul_s(
        n.y as int,
        sqrt_floor(refract_disc(v, n, ni)),
    )
}

pub open spec fn refract_z(v: Vec3, n: Vec3, ni: int) -> int {
    fmul_s(v.z - fmul_s(n.z as int, refract_dt(v, n)), ni) - fmul_s(
        n.z as int,
        sqrt_floor(refract_disc(v, n, ni)),
    )
}

/// Snell's-law refraction: the refracted direction, or nothing under total
/// internal reflection (`disc <= 0`).
pub open spec fn refract_spec(v: Vec3, n: Vec3, ni: int) -> Option<Vec3> {
    if refract_disc(v, n, ni) > 0 {
        Some(
            Vec3 {
                x: refract_x(v, n, ni) as i64,
                y: refract_y(v, n, ni) as i64,
                z: refract_z(v, n, ni) as i64,
            },
        )
    } else {
        None
    }
}

/// Attempt refraction of the unit direction `v` at outward normal `n` with
/// index ratio `ni_over_nt`.
pub fn refract(v: Vec3, n: Vec3, ni_over_nt: i64) -> (res: Option<Vec3>)
    requires
        bounded(v, SCALE as int),
        bounded(n, 2 * (SCALE as int)),
        0 <= ni_over_nt <= 8 * SCALE,
    ensures
        res == refract_spec(v, n, ni_over_nt as int),
        match res {
            Some(r) => bounded(r, 0x4000000),
            None => true,
        },
{
    proof {
        crate::vec3::lemma_dot_bound(v, n, SCALE as int, 2 * (SCALE as int));
    }
    let dt_wide: i128 = v.dot(&n);
    let dt = div_floor_i128(dt_wide, 65536) as i64;
    proof {
        lemma_div_abs_bound(dt_wide as int, SCALE as int, 0x60000);
        lemma_fmul_bound(ni_over_nt as int, ni_over_nt as int, 0x80000, 0x80000, 0x400000);
        lemma_mul_abs(dt as int, dt as int, 0x60000, 0x60000);
    }
    let q = fmul(ni_over_nt, ni_over_nt);
    let inner: i128 = 0x100000000 - (dt as i128) * (dt as i128);
    proof {
        lemma_mul_abs(q as int, inner as int, 0x400000, 0x4000000000);
        lemma_div_abs_bound((q as int) * (inner as int), SCALE as int, 0x100000000000);
    }
    let disc: i128 = 0x100000000 - div_floor_i128((q as i128) * inner, 65536);
    if disc > 0 {
        let sd = isqrt(disc);
        proof {
            crate::fixed::lemma_sqrt_floor_bounds(sd as int, disc as int, 0x800000);
            lemma_fmul_bound(n.x as int, dt as int, 2 * (SCALE as int), 0x60000, 0x200000);
            lemma_fmul_bound(n.y as int, dt as int, 2 * (SCALE as int), 0x60000, 0x200000);
            lemma_fmul_bound(n.z as int, dt as int, 2 * (SCALE as int), 0x60000, 0x200000);
        }
        let wx = v.x - fmul(n.x, dt);
        let wy = v.y - fmul(n.y, dt);
        let wz = v.z - fmul(n.z, dt);
        proof {
            lemma_fmul_bound(wx as int, ni_over_nt as int, 0x400000, 0x80000, 0x2000000);
            lemma_fmul_bound(wy as int, ni_over_nt as int, 0x400000, 0x80000, 0x2000000);
            lemma_fmul_bound(wz as int, ni_over_nt as int, 0x400000, 0x80000, 0x2000000);
            lemma_fmul_bound(n.x as int, sd as int, 2 * (SCALE as int), 0x800000, 0x1000000);
            lemma_fmul_bound(n.y as int, sd as int, 2 * (SCALE as int), 0x800000, 0x1000000);
            lemma_fmul_bound(n.z as int, sd as int, 2 * (SCALE as int), 0x800000, 0x1000000);
        }
        Some(
            Vec3::new(
                fmul(wx, ni_over_nt) - fmul(n.x, sd),
                fmul(wy, ni_over_nt) - fmul(n.y, sd),
                fmul(wz, ni_over_nt) - fmul(n.z, sd),
            ),
        )
    } else {
        None
    }
}

/// The Schlick reflectance approximation
/// `r0 + (1 - r0) * (1 - cosine)^5` with `r0 = ((1 - ri) / (1 + ri))^2`.
pub open spec fn schlick_spec(cosine: int, ri: int) -> int {
    let r0 = fdiv_s(SCALE - ri, SCALE + ri);
    let r0s = fmul_s(r0, r0);
    let u = SCALE - cosine;
    let p2 = fmul_s(u, u);
    let p4 = fmul_s(p2, p2);
    let p5 = fmul_s(p4, u);
    r0s + fmul_s(SCALE - r0s, p5)
}

/// The Schlick reflectance approximation of the Fresnel coefficient.
pub fn schlick(cosine: i64, ref_idx: i64) -> (r: i64)
    requires
        1 <= ref_idx <= 8 * SCALE,
        -0x400000 <= cosine <= 0x400000,
    ensures
        r == schlick_spec(cosine as int, ref_idx as int),
{
    proof {
        assert((SCALE - ref_idx) as int * (SCALE as int) <= 0x70000 * ((SCALE + ref_idx) as int)
            && -(0x70000 * ((SCALE + ref_idx) as int)) <= (SCALE - ref_idx) as int * (SCALE as int))
            by (nonlinear_arith)
            requires
                1 <= ref_idx <= 8 * 65536,
                SCALE == 65536,
        ;
        lemma_div_abs_bound((SCALE - ref_idx) as int * (SCALE as int), (SCALE + ref_idx) as int, 0x70000);
    }
    let r0 = fdiv(SCALE - ref_idx, SCALE + ref_idx);
    proof {
        lemma_fmul_bound(r0 as int, r0 as int, 0x70000, 0x70000, 0x400000);
    }
    let r0s = fmul(r0, r0);
    let u = SCALE - cosine;
    proof {
        lemma_fmul_bound(u as int, u as int, 0x410000, 0x410000, 0x20000000);
    }
    let p2 = fmul(u, u);
    proof {
        lemma_fmul_bound(p2 as int, p2 as int, 0x20000000, 0x20000000, 0x40000000000);
    }
    let p4 = fmul(p2, p2);
    proof {
        lemma_fmul_bound(p4 as int, u as int, 0x40000000000, 0x410000, 0x4000000000000);
    }
    let p5 = fmul(p4, u);
    proof {
        lemma_fmul_bound((SCALE - r0s) as int, p5 as int, 0x410000, 0x4000000000000, 0x200000000000000);
    }
    r0s + fmul(SCALE - r0s, p5)
}

/// What a Lambertian material scatters: a bounce from the hit point toward
/// `normal + random_in_unit_sphere()`, attenuated by the albedo. It never
/// absorbs.
pub open spec fn lambertian_scatter_spec(l: Lambertian, rec: HitRecord, st: u64) -> (Option<
    (Ray, Vec3),
>, u64) {
    let (s, st2) = sample_sphere_spec(st, 63);
    (
        Some(
            (
                Ray {
                    origin: rec.p,
                    direction: Vec3 {
                        x: (rec.normal.x + s.x) as i64,
                        y: (rec.normal.y + s.y) as i64,
                        z: (rec.normal.z + s.z) as i64,
                    },
                },
                l.albedo,
            ),
        ),
        st2,
    )
}

impl Lambertian {
    pub fn new(albedo: Vec3) -> (m: Lambertian)
        ensures
            m.albedo == albedo,
    {
        Lambertian { albedo }
    }

    /// Diffuse scatter; always produces a bounce.
    pub fn scatter(&self, _r_in: &Ray, rec: &HitRecord, rng: &mut Rng) -> (res: Option<
        (Ray, Vec3),
    >)
        requires
            rng_ok(old(rng).state),
            rec_ok(*rec),
        ensures
            rng_ok(final(rng).state),
            (res, final(rng).state) == lambertian_scatter_spec(*self, *rec, old(rng).state),
            res is Some,
            match res {
                Some((ray, att)) => {
                    &&& ray.origin == rec.p
                    &&& bounded(ray.direction, 3 * (SCALE as int))
                    &&& att == self.albedo
                },
                None => false,
            },
    {
        let s = random_in_unit_sphere(rng);
        let target = rec.p.add(rec.normal).add(s);
        let dir = target.sub(rec.p);
        Some((Ray::new(rec.p, dir), self.albedo))
    }
}

/// What a Metal material scatters: the reflection of the unit incoming
/// direction about the normal, perturbed by `fuzz` times a random point in the
/// unit sphere; absorbed when the result points into the surface.
pub open spec fn metal_scatter_spec(m: Metal, r_in: Ray, rec: HitRecord, st: u64) -> (Option<
    (Ray, Vec3),
>, u64) {
    let (s, st2) = sample_sphere_spec(st, 63);
    let uv = unit_spec(r_in.direction);
    let dir = Vec3 {
        x: (reflect_x(uv, rec.normal) + fmul_s(s.x as int, m.fuzz as int)) as i64,
        y: (reflect_y(uv, rec.normal) + fmul_s(s.y as int, m.fuzz as int)) as i64,
        z: (reflect_z(uv, rec.normal) + fmul_s(s.z as int, m.fuzz as int)) as i64,
    };
    if dot_s(dir, rec.normal) > 0 {
        (Some((Ray { origin: rec.p, direction: dir }, m.albedo)), st2)
    } else {
        (None, st2)
    }
}

impl Metal {
    pub fn new(albedo: Vec3, fuzz: i64) -> (m: Metal)
        ensures
            m.albedo == albedo,
            m.fuzz == fuzz,
    {
        Metal { albedo, fuzz }
    }

    /// Reflective scatter; produces a bounce exactly when the fuzzed
    /// reflection points away from the surface.
    pub fn scatter(&self, r_in: &Ray, rec: &HitRecord, rng: &mut Rng) -> (res: Option<
        (Ray, Vec3),
    >)
        requires
            rng_ok(old(rng).state),
            rec_ok(*rec),
            ray_in_ok(*r_in),
            0 <= self.fuzz <= SCALE,
        ensures
            rng_ok(final(rng).state),
            (res, final(rng).state) == metal_scatter_spec(*self, *r_in, *rec, old(rng).state),
            match res {
                Some((ray, att)) => {
                    &&& ray.origin == rec.p
                    &&& bounded(ray.direction, 0x9000000)
                    &&& att == self.albedo
                    &&& dot_s(ray.direction, rec.normal) > 0
                },
                None => true,
            },
    {
        let uv = Vec3::unit_vector(&r_in.direction);
        let reflected = reflect(uv, rec.normal);
        let s = random_in_unit_sphere(rng);
        proof {
            lemma_fmul_bound(s.x as int, self.fuzz as int, SCALE as int, SCALE as int, SCALE as int);
            lemma_fmul_bound(s.y as int, self.fuzz as int, SCALE as int, SCALE as int, SCALE as int);
            lemma_fmul_bound(s.z as int, self.fuzz as int, SCALE as int, SCALE as int, SCALE as int);
        }
        let fz = s.scale(self.fuzz);
        let dir = reflected.add(fz);
        proof {
            crate::vec3::lemma_dot_bound(dir, rec.normal, 0x9000000, 2 * (SCALE as int));
        }
        let d = dir.dot(&rec.normal);
        if d > 0 {
            Some((Ray::new(rec.p, dir), self.albedo))
        } else {
            None
        }
    }
}

/// With `fuzz == 0` the metal scatter is deterministic: the random state does
/// not influence the outcome, which is the exact geometric reflection of the
/// unit incoming direction.
pub proof fn lemma_metal_fuzz_zero(m: Metal, r_in: Ray, rec: HitRecord, st1: u64, st2: u64)
    requires
        m.fuzz == 0,
    ensures
        metal_scatter_spec(m, r_in, rec, st1).0 == metal_scatter_spec(m, r_in, rec, st2).0,
        match metal_scatter_spec(m, r_in, rec, st1).0 {
            Some((ray, att)) => {
                &&& ray.direction.x == reflect_x(unit_spec(r_in.direction), rec.normal) as i64
                &&& ray.direction.y == reflect_y(unit_spec(r_in.direction), rec.normal) as i64
                &&& ray.direction.z == reflect_z(unit_spec(r_in.direction), rec.normal) as i64
            },
            None => true,
        },
{
}

/// What a Dielectric material scatters: always a bounce with unit
/// attenuation; the direction is the refraction when Snell's law admits one
/// and a uniform draw falls above the Schlick reflectance, else the
/// reflection.
pub open spec fn dielectric_scatter_spec(d: Dielectrics, r_in: Ray, rec: HitRecord, st: u64) -> (
    (Option<(Ray, Vec3)>, u64)
) {
    let reflected = Vec3 {
        x: reflect_x(r_in.direction, rec.normal) as i64,
        y: reflect_y(r_in.direction, rec.normal) as i64,
        z: reflect_z(r_in.direction, rec.normal) as i64,
    };
    let white = Vec3 { x: SCALE, y: SCALE, z: SCALE };
    let dn = dot_s(r_in.direction, rec.normal);
    let len = sqrt_floor(dot_s(r_in.direction, r_in.direction));
    let c1 = dn / len;
    let outward = if dn > 0 {
        Vec3 { x: (-rec.normal.x) as i64, y: (-rec.normal.y) as i64, z: (-rec.normal.z) as i64 }
    } else {
        rec.normal
    };
    let ni = if dn > 0 {
        d.ref_idx as int
    } else {
        fdiv_s(SCALE as int, d.ref_idx as int)
    };
    let cosine = if dn > 0 {
        fmul_s(d.ref_idx as int, c1)
    } else {
        -c1
    };
    let uv = unit_spec(r_in.direction);
    if refract_disc(uv, outward, ni) > 0 {
        let refr = Vec3 {
            x: refract_x(uv, outward, ni) as i64,
            y: refract_y(uv, outward, ni) as i64,
            z: refract_z(uv, outward, ni) as i64,
        };
        let prob = schlick_spec(cosine, d.ref_idx as int);
        let drawn = draw_of(st);
        if drawn < prob {
            (Some((Ray { origin: rec.p, direction: reflected }, white)), next_state(st))
        } else {
            (Some((Ray { origin: rec.p, direction: refr }, white)), next_state(st))
        }
    } else {
        (Some((Ray { origin: rec.p, direction: reflected }, white)), st)
    }
}

impl Dielectrics {
    pub fn new(ref_idx: i64) -> (m: Dielectrics)
        ensures
            m.ref_idx == ref_idx,
    {
        Dielectrics { ref_idx }
    }

    /// Refractive scatter; always produces a bounce with unit attenuation.
    pub fn scatter(&self, r_in: &Ray, rec: &HitRecord, rng: &mut Rng) -> (res: Option<
        (Ray, Vec3),
    >)
        requires
            rng_ok(old(rng).state),
            rec_ok(*rec),
            ray_in_ok(*r_in),
            SCALE <= self.ref_idx <= 8 * SCALE,
        ensures
            rng_ok(final(rng).state),
            (res, final(rng).state) == dielectric_scatter_spec(
                *self,
                *r_in,
                *rec,
                old(rng).state,
            ),
            res is Some,
            match res {
                Some((ray, att)) => {
                    &&& ray.origin == rec.p
                    &&& bounded(ray.direction, 0x8000000)
                    &&& att == (Vec3 { x: SCALE, y: SCALE, z: SCALE })
                },
                None => false,
            },
    {
        let reflected = reflect(r_in.direction, rec.normal);
        let attenuation = Vec3::new(SCALE, SCALE, SCALE);
        proof {
            crate::vec3::lemma_dot_bound(
                r_in.direction,
                rec.normal,
                crate::hitable::HIT_DIR_LIMIT as int,
                2 * (SCALE as int),
            );
        }
        let dn: i128 = r_in.direction.dot(&rec.normal);
        let len = r_in.direction.length();
        proof {
            assert(len >= 1) by {
                if len == 0 {
                    assert((0 + 1) * (0 + 1) == 1);
                }
            }
            lemma_dn_len_bound(r_in.direction, rec.normal, len as int);
            lemma_div_abs_bound(dn as int, len as int, 0x60000);
        }
        let c1 = div_floor_i128(dn, len as i128) as i64;
        let (outward, ni, cosine) = if dn > 0 {
            proof {
                lemma_fmul_bound(self.ref_idx as int, c1 as int, 8 * (SCALE as int), 0x60000, 0x400000);
            }
            (rec.normal.neg(), self.ref_idx, fmul(self.ref_idx, c1))
        } else {
            (rec.normal, fdiv(SCALE, self.ref_idx), -c1)
        };
        proof {
            if !(dn > 0) {
                assert((SCALE as int) * (SCALE as int) <= (SCALE as int) * (self.ref_idx as int));
                lemma_div_abs_bound((SCALE as int) * (SCALE as int), self.ref_idx as int, SCALE as int);
                vstd::arithmetic::div_mod::lemma_div_pos_is_pos(
                    (SCALE as int) * (SCALE as int),
                    self.ref_idx as int,
                );
            }
        }
        let uv = Vec3::unit_vector(&r_in.direction);
        match refract(uv, outward, ni) {
            Some(refracted) => {
                let reflect_prob = schlick(cosine, self.ref_idx);
                let drawn = rng.next_unit();
                if drawn < reflect_prob {
                    Some((Ray::new(rec.p, reflected), attenuation))
                } else {
                    Some((Ray::new(rec.p, refracted), attenuation))
                }
            },
            None => Some((Ray::new(rec.p, reflected), attenuation)),
        }
    }
}

/// A component of the incoming direction is bounded by its length, so the
/// projection on a bounded normal is at most six unit scales per length.
proof fn lemma_dn_len_bound(v: Vec3, n: Vec3, len: int)
    requires
        is_sqrt_floor(len, dot_s(v, v)),
        len >= 1,
        bounded(n, 2 * (SCALE as int)),
    ensures
        -(0x60000 * len) <= dot_s(v, n) <= 0x60000 * len,
{
    let ax = if v.x >= 0 { v.x as int } else { -v.x as int };
    let ay = if v.y >= 0 { v.y as int } else { -v.y as int };
    let az = if v.z >= 0 { v.z as int } else { -v.z as int };
    assert(ax * ax <= v.x * v.x + v.y * v.y + v.z * v.z
        && ay * ay <= v.x * v.x + v.y * v.y + v.z * v.z
        && az * az <= v.x * v.x + v.y * v.y + v.z * v.z) by (nonlinear_arith)
        requires
            (ax == v.x || ax == -v.x) && (ay == v.y || ay == -v.y) && (az == v.z || az == -v.z),
    ;
    crate::fixed::lemma_sqrt_floor_bounds(len, dot_s(v, v), ax);
    crate::fixed::lemma_sqrt_floor_bounds(len, dot_s(v, v), ay);
    crate::fixed::lemma_sqrt_floor_bounds(len, dot_s(v, v), az);
    assert(-(0x20000 * len) <= v.x * n.x <= 0x20000 * len
        && -(0x20000 * len) <= v.y * n.y <= 0x20000 * len
        && -(0x20000 * len) <= v.z * n.z <= 0x20000 * len) by (nonlinear_arith)
        requires
            (ax == v.x || ax == -v.x) && ax <= len && 0 <= ax,
            (ay == v.y || ay == -v.y) && ay <= len && 0 <= ay,
            (az == v.z || az == -v.z) && az <= len && 0 <= az,
            -2 * 65536 <= n.x <= 2 * 65536,
            -2 * 65536 <= n.y <= 2 * 65536,
            -2 * 65536 <= n.z <= 2 * 65536,
            len >= 1,
    ;
}

/// The polymorphic scattering law, dispatched over the material kinds.
pub open spec fn scatter_spec(m: Material, r_in: Ray, rec: HitRecord, st: u64) -> (Option<
    (Ray, Vec3),
>, u64) {
    match m {
        Material::Lambertian(l) => lambertian_scatter_spec(l, rec, st),
        Material::Metal(mt) => metal_scatter_spec(mt, r_in, rec, st),
        Material::Dielectric(d) => dielectric_scatter_spec(d, r_in, rec, st),
    }
}

impl Material {
    /// Scatter the incoming ray at the hit record: an attenuation color and a
    /// bounced ray, or nothing when the ray is absorbed.
    pub fn scatter(&self, r_in: &Ray, rec: &HitRecord, rng: &mut Rng) -> (res: Option<
        (Ray, Vec3),
    >)
        requires
            rng_ok(old(rng).state),
            material_wf(*self),
            rec_ok(*rec),
            ray_in_ok(*r_in),
        ensures
            rng_ok(final(rng).state),
            (res, final(rng).state) == scatter_spec(*self, *r_in, *rec, old(rng).state),
            match res {
                Some((ray, att)) => {
                    &&& ray.origin == rec.p
                    &&& bounded(ray.direction, 0x10000000)
                    &&& color_ok(att)
                },
                None => true,
            },
    {
        match self {
            Material::Lambertian(l) => l.scatter(r_in, rec, rng),
            Material::Metal(mt) => mt.scatter(r_in, rec, rng),
            Material::Dielectric(d) => d.scatter(r_in, rec, rng),
        }
    }
}

/// At a matched refractive index, the Schlick reflectance at normal incidence
/// is exactly zero: `r0 = 0` and the fifth power vanishes.
pub proof fn lemma_schlick_normal_incidence()
    ensures
        schlick_spec(SCALE as int, SCALE as int) == 0,
{
    assert(fdiv_s(0, 131072) == 0) by {
        vstd::arithmetic::div_mod::lemma_fundamental_div_mod_converse(0, 131072, 0, 0);
    }
    assert(fmul_s(0, 0) == 0);
    assert(fmul_s(SCALE as int, 0) == 0) by {
        vstd::arithmetic::div_mod::lemma_fundamental_div_mod_converse(0, 65536, 0, 0);
    }
}

/// With a refractive index matching the outside medium, an entering ray is
/// never visibly bent: the refraction exists and each component of the
/// refracted direction is within one fixed-point step of the incoming one.
pub proof fn lemma_refract_matched_index(v: Vec3, n: Vec3)
    requires
        refract_dt(v, n) < 0,
    ensures
        refract_disc(v, n, SCALE as int) > 0,
        v.x <= refract_x(v, n, SCALE as int) <= v.x + 1,
        v.y <= refract_y(v, n, SCALE as int) <= v.y + 1,
        v.z <= refract_z(v, n, SCALE as int) <= v.z + 1,
{
    let dt = refract_dt(v, n);
    assert(fmul_s(SCALE as int, SCALE as int) == SCALE) by {
        vstd::arithmetic::div_mod::lemma_fundamental_div_mod_converse(
            65536int * 65536,
            65536,
            65536,
            0,
        );
    }
    let inner = (SCALE as int) * (SCALE as int) - dt * dt;
    assert(((SCALE as int) * inner) / (SCALE as int) == inner) by {
        assert(65536 * inner == inner * 65536);
        vstd::arithmetic::div_mod::lemma_fundamental_div_mod_converse(
            inner * 65536,
            65536,
            inner,
            0,
        );
    }
    assert(refract_disc(v, n, SCALE as int) == dt * dt);
    assert(dt * dt >= 1) by (nonlinear_arith)
        requires
            dt <= -1,
    ;
    assert(is_sqrt_floor(-dt, dt * dt)) by (nonlinear_arith)
        requires
            dt <= -1,
    ;
    crate::fixed::lemma_sqrt_floor_of(-dt, dt * dt);
    lemma_refract_component(v.x as int, n.x as int, dt);
    lemma_refract_component(v.y as int, n.y as int, dt);
    lemma_refract_component(v.z as int, n.z as int, dt);
}

/// One component of the matched-index refraction: multiplying by one is
/// exact, and the two floor divisions cancel to within one step.
proof fn lemma_refract_component(vc: int, nc: int, dt: int)
    requires
        dt < 0,
    ensures
        vc <= fmul_s(vc - fmul_s(nc, dt), SCALE as int) - fmul_s(nc, -dt) <= vc + 1,
{
    let w = vc - fmul_s(nc, dt);
    assert(fmul_s(w, SCALE as int) == w) by {
        assert(w * 65536 == w * 65536);
        vstd::arithmetic::div_mod::lemma_fundamental_div_mod_converse(w * 65536, 65536, w, 0);
    }
    let m = nc * dt;
    assert(nc * -dt == -m) by (nonlinear_arith)
        requires
            m == nc * dt,
    ;
    crate::fixed::lemma_div_pair(m, SCALE as int);
}

} // verus!
