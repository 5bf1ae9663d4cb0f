use vstd::prelude::*;
use crate::material::{Material, material_wf};
use crate::fixed::{
    fdiv, fdiv_s, isqrt, sqrt_floor, SCALE, lemma_mul_abs, lemma_div_abs_bound,
    lemma_fmul_bound, lemma_sqrt_floor_bounds, div_floor_i128,
};
use crate::vec3::{Vec3, bounded, dot_s, lemma_dot_bound};
use crate::ray::{Ray, point_at_x, point_at_y, point_at_z, T_LIMIT};

verus! {

/// Largest center component a primitive may use.
pub const CENTER_LIMIT: i64 = 0x1000000000;

/// Largest hit-point (and query-origin) component the library works with.
pub const P_LIMIT: i64 = 0x2000000000;

/// Largest direction component a hit query may use.
pub const HIT_DIR_LIMIT: i64 = 0x100000;

/// Largest parameter window bound a hit query may use.
pub const T_QUERY: i64 = 0x40000000;

/// The result of a successful intersection: parametric distance `t`, hit
/// point `p`, outward unit normal, and the index of the material at the hit.
#[derive(Clone, Copy, PartialEq, Eq, Structural, Debug)]
pub struct HitRecord {
    pub t: i64,
    pub p: Vec3,
    pub normal: Vec3,
    pub mat: usize,
}

/// A sphere: center, radius, and the index of its material in the scene's
/// material table.
#[derive(Clone, Copy, PartialEq, Eq, Structural, Debug)]
pub struct Sphere {
    pub center: Vec3,
    pub radius: i64,
    pub mat: usize,
}

/// Geometric well-formedness of a sphere.
pub open spec fn sphere_wf(s: Sphere) -> bool {
    &&& bounded(s.center, CENTER_LIMIT as int)
    &&& 1 <= s.radius <= CENTER_LIMIT
}

/// Well-formedness of a hit query: bounded origin, bounded nonzero direction,
/// and a parameter window inside the library's working range.
pub open spec fn hit_query_ok(r: Ray, t_min: int, t_max: int) -> bool {
    &&& bounded(r.origin, P_LIMIT as int)
    &&& bounded(r.direction, HIT_DIR_LIMIT as int)
    &&& dot_s(r.direction, r.direction) >= 1
    &&& -T_QUERY <= t_min
    &&& t_max <= T_QUERY
}

/// A three-component dot product over plain integers.
pub open spec fn dot3(ax: int, ay: int, az: int, bx: int, by: int, bz: int) -> int {
    ax * bx + ay * by + az * bz
}

/// Coefficient `a` of the intersection quadratic: `dir . dir`.
pub open spec fn quad_a(r: Ray) -> int {
    dot_s(r.direction, r.direction)
}

/// Coefficient `b` of the intersection quadratic: `oc . dir`,
/// where `oc = origin - center`.
pub open spec fn quad_b(s: Sphere, r: Ray) -> int {
    dot3(
        r.origin.x - s.center.x,
        r.origin.y - s.center.y,
        r.origin.z - s.center.z,
        r.direction.x as int,
        r.direction.y as int,
        r.direction.z as int,
    )
}

/// Coefficient `c` of the intersection quadratic: `oc . oc - radius^2`.
pub open spec fn quad_c(s: Sphere, r: Ray) -> int {
    dot3(
        r.origin.x - s.center.x,
        r.origin.y - s.center.y,
        r.origin.z - s.center.z,
        r.origin.x - s.center.x,
        r.origin.y - s.center.y,
        r.origin.z - s.center.z,
    ) - s.radius * s.radius
}

/// Discriminant of the intersection quadratic: `b^2 - a * c`.
pub open spec fn quad_disc(s: Sphere, r: Ray) -> int {
    quad_b(s, r) * quad_b(s, r) - quad_a(r) * quad_c(s, r)
}

/// The smaller root `(-b - sqrt(disc)) / a` as a fixed-point scalar.
pub open spec fn root_lo(s: Sphere, r: Ray) -> int {
    fdiv_s(-quad_b(s, r) - sqrt_floor(quad_disc(s, r)), quad_a(r))
}

/// The larger root `(-b + sqrt(disc)) / a` as a fixed-point scalar.
pub open spec fn root_hi(s: Sphere, r: Ray) -> int {
    fdiv_s(-quad_b(s, r) + sqrt_floor(quad_disc(s, r)), quad_a(r))
}

/// Components of the outward normal at parameter `t`: `(p - center) / radius`.
pub open spec fn normal_x(s: Sphere, r: Ray, t: int) -> int {
    fdiv_s(point_at_x(r, t) - s.center.x, s.radius as int)
}

pub open spec fn normal_y(s: Sphere, r: Ray, t: int) -> int {
    fdiv_s(point_at_y(r, t) - s.center.y, s.radius as int)
}

pub open spec fn normal_z(s: Sphere, r: Ray, t: int) -> int {
    fdiv_s(point_at_z(r, t) - s.center.z, s.radius as int)
}

/// The record computed at `t` is usable: the normal is componentwise within
/// twice the unit scale and the hit point is within the library's working
/// range. Both always hold of a true intersection of well-formed geometry;
/// the test screens out the degenerate arithmetic cases.
pub open spec fn normal_ok(s: Sphere, r: Ray, t: int) -> bool {
    &&& -2 * (SCALE as int) <= normal_x(s, r, t) <= 2 * (SCALE as int)
    &&& -2 * (SCALE as int) <= normal_y(s, r, t) <= 2 * (SCALE as int)
    &&& -2 * (SCALE as int) <= normal_z(s, r, t) <= 2 * (SCALE as int)
    &&& -(P_LIMIT as int) <= point_at_x(r, t) <= P_LIMIT as int
    &&& -(P_LIMIT as int) <= point_at_y(r, t) <= P_LIMIT as int
    &&& -(P_LIMIT as int) <= point_at_z(r, t) <= P_LIMIT as int
}

/// A root is accepted when it lies strictly inside the window and yields a
/// usable record.
pub open spec fn accepts(s: Sphere, r: Ray, t: int, t_min: int, t_max: int) -> bool {
    &&& t_min < t < t_max
    &&& normal_ok(s, r, t)
}

/// The record produced for an accepted root.
pub open spec fn mk_rec(s: Sphere, r: Ray, t: int) -> HitRecord {
    HitRecord {
        t: t as i64,
        p: Vec3 {
            x: point_at_x(r, t) as i64,
            y: point_at_y(r, t) as i64,
            z: point_at_z(r, t) as i64,
        },
        normal: Vec3 {
            x: normal_x(s, r, t) as i64,
            y: normal_y(s, r, t) as i64,
            z: normal_z(s, r, t) as i64,
        },
        mat: s.mat,
    }
}

/// The nearest intersection of the ray with the sphere in `(t_min, t_max)`:
/// the smaller root of the quadratic if it is accepted, else the larger root
/// if it is accepted, else nothing.
pub open spec fn sphere_hit_spec(s: Sphere, r: Ray, t_min: int, t_max: int) -> Option<
    HitRecord,
> {
    if quad_disc(s, r) > 0 {
        if accepts(s, r, root_lo(s, r), t_min, t_max) {
            Some(mk_rec(s, r, root_lo(s, r)))
        } else if accepts(s, r, root_hi(s, r), t_min, t_max) {
            Some(mk_rec(s, r, root_hi(s, r)))
        } else {
            None
        }
    } else {
        None
    }
}

/// With a positive discriminant, the two roots are ordered: `root_lo <= root_hi`.
pub proof fn lemma_root_order(s: Sphere, r: Ray)
    requires
        quad_a(r) >= 1,
        quad_disc(s, r) >= 0,
    ensures
        root_lo(s, r) <= root_hi(s, r),
        sqrt_floor(quad_disc(s, r)) >= 0,
{
    crate::fixed::lemma_sqrt_floor_exists(quad_disc(s, r) as nat);
    crate::fixed::lemma_fdiv_monotonic(
        -quad_b(s, r) - sqrt_floor(quad_disc(s, r)),
        -quad_b(s, r) + sqrt_floor(quad_disc(s, r)),
        quad_a(r),
    );
}

/// Narrowing the window preserves a miss: if a sphere yields no hit in
/// `(t_min, w)`, it yields none in any `(t_min, w2)` with `w2 <= w`.
pub proof fn lemma_sphere_hit_window_shrink(s: Sphere, r: Ray, t_min: int, w: int, w2: int)
    requires
        sphere_hit_spec(s, r, t_min, w) is None,
        w2 <= w,
    ensures
        sphere_hit_spec(s, r, t_min, w2) is None,
{
}

/// Self-nearness of a sphere hit: the returned record is the nearest accepted
/// root, so the same query with the window closed down to the returned `t`
/// yields nothing.
pub proof fn lemma_sphere_hit_nearest(s: Sphere, r: Ray, t_min: int, t_max: int)
    requires
        quad_a(r) >= 1,
        -T_LIMIT <= t_min,
        t_max <= T_LIMIT,
    ensures
        match sphere_hit_spec(s, r, t_min, t_max) {
            Some(h) => {
                &&& t_min < h.t < t_max
                &&& h == mk_rec(s, r, h.t as int)
                &&& sphere_hit_spec(s, r, t_min, h.t as int) is None
            },
            None => true,
        },
{
    if sphere_hit_spec(s, r, t_min, t_max) is Some {
        lemma_root_order(s, r);
        let lo = root_lo(s, r);
        let hi = root_hi(s, r);
        if accepts(s, r, lo, t_min, t_max) {
            let h = mk_rec(s, r, lo);
            assert(h.t == lo);
            assert(!accepts(s, r, lo, t_min, lo));
            assert(!accepts(s, r, hi, t_min, lo));
        } else {
            let h = mk_rec(s, r, hi);
            assert(h.t == hi);
            assert(!accepts(s, r, hi, t_min, hi));
            assert(!accepts(s, r, lo, t_min, hi));
        }
    }
}

/// A returned record is usable: bounded hit point and normal, the sphere's
/// material index, and a parameter inside the window.
pub proof fn lemma_hit_record_props(s: Sphere, r: Ray, t_min: int, t_max: int)
    requires
        -T_QUERY <= t_min,
        t_max <= T_QUERY,
    ensures
        match sphere_hit_spec(s, r, t_min, t_max) {
            Some(h) => {
                &&& bounded(h.p, P_LIMIT as int)
                &&& bounded(h.normal, 2 * (SCALE as int))
                &&& h.mat == s.mat
                &&& t_min < h.t < t_max
            },
            None => true,
        },
{
}

/// A ray whose origin is strictly outside the sphere (`c > 0`) and whose
/// direction points away from it (`b > 0`) yields no intersection for any
/// window with `t_min >= 0`.
pub proof fn lemma_ray_away_misses(s: Sphere, r: Ray, t_min: int, t_max: int)
    requires
        quad_a(r) >= 1,
        quad_b(s, r) >= 1,
        quad_c(s, r) >= 1,
        t_min >= 0,
    ensures
        sphere_hit_spec(s, r, t_min, t_max) is None,
{
    let b = quad_b(s, r);
    let disc = quad_disc(s, r);
    if disc > 0 {
        crate::fixed::lemma_sqrt_floor_exists(disc as nat);
        let sd = sqrt_floor(disc);
        assert(quad_a(r) * quad_c(s, r) >= 1) by (nonlinear_arith)
            requires
                quad_a(r) >= 1,
                quad_c(s, r) >= 1,
        ;
        assert(disc < b * b);
        lemma_sqrt_floor_bounds(sd, disc, b);
        assert(-b + sd <= -1);
        crate::fixed::lemma_fdiv_neg(-b + sd, quad_a(r));
        crate::fixed::lemma_fdiv_neg(-b - sd, quad_a(r));
        assert(!accepts(s, r, root_lo(s, r), t_min, t_max));
        assert(!accepts(s, r, root_hi(s, r), t_min, t_max));
    }
}

impl Sphere {
    pub fn new(center: Vec3, radius: i64, mat: usize) -> (r: Sphere)
        ensures
            r == (Sphere { center, radius, mat }),
    {
        Sphere { center, radius, mat }
    }

    /// The nearest intersection in `(t_min, t_max)`, or nothing.
    pub fn hit(&self, r: &Ray, t_min: i64, t_max: i64) -> (res: Option<HitRecord>)
        requires
            sphere_wf(*self),
            hit_query_ok(*r, t_min as int, t_max as int),
        ensures
            res == sphere_hit_spec(*self, *r, t_min as int, t_max as int),
    {
        let ocx = r.origin.x - self.center.x;
        let ocy = r.origin.y - self.center.y;
        let ocz = r.origin.z - self.center.z;
        proof {
            lemma_mul_abs(ocx as int, r.direction.x as int, 0x4000000000, HIT_DIR_LIMIT as int);
            lemma_mul_abs(ocy as int, r.direction.y as int, 0x4000000000, HIT_DIR_LIMIT as int);
            lemma_mul_abs(ocz as int, r.direction.z as int, 0x4000000000, HIT_DIR_LIMIT as int);
            lemma_mul_abs(ocx as int, ocx as int, 0x4000000000, 0x4000000000);
            lemma_mul_abs(ocy as int, ocy as int, 0x4000000000, 0x4000000000);
            lemma_mul_abs(ocz as int, ocz as int, 0x4000000000, 0x4000000000);
            lemma_mul_abs(self.radius as int, self.radius as int, CENTER_LIMIT as int, CENTER_LIMIT as int);
            lemma_dot_bound(r.direction, r.direction, HIT_DIR_LIMIT as int, HIT_DIR_LIMIT as int);
        }
        let a: i128 = r.direction.dot(&r.direction);
        let b: i128 = (ocx as i128) * (r.direction.x as i128) + (ocy as i128) * (
        r.direction.y as i128) + (ocz as i128) * (r.direction.z as i128);
        let c: i128 = (ocx as i128) * (ocx as i128) + (ocy as i128) * (ocy as i128) + (
        ocz as i128) * (ocz as i128) - (self.radius as i128) * (self.radius as i128);
        proof {
            lemma_mul_abs(b as int, b as int, 0x1000000000000000, 0x1000000000000000);
            lemma_mul_abs(a as int, c as int, 0x40000000000, 0x40000000000000000000);
        }
        let disc: i128 = b * b - a * c;
        if disc > 0 {
            let sd: i64 = isqrt(disc);
            proof {
                lemma_sqrt_floor_bounds(sd as int, disc as int, 0x2000000000000000);
                assert((-(b as int) - sd) * 65536 <= 0x80000000000000000000 * a
                    && -(0x80000000000000000000 * a) <= (-(b as int) - sd) * 65536)
                    by (nonlinear_arith)
                    requires
                        a >= 1,
                        -0x80000000000000000000 <= (-(b as int) - sd) * 65536
                            <= 0x80000000000000000000,
                ;
                assert((-(b as int) + sd) * 65536 <= 0x80000000000000000000 * a
                    && -(0x80000000000000000000 * a) <= (-(b as int) + sd) * 65536)
                    by (nonlinear_arith)
                    requires
                        a >= 1,
                        -0x80000000000000000000 <= (-(b as int) + sd) * 65536
                            <= 0x80000000000000000000,
                ;
                lemma_div_abs_bound(
                    (-(b as int) - sd) * 65536,
                    a as int,
                    0x80000000000000000000int,
                );
                lemma_div_abs_bound(
                    (-(b as int) + sd) * 65536,
                    a as int,
                    0x80000000000000000000int,
                );
            }
            let t_lo_wide = div_floor_i128((-b - sd as i128) * 65536, a);
            if (t_min as i128) < t_lo_wide && t_lo_wide < (t_max as i128) {
                let res = self.make_record(r, t_lo_wide as i64);
                if res.is_some() {
                    return res;
                }
            }
            let t_hi_wide = div_floor_i128((-b + sd as i128) * 65536, a);
            if (t_min as i128) < t_hi_wide && t_hi_wide < (t_max as i128) {
                let res = self.make_record(r, t_hi_wide as i64);
                if res.is_some() {
                    return res;
                }
            }
            None
        } else {
            None
        }
    }

    /// Build the record for an in-window root, or nothing when the computed
    /// normal is unusable.
    fn make_record(&self, r: &Ray, t: i64) -> (res: Option<HitRecord>)
        requires
            sphere_wf(*self),
            bounded(r.origin, P_LIMIT as int),
            bounded(r.direction, HIT_DIR_LIMIT as int),
            -T_LIMIT < t < T_LIMIT,
        ensures
            res == if normal_ok(*self, *r, t as int) {
                Some(mk_rec(*self, *r, t as int))
            } else {
                Option::<HitRecord>::None
            },
    {
        proof {
            lemma_fmul_bound(t as int, r.direction.x as int, T_LIMIT as int, HIT_DIR_LIMIT as int, 0x4000000000);
            lemma_fmul_bound(t as int, r.direction.y as int, T_LIMIT as int, HIT_DIR_LIMIT as int, 0x4000000000);
            lemma_fmul_bound(t as int, r.direction.z as int, T_LIMIT as int, HIT_DIR_LIMIT as int, 0x4000000000);
        }
        let p = r.point_at_parameter(t);
        let nx = fdiv(p.x - self.center.x, self.radius);
        let ny = fdiv(p.y - self.center.y, self.radius);
        let nz = fdiv(p.z - self.center.z, self.radius);
        let two_scale = 2 * SCALE;
        if -two_scale <= nx && nx <= two_scale && -two_scale <= ny && ny <= two_scale
            && -two_scale <= nz && nz <= two_scale && -P_LIMIT <= p.x && p.x <= P_LIMIT
            && -P_LIMIT <= p.y && p.y <= P_LIMIT && -P_LIMIT <= p.z && p.z <= P_LIMIT {
            Some(
                HitRecord {
                    t,
                    p,
                    normal: Vec3 { x: nx, y: ny, z: nz },
                    mat: self.mat,
                },
            )
        } else {
            None
        }
    }
}

/// An ordered scene of spheres with a flat material table; spheres reference
/// materials by index.
pub struct HitableList {
    pub spheres: Vec<Sphere>,
    pub materials: Vec<Material>,
}

/// Well-formedness of a scene: every sphere is well-formed and points at a
/// well-formed material.
pub open spec fn scene_wf(w: HitableList) -> bool {
    &&& forall|i: int|
        0 <= i < w.spheres@.len() ==> sphere_wf(#[trigger] w.spheres@[i]) && w.spheres@[i].mat
            < w.materials@.len()
    &&& forall|i: int| 0 <= i < w.materials@.len() ==> material_wf(#[trigger] w.materials@[i])
}

/// The nearest hit over the spheres from index `i` on, with `best` the
/// closest record found so far: each remaining sphere is queried against the
/// window narrowed to the best `t` so far.
pub open spec fn scene_hit_from(
    spheres: Seq<Sphere>,
    i: int,
    r: Ray,
    t_min: int,
    t_max: int,
    best: Option<HitRecord>,
) -> Option<HitRecord>
    decreases spheres.len() - i,
{
    if i < 0 || i >= spheres.len() {
        best
    } else {
        let w = match best {
            Some(h) => h.t as int,
            None => t_max,
        };
        match sphere_hit_spec(spheres[i], r, t_min, w) {
            Some(h) => scene_hit_from(spheres, i + 1, r, t_min, t_max, Some(h)),
            None => scene_hit_from(spheres, i + 1, r, t_min, t_max, best),
        }
    }
}

/// The nearest hit of the ray over the whole scene in `(t_min, t_max)`.
pub open spec fn scene_hit_spec(w: HitableList, r: Ray, t_min: int, t_max: int) -> Option<
    HitRecord,
> {
    scene_hit_from(w.spheres@, 0, r, t_min, t_max, None)
}

/// A record found by the scene walk is usable and carries a material index of
/// one of the walked spheres.
pub open spec fn scene_rec_props(
    spheres: Seq<Sphere>,
    h: HitRecord,
    t_min: int,
    t_max: int,
) -> bool {
    &&& bounded(h.p, P_LIMIT as int)
    &&& bounded(h.normal, 2 * (SCALE as int))
    &&& t_min < h.t < t_max
    &&& exists|j: int| 0 <= j < spheres.len() && h.mat == #[trigger] spheres[j].mat
}

proof fn lemma_scene_hit_from_props(
    spheres: Seq<Sphere>,
    i: int,
    r: Ray,
    t_min: int,
    t_max: int,
    best: Option<HitRecord>,
)
    requires
        -T_QUERY <= t_min,
        t_max <= T_QUERY,
        match best {
            Some(hb) => scene_rec_props(spheres, hb, t_min, t_max),
            None => true,
        },
    ensures
        match scene_hit_from(spheres, i, r, t_min, t_max, best) {
            Some(h) => scene_rec_props(spheres, h, t_min, t_max),
            None => true,
        },
    decreases spheres.len() - i,
{
    if 0 <= i < spheres.len() {
        let w = match best {
            Some(hb) => hb.t as int,
            None => t_max,
        };
        lemma_hit_record_props(spheres[i], r, t_min, w);
        match sphere_hit_spec(spheres[i], r, t_min, w) {
            Some(h) => {
                assert(h.mat == spheres[i].mat);
                lemma_scene_hit_from_props(spheres, i + 1, r, t_min, t_max, Some(h));
            },
            None => {
                lemma_scene_hit_from_props(spheres, i + 1, r, t_min, t_max, best);
            },
        }
    }
}

/// What a scene hit guarantees: a usable record whose material index is one
/// of the scene's spheres' indices, and so a valid index into the table.
pub proof fn lemma_scene_hit_props(w: HitableList, r: Ray, t_min: int, t_max: int)
    requires
        scene_wf(w),
        -T_QUERY <= t_min,
        t_max <= T_QUERY,
    ensures
        match scene_hit_spec(w, r, t_min, t_max) {
            Some(h) => {
                &&& bounded(h.p, P_LIMIT as int)
                &&& bounded(h.normal, 2 * (SCALE as int))
                &&& t_min < h.t < t_max
                &&& h.mat < w.materials@.len()
            },
            None => true,
        },
{
    lemma_scene_hit_from_props(w.spheres@, 0, r, t_min, t_max, None);
}

proof fn lemma_scene_hit_from_nearest(
    spheres: Seq<Sphere>,
    i: int,
    r: Ray,
    t_min: int,
    t_max: int,
    best: Option<HitRecord>,
)
    requires
        0 <= i,
        quad_a(r) >= 1,
        -T_QUERY <= t_min,
        t_max <= T_QUERY,
        match best {
            Some(hb) => t_min < hb.t < t_max && forall|j: int|
                0 <= j < i ==> sphere_hit_spec(#[trigger] spheres[j], r, t_min, hb.t as int)
                    is None,
            None => forall|j: int|
                0 <= j < i ==> sphere_hit_spec(#[trigger] spheres[j], r, t_min, t_max) is None,
        },
    ensures
        match scene_hit_from(spheres, i, r, t_min, t_max, best) {
            Some(h) => forall|j: int|
                0 <= j < spheres.len() ==> sphere_hit_spec(
                    #[trigger] spheres[j],
                    r,
                    t_min,
                    h.t as int,
                ) is None,
            None => forall|j: int|
                0 <= j < spheres.len() ==> sphere_hit_spec(#[trigger] spheres[j], r, t_min, t_max)
                    is None,
        },
    decreases spheres.len() - i,
{
    if i >= spheres.len() {
    } else {
        let w = match best {
            Some(hb) => hb.t as int,
            None => t_max,
        };
        lemma_hit_record_props(spheres[i], r, t_min, w);
        lemma_sphere_hit_nearest(spheres[i], r, t_min, w);
        match sphere_hit_spec(spheres[i], r, t_min, w) {
            Some(h) => {
                assert forall|j: int| 0 <= j < i + 1 implies sphere_hit_spec(
                    #[trigger] spheres[j],
                    r,
                    t_min,
                    h.t as int,
                ) is None by {
                    if j < i {
                        match best {
                            Some(hb) => {
                                lemma_sphere_hit_window_shrink(
                                    spheres[j],
                                    r,
                                    t_min,
                                    hb.t as int,
                                    h.t as int,
                                );
                            },
                            None => {
                                lemma_sphere_hit_window_shrink(
                                    spheres[j],
                                    r,
                                    t_min,
                                    t_max,
                                    h.t as int,
                                );
                            },
                        }
                    }
                }
                lemma_scene_hit_from_nearest(spheres, i + 1, r, t_min, t_max, Some(h));
            },
            None => {
                match best {
                    Some(hb) => {
                        assert(sphere_hit_spec(spheres[i], r, t_min, hb.t as int) is None);
                    },
                    None => {},
                }
                lemma_scene_hit_from_nearest(spheres, i + 1, r, t_min, t_max, best);
            },
        }
    }
}

/// Nearest-first correctness of the scene walk: when the scene returns a
/// record, no sphere of the scene has a hit closer than the returned `t`
/// (regardless of insertion order); when it returns nothing, no sphere hits
/// inside the window at all.
pub proof fn lemma_scene_hit_nearest(w: HitableList, r: Ray, t_min: int, t_max: int)
    requires
        quad_a(r) >= 1,
        -T_QUERY <= t_min,
        t_max <= T_QUERY,
    ensures
        match scene_hit_spec(w, r, t_min, t_max) {
            Some(h) => forall|j: int|
                0 <= j < w.spheres@.len() ==> sphere_hit_spec(
                    #[trigger] w.spheres@[j],
                    r,
                    t_min,
                    h.t as int,
                ) is None,
            None => forall|j: int|
                0 <= j < w.spheres@.len() ==> sphere_hit_spec(
                    #[trigger] w.spheres@[j],
                    r,
                    t_min,
                    t_max,
                ) is None,
        },
{
    lemma_scene_hit_from_nearest(w.spheres@, 0, r, t_min, t_max, None);
}

impl HitableList {
    /// An empty scene.
    pub fn new() -> (w: HitableList)
        ensures
            w.spheres@.len() == 0,
            w.materials@.len() == 0,
            scene_wf(w),
    {
        HitableList { spheres: Vec::new(), materials: Vec::new() }
    }

    /// Add a material to the table and return its handle.
    pub fn push_material(&mut self, m: Material) -> (idx: usize)
        requires
            material_wf(m),
        ensures
            final(self).materials@ == old(self).materials@.push(m),
            final(self).spheres@ == old(self).spheres@,
            idx == old(self).materials@.len(),
            scene_wf(*old(self)) ==> scene_wf(*final(self)),
    {
        let idx = self.materials.len();
        self.materials.push(m);
        idx
    }

    /// Add a sphere referencing a material already in the table.
    pub fn push_sphere(&mut self, s: Sphere)
        requires
            sphere_wf(s),
            s.mat < old(self).materials@.len(),
        ensures
            final(self).spheres@ == old(self).spheres@.push(s),
            final(self).materials@ == old(self).materials@,
            scene_wf(*old(self)) ==> scene_wf(*final(self)),
    {
        self.spheres.push(s);
    }

    /// The nearest intersection across all primitives in `(t_min, t_max)`,
    /// narrowing the upper bound to the closest `t` found so far.
    pub fn hit(&self, r: &Ray, t_min: i64, t_max: i64) -> (res: Option<HitRecord>)
        requires
            scene_wf(*self),
            hit_query_ok(*r, t_min as int, t_max as int),
        ensures
            res == scene_hit_spec(*self, *r, t_min as int, t_max as int),
    {
        let mut result: Option<HitRecord> = None;
        let mut closest = t_max;
        let n = self.spheres.len();
        let mut i: usize = 0;
        while i < n
            invariant
                n == self.spheres@.len(),
                i <= n,
                scene_wf(*self),
                hit_query_ok(*r, t_min as int, t_max as int),
                match result {
                    Some(h) => closest == h.t && t_min < h.t < t_max,
                    None => closest == t_max,
                },
                scene_hit_from(self.spheres@, i as int, *r, t_min as int, t_max as int, result)
                    == scene_hit_spec(*self, *r, t_min as int, t_max as int),
            decreases n - i,
        {
            proof {
                lemma_hit_record_props(self.spheres@[i as int], *r, t_min as int, closest as int);
            }
            match self.spheres[i].hit(r, t_min, closest) {
                Some(h) => {
                    closest = h.t;
                    result = Some(h);
                },
                None => {},
            }
            i = i + 1;
        }
        result
    }
}

} // verus!
