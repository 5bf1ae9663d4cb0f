use vstd::prelude::*;
use crate::fixed::{fmul, fmul_s, SCALE};
use crate::vec3::{Vec3, bounded, dot_s, unit_spec};
use crate::ray::Ray;
use crate::hitable::{HitableList, scene_wf, scene_hit_spec, lemma_scene_hit_props, P_LIMIT, T_QUERY};
use crate::material::{scatter_spec, color_ok};
use crate::rng::{Rng, rng_ok};
use vstd::arithmetic::div_mod::{lemma_div_is_ordered, lemma_div_pos_is_pos, lemma_fundamental_div_mod_converse, lemma_hoist_over_denominator};

verus! {

/// The bounce budget: a hit at this depth returns black unconditionally.
pub const MAX_DEPTH: u32 = 50;

/// Epsilon lower bound of the hit window, avoiding re-hitting the origin
/// surface ("shadow acne"); about one thousandth.
pub const EPS: i64 = 66;

/// Largest direction component the integrator accepts on an incoming ray.
pub const COLOR_DIR_LIMIT: i64 = 0x4000000000;

/// Pure black.
pub open spec fn black() -> Vec3 {
    Vec3 { x: 0, y: 0, z: 0 }
}

/// Pure white: unit attenuation.
pub open spec fn white() -> Vec3 {
    Vec3 { x: SCALE, y: SCALE, z: SCALE }
}

/// The componentwise fixed-point product of two colors.
pub open spec fn mul3(a: Vec3, b: Vec3) -> Vec3 {
    Vec3 {
        x: fmul_s(a.x as int, b.x as int) as i64,
        y: fmul_s(a.y as int, b.y as int) as i64,
        z: fmul_s(a.z as int, b.z as int) as i64,
    }
}

/// One channel of the sky gradient: `(1 - t) * 1 + t * c`.
pub open spec fn bg_channel(t: int, c: int) -> int {
    (SCALE - t) + fmul_s(t, c)
}

/// The sky gradient as a function of the unit direction's vertical component:
/// linear interpolation from white at `-1` to the sky blue at `+1`.
pub open spec fn background_of_y(uy: int) -> Vec3 {
    let t = (uy + SCALE) / 2;
    Vec3 {
        x: bg_channel(t, 32768) as i64,
        y: bg_channel(t, 45875) as i64,
        z: bg_channel(t, SCALE as int) as i64,
    }
}

/// The sky gradient seen by a ray with direction `d`.
pub open spec fn background_spec(d: Vec3) -> Vec3 {
    background_of_y(unit_spec(d).y as int)
}

/// A fixed-point product of values in `[0, SCALE]` stays within `[0, first]`.
pub proof fn lemma_fmul_le(t: int, c: int)
    requires
        0 <= t,
        0 <= c <= SCALE,
    ensures
        0 <= fmul_s(t, c) <= t,
{
    assert(0 <= t * c <= t * SCALE) by (nonlinear_arith)
        requires
            0 <= t,
            0 <= c <= SCALE,
    ;
    lemma_div_pos_is_pos(t * c, SCALE as int);
    lemma_div_is_ordered(t * c, t * (SCALE as int), SCALE as int);
    lemma_fundamental_div_mod_converse(t * (SCALE as int), SCALE as int, t, 0);
}

/// The product of two colors is a color.
pub proof fn lemma_color_mul(a: Vec3, b: Vec3)
    requires
        color_ok(a),
        color_ok(b),
    ensures
        color_ok(mul3(a, b)),
        crate::fixed::fmul_fits(a.x as int, b.x as int),
        crate::fixed::fmul_fits(a.y as int, b.y as int),
        crate::fixed::fmul_fits(a.z as int, b.z as int),
{
    lemma_fmul_le(a.x as int, b.x as int);
    lemma_fmul_le(a.y as int, b.y as int);
    lemma_fmul_le(a.z as int, b.z as int);
}

/// The sky gradient is a color for any unit vertical component.
pub proof fn lemma_background_color_ok(uy: int)
    requires
        -SCALE <= uy <= SCALE,
    ensures
        color_ok(background_of_y(uy)),
{
    let t = (uy + SCALE) / 2;
    assert(0 <= t <= SCALE);
    lemma_fmul_le(t, 32768);
    lemma_fmul_le(t, 45875);
    lemma_fmul_le(t, SCALE as int);
}

/// The radiance estimate carried out iteratively: the accumulated attenuation
/// `acc` times the light found by following the ray. A miss yields the sky
/// gradient; an absorbed ray or an exhausted bounce budget yields black; a
/// scatter recurses with the attenuation multiplied in. Degenerate ray
/// directions (zero or out of working range) yield black.
pub open spec fn color_from(w: HitableList, r: Ray, depth: u32, acc: Vec3, st: u64) -> (Vec3, u64)
    decreases MAX_DEPTH - depth,
{
    if dot_s(r.direction, r.direction) < 1 || !bounded(r.direction, COLOR_DIR_LIMIT as int)
        || !bounded(r.origin, P_LIMIT as int) {
        (black(), st)
    } else {
        let ud = unit_spec(r.direction);
        if dot_s(ud, ud) < 1 {
            (black(), st)
        } else {
            let q = Ray { origin: r.origin, direction: ud };
            match scene_hit_spec(w, q, EPS as int, T_QUERY as int) {
                None => (mul3(acc, background_of_y(ud.y as int)), st),
                Some(h) => {
                    if depth >= MAX_DEPTH {
                        (black(), st)
                    } else {
                        match scatter_spec(w.materials@[h.mat as int], q, h, st) {
                            (None, st2) => (black(), st2),
                            (Some((sr, att)), st2) => color_from(
                                w,
                                sr,
                                (depth + 1) as u32,
                                mul3(acc, att),
                                st2,
                            ),
                        }
                    }
                },
            }
        }
    }
}

/// The full radiance estimate of a ray, starting with unit attenuation.
pub open spec fn color_spec(w: HitableList, r: Ray, depth: u32, st: u64) -> (Vec3, u64) {
    color_from(w, r, depth, white(), st)
}

/// Bounce-budget termination: at `depth >= MAX_DEPTH`, a ray that hits
/// anything yields exactly black, with no further sampling.
pub proof fn lemma_color_depth_exhausted(w: HitableList, r: Ray, depth: u32, acc: Vec3, st: u64)
    requires
        depth >= MAX_DEPTH,
    ensures
        ({
            let q = Ray { origin: r.origin, direction: unit_spec(r.direction) };
            scene_hit_spec(w, q, EPS as int, T_QUERY as int) is Some ==> color_from(
                w,
                r,
                depth,
                acc,
                st,
            ) == (black(), st)
        }),
{
}

/// The sky gradient's endpoints are exact: straight down gives white,
/// straight up gives the sky blue `(0.5, 0.7, 1.0)`.
pub proof fn lemma_background_endpoints()
    ensures
        background_of_y(-(SCALE as int)) == (Vec3 { x: SCALE, y: SCALE, z: SCALE }),
        background_of_y(SCALE as int) == (Vec3 { x: 32768, y: 45875, z: SCALE }),
{
    assert(((-65536 + 65536) as int) / 2 == 0);
    assert(((65536 + 65536) as int) / 2 == 65536);
    assert(fmul_s(0, 32768) == 0);
    assert(fmul_s(0, 45875) == 0);
    assert(fmul_s(0, 65536) == 0);
    assert(fmul_s(65536, 32768) == 32768);
    assert(fmul_s(65536, 45875) == 45875);
    assert(fmul_s(65536, 65536) == 65536);
}

/// The sky gradient interpolates monotonically: as the vertical component
/// grows, the red and green channels fall toward the sky blue and the blue
/// channel never moves away from it.
pub proof fn lemma_background_monotonic(uy1: int, uy2: int)
    requires
        -SCALE <= uy1 <= uy2 <= SCALE,
    ensures
        background_of_y(uy2).x <= background_of_y(uy1).x,
        background_of_y(uy2).y <= background_of_y(uy1).y,
        background_of_y(uy2).z <= background_of_y(uy1).z,
{
    let t1 = (uy1 + SCALE) / 2;
    let t2 = (uy2 + SCALE) / 2;
    lemma_div_is_ordered(uy1 + SCALE, uy2 + SCALE, 2);
    assert(0 <= t1 <= t2 <= SCALE);
    lemma_bg_channel_antitone(t1, t2, 32768);
    lemma_bg_channel_antitone(t1, t2, 45875);
    lemma_bg_channel_antitone(t1, t2, SCALE as int);
    lemma_background_color_ok(uy1);
    lemma_background_color_ok(uy2);
}

/// One gradient channel never grows as `t` grows (for a target channel at
/// most one).
proof fn lemma_bg_channel_antitone(t1: int, t2: int, c: int)
    requires
        0 <= t1 <= t2,
        0 <= c <= SCALE,
    ensures
        bg_channel(t2, c) <= bg_channel(t1, c),
{
    let k = t2 - t1;
    assert(t2 * c <= t1 * c + k * SCALE) by (nonlinear_arith)
        requires
            0 <= c <= SCALE,
            k == t2 - t1,
            k >= 0,
    ;
    lemma_div_is_ordered(t2 * c, t1 * c + k * (SCALE as int), SCALE as int);
    lemma_hoist_over_denominator(t1 * c, k, SCALE as nat);
}

impl HitableList {
    /// The radiance arriving along `r`: intersect, scatter, attenuate and
    /// recurse (iteratively) until the ray escapes to the sky gradient, is
    /// absorbed, or the bounce budget is spent.
    pub fn color(&self, r: &Ray, depth: u32, rng: &mut Rng) -> (res: Vec3)
        requires
            scene_wf(*self),
            rng_ok(old(rng).state),
        ensures
            rng_ok(final(rng).state),
            (res, final(rng).state) == color_spec(*self, *r, depth, old(rng).state),
            color_ok(res),
    {
        let mut cur: Ray = *r;
        let mut acc = Vec3::new(SCALE, SCALE, SCALE);
        let mut d = depth;
        loop
            invariant
                scene_wf(*self),
                rng_ok(rng.state),
                color_ok(acc),
                depth <= d,
                color_from(*self, cur, d, acc, rng.state) == color_spec(
                    *self,
                    *r,
                    depth,
                    old(rng).state,
                ),
            decreases MAX_DEPTH + 1 - d,
        {
            if !(-COLOR_DIR_LIMIT <= cur.direction.x && cur.direction.x <= COLOR_DIR_LIMIT
                && -COLOR_DIR_LIMIT <= cur.direction.y && cur.direction.y <= COLOR_DIR_LIMIT
                && -COLOR_DIR_LIMIT <= cur.direction.z && cur.direction.z <= COLOR_DIR_LIMIT
                && -P_LIMIT <= cur.origin.x && cur.origin.x <= P_LIMIT && -P_LIMIT <= cur.origin.y
                && cur.origin.y <= P_LIMIT && -P_LIMIT <= cur.origin.z && cur.origin.z
                <= P_LIMIT) {
                return Vec3::new(0, 0, 0);
            }
            let dd = cur.direction.dot(&cur.direction);
            if dd < 1 {
                return Vec3::new(0, 0, 0);
            }
            let ud = Vec3::unit_vector(&cur.direction);
            let udd = ud.dot(&ud);
            if udd < 1 {
                return Vec3::new(0, 0, 0);
            }
            let q = Ray::new(cur.origin, ud);
            match self.hit(&q, EPS, T_QUERY) {
                None => {
                    let t = (ud.y + SCALE) / 2;
                    proof {
                        lemma_fmul_le(t as int, 32768);
                        lemma_fmul_le(t as int, 45875);
                        lemma_fmul_le(t as int, SCALE as int);
                        lemma_background_color_ok(ud.y as int);
                        lemma_color_mul(acc, background_of_y(ud.y as int));
                    }
                    let col = Vec3::new(
                        SCALE - t + fmul(t, 32768),
                        SCALE - t + fmul(t, 45875),
                        SCALE - t + fmul(t, SCALE),
                    );
                    return acc.mul(col);
                },
                Some(h) => {
                    if d >= MAX_DEPTH {
                        return Vec3::new(0, 0, 0);
                    }
                    proof {
                        lemma_scene_hit_props(*self, q, EPS as int, T_QUERY as int);
                    }
                    let m = self.materials[h.mat];
                    match m.scatter(&q, &h, rng) {
                        None => {
                            return Vec3::new(0, 0, 0);
                        },
                        Some((sr, att)) => {
                            proof {
                                lemma_color_mul(acc, att);
                            }
                            acc = acc.mul(att);
                            cur = sr;
                            d = d + 1;
                        },
                    }
                },
            }
        }
    }
}

} // verus!
