use vstd::prelude::*;
use crate::fixed::{fmul, fmul_s, lemma_fmul_bound, SCALE};
use crate::vec3::{Vec3, bounded};
use vstd::arithmetic::div_mod::lemma_div_is_ordered;

verus! {

/// Largest ray parameter the library works with.
pub const T_LIMIT: i64 = 0x400000000;

/// Largest direction component the library works with.
pub const DIR_LIMIT: i64 = 0x1000000;

/// Largest origin (and point) component the library works with.
pub const ORIGIN_LIMIT: i64 = 0x200000000000;

/// A parametric line: origin plus parameter times direction. The direction is
/// not required to be normalized.
#[derive(Clone, Copy, PartialEq, Eq, Structural, Debug)]
pub struct Ray {
    pub origin: Vec3,
    pub direction: Vec3,
}

/// Components of the point the ray reaches at parameter `t`.
pub open spec fn point_at_x(r: Ray, t: int) -> int {
    r.origin.x + fmul_s(t, r.direction.x as int)
}

pub open spec fn point_at_y(r: Ray, t: int) -> int {
    r.origin.y + fmul_s(t, r.direction.y as int)
}

pub open spec fn point_at_z(r: Ray, t: int) -> int {
    r.origin.z + fmul_s(t, r.direction.z as int)
}

/// A ray is workable when its origin and direction are bounded.
pub open spec fn ray_bounded(r: Ray) -> bool {
    &&& bounded(r.origin, ORIGIN_LIMIT as int)
    &&& bounded(r.direction, DIR_LIMIT as int)
}

impl Ray {
    pub fn new(a: Vec3, b: Vec3) -> (r: Ray)
        ensures
            r.origin == a,
            r.direction == b,
    {
        Ray { origin: a, direction: b }
    }

    pub fn origin(&self) -> (r: Vec3)
        ensures
            r == self.origin,
    {
        self.origin
    }

    pub fn direction(&self) -> (r: Vec3)
        ensures
            r == self.direction,
    {
        self.direction
    }

    /// The point `origin + t * direction`.
    pub fn point_at_parameter(&self, t: i64) -> (p: Vec3)
        requires
            ray_bounded(*self),
            -T_LIMIT <= t <= T_LIMIT,
        ensures
            p.x == point_at_x(*self, t as int),
            p.y == point_at_y(*self, t as int),
            p.z == point_at_z(*self, t as int),
            bounded(p, ORIGIN_LIMIT + 0x40000000000),
    {
        proof {
            lemma_fmul_bound(t as int, self.direction.x as int, T_LIMIT as int, DIR_LIMIT as int, 0x40000000000);
            lemma_fmul_bound(t as int, self.direction.y as int, T_LIMIT as int, DIR_LIMIT as int, 0x40000000000);
            lemma_fmul_bound(t as int, self.direction.z as int, T_LIMIT as int, DIR_LIMIT as int, 0x40000000000);
        }
        let d = Vec3::new(fmul(t, self.direction.x), fmul(t, self.direction.y), fmul(t, self.direction.z));
        self.origin.add(d)
    }
}

/// A fixed-point product is monotonic in its first factor when the second is
/// nonnegative, and antitonic when it is nonpositive.
pub proof fn lemma_fmul_monotonic(t1: int, t2: int, d: int)
    requires
        t1 <= t2,
    ensures
        d >= 0 ==> fmul_s(t1, d) <= fmul_s(t2, d),
        d <= 0 ==> fmul_s(t1, d) >= fmul_s(t2, d),
{
    if d >= 0 {
        assert(t1 * d <= t2 * d) by (nonlinear_arith)
            requires
                t1 <= t2,
                d >= 0,
        ;
        lemma_div_is_ordered(t1 * d, t2 * d, SCALE as int);
    }
    if d <= 0 {
        assert(t2 * d <= t1 * d) by (nonlinear_arith)
            requires
                t1 <= t2,
                d <= 0,
        ;
        lemma_div_is_ordered(t2 * d, t1 * d, SCALE as int);
    }
}

/// Along each axis, `point_at_parameter` moves with the sign of the direction
/// component as `t` grows: the evaluated points march monotonically along the
/// ray's direction.
pub proof fn lemma_point_at_monotonic(r: Ray, t1: int, t2: int)
    requires
        t1 <= t2,
    ensures
        r.direction.x >= 0 ==> point_at_x(r, t1) <= point_at_x(r, t2),
        r.direction.x <= 0 ==> point_at_x(r, t1) >= point_at_x(r, t2),
        r.direction.y >= 0 ==> point_at_y(r, t1) <= point_at_y(r, t2),
        r.direction.y <= 0 ==> point_at_y(r, t1) >= point_at_y(r, t2),
        r.direction.z >= 0 ==> point_at_z(r, t1) <= point_at_z(r, t2),
        r.direction.z <= 0 ==> point_at_z(r, t1) >= point_at_z(r, t2),
{
    lemma_fmul_monotonic(t1, t2, r.direction.x as int);
    lemma_fmul_monotonic(t1, t2, r.direction.y as int);
    lemma_fmul_monotonic(t1, t2, r.direction.z as int);
}

} // verus!
