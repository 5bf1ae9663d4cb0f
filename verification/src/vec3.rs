use vstd::prelude::*;
use crate::fixed::{
    fmul, fmul_s, fmul_fits, fdiv, fdiv_s, isqrt, sqrt_floor, is_sqrt_floor, SCALE,
    lemma_sqrt_floor_of, lemma_sqrt_floor_bounds, lemma_div_abs_bound, div_floor_i128,
};

verus! {

/// A 3-component vector of fixed-point scalars, used for positions,
/// directions and colors alike (color channels map to x/y/z).
#[derive(Clone, Copy, PartialEq, Eq, Structural, Debug)]
pub struct Vec3 {
    pub x: i64,
    pub y: i64,
    pub z: i64,
}

/// Every component of `v` lies in `[-b, b]`.
pub open spec fn bounded(v: Vec3, b: int) -> bool {
    &&& -b <= v.x <= b
    &&& -b <= v.y <= b
    &&& -b <= v.z <= b
}

/// The exact dot product of two vectors, at scale `SCALE * SCALE`.
pub open spec fn dot_s(a: Vec3, b: Vec3) -> int {
    a.x * b.x + a.y * b.y + a.z * b.z
}

/// Components of the fixed-point cross product.
pub open spec fn cross_x(a: Vec3, b: Vec3) -> int {
    (a.y * b.z - a.z * b.y) / (SCALE as int)
}

pub open spec fn cross_y(a: Vec3, b: Vec3) -> int {
    (a.z * b.x - a.x * b.z) / (SCALE as int)
}

pub open spec fn cross_z(a: Vec3, b: Vec3) -> int {
    (a.x * b.y - a.y * b.x) / (SCALE as int)
}

/// The unit vector of `v`: componentwise `v * SCALE / length(v)`.
pub open spec fn unit_spec(v: Vec3) -> Vec3 {
    Vec3 {
        x: fdiv_s(v.x as int, sqrt_floor(dot_s(v, v))) as i64,
        y: fdiv_s(v.y as int, sqrt_floor(dot_s(v, v))) as i64,
        z: fdiv_s(v.z as int, sqrt_floor(dot_s(v, v))) as i64,
    }
}

/// A bounded dot product: `|dot_s(a, b)| <= 3 * ba * bb` when the factors are
/// componentwise bounded by `ba` and `bb`.
pub proof fn lemma_dot_bound(a: Vec3, b: Vec3, ba: int, bb: int)
    requires
        bounded(a, ba),
        bounded(b, bb),
        ba >= 0,
        bb >= 0,
    ensures
        -3 * (ba * bb) <= dot_s(a, b) <= 3 * (ba * bb),
{
    assert(-3 * (ba * bb) <= a.x * b.x + a.y * b.y + a.z * b.z <= 3 * (ba * bb))
        by (nonlinear_arith)
        requires
            -ba <= a.x <= ba,
            -ba <= a.y <= ba,
            -ba <= a.z <= ba,
            -bb <= b.x <= bb,
            -bb <= b.y <= bb,
            -bb <= b.z <= bb,
            ba >= 0,
            bb >= 0,
    ;
}

impl Vec3 {
    pub fn new(x: i64, y: i64, z: i64) -> (r: Vec3)
        ensures
            r == (Vec3 { x, y, z }),
    {
        Vec3 { x, y, z }
    }

    pub fn x(&self) -> (r: i64)
        ensures
            r == self.x,
    {
        self.x
    }

    pub fn y(&self) -> (r: i64)
        ensures
            r == self.y,
    {
        self.y
    }

    pub fn z(&self) -> (r: i64)
        ensures
            r == self.z,
    {
        self.z
    }

    /// Indexed component access: 0, 1, 2 map to x, y, z.
    pub fn index(&self, i: usize) -> (r: i64)
        requires
            i < 3,
        ensures
            i == 0 ==> r == self.x,
            i == 1 ==> r == self.y,
            i == 2 ==> r == self.z,
    {
        if i == 0 {
            self.x
        } else if i == 1 {
            self.y
        } else {
            self.z
        }
    }

    /// Componentwise sum.
    pub fn add(self, other: Vec3) -> (r: Vec3)
        requires
            i64::MIN <= self.x + other.x <= i64::MAX,
            i64::MIN <= self.y + other.y <= i64::MAX,
            i64::MIN <= self.z + other.z <= i64::MAX,
        ensures
            r.x == self.x + other.x,
            r.y == self.y + other.y,
            r.z == self.z + other.z,
    {
        Vec3 { x: self.x + other.x, y: self.y + other.y, z: self.z + other.z }
    }

    /// Componentwise difference.
    pub fn sub(self, other: Vec3) -> (r: Vec3)
        requires
            i64::MIN <= self.x - other.x <= i64::MAX,
            i64::MIN <= self.y - other.y <= i64::MAX,
            i64::MIN <= self.z - other.z <= i64::MAX,
        ensures
            r.x == self.x - other.x,
            r.y == self.y - other.y,
            r.z == self.z - other.z,
    {
        Vec3 { x: self.x - other.x, y: self.y - other.y, z: self.z - other.z }
    }

    /// Componentwise negation.
    pub fn neg(self) -> (r: Vec3)
        requires
            self.x > i64::MIN,
            self.y > i64::MIN,
            self.z > i64::MIN,
        ensures
            r.x == -self.x,
            r.y == -self.y,
            r.z == -self.z,
    {
        Vec3 { x: -self.x, y: -self.y, z: -self.z }
    }

    /// Componentwise fixed-point product (used to tint colors).
    pub fn mul(self, other: Vec3) -> (r: Vec3)
        requires
            fmul_fits(self.x as int, other.x as int),
            fmul_fits(self.y as int, other.y as int),
            fmul_fits(self.z as int, other.z as int),
        ensures
            r.x == fmul_s(self.x as int, other.x as int),
            r.y == fmul_s(self.y as int, other.y as int),
            r.z == fmul_s(self.z as int, other.z as int),
    {
        Vec3 { x: fmul(self.x, other.x), y: fmul(self.y, other.y), z: fmul(self.z, other.z) }
    }

    /// Fixed-point scaling by the scalar `t`.
    pub fn scale(self, t: i64) -> (r: Vec3)
        requires
            fmul_fits(self.x as int, t as int),
            fmul_fits(self.y as int, t as int),
            fmul_fits(self.z as int, t as int),
        ensures
            r.x == fmul_s(self.x as int, t as int),
            r.y == fmul_s(self.y as int, t as int),
            r.z == fmul_s(self.z as int, t as int),
    {
        Vec3 { x: fmul(self.x, t), y: fmul(self.y, t), z: fmul(self.z, t) }
    }

    /// Fixed-point division by the positive scalar `t`.
    pub fn div(self, t: i64) -> (r: Vec3)
        requires
            t > 0,
            bounded(self, 0x200000000000),
        ensures
            r.x == fdiv_s(self.x as int, t as int),
            r.y == fdiv_s(self.y as int, t as int),
            r.z == fdiv_s(self.z as int, t as int),
    {
        Vec3 { x: fdiv(self.x, t), y: fdiv(self.y, t), z: fdiv(self.z, t) }
    }

    /// The exact dot product, at scale `SCALE * SCALE`.
    pub fn dot(&self, other: &Vec3) -> (r: i128)
        requires
            bounded(*self, 0x800000000000),
            bounded(*other, 0x800000000000),
        ensures
            r == dot_s(*self, *other),
    {
        proof {
            lemma_dot_bound(*self, *other, 0x800000000000, 0x800000000000);
            crate::fixed::lemma_mul_abs(self.x as int, other.x as int, 0x800000000000, 0x800000000000);
            crate::fixed::lemma_mul_abs(self.y as int, other.y as int, 0x800000000000, 0x800000000000);
            crate::fixed::lemma_mul_abs(self.z as int, other.z as int, 0x800000000000, 0x800000000000);
        }
        (self.x as i128) * (other.x as i128) + (self.y as i128) * (other.y as i128) + (
        self.z as i128) * (other.z as i128)
    }

    /// The exact squared length, at scale `SCALE * SCALE`.
    pub fn squared_length(&self) -> (r: i128)
        requires
            bounded(*self, 0x800000000000),
        ensures
            r == dot_s(*self, *self),
            r >= 0,
    {
        proof {
            lemma_dot_bound(*self, *self, 0x800000000000, 0x800000000000);
            assert(self.x * self.x + self.y * self.y + self.z * self.z >= 0)
                by (nonlinear_arith);
        }
        self.dot(self)
    }

    /// The Euclidean length, rounded down to a fixed-point scalar.
    pub fn length(&self) -> (r: i64)
        requires
            bounded(*self, 0x800000000000),
        ensures
            r == sqrt_floor(dot_s(*self, *self)),
            is_sqrt_floor(r as int, dot_s(*self, *self)),
            r >= 0,
    {
        let sq = self.squared_length();
        proof {
            lemma_dot_bound(*self, *self, 0x800000000000, 0x800000000000);
        }
        isqrt(sq)
    }

    /// The unit vector in the direction of `v` (componentwise
    /// `v * SCALE / length`, rounded down). The result is componentwise
    /// within `[-SCALE, SCALE]`.
    pub fn unit_vector(v: &Vec3) -> (r: Vec3)
        requires
            bounded(*v, 0x200000000000),
            dot_s(*v, *v) >= 1,
        ensures
            r.x == fdiv_s(v.x as int, sqrt_floor(dot_s(*v, *v))),
            r.y == fdiv_s(v.y as int, sqrt_floor(dot_s(*v, *v))),
            r.z == fdiv_s(v.z as int, sqrt_floor(dot_s(*v, *v))),
            r == unit_spec(*v),
            bounded(r, SCALE as int),
    {
        let len = v.length();
        proof {
            let l2 = dot_s(*v, *v);
            assert(len >= 1) by {
                if len == 0 {
                    assert((0 + 1) * (0 + 1) == 1);
                }
            }
            lemma_unit_component(v.x as int, *v, len as int);
            lemma_unit_component(v.y as int, *v, len as int);
            lemma_unit_component(v.z as int, *v, len as int);
        }
        Vec3 { x: fdiv(v.x, len), y: fdiv(v.y, len), z: fdiv(v.z, len) }
    }

    /// The fixed-point cross product.
    pub fn cross(&self, other: Vec3) -> (r: Vec3)
        requires
            bounded(*self, 0x2000000000),
            bounded(other, 0x2000000000),
        ensures
            r.x == cross_x(*self, other),
            r.y == cross_y(*self, other),
            r.z == cross_z(*self, other),
    {
        proof {
            lemma_cross_part(self.y as int, other.z as int, self.z as int, other.y as int);
            lemma_cross_part(self.z as int, other.x as int, self.x as int, other.z as int);
            lemma_cross_part(self.x as int, other.y as int, self.y as int, other.x as int);
            crate::fixed::lemma_mul_abs(self.y as int, other.z as int, 0x2000000000, 0x2000000000);
            crate::fixed::lemma_mul_abs(self.z as int, other.y as int, 0x2000000000, 0x2000000000);
            crate::fixed::lemma_mul_abs(self.z as int, other.x as int, 0x2000000000, 0x2000000000);
            crate::fixed::lemma_mul_abs(self.x as int, other.z as int, 0x2000000000, 0x2000000000);
            crate::fixed::lemma_mul_abs(self.x as int, other.y as int, 0x2000000000, 0x2000000000);
            crate::fixed::lemma_mul_abs(self.y as int, other.x as int, 0x2000000000, 0x2000000000);
        }
        let cx = div_floor_i128(
            (self.y as i128) * (other.z as i128) - (self.z as i128) * (other.y as i128),
            65536,
        );
        let cy = div_floor_i128(
            (self.z as i128) * (other.x as i128) - (self.x as i128) * (other.z as i128),
            65536,
        );
        let cz = div_floor_i128(
            (self.x as i128) * (other.y as i128) - (self.y as i128) * (other.x as i128),
            65536,
        );
        Vec3 { x: cx as i64, y: cy as i64, z: cz as i64 }
    }
}

/// One component of a vector does not exceed the vector's length.
proof fn lemma_unit_component(c: int, v: Vec3, len: int)
    requires
        c == v.x || c == v.y || c == v.z,
        is_sqrt_floor(len, dot_s(v, v)),
        len >= 1,
    ensures
        -(SCALE as int) * len <= c * (SCALE as int) <= (SCALE as int) * len,
        -(SCALE as int) <= fdiv_s(c, len) <= SCALE as int,
{
    let a = if c >= 0 { c } else { -c };
    assert(a * a <= v.x * v.x + v.y * v.y + v.z * v.z) by (nonlinear_arith)
        requires
            a == c || a == -c,
            c == v.x || c == v.y || c == v.z,
    ;
    lemma_sqrt_floor_bounds(len, dot_s(v, v), a);
    lemma_div_abs_bound(c * (SCALE as int), len, SCALE as int);
}

/// A cross-product term of factors bounded by `0x2000000000` fits comfortably,
/// and its quotient by `SCALE` fits in an `i64`.
proof fn lemma_cross_part(a: int, b: int, c: int, d: int)
    requires
        -0x2000000000 <= a <= 0x2000000000,
        -0x2000000000 <= b <= 0x2000000000,
        -0x2000000000 <= c <= 0x2000000000,
        -0x2000000000 <= d <= 0x2000000000,
    ensures
        -0x8000000000000000000 <= a * b - c * d <= 0x8000000000000000000,
        -0x7fffffffffffffff <= (a * b - c * d) / (SCALE as int) <= 0x7fffffffffffffff,
{
    assert(-0x4000000000000000000 <= a * b <= 0x4000000000000000000
        && -0x4000000000000000000 <= c * d <= 0x4000000000000000000) by (nonlinear_arith)
        requires
            -0x2000000000 <= a <= 0x2000000000,
            -0x2000000000 <= b <= 0x2000000000,
            -0x2000000000 <= c <= 0x2000000000,
            -0x2000000000 <= d <= 0x2000000000,
    ;
    lemma_div_abs_bound(a * b - c * d, SCALE as int, 0x7fffffffffffffff);
}

} // verus!
