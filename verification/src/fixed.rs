use vstd::prelude::*;
use vstd::arithmetic::div_mod::{
    lemma_fundamental_div_mod, lemma_fundamental_div_mod_converse, lemma_div_is_ordered,
};

verus! {

/// Fixed-point scale: a scalar `q: i64` stands for the real number `q / SCALE`.
pub const SCALE: i64 = 65536;

/// Fixed-point product: the scalar standing for the product of the reals that
/// `a` and `b` stand for, rounded toward negative infinity.
pub open spec fn fmul_s(a: int, b: int) -> int {
    (a * b) / (SCALE as int)
}

/// Fixed-point quotient (`b > 0`): the scalar standing for the quotient of the
/// reals that `a` and `b` stand for, rounded toward negative infinity.
pub open spec fn fdiv_s(a: int, b: int) -> int {
    (a * SCALE) / b
}

/// `r` is the integer square root of `n`, rounded down.
pub open spec fn is_sqrt_floor(r: int, n: int) -> bool {
    0 <= r && r * r <= n && n < (r + 1) * (r + 1)
}

/// The integer square root of `n`, rounded down (for `n >= 0`).
pub open spec fn sqrt_floor(n: int) -> int {
    choose|r: int| is_sqrt_floor(r, n)
}

/// Two integers both satisfying the floor-square-root property of `n` are equal.
pub proof fn lemma_sqrt_floor_unique(r1: int, r2: int, n: int)
    by (nonlinear_arith)
    requires
        is_sqrt_floor(r1, n),
        is_sqrt_floor(r2, n),
    ensures
        r1 == r2,
{
}

/// A witness of the floor-square-root property pins down `sqrt_floor(n)`.
pub proof fn lemma_sqrt_floor_of(r: int, n: int)
    requires
        is_sqrt_floor(r, n),
    ensures
        sqrt_floor(n) == r,
{
    assert(is_sqrt_floor(sqrt_floor(n), n)) by {
        assert(exists|q: int| is_sqrt_floor(q, n));
    }
    lemma_sqrt_floor_unique(sqrt_floor(n), r, n);
}

/// The floor square root does not exceed any `a >= 0` whose square bounds `n` above,
/// and is at least any `a >= 0` whose square bounds `n` below.
pub proof fn lemma_sqrt_floor_bounds(r: int, n: int, a: int)
    by (nonlinear_arith)
    requires
        is_sqrt_floor(r, n),
        0 <= a,
    ensures
        a * a <= n ==> a <= r,
        n < a * a ==> r < a,
{
}

/// Every nonnegative integer has a floor square root.
pub proof fn lemma_sqrt_floor_exists(n: nat)
    ensures
        is_sqrt_floor(sqrt_floor(n as int), n as int),
    decreases n,
{
    if n == 0 {
        assert(is_sqrt_floor(0, 0));
    } else {
        lemma_sqrt_floor_exists((n - 1) as nat);
        let r0 = sqrt_floor(n - 1);
        if (r0 + 1) * (r0 + 1) <= n {
            assert(is_sqrt_floor(r0 + 1, n as int)) by (nonlinear_arith)
                requires
                    is_sqrt_floor(r0, n - 1),
                    (r0 + 1) * (r0 + 1) <= n,
            ;
            lemma_sqrt_floor_unique(sqrt_floor(n as int), r0 + 1, n as int);
        } else {
            assert(is_sqrt_floor(r0, n as int));
            lemma_sqrt_floor_unique(sqrt_floor(n as int), r0, n as int);
        }
    }
}

/// Fixed-point division is monotonic in the numerator (positive divisor).
pub proof fn lemma_fdiv_monotonic(n1: int, n2: int, d: int)
    requires
        n1 <= n2,
        d >= 1,
    ensures
        fdiv_s(n1, d) <= fdiv_s(n2, d),
{
    lemma_div_is_ordered(n1 * SCALE, n2 * SCALE, d);
}

/// A nonpositive numerator gives a nonpositive fixed-point quotient, and one
/// at most `-1` gives a quotient at most `-1`.
pub proof fn lemma_fdiv_neg(n: int, d: int)
    requires
        n <= -1,
        d >= 1,
    ensures
        fdiv_s(n, d) <= -1,
{
    lemma_div_is_ordered(n * SCALE, -(SCALE as int), d);
    if d > SCALE {
        lemma_fundamental_div_mod_converse(-(SCALE as int), d, -1, d - SCALE as int);
    } else {
        lemma_div_is_ordered(-(SCALE as int), -d, d);
        assert(-d == -1 * d + 0);
        lemma_fundamental_div_mod_converse(-d, d, -1, 0);
    }
}

/// Floor divisions of a number and its negation sum to zero exactly when the
/// divisor divides it, and to minus one otherwise.
pub proof fn lemma_div_pair(m: int, d: int)
    requires
        d > 0,
    ensures
        -1 <= m / d + (-m) / d <= 0,
        m % d == 0 ==> m / d + (-m) / d == 0,
{
    lemma_fundamental_div_mod(m, d);
    let q = m / d;
    let r = m % d;
    if r == 0 {
        assert(-m == (-q) * d + 0) by (nonlinear_arith)
            requires
                m == d * q,
        ;
        lemma_fundamental_div_mod_converse(-m, d, -q, 0);
    } else {
        assert(-m == (-q - 1) * d + (d - r)) by (nonlinear_arith)
            requires
                m == d * q + r,
        ;
        lemma_fundamental_div_mod_converse(-m, d, -q - 1, d - r);
    }
}

/// Euclidean division of a negative numerator by a positive divisor, written
/// with nonnegative operations: `(-m) / d == -((m + d - 1) / d)`.
pub proof fn lemma_div_neg(m: int, d: int)
    requires
        m >= 0,
        d > 0,
    ensures
        (-m) / d == -((m + d - 1) / d),
{
    let k = m / d;
    let j = m % d;
    lemma_fundamental_div_mod(m, d);
    if j == 0 {
        assert(-m == (-k) * d + 0 && m + d - 1 == k * d + (d - 1)) by (nonlinear_arith)
            requires
                m == d * k,
        ;
        lemma_fundamental_div_mod_converse(-m, d, -k, 0);
        lemma_fundamental_div_mod_converse(m + d - 1, d, k, d - 1);
    } else {
        assert(-m == (-k - 1) * d + (d - j) && m + d - 1 == (k + 1) * d + (j - 1))
            by (nonlinear_arith)
            requires
                m == d * k + j,
        ;
        lemma_fundamental_div_mod_converse(-m, d, -k - 1, d - j);
        lemma_fundamental_div_mod_converse(m + d - 1, d, k + 1, j - 1);
    }
}

/// If `|n| <= b * d` then `|n / d| <= b` (for `d > 0`, `b >= 0`).
pub proof fn lemma_div_abs_bound(n: int, d: int, b: int)
    requires
        d > 0,
        b >= 0,
        -(b * d) <= n <= b * d,
    ensures
        -b <= n / d <= b,
{
    lemma_div_is_ordered(n, b * d, d);
    lemma_div_is_ordered(-(b * d), n, d);
    assert(-(b * d) == (-b) * d + 0) by (nonlinear_arith);
    assert((b * d) / d == b) by {
        lemma_fundamental_div_mod_converse(b * d, d, b, 0);
    }
    assert((-(b * d)) / d == -b) by {
        lemma_fundamental_div_mod_converse(-(b * d), d, -b, 0);
    }
}

/// Floor division of an `i128` by a positive divisor, matching the
/// mathematical (Euclidean) quotient.
pub fn div_floor_i128(n: i128, d: i128) -> (q: i128)
    requires
        d > 0,
        n > i128::MIN + d,
    ensures
        q == n as int / d as int,
{
    if n >= 0 {
        n / d
    } else {
        let m = -n;
        proof {
            lemma_div_neg(m as int, d as int);
            vstd::arithmetic::div_mod::lemma_div_pos_is_pos((m + (d - 1)) as int, d as int);
            vstd::arithmetic::div_mod::lemma_div_nonincreasing((m + (d - 1)) as int, d as int);
        }
        -((m + (d - 1)) / d)
    }
}

/// A product of bounded factors is bounded.
pub proof fn lemma_mul_abs(a: int, b: int, ba: int, bb: int)
    by (nonlinear_arith)
    requires
        -ba <= a <= ba,
        -bb <= b <= bb,
        ba >= 0,
        bb >= 0,
    ensures
        -(ba * bb) <= a * b <= ba * bb,
{
}

/// A fixed-point product of bounded factors is bounded: if `|a| <= ba`,
/// `|b| <= bb` and `ba * bb <= c * SCALE`, then `|fmul_s(a, b)| <= c`.
pub proof fn lemma_fmul_bound(a: int, b: int, ba: int, bb: int, c: int)
    requires
        -ba <= a <= ba,
        -bb <= b <= bb,
        ba >= 0,
        bb >= 0,
        ba * bb <= c * (SCALE as int),
    ensures
        -c <= fmul_s(a, b) <= c,
        c <= 0x7fffffffffffffff ==> fmul_fits(a, b),
{
    assert(-(c * (SCALE as int)) <= a * b <= c * (SCALE as int)) by (nonlinear_arith)
        requires
            -ba <= a <= ba,
            -bb <= b <= bb,
            ba >= 0,
            bb >= 0,
            ba * bb <= c * (SCALE as int),
    ;
    lemma_div_abs_bound(a * b, SCALE as int, c);
    if c <= 0x7fffffffffffffff {
        assert(c * (SCALE as int) <= 0x7fffffffffffffff * (SCALE as int));
    }
}

/// Bound that keeps a fixed-point product inside `i64`.
pub open spec fn fmul_fits(a: int, b: int) -> bool {
    -(0x7fffffffffffffff * (SCALE as int)) <= a * b <= 0x7fffffffffffffff * (SCALE as int)
}

/// Fixed-point multiplication, rounded toward negative infinity.
pub fn fmul(a: i64, b: i64) -> (r: i64)
    requires
        fmul_fits(a as int, b as int),
    ensures
        r == fmul_s(a as int, b as int),
{
    proof {
        assert((a as int) * (b as int) <= 0x7fffffffffffffff * (SCALE as int)
            && -(0x7fffffffffffffff * (SCALE as int)) <= (a as int) * (b as int)
            ==> -0x80000000000000000000000000000000 < (a as int) * (b as int)
                < 0x80000000000000000000000000000000) by (nonlinear_arith);
    }
    let wide: i128 = (a as i128) * (b as i128);
    let q = div_floor_i128(wide, SCALE as i128);
    proof {
        lemma_div_abs_bound(wide as int, SCALE as int, 0x7fffffffffffffff);
    }
    q as i64
}

/// Fixed-point division by a positive scalar, rounded toward negative infinity.
pub fn fdiv(a: i64, b: i64) -> (r: i64)
    requires
        b > 0,
        -0x200000000000 <= a <= 0x200000000000,
    ensures
        r == fdiv_s(a as int, b as int),
{
    let wide: i128 = (a as i128) * 65536;
    proof {
        assert(0x200000000000 * (SCALE as int) * (b as int) >= wide
            && wide >= -(0x200000000000 * (SCALE as int) * (b as int))) by (nonlinear_arith)
            requires
                b >= 1,
                -(0x200000000000 * (SCALE as int)) <= wide <= 0x200000000000 * (SCALE as int),
        ;
    }
    let q = div_floor_i128(wide, b as i128);
    proof {
        lemma_div_abs_bound(wide as int, b as int, 0x200000000000 * (SCALE as int));
    }
    q as i64
}

/// Integer square root, rounded down, by bisection.
pub fn isqrt_u128(n: u128) -> (r: u128)
    requires
        n < 0x4000000000000000000000000000000,  // 2^122
    ensures
        is_sqrt_floor(r as int, n as int),
{
    if n == 0 {
        return 0;
    }
    let mut lo: u128 = 0;
    let mut hi: u128 = 0x2000000000000000;  // 2^61
    proof {
        assert((0x2000000000000000 as int) * (0x2000000000000000 as int)
            == 0x4000000000000000000000000000000int) by (nonlinear_arith);
    }
    while lo + 1 < hi
        invariant
            (lo as int) * (lo as int) <= n as int,
            (n as int) < (hi as int) * (hi as int),
            lo < hi,
            hi <= 0x2000000000000000,
        decreases hi - lo,
    {
        let mid = lo + (hi - lo) / 2;
        proof {
            assert(mid <= 0x2000000000000000 ==> (mid as int) * (mid as int)
                <= 0x4000000000000000000000000000000int) by (nonlinear_arith);
        }
        let sq = mid * mid;
        if sq <= n {
            lo = mid;
        } else {
            hi = mid;
        }
    }
    lo
}

/// Integer square root of a nonnegative `i128`, rounded down, as an `i64`.
pub fn isqrt(n: i128) -> (r: i64)
    requires
        0 <= n < 0x4000000000000000000000000000000,
    ensures
        is_sqrt_floor(r as int, n as int),
        r == sqrt_floor(n as int),
        r >= 0,
{
    let r = isqrt_u128(n as u128);
    proof {
        assert((r as int) * (r as int) <= n as int
            && (n as int) < 0x4000000000000000000000000000000int
            ==> r < 0x2000000000000000) by (nonlinear_arith);
        lemma_sqrt_floor_of(r as int, n as int);
    }
    r as i64
}

} // verus!
