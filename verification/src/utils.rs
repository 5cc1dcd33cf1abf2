//! Fixed-point scalar helpers: angles, square roots and the pose transform.
//!
//! Every scalar in this crate is an `i64` holding a real quantity times
//! `SCALE` (one unit is `10^-12`): lengths are in multiples of the minimum
//! turning radius and angles are in radians.  All arithmetic on these
//! scalars is exact integer arithmetic, so each function carries an exact
//! contract.  Transcendental values (sines, arc cosines, arc tangents)
//! cannot be computed in this representation; the planner takes them as
//! inputs instead.

use vstd::prelude::*;
use vstd::arithmetic::div_mod::{
    lemma_fundamental_div_mod, lemma_fundamental_div_mod_converse, lemma_div_is_ordered,
    lemma_mod_multiples_basic, lemma_div_pos_is_pos,
};

verus! {

/// Number of fixed-point units in 1.0.
pub const SCALE: i64 = 1_000_000_000_000;

/// The angle pi, in fixed-point units (rounded to the nearest unit).
pub const PI_FP: i64 = 3_141_592_653_590;

/// The angle pi/2, in fixed-point units.
pub const HALF_PI_FP: i64 = 1_570_796_326_795;

/// The angle 2*pi, in fixed-point units.
pub const TWO_PI_FP: i64 = 6_283_185_307_180;

/// Degeneracy threshold: segments whose parameter magnitude is at or
/// below this bound (10^-10) are dropped from candidate paths.
pub const EPS_FP: i64 = 100;

/// Largest coordinate or heading magnitude accepted in a world-frame pose.
pub const POSE_MAX: i64 = 50_000_000_000_000_000;

/// Bound on the coordinates of a relative pose produced by `change_of_basis`
/// from well-formed world poses.
pub const REL_MAX: i64 = 210_000_000_000_000_000;

/// Bound on every segment parameter a word family can produce.
pub const PARAM_MAX: i64 = 300_000_000_000_000_000;

/// Absolute value of a mathematical integer.
pub open spec fn spec_abs(x: int) -> int {
    if x < 0 { -x } else { x }
}

/// The unique representative of `a` modulo 2*pi (fixed point) that lies in
/// `[-PI_FP, PI_FP)`.
pub open spec fn spec_norm(a: int) -> int {
    let r = a % (TWO_PI_FP as int);
    if r >= PI_FP as int { r - TWO_PI_FP as int } else { r }
}

/// Degrees to radians, both in fixed point, rounding the magnitude down.
pub open spec fn spec_deg2rad(d: int) -> int {
    if d >= 0 {
        (d * (PI_FP as int)) / (180 * (SCALE as int))
    } else {
        -((-d * (PI_FP as int)) / (180 * (SCALE as int)))
    }
}

/// `r` is the floor of the square root of `v`.
pub open spec fn is_sqrt_floor(r: int, v: int) -> bool {
    &&& 0 <= r
    &&& r * r <= v
    &&& v < (r + 1) * (r + 1)
}

/// The floor of the square root of a non-negative integer.
pub open spec fn sqrt_floor(v: int) -> int {
    choose|r: int| is_sqrt_floor(r, v)
}

/// For every non-negative `v` a floor square root exists, so `sqrt_floor`
/// denotes it.
pub proof fn lemma_sqrt_floor_exists(v: int)
    requires
        0 <= v,
    ensures
        is_sqrt_floor(sqrt_floor(v), v),
    decreases v,
{
    if v == 0 {
        assert(is_sqrt_floor(0, 0));
    } else {
        lemma_sqrt_floor_exists(v - 1);
        let r = sqrt_floor(v - 1);
        if v < (r + 1) * (r + 1) {
            assert(is_sqrt_floor(r, v));
        } else {
            assert(v == (r + 1) * (r + 1));
            assert((r + 1 + 1) * (r + 1 + 1) > (r + 1) * (r + 1)) by (nonlinear_arith)
                requires r >= 0;
            assert(is_sqrt_floor(r + 1, v));
        }
    }
}

/// The floor square root is unique.
pub proof fn lemma_sqrt_floor_unique(r: int, v: int)
    requires
        is_sqrt_floor(r, v),
    ensures
        r == sqrt_floor(v),
{
    lemma_sqrt_floor_exists(v);
    let s = sqrt_floor(v);
    assert(r == s) by (nonlinear_arith)
        requires
            0 <= r,
            0 <= s,
            r * r <= v,
            v < (r + 1) * (r + 1),
            s * s <= v,
            v < (s + 1) * (s + 1);
}

/// Floor square root of `v`, by binary search on the answer.
pub fn isqrt(v: u128) -> (r: u128)
    requires
        v <= 90_000_000_000_000_000_000_000_000_000_000_000,
    ensures
        is_sqrt_floor(r as int, v as int),
        r as int == sqrt_floor(v as int),
{
    let mut lo: u128 = 0;
    let mut hi: u128 = 310_000_000_000_000_000;
    proof {
        assert((310_000_000_000_000_000 as int) * (310_000_000_000_000_000 as int)
            > 90_000_000_000_000_000_000_000_000_000_000_000);
    }
    while lo + 1 < hi
        invariant
            lo < hi,
            hi <= 310_000_000_000_000_000,
            (lo as int) * (lo as int) <= v as int,
            (v as int) < (hi as int) * (hi as int),
        decreases hi - lo,
    {
        let mid: u128 = lo + (hi - lo) / 2;
        proof {
            assert((mid as int) * (mid as int)
                <= (310_000_000_000_000_000 as int) * (310_000_000_000_000_000 as int))
                by (nonlinear_arith)
                requires 0 <= mid as int <= 310_000_000_000_000_000;
        }
        if mid * mid <= v {
            lo = mid;
        } else {
            hi = mid;
        }
    }
    proof {
        lemma_sqrt_floor_unique(lo as int, v as int);
    }
    lo
}

/// Fixed-point length of the vector `(x, y)`: the floor square root of
/// `x*x + y*y`.  This is the radial part of a Cartesian-to-polar
/// conversion; the angular part is transcendental and is supplied to the
/// planner from outside.
pub fn hypot_fp(x: i64, y: i64) -> (r: i64)
    requires
        spec_abs(x as int) <= REL_MAX as int + 2 * SCALE as int,
        spec_abs(y as int) <= REL_MAX as int + 2 * SCALE as int,
    ensures
        r as int == sqrt_floor((x as int) * (x as int) + (y as int) * (y as int)),
        0 <= r <= PARAM_MAX,
{
    proof {
        assert(0 <= (x as int) * (x as int)
            <= 44_100_840_004_000_000_000_000_000_000_000_000
            && 0 <= (y as int) * (y as int)
            <= 44_100_840_004_000_000_000_000_000_000_000_000) by (nonlinear_arith)
            requires
                -210_002_000_000_000_000 <= x as int <= 210_002_000_000_000_000,
                -210_002_000_000_000_000 <= y as int <= 210_002_000_000_000_000;
    }
    let xx: i128 = (x as i128) * (x as i128);
    let yy: i128 = (y as i128) * (y as i128);
    let v: u128 = (xx + yy) as u128;
    let r: u128 = isqrt(v);
    proof {
        assert(r as int <= PARAM_MAX as int) by (nonlinear_arith)
            requires
                0 <= r as int,
                (r as int) * (r as int) <= v as int,
                v as int <= 90_000_000_000_000_000_000_000_000_000_000_000;
    }
    r as i64
}

/// Maps any fixed-point angle to the unique congruent representative in
/// `[-PI_FP, PI_FP)`.  Congruence is modulo `TWO_PI_FP`, the fixed-point
/// full turn.
pub fn normalize_angle_rad(theta: i64) -> (r: i64)
    requires
        theta > i64::MIN,
    ensures
        r as int == spec_norm(theta as int),
        -PI_FP <= r < PI_FP,
        (r as int - theta as int) % (TWO_PI_FP as int) == 0,
{
    let ghost two: int = TWO_PI_FP as int;
    let r0: i64;
    if theta >= 0 {
        r0 = ((theta as u64) % (TWO_PI_FP as u64)) as i64;
    } else {
        let na: i64 = -theta;
        let nm: i64 = ((na as u64) % (TWO_PI_FP as u64)) as i64;
        if nm == 0 {
            r0 = 0;
        } else {
            r0 = TWO_PI_FP - nm;
        }
        proof {
            lemma_fundamental_div_mod(na as int, two);
            let q: int = na as int / two;
            if nm == 0 {
                lemma_fundamental_div_mod_converse(theta as int, two, -q, 0);
            } else {
                lemma_fundamental_div_mod_converse(theta as int, two, -q - 1, two - nm as int);
            }
        }
    }
    assert(r0 as int == theta as int % two);
    let r: i64 = if r0 >= PI_FP { r0 - TWO_PI_FP } else { r0 };
    proof {
        lemma_fundamental_div_mod(theta as int, two);
        let q: int = theta as int / two;
        if r0 >= PI_FP {
            lemma_mod_multiples_basic(-(q + 1), two);
            assert((r as int - theta as int) == (-(q + 1)) * two);
        } else {
            lemma_mod_multiples_basic(-q, two);
            assert((r as int - theta as int) == (-q) * two);
        }
    }
    r
}

/// Fixed-point degrees to fixed-point radians: multiplies by pi and
/// divides by 180, rounding the magnitude down.
pub fn degree_to_radians(degree: i64) -> (r: i64)
    ensures
        r as int == spec_deg2rad(degree as int),
        spec_abs(r as int) <= 170_000_000_000_000_000,
{
    let d: i128 = degree as i128;
    if d >= 0 {
        proof {
            assert(0 <= (d as int) * (PI_FP as int)
                <= 30_000_000_000_000_000_000_000_000_000_000) by (nonlinear_arith)
                requires
                    0 <= d as int <= 9_223_372_036_854_775_807,
                    PI_FP as int == 3_141_592_653_590;
        }
        let p: u128 = (d as u128) * (PI_FP as u128);
        let q: u128 = p / 180_000_000_000_000;
        proof {
            lemma_div_is_ordered(
                p as int,
                30_000_000_000_000_000_000_000_000_000_000,
                180_000_000_000_000,
            );
        }
        q as i64
    } else {
        let nd: i128 = -d;
        proof {
            assert(0 <= (nd as int) * (PI_FP as int)
                <= 30_000_000_000_000_000_000_000_000_000_000) by (nonlinear_arith)
                requires
                    0 <= nd as int <= 9_223_372_036_854_775_808,
                    PI_FP as int == 3_141_592_653_590;
        }
        let p: u128 = (nd as u128) * (PI_FP as u128);
        let q: u128 = p / 180_000_000_000_000;
        proof {
            lemma_div_is_ordered(
                p as int,
                30_000_000_000_000_000_000_000_000_000_000,
                180_000_000_000_000,
            );
        }
        -(q as i64)
    }
}

/// An oriented planar pose: a position and a heading in degrees, all in
/// fixed-point units.  The heading need not be normalized.
#[derive(Debug, Clone, Copy, PartialEq, Eq, Structural)]
pub struct Pose {
    pub x: i64,
    pub y: i64,
    pub theta_degree: i64,
}

/// A pose the planner accepts: coordinates and heading within `POSE_MAX`.
pub open spec fn pose_wf(p: Pose) -> bool {
    &&& spec_abs(p.x as int) <= POSE_MAX as int
    &&& spec_abs(p.y as int) <= POSE_MAX as int
    &&& spec_abs(p.theta_degree as int) <= POSE_MAX as int
}

/// Division by `SCALE` rounding toward zero.
pub open spec fn spec_scale_div(n: int) -> int {
    if n >= 0 { n / (SCALE as int) } else { -((-n) / (SCALE as int)) }
}

/// The x coordinate of the goal pose expressed in the start pose's frame,
/// given the sine and cosine of the start heading in fixed point.
pub open spec fn spec_cob_x(p1: Pose, p2: Pose, sin1: int, cos1: int) -> int {
    spec_scale_div((p2.x - p1.x) * cos1 + (p2.y - p1.y) * sin1)
}

/// The y coordinate of the goal pose expressed in the start pose's frame.
pub open spec fn spec_cob_y(p1: Pose, p2: Pose, sin1: int, cos1: int) -> int {
    spec_scale_div((p2.y - p1.y) * cos1 - (p2.x - p1.x) * sin1)
}

/// The relative pose produced by `change_of_basis`.
pub open spec fn spec_cob(p1: Pose, p2: Pose, sin1: int, cos1: int) -> Pose {
    Pose {
        x: spec_cob_x(p1, p2, sin1, cos1) as i64,
        y: spec_cob_y(p1, p2, sin1, cos1) as i64,
        theta_degree: (p2.theta_degree - p1.theta_degree) as i64,
    }
}

/// Divides a scaled product by `SCALE`, rounding toward zero.
fn scale_div(n: i128) -> (r: i64)
    requires
        spec_abs(n as int) <= 420_000_000_000_000_000_000_000_000_000,
    ensures
        r as int == spec_scale_div(n as int),
        spec_abs(r as int) <= spec_abs(n as int) / (SCALE as int),
{
    if n >= 0 {
        let q: u128 = (n as u128) / (SCALE as u128);
        proof {
            lemma_div_pos_is_pos(n as int, SCALE as int);
            lemma_div_is_ordered(
                n as int,
                420_000_000_000_000_000_000_000_000_000,
                SCALE as int,
            );
        }
        q as i64
    } else {
        let nn: i128 = -n;
        let q: u128 = (nn as u128) / (SCALE as u128);
        proof {
            lemma_div_pos_is_pos(nn as int, SCALE as int);
            lemma_div_is_ordered(
                nn as int,
                420_000_000_000_000_000_000_000_000_000,
                SCALE as int,
            );
        }
        -(q as i64)
    }
}

/// Re-expresses the goal pose `p2` in the frame of the start pose `p1`:
/// rotates the displacement by minus the start heading and subtracts the
/// headings.  The sine and cosine of the start heading are fixed-point
/// inputs; with them the transform is exact integer arithmetic.
pub fn change_of_basis(p1: &Pose, p2: &Pose, sin1: i64, cos1: i64) -> (r: Pose)
    requires
        pose_wf(*p1),
        pose_wf(*p2),
        spec_abs(sin1 as int) <= SCALE as int,
        spec_abs(cos1 as int) <= SCALE as int,
    ensures
        r == spec_cob(*p1, *p2, sin1 as int, cos1 as int),
        spec_abs(r.x as int) <= REL_MAX as int,
        spec_abs(r.y as int) <= REL_MAX as int,
        spec_abs(r.theta_degree as int) <= REL_MAX as int,
{
    let dx: i64 = p2.x - p1.x;
    let dy: i64 = p2.y - p1.y;
    proof {
        assert(-100_000_000_000_000_000_000_000_000_000
                <= (dx as int) * (cos1 as int) <= 100_000_000_000_000_000_000_000_000_000
            && -100_000_000_000_000_000_000_000_000_000
                <= (dy as int) * (sin1 as int) <= 100_000_000_000_000_000_000_000_000_000
            && -100_000_000_000_000_000_000_000_000_000
                <= (dx as int) * (sin1 as int) <= 100_000_000_000_000_000_000_000_000_000
            && -100_000_000_000_000_000_000_000_000_000
                <= (dy as int) * (cos1 as int) <= 100_000_000_000_000_000_000_000_000_000)
            by (nonlinear_arith)
            requires
                -100_000_000_000_000_000 <= dx as int <= 100_000_000_000_000_000,
                -100_000_000_000_000_000 <= dy as int <= 100_000_000_000_000_000,
                -1_000_000_000_000 <= sin1 as int <= 1_000_000_000_000,
                -1_000_000_000_000 <= cos1 as int <= 1_000_000_000_000;
    }
    let nx: i64 = scale_div((dx as i128) * (cos1 as i128) + (dy as i128) * (sin1 as i128));
    let ny: i64 = scale_div((dy as i128) * (cos1 as i128) - (dx as i128) * (sin1 as i128));
    proof {
        lemma_div_is_ordered(
            spec_abs((dx as int) * (cos1 as int) + (dy as int) * (sin1 as int)),
            200_000_000_000_000_000_000_000_000_000,
            SCALE as int,
        );
        lemma_div_is_ordered(
            spec_abs((dy as int) * (cos1 as int) - (dx as int) * (sin1 as int)),
            200_000_000_000_000_000_000_000_000_000,
            SCALE as int,
        );
    }
    Pose {
        x: nx,
        y: ny,
        theta_degree: p2.theta_degree - p1.theta_degree,
    }
}

} // verus!
