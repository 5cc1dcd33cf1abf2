//! The twelve canonical Reeds-Shepp word families.
//!
//! Each family maps a relative pose `(x, y, phi_degree)` — the goal
//! expressed in the start pose's frame — to a candidate maneuver, or to an
//! empty path when its geometric precondition fails.  A family first shifts
//! the goal by a reference-circle offset, converts to polar coordinates and
//! then derives up to three angles with closed formulas.
//!
//! The radial polar part, the square roots and all the additive angle
//! arithmetic are exact fixed-point computations verified here.  The
//! transcendental inputs a family needs — the sine and cosine of `phi`,
//! the polar angle `theta` of the shifted point, and the family's arc
//! sine / arc cosine / arc tangent values — cannot be computed in fixed
//! point and are taken as arguments; each contract states the output
//! exactly as a function of them.

use vstd::prelude::*;

use crate::utils::{
    spec_abs, spec_norm, spec_deg2rad, sqrt_floor, is_sqrt_floor,
    normalize_angle_rad, degree_to_radians, hypot_fp,
    SCALE, PI_FP, HALF_PI_FP, TWO_PI_FP, REL_MAX, PARAM_MAX,
};
use crate::{Path, PathElement, Steering, Gear, spec_create};

verus! {

/// Relative-pose arguments a word family accepts: bounded coordinates and
/// heading, and a fixed-point sine and cosine (magnitude at most one).
pub open spec fn family_inputs_wf(x: int, y: int, phi: int, sp: int, cp: int) -> bool {
    &&& spec_abs(x) <= REL_MAX as int
    &&& spec_abs(y) <= REL_MAX as int
    &&& spec_abs(phi) <= REL_MAX as int
    &&& spec_abs(sp) <= SCALE as int
    &&& spec_abs(cp) <= SCALE as int
}

/// A transcendental input: an angle no larger than a full turn.
pub open spec fn trig_wf(a: int) -> bool {
    spec_abs(a) <= TWO_PI_FP as int
}

/// Radial distance of the goal shifted by the left reference circle:
/// `hypot(x - sin phi, y - 1 + cos phi)` in fixed point.
pub open spec fn spec_rho_left(x: int, y: int, sp: int, cp: int) -> int {
    sqrt_floor((x - sp) * (x - sp) + (y - SCALE as int + cp) * (y - SCALE as int + cp))
}

/// Radial distance of the goal shifted by the right reference circle:
/// `hypot(x + sin phi, y - 1 - cos phi)` in fixed point.
pub open spec fn spec_rho_right(x: int, y: int, sp: int, cp: int) -> int {
    sqrt_floor((x + sp) * (x + sp) + (y - SCALE as int - cp) * (y - SCALE as int - cp))
}

/// Fixed-point square root of `rho^2 - 4`, the leg of the right triangle
/// the two-radius families use.
pub open spec fn spec_leg(rho: int) -> int {
    sqrt_floor(rho * rho - 4 * (SCALE as int) * (SCALE as int))
}

fn rho_left(x: i64, y: i64, sp: i64, cp: i64) -> (rho: i64)
    requires
        family_inputs_wf(x as int, y as int, 0, sp as int, cp as int),
    ensures
        rho as int == spec_rho_left(x as int, y as int, sp as int, cp as int),
        0 <= rho <= PARAM_MAX,
{
    hypot_fp(x - sp, y - SCALE + cp)
}

fn rho_right(x: i64, y: i64, sp: i64, cp: i64) -> (rho: i64)
    requires
        family_inputs_wf(x as int, y as int, 0, sp as int, cp as int),
    ensures
        rho as int == spec_rho_right(x as int, y as int, sp as int, cp as int),
        0 <= rho <= PARAM_MAX,
{
    hypot_fp(x + sp, y - SCALE - cp)
}

fn leg(rho: i64) -> (s: i64)
    requires
        2 * SCALE <= rho <= PARAM_MAX,
    ensures
        s as int == spec_leg(rho as int),
        0 <= s <= PARAM_MAX,
{
    proof {
        assert(4_000_000_000_000_000_000_000_000
            <= (rho as int) * (rho as int)
            <= 90_000_000_000_000_000_000_000_000_000_000_000) by (nonlinear_arith)
            requires 2_000_000_000_000 <= rho as int <= 300_000_000_000_000_000;
    }
    let rr: i128 = (rho as i128) * (rho as i128) - 4_000_000_000_000_000_000_000_000;
    let s: u128 = crate::utils::isqrt(rr as u128);
    proof {
        assert(s as int <= PARAM_MAX as int) by (nonlinear_arith)
            requires
                0 <= s as int,
                (s as int) * (s as int) <= rr as int,
                rr as int <= 90_000_000_000_000_000_000_000_000_000_000_000;
    }
    s as i64
}

/// Family 1 (left arc, straight, left arc, all forward).
pub open spec fn spec_path1(x: int, y: int, phi: int, sp: int, cp: int, theta: int) -> Seq<PathElement> {
    let rho = spec_rho_left(x, y, sp, cp);
    let v = spec_norm(spec_deg2rad(phi) - theta);
    seq![
        spec_create(theta, Steering::Left, Gear::Forward),
        spec_create(rho, Steering::Straight, Gear::Forward),
        spec_create(v, Steering::Left, Gear::Forward),
    ]
}

/// Segments of a family output are bounded and at most five.
pub open spec fn family_out_wf(s: Seq<PathElement>) -> bool {
    &&& s.len() <= 5
    &&& forall|i: int| 0 <= i < s.len() ==> 0 <= #[trigger] s[i].param <= PARAM_MAX
}

pub fn path1(x: i64, y: i64, phi_degree: i64, sin_phi: i64, cos_phi: i64, theta: i64) -> (r: Path)
    requires
        family_inputs_wf(x as int, y as int, phi_degree as int, sin_phi as int, cos_phi as int),
        trig_wf(theta as int),
    ensures
        r@ == spec_path1(x as int, y as int, phi_degree as int, sin_phi as int, cos_phi as int, theta as int),
        family_out_wf(r@),
{
    let phi_radians: i64 = degree_to_radians(phi_degree);
    let rho: i64 = rho_left(x, y, sin_phi, cos_phi);
    let v: i64 = normalize_angle_rad(phi_radians - theta);
    let mut r: Vec<PathElement> = Vec::new();
    r.push(PathElement::create(theta, Steering::Left, Gear::Forward));
    r.push(PathElement::create(rho, Steering::Straight, Gear::Forward));
    r.push(PathElement::create(v, Steering::Left, Gear::Forward));
    proof {
        assert(r@ =~= spec_path1(x as int, y as int, phi_degree as int, sin_phi as int, cos_phi as int, theta as int));
    }
    r
}

/// Family 2 (left arc, straight, right arc, all forward); needs the
/// shifted goal at distance at least two.
pub open spec fn spec_path2(x: int, y: int, phi: int, sp: int, cp: int, theta: int, alpha: int) -> Seq<PathElement> {
    let phi_n = spec_norm(spec_deg2rad(phi));
    let rho = spec_rho_right(x, y, sp, cp);
    if rho >= 2 * SCALE as int {
        let u = spec_leg(rho);
        let t = spec_norm(theta + alpha);
        let v = spec_norm(t - phi_n);
        seq![
            spec_create(t, Steering::Left, Gear::Forward),
            spec_create(u, Steering::Straight, Gear::Forward),
            spec_create(v, Steering::Right, Gear::Forward),
        ]
    } else {
        Seq::empty()
    }
}

/// `alpha` stands for `atan2(2, sqrt(rho^2 - 4))` of the shifted polar
/// radius, supplied by the caller.
pub fn path2(x: i64, y: i64, phi_degree: i64, sin_phi: i64, cos_phi: i64, theta: i64, alpha: i64) -> (r: Path)
    requires
        family_inputs_wf(x as int, y as int, phi_degree as int, sin_phi as int, cos_phi as int),
        trig_wf(theta as int),
        trig_wf(alpha as int),
    ensures
        r@ == spec_path2(x as int, y as int, phi_degree as int, sin_phi as int, cos_phi as int, theta as int, alpha as int),
        family_out_wf(r@),
{
    let phi_n: i64 = normalize_angle_rad(degree_to_radians(phi_degree));
    let rho: i64 = rho_right(x, y, sin_phi, cos_phi);
    let mut r: Vec<PathElement> = Vec::new();
    if rho >= 2 * SCALE {
        let u: i64 = leg(rho);
        let t: i64 = normalize_angle_rad(theta + alpha);
        let v: i64 = normalize_angle_rad(t - phi_n);
        r.push(PathElement::create(t, Steering::Left, Gear::Forward));
        r.push(PathElement::create(u, Steering::Straight, Gear::Forward));
        r.push(PathElement::create(v, Steering::Right, Gear::Forward));
    }
    proof {
        assert(r@ =~= spec_path2(x as int, y as int, phi_degree as int, sin_phi as int, cos_phi as int, theta as int, alpha as int));
    }
    r
}

/// Family 3 (left forward, right backwards, left forward); needs the
/// shifted goal within distance four.
pub open spec fn spec_path3(x: int, y: int, phi: int, sp: int, cp: int, theta: int, a: int) -> Seq<PathElement> {
    let phi_r = spec_deg2rad(phi);
    let rho = spec_rho_left(x, y, sp, cp);
    if rho <= 4 * SCALE as int {
        let t = spec_norm(theta + HALF_PI_FP as int + a);
        let u = spec_norm(PI_FP as int - 2 * a);
        let v = spec_norm(phi_r - t - u);
        seq![
            spec_create(t, Steering::Left, Gear::Forward),
            spec_create(u, Steering::Right, Gear::Backwards),
            spec_create(v, Steering::Left, Gear::Forward),
        ]
    } else {
        Seq::empty()
    }
}

/// `a` stands for `acos(rho / 4)` of the shifted polar radius.
pub fn path3(x: i64, y: i64, phi_degree: i64, sin_phi: i64, cos_phi: i64, theta: i64, a: i64) -> (r: Path)
    requires
        family_inputs_wf(x as int, y as int, phi_degree as int, sin_phi as int, cos_phi as int),
        trig_wf(theta as int),
        trig_wf(a as int),
    ensures
        r@ == spec_path3(x as int, y as int, phi_degree as int, sin_phi as int, cos_phi as int, theta as int, a as int),
        family_out_wf(r@),
{
    let phi_radians: i64 = degree_to_radians(phi_degree);
    let rho: i64 = rho_left(x, y, sin_phi, cos_phi);
    let mut r: Vec<PathElement> = Vec::new();
    if rho <= 4 * SCALE {
        let t: i64 = normalize_angle_rad(theta + HALF_PI_FP + a);
        let u: i64 = normalize_angle_rad(PI_FP - 2 * a);
        let v: i64 = normalize_angle_rad(phi_radians - t - u);
        r.push(PathElement::create(t, Steering::Left, Gear::Forward));
        r.push(PathElement::create(u, Steering::Right, Gear::Backwards));
        r.push(PathElement::create(v, Steering::Left, Gear::Forward));
    }
    proof {
        assert(r@ =~= spec_path3(x as int, y as int, phi_degree as int, sin_phi as int, cos_phi as int, theta as int, a as int));
    }
    r
}

/// Family 4 (left forward, right backwards, left backwards); same circle
/// and precondition as family 3, the last arc driven backwards.
pub open spec fn spec_path4(x: int, y: int, phi: int, sp: int, cp: int, theta: int, a: int) -> Seq<PathElement> {
    let phi_r = spec_deg2rad(phi);
    let rho = spec_rho_left(x, y, sp, cp);
    if rho <= 4 * SCALE as int {
        let t = spec_norm(theta + HALF_PI_FP as int + a);
        let u = spec_norm(PI_FP as int - 2 * a);
        let v = spec_norm(t + u - phi_r);
        seq![
            spec_create(t, Steering::Left, Gear::Forward),
            spec_create(u, Steering::Right, Gear::Backwards),
            spec_create(v, Steering::Left, Gear::Backwards),
        ]
    } else {
        Seq::empty()
    }
}

/// `a` stands for `acos(rho / 4)` of the shifted polar radius.
pub fn path4(x: i64, y: i64, phi_degree: i64, sin_phi: i64, cos_phi: i64, theta: i64, a: i64) -> (r: Path)
    requires
        family_inputs_wf(x as int, y as int, phi_degree as int, sin_phi as int, cos_phi as int),
        trig_wf(theta as int),
        trig_wf(a as int),
    ensures
        r@ == spec_path4(x as int, y as int, phi_degree as int, sin_phi as int, cos_phi as int, theta as int, a as int),
        family_out_wf(r@),
{
    let phi_radians: i64 = degree_to_radians(phi_degree);
    let rho: i64 = rho_left(x, y, sin_phi, cos_phi);
    let mut r: Vec<PathElement> = Vec::new();
    if rho <= 4 * SCALE {
        let t: i64 = normalize_angle_rad(theta + HALF_PI_FP + a);
        let u: i64 = normalize_angle_rad(PI_FP - 2 * a);
        let v: i64 = normalize_angle_rad(t + u - phi_radians);
        r.push(PathElement::create(t, Steering::Left, Gear::Forward));
        r.push(PathElement::create(u, Steering::Right, Gear::Backwards));
        r.push(PathElement::create(v, Steering::Left, Gear::Backwards));
    }
    proof {
        assert(r@ =~= spec_path4(x as int, y as int, phi_degree as int, sin_phi as int, cos_phi as int, theta as int, a as int));
    }
    r
}

/// Family 5 (left forward, right forward, left backwards).
pub open spec fn spec_path5(x: int, y: int, phi: int, sp: int, cp: int, theta: int, u: int, a: int) -> Seq<PathElement> {
    let phi_r = spec_deg2rad(phi);
    let rho = spec_rho_left(x, y, sp, cp);
    if rho <= 4 * SCALE as int {
        let t = spec_norm(theta + HALF_PI_FP as int - a);
        let v = spec_norm(t - u - phi_r);
        seq![
            spec_create(t, Steering::Left, Gear::Forward),
            spec_create(u, Steering::Right, Gear::Forward),
            spec_create(v, Steering::Left, Gear::Backwards),
        ]
    } else {
        Seq::empty()
    }
}

/// `u` stands for `acos(1 - rho^2 / 8)` and `a` for `asin(2 sin(u) / rho)`
/// of the shifted polar radius.
pub fn path5(x: i64, y: i64, phi_degree: i64, sin_phi: i64, cos_phi: i64, theta: i64, u: i64, a: i64) -> (r: Path)
    requires
        family_inputs_wf(x as int, y as int, phi_degree as int, sin_phi as int, cos_phi as int),
        trig_wf(theta as int),
        trig_wf(u as int),
        trig_wf(a as int),
    ensures
        r@ == spec_path5(x as int, y as int, phi_degree as int, sin_phi as int, cos_phi as int, theta as int, u as int, a as int),
        family_out_wf(r@),
{
    let phi_radians: i64 = degree_to_radians(phi_degree);
    let rho: i64 = rho_left(x, y, sin_phi, cos_phi);
    let mut r: Vec<PathElement> = Vec::new();
    if rho <= 4 * SCALE {
        let t: i64 = normalize_angle_rad(theta + HALF_PI_FP - a);
        let v: i64 = normalize_angle_rad(t - u - phi_radians);
        r.push(PathElement::create(t, Steering::Left, Gear::Forward));
        r.push(PathElement::create(u, Steering::Right, Gear::Forward));
        r.push(PathElement::create(v, Steering::Left, Gear::Backwards));
    }
    proof {
        assert(r@ =~= spec_path5(x as int, y as int, phi_degree as int, sin_phi as int, cos_phi as int, theta as int, u as int, a as int));
    }
    r
}

/// Family 6 (left forward, right forward, left backwards, right
/// backwards), with two derivation branches split at distance two.
pub open spec fn spec_path6(x: int, y: int, phi: int, sp: int, cp: int, theta: int, a_near: int, a_far: int) -> Seq<PathElement> {
    let phi_r = spec_deg2rad(phi);
    let rho = spec_rho_right(x, y, sp, cp);
    if rho <= 4 * SCALE as int {
        let t = if rho <= 2 * SCALE as int {
            spec_norm(theta + HALF_PI_FP as int + a_near)
        } else {
            spec_norm(theta + HALF_PI_FP as int - a_far)
        };
        let u = if rho <= 2 * SCALE as int {
            spec_norm(a_near)
        } else {
            spec_norm(PI_FP as int - a_far)
        };
        let v = spec_norm(phi_r - t + 2 * u);
        seq![
            spec_create(t, Steering::Left, Gear::Forward),
            spec_create(u, Steering::Right, Gear::Forward),
            spec_create(u, Steering::Left, Gear::Backwards),
            spec_create(v, Steering::Right, Gear::Backwards),
        ]
    } else {
        Seq::empty()
    }
}

/// `a_near` stands for `acos((rho + 2) / 4)` (used when `rho <= 2`) and
/// `a_far` for `acos((rho - 2) / 4)` (used otherwise).
pub fn path6(x: i64, y: i64, phi_degree: i64, sin_phi: i64, cos_phi: i64, theta: i64, a_near: i64, a_far: i64) -> (r: Path)
    requires
        family_inputs_wf(x as int, y as int, phi_degree as int, sin_phi as int, cos_phi as int),
        trig_wf(theta as int),
        trig_wf(a_near as int),
        trig_wf(a_far as int),
    ensures
        r@ == spec_path6(x as int, y as int, phi_degree as int, sin_phi as int, cos_phi as int, theta as int, a_near as int, a_far as int),
        family_out_wf(r@),
{
    let phi_radians: i64 = degree_to_radians(phi_degree);
    let rho: i64 = rho_right(x, y, sin_phi, cos_phi);
    let mut r: Vec<PathElement> = Vec::new();
    if rho <= 4 * SCALE {
        let t: i64;
        let u: i64;
        if rho <= 2 * SCALE {
            t = normalize_angle_rad(theta + HALF_PI_FP + a_near);
            u = normalize_angle_rad(a_near);
        } else {
            t = normalize_angle_rad(theta + HALF_PI_FP - a_far);
            u = normalize_angle_rad(PI_FP - a_far);
        }
        let v: i64 = normalize_angle_rad(phi_radians - t + 2 * u);
        r.push(PathElement::create(t, Steering::Left, Gear::Forward));
        r.push(PathElement::create(u, Steering::Right, Gear::Forward));
        r.push(PathElement::create(u, Steering::Left, Gear::Backwards));
        r.push(PathElement::create(v, Steering::Right, Gear::Backwards));
    }
    proof {
        assert(r@ =~= spec_path6(x as int, y as int, phi_degree as int, sin_phi as int, cos_phi as int, theta as int, a_near as int, a_far as int));
    }
    r
}

/// Family 7 (left forward, right backwards, left backwards, right
/// forward); the shifted distance must keep `(20 - rho^2) / 16` inside the
/// arc-cosine domain.
pub open spec fn spec_path7(x: int, y: int, phi: int, sp: int, cp: int, theta: int, u: int, a: int) -> Seq<PathElement> {
    let phi_r = spec_deg2rad(phi);
    let rho = spec_rho_right(x, y, sp, cp);
    let s2 = (SCALE as int) * (SCALE as int);
    if rho <= 6 * SCALE as int && rho * rho <= 20 * s2 && 20 * s2 - rho * rho <= 16 * s2 {
        let t = spec_norm(theta + HALF_PI_FP as int + a);
        let v = spec_norm(t - phi_r);
        seq![
            spec_create(t, Steering::Left, Gear::Forward),
            spec_create(u, Steering::Right, Gear::Backwards),
            spec_create(u, Steering::Left, Gear::Backwards),
            spec_create(v, Steering::Right, Gear::Forward),
        ]
    } else {
        Seq::empty()
    }
}

/// `u` stands for `acos((20 - rho^2) / 16)` and `a` for the clamped
/// `asin(2 sin(u) / rho)` of the shifted polar radius.
pub fn path7(x: i64, y: i64, phi_degree: i64, sin_phi: i64, cos_phi: i64, theta: i64, u: i64, a: i64) -> (r: Path)
    requires
        family_inputs_wf(x as int, y as int, phi_degree as int, sin_phi as int, cos_phi as int),
        trig_wf(theta as int),
        trig_wf(u as int),
        trig_wf(a as int),
    ensures
        r@ == spec_path7(x as int, y as int, phi_degree as int, sin_phi as int, cos_phi as int, theta as int, u as int, a as int),
        family_out_wf(r@),
{
    let phi_radians: i64 = degree_to_radians(phi_degree);
    let rho: i64 = rho_right(x, y, sin_phi, cos_phi);
    proof {
        assert(0 <= (rho as int) * (rho as int)
            <= 90_000_000_000_000_000_000_000_000_000_000_000) by (nonlinear_arith)
            requires 0 <= rho as int <= 300_000_000_000_000_000;
    }
    let rr: i128 = (rho as i128) * (rho as i128);
    let mut r: Vec<PathElement> = Vec::new();
    if rho <= 6 * SCALE
        && rr <= 20_000_000_000_000_000_000_000_000
        && 20_000_000_000_000_000_000_000_000 - rr <= 16_000_000_000_000_000_000_000_000
    {
        let t: i64 = normalize_angle_rad(theta + HALF_PI_FP + a);
        let v: i64 = normalize_angle_rad(t - phi_radians);
        r.push(PathElement::create(t, Steering::Left, Gear::Forward));
        r.push(PathElement::create(u, Steering::Right, Gear::Backwards));
        r.push(PathElement::create(u, Steering::Left, Gear::Backwards));
        r.push(PathElement::create(v, Steering::Right, Gear::Forward));
    }
    proof {
        assert(r@ =~= spec_path7(x as int, y as int, phi_degree as int, sin_phi as int, cos_phi as int, theta as int, u as int, a as int));
    }
    r
}

/// Family 8 (left forward, quarter right backwards, straight backwards,
/// left backwards).
pub open spec fn spec_path8(x: int, y: int, phi: int, sp: int, cp: int, theta: int, a: int) -> Seq<PathElement> {
    let phi_r = spec_deg2rad(phi);
    let rho = spec_rho_left(x, y, sp, cp);
    if rho >= 2 * SCALE as int {
        let s = spec_leg(rho);
        let u = s - 2 * SCALE as int;
        let t = spec_norm(theta + HALF_PI_FP as int + a);
        let v = spec_norm(t - phi_r + HALF_PI_FP as int);
        seq![
            spec_create(t, Steering::Left, Gear::Forward),
            spec_create(HALF_PI_FP as int, Steering::Right, Gear::Backwards),
            spec_create(u, Steering::Straight, Gear::Backwards),
            spec_create(v, Steering::Left, Gear::Backwards),
        ]
    } else {
        Seq::empty()
    }
}

/// `a` stands for `atan2(2, sqrt(rho^2 - 4))` of the shifted polar radius.
pub fn path8(x: i64, y: i64, phi_degree: i64, sin_phi: i64, cos_phi: i64, theta: i64, a: i64) -> (r: Path)
    requires
        family_inputs_wf(x as int, y as int, phi_degree as int, sin_phi as int, cos_phi as int),
        trig_wf(theta as int),
        trig_wf(a as int),
    ensures
        r@ == spec_path8(x as int, y as int, phi_degree as int, sin_phi as int, cos_phi as int, theta as int, a as int),
        family_out_wf(r@),
{
    let phi_radians: i64 = degree_to_radians(phi_degree);
    let rho: i64 = rho_left(x, y, sin_phi, cos_phi);
    let mut r: Vec<PathElement> = Vec::new();
    if rho >= 2 * SCALE {
        let s: i64 = leg(rho);
        let u: i64 = s - 2 * SCALE;
        let t: i64 = normalize_angle_rad(theta + HALF_PI_FP + a);
        let v: i64 = normalize_angle_rad(t - phi_radians + HALF_PI_FP);
        r.push(PathElement::create(t, Steering::Left, Gear::Forward));
        r.push(PathElement::create(HALF_PI_FP, Steering::Right, Gear::Backwards));
        r.push(PathElement::create(u, Steering::Straight, Gear::Backwards));
        r.push(PathElement::create(v, Steering::Left, Gear::Backwards));
    }
    proof {
        assert(r@ =~= spec_path8(x as int, y as int, phi_degree as int, sin_phi as int, cos_phi as int, theta as int, a as int));
    }
    r
}

/// Family 9 (left forward, straight forward, quarter right forward, left
/// backwards).
pub open spec fn spec_path9(x: int, y: int, phi: int, sp: int, cp: int, theta: int, a: int) -> Seq<PathElement> {
    let phi_r = spec_deg2rad(phi);
    let rho = spec_rho_left(x, y, sp, cp);
    if rho >= 2 * SCALE as int {
        let s = spec_leg(rho);
        let u = s - 2 * SCALE as int;
        let t = spec_norm(theta + HALF_PI_FP as int - a);
        let v = spec_norm(t - phi_r - HALF_PI_FP as int);
        seq![
            spec_create(t, Steering::Left, Gear::Forward),
            spec_create(u, Steering::Straight, Gear::Forward),
            spec_create(HALF_PI_FP as int, Steering::Right, Gear::Forward),
            spec_create(v, Steering::Left, Gear::Backwards),
        ]
    } else {
        Seq::empty()
    }
}

/// `a` stands for `atan2(sqrt(rho^2 - 4), 2)` of the shifted polar radius.
pub fn path9(x: i64, y: i64, phi_degree: i64, sin_phi: i64, cos_phi: i64, theta: i64, a: i64) -> (r: Path)
    requires
        family_inputs_wf(x as int, y as int, phi_degree as int, sin_phi as int, cos_phi as int),
        trig_wf(theta as int),
        trig_wf(a as int),
    ensures
        r@ == spec_path9(x as int, y as int, phi_degree as int, sin_phi as int, cos_phi as int, theta as int, a as int),
        family_out_wf(r@),
{
    let phi_radians: i64 = degree_to_radians(phi_degree);
    let rho: i64 = rho_left(x, y, sin_phi, cos_phi);
    let mut r: Vec<PathElement> = Vec::new();
    if rho >= 2 * SCALE {
        let s: i64 = leg(rho);
        let u: i64 = s - 2 * SCALE;
        let t: i64 = normalize_angle_rad(theta + HALF_PI_FP - a);
        let v: i64 = normalize_angle_rad(t - phi_radians - HALF_PI_FP);
        r.push(PathElement::create(t, Steering::Left, Gear::Forward));
        r.push(PathElement::create(u, Steering::Straight, Gear::Forward));
        r.push(PathElement::create(HALF_PI_FP, Steering::Right, Gear::Forward));
        r.push(PathElement::create(v, Steering::Left, Gear::Backwards));
    }
    proof {
        assert(r@ =~= spec_path9(x as int, y as int, phi_degree as int, sin_phi as int, cos_phi as int, theta as int, a as int));
    }
    r
}

/// Family 10 (left forward, quarter right backwards, straight backwards,
/// right backwards).
pub open spec fn spec_path10(x: int, y: int, phi: int, sp: int, cp: int, theta: int) -> Seq<PathElement> {
    let phi_r = spec_deg2rad(phi);
    let rho = spec_rho_right(x, y, sp, cp);
    if rho >= 2 * SCALE as int {
        let t = spec_norm(theta + HALF_PI_FP as int);
        let u = rho - 2 * SCALE as int;
        let v = spec_norm(phi_r - t - HALF_PI_FP as int);
        seq![
            spec_create(t, Steering::Left, Gear::Forward),
            spec_create(HALF_PI_FP as int, Steering::Right, Gear::Backwards),
            spec_create(u, Steering::Straight, Gear::Backwards),
            spec_create(v, Steering::Right, Gear::Backwards),
        ]
    } else {
        Seq::empty()
    }
}

pub fn path10(x: i64, y: i64, phi_degree: i64, sin_phi: i64, cos_phi: i64, theta: i64) -> (r: Path)
    requires
        family_inputs_wf(x as int, y as int, phi_degree as int, sin_phi as int, cos_phi as int),
        trig_wf(theta as int),
    ensures
        r@ == spec_path10(x as int, y as int, phi_degree as int, sin_phi as int, cos_phi as int, theta as int),
        family_out_wf(r@),
{
    let phi_radians: i64 = degree_to_radians(phi_degree);
    let rho: i64 = rho_right(x, y, sin_phi, cos_phi);
    let mut r: Vec<PathElement> = Vec::new();
    if rho >= 2 * SCALE {
        let t: i64 = normalize_angle_rad(theta + HALF_PI_FP);
        let u: i64 = rho - 2 * SCALE;
        let v: i64 = normalize_angle_rad(phi_radians - t - HALF_PI_FP);
        r.push(PathElement::create(t, Steering::Left, Gear::Forward));
        r.push(PathElement::create(HALF_PI_FP, Steering::Right, Gear::Backwards));
        r.push(PathElement::create(u, Steering::Straight, Gear::Backwards));
        r.push(PathElement::create(v, Steering::Right, Gear::Backwards));
    }
    proof {
        assert(r@ =~= spec_path10(x as int, y as int, phi_degree as int, sin_phi as int, cos_phi as int, theta as int));
    }
    r
}

/// Family 11 (left forward, straight forward, quarter left forward, right
/// backwards).
pub open spec fn spec_path11(x: int, y: int, phi: int, sp: int, cp: int, theta: int) -> Seq<PathElement> {
    let phi_r = spec_deg2rad(phi);
    let rho = spec_rho_right(x, y, sp, cp);
    if rho >= 2 * SCALE as int {
        let t = spec_norm(theta);
        let u = rho - 2 * SCALE as int;
        let v = spec_norm(phi_r - t - HALF_PI_FP as int);
        seq![
            spec_create(t, Steering::Left, Gear::Forward),
            spec_create(u, Steering::Straight, Gear::Forward),
            spec_create(HALF_PI_FP as int, Steering::Left, Gear::Forward),
            spec_create(v, Steering::Right, Gear::Backwards),
        ]
    } else {
        Seq::empty()
    }
}

pub fn path11(x: i64, y: i64, phi_degree: i64, sin_phi: i64, cos_phi: i64, theta: i64) -> (r: Path)
    requires
        family_inputs_wf(x as int, y as int, phi_degree as int, sin_phi as int, cos_phi as int),
        trig_wf(theta as int),
    ensures
        r@ == spec_path11(x as int, y as int, phi_degree as int, sin_phi as int, cos_phi as int, theta as int),
        family_out_wf(r@),
{
    let phi_radians: i64 = degree_to_radians(phi_degree);
    let rho: i64 = rho_right(x, y, sin_phi, cos_phi);
    let mut r: Vec<PathElement> = Vec::new();
    if rho >= 2 * SCALE {
        let t: i64 = normalize_angle_rad(theta);
        let u: i64 = rho - 2 * SCALE;
        let v: i64 = normalize_angle_rad(phi_radians - t - HALF_PI_FP);
        r.push(PathElement::create(t, Steering::Left, Gear::Forward));
        r.push(PathElement::create(u, Steering::Straight, Gear::Forward));
        r.push(PathElement::create(HALF_PI_FP, Steering::Left, Gear::Forward));
        r.push(PathElement::create(v, Steering::Right, Gear::Backwards));
    }
    proof {
        assert(r@ =~= spec_path11(x as int, y as int, phi_degree as int, sin_phi as int, cos_phi as int, theta as int));
    }
    r
}

/// Family 12 (left forward, quarter right backwards, straight backwards,
/// quarter left backwards, right forward).
pub open spec fn spec_path12(x: int, y: int, phi: int, sp: int, cp: int, theta: int, a: int) -> Seq<PathElement> {
    let phi_r = spec_deg2rad(phi);
    let rho = spec_rho_right(x, y, sp, cp);
    if rho >= 4 * SCALE as int {
        let s = spec_leg(rho);
        let u = s - 4 * SCALE as int;
        let t = spec_norm(theta + HALF_PI_FP as int + a);
        let v = spec_norm(t - phi_r);
        seq![
            spec_create(t, Steering::Left, Gear::Forward),
            spec_create(HALF_PI_FP as int, Steering::Right, Gear::Backwards),
            spec_create(u, Steering::Straight, Gear::Backwards),
            spec_create(HALF_PI_FP as int, Steering::Left, Gear::Backwards),
            spec_create(v, Steering::Right, Gear::Forward),
        ]
    } else {
        Seq::empty()
    }
}

/// `a` stands for `atan2(2, sqrt(rho^2 - 4))` of the shifted polar radius.
pub fn path12(x: i64, y: i64, phi_degree: i64, sin_phi: i64, cos_phi: i64, theta: i64, a: i64) -> (r: Path)
    requires
        family_inputs_wf(x as int, y as int, phi_degree as int, sin_phi as int, cos_phi as int),
        trig_wf(theta as int),
        trig_wf(a as int),
    ensures
        r@ == spec_path12(x as int, y as int, phi_degree as int, sin_phi as int, cos_phi as int, theta as int, a as int),
        family_out_wf(r@),
{
    let phi_radians: i64 = degree_to_radians(phi_degree);
    let rho: i64 = rho_right(x, y, sin_phi, cos_phi);
    let mut r: Vec<PathElement> = Vec::new();
    if rho >= 4 * SCALE {
        let s: i64 = leg(rho);
        let u: i64 = s - 4 * SCALE;
        let t: i64 = normalize_angle_rad(theta + HALF_PI_FP + a);
        let v: i64 = normalize_angle_rad(t - phi_radians);
        r.push(PathElement::create(t, Steering::Left, Gear::Forward));
        r.push(PathElement::create(HALF_PI_FP, Steering::Right, Gear::Backwards));
        r.push(PathElement::create(u, Steering::Straight, Gear::Backwards));
        r.push(PathElement::create(HALF_PI_FP, Steering::Left, Gear::Backwards));
        r.push(PathElement::create(v, Steering::Right, Gear::Forward));
    }
    proof {
        assert(r@ =~= spec_path12(x as int, y as int, phi_degree as int, sin_phi as int, cos_phi as int, theta as int, a as int));
    }
    r
}

} // verus!
