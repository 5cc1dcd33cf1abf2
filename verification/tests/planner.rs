use reeds_shepp::utils::{
    change_of_basis, degree_to_radians, hypot_fp, normalize_angle_rad, Pose, EPS_FP, HALF_PI_FP,
    PI_FP, SCALE, TWO_PI_FP,
};
use reeds_shepp::{
    get_all_paths, get_optimal_path, path_length, reflect, timeflip, Gear, Path, PathElement,
    Steering, TrigTable, VariantTrig,
};

const S: f64 = 1.0e12;

fn fp(v: f64) -> i64 {
    (v * S).round() as i64
}

fn to_f(v: i64) -> f64 {
    (v as f64) / S
}

fn pose(x: f64, y: f64, theta_degree: f64) -> Pose {
    Pose { x: fp(x), y: fp(y), theta_degree: fp(theta_degree) }
}

fn clamp_unit(v: f64) -> f64 {
    v.min(1.0).max(-1.0)
}

/// The transcendental values of one symmetry variant, computed in floating
/// point from the relative pose and rounded to fixed point.
fn variant_trig(x: f64, y: f64, phi_degree: f64) -> VariantTrig {
    let phi = phi_degree * std::f64::consts::PI / 180.0;
    let xl = x - phi.sin();
    let yl = y - 1.0 + phi.cos();
    let xr = x + phi.sin();
    let yr = y - 1.0 - phi.cos();
    let rho_l = xl.hypot(yl);
    let rho_r = xr.hypot(yr);
    let theta_left = yl.atan2(xl);
    let theta_right = yr.atan2(xr);
    let leg_l = (rho_l * rho_l - 4.0).max(0.0).sqrt();
    let leg_r = (rho_r * rho_r - 4.0).max(0.0).sqrt();
    let alpha2 = (2.0f64).atan2(leg_r);
    let a34 = clamp_unit(rho_l / 4.0).acos();
    let u5 = clamp_unit(1.0 - rho_l * rho_l / 8.0).acos();
    let a5 = clamp_unit(2.0 * u5.sin() / rho_l).asin();
    let a6_near = clamp_unit((rho_r + 2.0) / 4.0).acos();
    let a6_far = clamp_unit((rho_r - 2.0) / 4.0).acos();
    let u7 = clamp_unit((20.0 - rho_r * rho_r) / 16.0).acos();
    let a7 = clamp_unit(2.0 * u7.sin() / rho_r).asin();
    let a8 = (2.0f64).atan2(leg_l);
    let a9 = leg_l.atan2(2.0);
    let a12 = (2.0f64).atan2(leg_r);
    VariantTrig {
        theta_left: fp(theta_left),
        theta_right: fp(theta_right),
        alpha2: fp(alpha2),
        a34: fp(a34),
        u5: fp(u5),
        a5: fp(a5),
        a6_near: fp(a6_near),
        a6_far: fp(a6_far),
        u7: fp(u7),
        a7: fp(a7),
        a8: fp(a8),
        a9: fp(a9),
        a12: fp(a12),
    }
}

/// Builds the full trigonometry table for a query, mirroring what a caller
/// of the planner computes around it.
fn trig_for(start: &Pose, end: &Pose) -> TrigTable {
    let t1 = to_f(start.theta_degree) * std::f64::consts::PI / 180.0;
    let sin_start = fp(t1.sin());
    let cos_start = fp(t1.cos());
    let rel = change_of_basis(start, end, sin_start, cos_start);
    let x = to_f(rel.x);
    let y = to_f(rel.y);
    let phi_deg = to_f(rel.theta_degree);
    let phi = phi_deg * std::f64::consts::PI / 180.0;
    TrigTable {
        sin_start,
        cos_start,
        sin_phi: fp(phi.sin()),
        cos_phi: fp(phi.cos()),
        direct: variant_trig(x, y, phi_deg),
        flipped: variant_trig(-x, y, -phi_deg),
        reflected: variant_trig(x, -y, -phi_deg),
        both: variant_trig(-x, -y, phi_deg),
    }
}

#[test]
fn steering_reverse_swaps_left_and_right() {
    assert_eq!(Steering::Left.reverse(), Steering::Right);
    assert_eq!(Steering::Right.reverse(), Steering::Left);
    assert_eq!(Steering::Straight.reverse(), Steering::Straight);
}

#[test]
fn gear_reverse_swaps_directions() {
    assert_eq!(Gear::Forward.reverse(), Gear::Backwards);
    assert_eq!(Gear::Backwards.reverse(), Gear::Forward);
}

#[test]
fn create_folds_negative_parameters() {
    let e = PathElement::create(-5, Steering::Left, Gear::Forward);
    assert_eq!(e.param, 5);
    assert_eq!(e.steering, Steering::Left);
    assert_eq!(e.gear, Gear::Backwards);
    let f = PathElement::create(7, Steering::Right, Gear::Backwards);
    assert_eq!(f.param, 7);
    assert_eq!(f.gear, Gear::Backwards);
}

#[test]
fn timeflip_reverses_every_gear() {
    let p: Path = vec![
        PathElement::create(3, Steering::Left, Gear::Forward),
        PathElement::create(4, Steering::Straight, Gear::Backwards),
    ];
    let q = timeflip(p);
    assert_eq!(q[0].gear, Gear::Backwards);
    assert_eq!(q[1].gear, Gear::Forward);
    assert_eq!(q[0].steering, Steering::Left);
    assert_eq!(q[0].param, 3);
}

#[test]
fn reflect_reverses_every_steering() {
    let p: Path = vec![
        PathElement::create(3, Steering::Left, Gear::Forward),
        PathElement::create(4, Steering::Straight, Gear::Backwards),
        PathElement::create(5, Steering::Right, Gear::Forward),
    ];
    let q = reflect(p);
    assert_eq!(q[0].steering, Steering::Right);
    assert_eq!(q[1].steering, Steering::Straight);
    assert_eq!(q[2].steering, Steering::Left);
    assert_eq!(q[1].gear, Gear::Backwards);
    assert_eq!(q[2].param, 5);
}

// The mirror property on a fixed sample pose: the mirror-reflection
// variant of a family equals the family at (x, -y, -phi) with every
// steering flipped, pointwise.
#[test]
fn mirror_variant_flips_steering_pointwise() {
    let tt = trig_for(&pose(0.0, 0.0, 0.0), &pose(1.0, 2.5, 40.0));
    let rel = change_of_basis(
        &pose(0.0, 0.0, 0.0),
        &pose(1.0, 2.5, 40.0),
        tt.sin_start,
        tt.cos_start,
    );
    let base = reeds_shepp::words::path3(
        rel.x,
        -rel.y,
        -rel.theta_degree,
        -tt.sin_phi,
        tt.cos_phi,
        tt.reflected.theta_left,
        tt.reflected.a34,
    );
    let mirrored = reflect(base.clone());
    assert_eq!(base.len(), mirrored.len());
    assert!(base.len() > 0);
    for (b, m) in base.iter().zip(mirrored.iter()) {
        assert_eq!(m.steering, b.steering.reverse());
        assert_eq!(m.gear, b.gear);
        assert_eq!(m.param, b.param);
    }
}

#[test]
fn path_length_sums_absolute_parameters() {
    let p: Path = vec![
        PathElement { param: 3 * SCALE, steering: Steering::Left, gear: Gear::Forward },
        PathElement { param: -2 * SCALE, steering: Steering::Straight, gear: Gear::Backwards },
    ];
    assert_eq!(path_length(&p), 5 * SCALE);
    let empty: Path = vec![];
    assert_eq!(path_length(&empty), 0);
}

#[test]
fn normalize_angle_examples() {
    assert_eq!(normalize_angle_rad(0), 0);
    assert_eq!(normalize_angle_rad(PI_FP), -PI_FP);
    assert_eq!(normalize_angle_rad(TWO_PI_FP + 5), 5);
    assert_eq!(normalize_angle_rad(-PI_FP), -PI_FP);
    assert_eq!(normalize_angle_rad(3 * PI_FP), -PI_FP);
    assert_eq!(normalize_angle_rad(-HALF_PI_FP), -HALF_PI_FP);
}

#[test]
fn degree_to_radians_examples() {
    assert_eq!(degree_to_radians(180 * SCALE), PI_FP);
    assert_eq!(degree_to_radians(90 * SCALE), HALF_PI_FP);
    assert_eq!(degree_to_radians(-90 * SCALE), -HALF_PI_FP);
    assert_eq!(degree_to_radians(0), 0);
}

#[test]
fn hypot_examples() {
    assert_eq!(hypot_fp(3 * SCALE, 4 * SCALE), 5 * SCALE);
    assert_eq!(hypot_fp(-3 * SCALE, 4 * SCALE), 5 * SCALE);
    assert_eq!(hypot_fp(0, 0), 0);
}

#[test]
fn change_of_basis_translation_only() {
    let p1 = pose(1.0, 2.0, 0.0);
    let p2 = pose(4.0, 6.0, 30.0);
    let rel = change_of_basis(&p1, &p2, 0, SCALE);
    assert_eq!(rel.x, 3 * SCALE);
    assert_eq!(rel.y, 4 * SCALE);
    assert_eq!(rel.theta_degree, 30 * SCALE);
}

// The straight-line case: the goal straight ahead at the same heading.
// The distance 1.5 makes every derived square root exact in fixed point,
// so the selected maneuver is exactly the single straight segment.
#[test]
fn straight_line_gives_single_straight_segment() {
    let start = pose(0.0, 0.0, 0.0);
    let end = pose(1.5, 0.0, 0.0);
    let tt = trig_for(&start, &end);
    assert_eq!(tt.sin_start, 0);
    assert_eq!(tt.cos_start, SCALE);
    assert_eq!(tt.direct.theta_left, 0);
    let best = get_optimal_path(start, end, &tt).unwrap();
    assert_eq!(best.len(), 1);
    assert_eq!(best[0].param, fp(1.5));
    assert_eq!(best[0].steering, Steering::Straight);
    assert_eq!(best[0].gear, Gear::Forward);
}

// Coincident start and end: the formulas still emit non-degenerate
// candidates (for instance family 3 yields two half-turn arcs), so the
// selector returns a maneuver of strictly positive length rather than an
// absent result or a zero-length path.
#[test]
fn coincident_poses_give_positive_length() {
    let p = pose(1.0, -2.0, 35.0);
    let tt = trig_for(&p, &p);
    let all = get_all_paths(p, p, &tt);
    assert!(all.len() > 0);
    let best = get_optimal_path(p, p, &tt).unwrap();
    assert!(path_length(&best) > 0);
}

// Candidate bound and non-negative parameters over a spread of queries.
#[test]
fn candidates_bounded_and_parameters_positive() {
    let queries = [
        (pose(0.0, 0.0, 0.0), pose(2.0, 2.0, 90.0)),
        (pose(1.0, 1.0, 45.0), pose(-3.0, 2.0, 200.0)),
        (pose(-2.0, 5.0, -90.0), pose(-2.0, 5.0, -90.0)),
        (pose(0.0, 0.0, 0.0), pose(0.1, -0.1, 10.0)),
        (pose(3.0, -4.0, 170.0), pose(-1.0, 0.5, -30.0)),
    ];
    for (a, b) in queries.iter() {
        let tt = trig_for(a, b);
        let all = get_all_paths(*a, *b, &tt);
        assert!(all.len() <= 48);
        for path in all.iter() {
            assert!(path.len() >= 1);
            assert!(path.len() <= 5);
            for e in path.iter() {
                assert!(e.param > EPS_FP);
            }
        }
    }
}

// Rotation/translation invariance on exactly representable transforms:
// translating both poses, or rotating both by a quarter turn, leaves the
// optimal length unchanged.
#[test]
fn rigid_transform_keeps_optimal_length() {
    let s0 = pose(0.0, 0.0, 0.0);
    let e0 = pose(2.0, 2.0, 90.0);
    let t0 = trig_for(&s0, &e0);
    let base = path_length(&get_optimal_path(s0, e0, &t0).unwrap());

    let s1 = pose(1.0, -3.0, 0.0);
    let e1 = pose(3.0, -1.0, 90.0);
    let t1 = trig_for(&s1, &e1);
    let translated = path_length(&get_optimal_path(s1, e1, &t1).unwrap());
    assert_eq!(base, translated);

    let s2 = pose(0.0, 0.0, 90.0);
    let e2 = pose(-2.0, 2.0, 180.0);
    let t2 = trig_for(&s2, &e2);
    let rotated = path_length(&get_optimal_path(s2, e2, &t2).unwrap());
    assert_eq!(base, rotated);
}

/// A floating-point reference for the minimum candidate length, using the
/// same formulas, for the tolerance comparison below.
fn reference_min_length(x: f64, y: f64, phi_deg: f64) -> f64 {
    let norm = |t: f64| {
        let mut t = t.rem_euclid(2.0 * std::f64::consts::PI);
        if t >= std::f64::consts::PI {
            t -= 2.0 * std::f64::consts::PI
        }
        t
    };
    let hp = std::f64::consts::PI / 2.0;
    let pi = std::f64::consts::PI;
    let family = |k: usize, x: f64, y: f64, phi_deg: f64| -> Vec<f64> {
        let phi = phi_deg * pi / 180.0;
        let (xi, eta) = if matches!(k, 1 | 3 | 4 | 5 | 8 | 9) {
            (x - phi.sin(), y - 1.0 + phi.cos())
        } else {
            (x + phi.sin(), y - 1.0 - phi.cos())
        };
        let rho = xi.hypot(eta);
        let theta = eta.atan2(xi);
        match k {
            1 => vec![theta, rho, norm(phi - theta)],
            2 => {
                if rho * rho >= 4.0 {
                    let u = (rho * rho - 4.0).sqrt();
                    let t = norm(theta + (2.0f64).atan2(u));
                    vec![t, u, norm(t - norm(phi))]
                } else {
                    vec![]
                }
            }
            3 | 4 => {
                if rho <= 4.0 {
                    let a = clamp_unit(rho / 4.0).acos();
                    let t = norm(theta + hp + a);
                    let u = norm(pi - 2.0 * a);
                    if k == 3 {
                        vec![t, u, norm(phi - t - u)]
                    } else {
                        vec![t, u, norm(t + u - phi)]
                    }
                } else {
                    vec![]
                }
            }
            5 => {
                if rho <= 4.0 {
                    let u = clamp_unit(1.0 - rho * rho / 8.0).acos();
                    let a = clamp_unit(2.0 * u.sin() / rho).asin();
                    let t = norm(theta + hp - a);
                    vec![t, u, norm(t - u - phi)]
                } else {
                    vec![]
                }
            }
            6 => {
                if rho <= 4.0 {
                    let (t, u);
                    if rho <= 2.0 {
                        let a = clamp_unit((rho + 2.0) / 4.0).acos();
                        t = norm(theta + hp + a);
                        u = norm(a);
                    } else {
                        let a = clamp_unit((rho - 2.0) / 4.0).acos();
                        t = norm(theta + hp - a);
                        u = norm(pi - a);
                    }
                    vec![t, u, u, norm(phi - t + 2.0 * u)]
                } else {
                    vec![]
                }
            }
            7 => {
                let u1 = (20.0 - rho * rho) / 16.0;
                if rho <= 6.0 && (0.0..=1.0).contains(&u1) {
                    let u = u1.acos();
                    let a = clamp_unit(2.0 * u.sin() / rho).asin();
                    let t = norm(theta + hp + a);
                    vec![t, u, u, norm(t - phi)]
                } else {
                    vec![]
                }
            }
            8 | 9 => {
                if rho >= 2.0 {
                    let s = (rho * rho - 4.0).max(0.0).sqrt();
                    let u = s - 2.0;
                    if k == 8 {
                        let a = (2.0f64).atan2(s);
                        let t = norm(theta + hp + a);
                        vec![t, hp, u, norm(t - phi + hp)]
                    } else {
                        let a = s.atan2(2.0);
                        let t = norm(theta + hp - a);
                        vec![t, u, hp, norm(t - phi - hp)]
                    }
                } else {
                    vec![]
                }
            }
            10 | 11 => {
                if rho >= 2.0 {
                    let u = rho - 2.0;
                    if k == 10 {
                        let t = norm(theta + hp);
                        vec![t, hp, u, norm(phi - t - hp)]
                    } else {
                        let t = norm(theta);
                        vec![t, u, hp, norm(phi - t - hp)]
                    }
                } else {
                    vec![]
                }
            }
            _ => {
                if rho >= 4.0 {
                    let s = (rho * rho - 4.0).max(0.0).sqrt();
                    let u = s - 4.0;
                    let a = (2.0f64).atan2(s);
                    let t = norm(theta + hp + a);
                    vec![t, hp, u, hp, norm(t - phi)]
                } else {
                    vec![]
                }
            }
        }
    };
    let mut best = f64::INFINITY;
    for k in 1..=12 {
        let variants = [
            family(k, x, y, phi_deg),
            family(k, -x, y, -phi_deg),
            family(k, x, -y, -phi_deg),
            family(k, -x, -y, phi_deg),
        ];
        for v in variants.iter() {
            let filtered: Vec<f64> = v.iter().map(|p| p.abs()).filter(|p| *p > 1e-10).collect();
            if !filtered.is_empty() {
                let len: f64 = filtered.iter().sum();
                if len < best {
                    best = len;
                }
            }
        }
    }
    best
}

// The reference scenario: start (0,0,0 deg), end (2,2,90 deg) must yield a
// non-empty candidate set whose minimum length matches a floating-point
// evaluation of the same formulas to within 1e-6.
#[test]
fn scenario_two_two_ninety() {
    let start = pose(0.0, 0.0, 0.0);
    let end = pose(2.0, 2.0, 90.0);
    let tt = trig_for(&start, &end);
    let all = get_all_paths(start, end, &tt);
    assert!(all.len() > 0);
    let best = get_optimal_path(start, end, &tt).unwrap();
    let got = to_f(path_length(&best));
    let want = reference_min_length(2.0, 2.0, 90.0);
    assert!((got - want).abs() < 1e-6, "got {got}, want {want}");
}

// The selector is absent exactly when no candidate survives; a survivor
// list always yields the first minimum.
#[test]
fn optimal_matches_minimum_of_all_paths() {
    let start = pose(1.0, 1.0, 45.0);
    let end = pose(-3.0, 2.0, 200.0);
    let tt = trig_for(&start, &end);
    let all = get_all_paths(start, end, &tt);
    let best = get_optimal_path(start, end, &tt).unwrap();
    let best_len = path_length(&best);
    let min = all.iter().map(path_length).min().unwrap();
    assert_eq!(best_len, min);
    let first = all.iter().find(|p| path_length(*p) == min).unwrap();
    assert_eq!(&best, first);
}
