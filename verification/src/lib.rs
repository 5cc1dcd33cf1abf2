//! A Reeds-Shepp path planner: the shortest admissible maneuver between two
//! oriented planar poses for a vehicle with unit minimum turning radius that
//! can drive forward and backward.
//!
//! All quantities are fixed-point `i64` scalars (see `utils::SCALE`), so the
//! candidate-generation and selection pipeline is exact integer arithmetic
//! with exact contracts.  The transcendental values the classical formulas
//! need (sines, arc tangents, arc cosines) enter through a `TrigTable`
//! supplied by the caller; everything the planner derives from them is
//! verified.

use vstd::prelude::*;
use vstd::arithmetic::div_mod::lemma_div_multiples_vanish;

pub mod utils;
pub mod words;

pub use utils::Pose;
pub use utils::normalize_angle_rad;

verus! {

/// Instantaneous turning sense of a path segment.
#[derive(Debug, Clone, Copy, PartialEq, Eq, Structural)]
pub enum Steering {
    Left,
    Right,
    Straight,
}

impl Steering {
    /// The opposite turning sense; straight stays straight.
    pub open spec fn spec_reverse(self) -> Steering {
        match self {
            Steering::Left => Steering::Right,
            Steering::Right => Steering::Left,
            Steering::Straight => Steering::Straight,
        }
    }

    /// Swaps left and right.
    pub fn reverse(&self) -> (r: Steering)
        ensures
            r == self.spec_reverse(),
    {
        match self {
            Steering::Left => Steering::Right,
            Steering::Right => Steering::Left,
            Steering::Straight => Steering::Straight,
        }
    }
}

/// Direction of travel of a path segment.
#[derive(Debug, Clone, Copy, PartialEq, Eq, Structural)]
pub enum Gear {
    Forward,
    Backwards,
}

impl Gear {
    /// The opposite direction of travel.
    pub open spec fn spec_reverse(self) -> Gear {
        match self {
            Gear::Forward => Gear::Backwards,
            Gear::Backwards => Gear::Forward,
        }
    }

    /// Swaps forward and backwards.
    pub fn reverse(&self) -> (r: Gear)
        ensures
            r == self.spec_reverse(),
    {
        match self {
            Gear::Forward => Gear::Backwards,
            Gear::Backwards => Gear::Forward,
        }
    }
}

/// One segment of a maneuver: a non-negative fixed-point parameter (arc
/// angle for turns, length for straight runs), a turning sense and a gear.
#[derive(Debug, Clone, Copy, PartialEq, Eq, Structural)]
pub struct PathElement {
    pub param: i64,
    pub steering: Steering,
    pub gear: Gear,
}

/// The element `create` builds: a negative raw parameter is folded to its
/// magnitude by flipping the gear, so the parameter is always non-negative.
pub open spec fn spec_create(param: int, steering: Steering, gear: Gear) -> PathElement {
    if param >= 0 {
        PathElement { param: param as i64, steering: steering, gear: gear }
    } else {
        PathElement { param: (-param) as i64, steering: steering, gear: gear.spec_reverse() }
    }
}

impl PathElement {
    /// Builds a segment, folding a negative parameter into a gear flip.
    pub fn create(param: i64, steering: Steering, gear: Gear) -> (r: PathElement)
        requires
            param > i64::MIN,
        ensures
            r == spec_create(param as int, steering, gear),
            r.param >= 0,
    {
        if param >= 0 {
            PathElement { param, steering, gear }
        } else {
            PathElement { param: -param, steering, gear: gear.reverse() }
        }
    }

    /// Swaps this segment's turning sense in place.
    pub fn reverse_steering(&mut self)
        ensures
            *final(self) == (PathElement { steering: old(self).steering.spec_reverse(), ..*old(self) }),
    {
        self.steering = self.steering.reverse();
    }

    /// Swaps this segment's gear in place.
    pub fn reverse_gear(&mut self)
        ensures
            *final(self) == (PathElement { gear: old(self).gear.spec_reverse(), ..*old(self) }),
    {
        self.gear = self.gear.reverse();
    }
}

/// A maneuver: segments in execution order.  An empty path means "no
/// maneuver".
pub type Path = Vec<PathElement>;

/// `timeflip` pointwise: every gear reversed, parameters and steering kept.
pub open spec fn spec_timeflip(s: Seq<PathElement>) -> Seq<PathElement> {
    s.map_values(|e: PathElement| PathElement { gear: e.gear.spec_reverse(), ..e })
}

/// `reflect` pointwise: every steering reversed, parameters and gears kept.
pub open spec fn spec_reflect(s: Seq<PathElement>) -> Seq<PathElement> {
    s.map_values(|e: PathElement| PathElement { steering: e.steering.spec_reverse(), ..e })
}

/// Reverses the gear of every segment: the time-reversal symmetry.
pub fn timeflip(path: Path) -> (r: Path)
    ensures
        r@ == spec_timeflip(path@),
{
    let mut out: Vec<PathElement> = Vec::new();
    let mut i: usize = 0;
    while i < path.len()
        invariant
            i <= path.len(),
            out@.len() == i as int,
            forall|j: int| 0 <= j < i as int
                ==> out@[j] == (PathElement { gear: path@[j].gear.spec_reverse(), ..path@[j] }),
        decreases path.len() - i,
    {
        let mut e: PathElement = path[i];
        e.reverse_gear();
        out.push(e);
        i = i + 1;
    }
    proof {
        assert(out@ =~= spec_timeflip(path@));
    }
    out
}

/// Reverses the steering of every segment: the mirror-reflection symmetry.
pub fn reflect(path: Path) -> (r: Path)
    ensures
        r@ == spec_reflect(path@),
{
    let mut out: Vec<PathElement> = Vec::new();
    let mut i: usize = 0;
    while i < path.len()
        invariant
            i <= path.len(),
            out@.len() == i as int,
            forall|j: int| 0 <= j < i as int
                ==> out@[j] == (PathElement { steering: path@[j].steering.spec_reverse(), ..path@[j] }),
        decreases path.len() - i,
    {
        let mut e: PathElement = path[i];
        e.reverse_steering();
        out.push(e);
        i = i + 1;
    }
    proof {
        assert(out@ =~= spec_reflect(path@));
    }
    out
}

/// Total length of a maneuver: the sum of the absolute values of its
/// segment parameters.
pub open spec fn spec_path_len(s: Seq<PathElement>) -> int
    decreases s.len(),
{
    if s.len() == 0 {
        0
    } else {
        spec_path_len(s.drop_last()) + utils::spec_abs(s.last().param as int)
    }
}

/// The length of a prefix grows by the last element's magnitude.
proof fn lemma_path_len_take_step(s: Seq<PathElement>, i: int)
    requires
        0 <= i < s.len(),
    ensures
        spec_path_len(s.take(i + 1)) == spec_path_len(s.take(i)) + utils::spec_abs(s[i].param as int),
{
    assert(s.take(i + 1).drop_last() =~= s.take(i));
    assert(s.take(i + 1).last() == s[i]);
}

/// A path length is never negative.
pub proof fn lemma_path_len_nonneg(s: Seq<PathElement>)
    ensures
        spec_path_len(s) >= 0,
    decreases s.len(),
{
    if s.len() > 0 {
        lemma_path_len_nonneg(s.drop_last());
    }
}

/// The length of a prefix is at most the length of the whole path.
proof fn lemma_path_len_take_bound(s: Seq<PathElement>, i: int)
    requires
        0 <= i <= s.len(),
    ensures
        spec_path_len(s.take(i)) <= spec_path_len(s),
    decreases s.len() - i,
{
    if i == s.len() {
        assert(s.take(i) =~= s);
    } else {
        lemma_path_len_take_step(s, i);
        lemma_path_len_take_bound(s, i + 1);
    }
}

/// Sums the absolute segment parameters of a maneuver.
pub fn path_length(path: &Path) -> (r: i64)
    requires
        forall|i: int| 0 <= i < path@.len() ==> #[trigger] path@[i].param > i64::MIN,
        spec_path_len(path@) <= i64::MAX,
    ensures
        r as int == spec_path_len(path@),
        r >= 0,
{
    let mut sum: i64 = 0;
    let mut i: usize = 0;
    proof {
        assert(path@.take(0) =~= Seq::<PathElement>::empty());
    }
    while i < path.len()
        invariant
            i <= path.len(),
            sum as int == spec_path_len(path@.take(i as int)),
            sum >= 0,
            forall|k: int| 0 <= k < path@.len() ==> #[trigger] path@[k].param > i64::MIN,
            spec_path_len(path@) <= i64::MAX,
        decreases path.len() - i,
    {
        let p: i64 = path[i].param;
        let a: i64 = if p < 0 { -p } else { p };
        proof {
            lemma_path_len_take_step(path@, i as int);
            lemma_path_len_take_bound(path@, i as int + 1);
        }
        sum = sum + a;
        i = i + 1;
    }
    proof {
        assert(path@.take(path@.len() as int) =~= path@);
    }
    sum
}

/// A segment survives the degeneracy filter when its parameter magnitude
/// is above the `EPS_FP` threshold.
pub open spec fn spec_keep_elem(e: PathElement) -> bool {
    utils::spec_abs(e.param as int) > utils::EPS_FP as int
}

/// A candidate path after the degeneracy filter: near-zero segments removed.
pub open spec fn spec_filter_path(s: Seq<PathElement>) -> Seq<PathElement> {
    s.filter(|e: PathElement| spec_keep_elem(e))
}

/// Removes the segments whose parameter magnitude is at or below the
/// degeneracy threshold.
pub fn filter_path(path: &Path) -> (r: Path)
    ensures
        r@ == spec_filter_path(path@),
{
    broadcast use Seq::lemma_filter_push;

    let mut out: Vec<PathElement> = Vec::new();
    let mut i: usize = 0;
    proof {
        assert(path@.take(0) =~= Seq::<PathElement>::empty());
        reveal(Seq::filter);
    }
    while i < path.len()
        invariant
            i <= path.len(),
            out@ == spec_filter_path(path@.take(i as int)),
        decreases path.len() - i,
    {
        let e: PathElement = path[i];
        proof {
            assert(path@.take(i as int + 1) =~= path@.take(i as int).push(e));
            path@.take(i as int).lemma_filter_push(e, |e2: PathElement| spec_keep_elem(e2));
        }
        if e.param > utils::EPS_FP || e.param < -utils::EPS_FP {
            out.push(e);
        }
        i = i + 1;
    }
    proof {
        assert(path@.take(path@.len() as int) =~= path@);
    }
    out
}

/// The transcendental values one symmetry variant of the relative pose
/// needs: the polar angles of the two shifted goals and each family's arc
/// sine / arc cosine / arc tangent derivations, all fixed-point angles.
#[derive(Debug, Clone, Copy, PartialEq, Eq, Structural)]
pub struct VariantTrig {
    /// `atan2` of the goal shifted by the left reference circle.
    pub theta_left: i64,
    /// `atan2` of the goal shifted by the right reference circle.
    pub theta_right: i64,
    /// Family 2: `atan2(2, sqrt(rho^2 - 4))` of the right-shifted radius.
    pub alpha2: i64,
    /// Families 3 and 4: `acos(rho / 4)` of the left-shifted radius.
    pub a34: i64,
    /// Family 5: `acos(1 - rho^2 / 8)` of the left-shifted radius.
    pub u5: i64,
    /// Family 5: `asin(2 sin(u5) / rho)`, clamped to the arc-sine domain.
    pub a5: i64,
    /// Family 6, near branch (`rho <= 2`): `acos((rho + 2) / 4)`.
    pub a6_near: i64,
    /// Family 6, far branch (`rho > 2`): `acos((rho - 2) / 4)`.
    pub a6_far: i64,
    /// Family 7: `acos((20 - rho^2) / 16)` of the right-shifted radius.
    pub u7: i64,
    /// Family 7: `asin(2 sin(u7) / rho)`, clamped to the arc-sine domain.
    pub a7: i64,
    /// Family 8: `atan2(2, sqrt(rho^2 - 4))` of the left-shifted radius.
    pub a8: i64,
    /// Family 9: `atan2(sqrt(rho^2 - 4), 2)` of the left-shifted radius.
    pub a9: i64,
    /// Family 12: `atan2(2, sqrt(rho^2 - 4))` of the right-shifted radius.
    pub a12: i64,
}

/// Every angle of a variant is at most a full turn in magnitude.
pub open spec fn variant_trig_wf(v: VariantTrig) -> bool {
    &&& words::trig_wf(v.theta_left as int)
    &&& words::trig_wf(v.theta_right as int)
    &&& words::trig_wf(v.alpha2 as int)
    &&& words::trig_wf(v.a34 as int)
    &&& words::trig_wf(v.u5 as int)
    &&& words::trig_wf(v.a5 as int)
    &&& words::trig_wf(v.a6_near as int)
    &&& words::trig_wf(v.a6_far as int)
    &&& words::trig_wf(v.u7 as int)
    &&& words::trig_wf(v.a7 as int)
    &&& words::trig_wf(v.a8 as int)
    &&& words::trig_wf(v.a9 as int)
    &&& words::trig_wf(v.a12 as int)
}

/// All transcendental inputs of one query: the sine and cosine of the
/// start heading (for the change of basis), the sine and cosine of the
/// relative heading, and one `VariantTrig` per symmetry variant of the
/// relative pose `(x, y, phi)`.
#[derive(Debug, Clone, Copy, PartialEq, Eq, Structural)]
pub struct TrigTable {
    /// Sine of the start pose's heading, fixed point.
    pub sin_start: i64,
    /// Cosine of the start pose's heading, fixed point.
    pub cos_start: i64,
    /// Sine of the relative heading `phi`, fixed point.
    pub sin_phi: i64,
    /// Cosine of the relative heading `phi`, fixed point.
    pub cos_phi: i64,
    /// Values at `(x, y, phi)`.
    pub direct: VariantTrig,
    /// Values at `(-x, y, -phi)`: the time-reversal variant.
    pub flipped: VariantTrig,
    /// Values at `(x, -y, -phi)`: the mirror-reflection variant.
    pub reflected: VariantTrig,
    /// Values at `(-x, -y, phi)`: reflection and time reversal combined.
    pub both: VariantTrig,
}

/// Sines and cosines within one, every angle within a full turn.
pub open spec fn trig_table_wf(t: TrigTable) -> bool {
    &&& utils::spec_abs(t.sin_start as int) <= utils::SCALE as int
    &&& utils::spec_abs(t.cos_start as int) <= utils::SCALE as int
    &&& utils::spec_abs(t.sin_phi as int) <= utils::SCALE as int
    &&& utils::spec_abs(t.cos_phi as int) <= utils::SCALE as int
    &&& variant_trig_wf(t.direct)
    &&& variant_trig_wf(t.flipped)
    &&& variant_trig_wf(t.reflected)
    &&& variant_trig_wf(t.both)
}

/// The views of a list of paths.
pub open spec fn seq_views(s: Seq<Path>) -> Seq<Seq<PathElement>> {
    s.map_values(|p: Path| p@)
}

/// Every candidate of the list respects the word families' bounds.
pub open spec fn all_wf(s: Seq<Seq<PathElement>>) -> bool {
    forall|i: int| 0 <= i < s.len() ==> words::family_out_wf(#[trigger] s[i])
}

/// The four symmetry variants of family 1 at the relative pose
/// `(x, y, phi)`: direct, time-reversal, mirror-reflection, and both,
/// in that order.  The remaining families follow the same pattern.
#[verifier::opaque]
pub open spec fn spec_block1(x: int, y: int, phi: int, sp: int, cp: int, tt: TrigTable) -> Seq<Seq<PathElement>> {
    seq![
        words::spec_path1(x, y, phi, sp, cp, tt.direct.theta_left as int),
        spec_timeflip(words::spec_path1(-x, y, -phi, -sp, cp, tt.flipped.theta_left as int)),
        spec_reflect(words::spec_path1(x, -y, -phi, -sp, cp, tt.reflected.theta_left as int)),
        spec_reflect(spec_timeflip(words::spec_path1(-x, -y, phi, sp, cp, tt.both.theta_left as int))),
    ]
}

#[verifier::opaque]
pub open spec fn spec_block2(x: int, y: int, phi: int, sp: int, cp: int, tt: TrigTable) -> Seq<Seq<PathElement>> {
    seq![
        words::spec_path2(x, y, phi, sp, cp, tt.direct.theta_right as int, tt.direct.alpha2 as int),
        spec_timeflip(words::spec_path2(-x, y, -phi, -sp, cp, tt.flipped.theta_right as int, tt.flipped.alpha2 as int)),
        spec_reflect(words::spec_path2(x, -y, -phi, -sp, cp, tt.reflected.theta_right as int, tt.reflected.alpha2 as int)),
        spec_reflect(spec_timeflip(words::spec_path2(-x, -y, phi, sp, cp, tt.both.theta_right as int, tt.both.alpha2 as int))),
    ]
}

#[verifier::opaque]
pub open spec fn spec_block3(x: int, y: int, phi: int, sp: int, cp: int, tt: TrigTable) -> Seq<Seq<PathElement>> {
    seq![
        words::spec_path3(x, y, phi, sp, cp, tt.direct.theta_left as int, tt.direct.a34 as int),
        spec_timeflip(words::spec_path3(-x, y, -phi, -sp, cp, tt.flipped.theta_left as int, tt.flipped.a34 as int)),
        spec_reflect(words::spec_path3(x, -y, -phi, -sp, cp, tt.reflected.theta_left as int, tt.reflected.a34 as int)),
        spec_reflect(spec_timeflip(words::spec_path3(-x, -y, phi, sp, cp, tt.both.theta_left as int, tt.both.a34 as int))),
    ]
}

#[verifier::opaque]
pub open spec fn spec_block4(x: int, y: int, phi: int, sp: int, cp: int, tt: TrigTable) -> Seq<Seq<PathElement>> {
    seq![
        words::spec_path4(x, y, phi, sp, cp, tt.direct.theta_left as int, tt.direct.a34 as int),
        spec_timeflip(words::spec_path4(-x, y, -phi, -sp, cp, tt.flipped.theta_left as int, tt.flipped.a34 as int)),
        spec_reflect(words::spec_path4(x, -y, -phi, -sp, cp, tt.reflected.theta_left as int, tt.reflected.a34 as int)),
        spec_reflect(spec_timeflip(words::spec_path4(-x, -y, phi, sp, cp, tt.both.theta_left as int, tt.both.a34 as int))),
    ]
}

#[verifier::opaque]
pub open spec fn spec_block5(x: int, y: int, phi: int, sp: int, cp: int, tt: TrigTable) -> Seq<Seq<PathElement>> {
    seq![
        words::spec_path5(x, y, phi, sp, cp, tt.direct.theta_left as int, tt.direct.u5 as int, tt.direct.a5 as int),
        spec_timeflip(words::spec_path5(-x, y, -phi, -sp, cp, tt.flipped.theta_left as int, tt.flipped.u5 as int, tt.flipped.a5 as int)),
        spec_reflect(words::spec_path5(x, -y, -phi, -sp, cp, tt.reflected.theta_left as int, tt.reflected.u5 as int, tt.reflected.a5 as int)),
        spec_reflect(spec_timeflip(words::spec_path5(-x, -y, phi, sp, cp, tt.both.theta_left as int, tt.both.u5 as int, tt.both.a5 as int))),
    ]
}

#[verifier::opaque]
pub open spec fn spec_block6(x: int, y: int, phi: int, sp: int, cp: int, tt: TrigTable) -> Seq<Seq<PathElement>> {
    seq![
        words::spec_path6(x, y, phi, sp, cp, tt.direct.theta_right as int, tt.direct.a6_near as int, tt.direct.a6_far as int),
        spec_timeflip(words::spec_path6(-x, y, -phi, -sp, cp, tt.flipped.theta_right as int, tt.flipped.a6_near as int, tt.flipped.a6_far as int)),
        spec_reflect(words::spec_path6(x, -y, -phi, -sp, cp, tt.reflected.theta_right as int, tt.reflected.a6_near as int, tt.reflected.a6_far as int)),
        spec_reflect(spec_timeflip(words::spec_path6(-x, -y, phi, sp, cp, tt.both.theta_right as int, tt.both.a6_near as int, tt.both.a6_far as int))),
    ]
}

#[verifier::opaque]
pub open spec fn spec_block7(x: int, y: int, phi: int, sp: int, cp: int, tt: TrigTable) -> Seq<Seq<PathElement>> {
    seq![
        words::spec_path7(x, y, phi, sp, cp, tt.direct.theta_right as int, tt.direct.u7 as int, tt.direct.a7 as int),
        spec_timeflip(words::spec_path7(-x, y, -phi, -sp, cp, tt.flipped.theta_right as int, tt.flipped.u7 as int, tt.flipped.a7 as int)),
        spec_reflect(words::spec_path7(x, -y, -phi, -sp, cp, tt.reflected.theta_right as int, tt.reflected.u7 as int, tt.reflected.a7 as int)),
        spec_reflect(spec_timeflip(words::spec_path7(-x, -y, phi, sp, cp, tt.both.theta_right as int, tt.both.u7 as int, tt.both.a7 as int))),
    ]
}

#[verifier::opaque]
pub open spec fn spec_block8(x: int, y: int, phi: int, sp: int, cp: int, tt: TrigTable) -> Seq<Seq<PathElement>> {
    seq![
        words::spec_path8(x, y, phi, sp, cp, tt.direct.theta_left as int, tt.direct.a8 as int),
        spec_timeflip(words::spec_path8(-x, y, -phi, -sp, cp, tt.flipped.theta_left as int, tt.flipped.a8 as int)),
        spec_reflect(words::spec_path8(x, -y, -phi, -sp, cp, tt.reflected.theta_left as int, tt.reflected.a8 as int)),
        spec_reflect(spec_timeflip(words::spec_path8(-x, -y, phi, sp, cp, tt.both.theta_left as int, tt.both.a8 as int))),
    ]
}

#[verifier::opaque]
pub open spec fn spec_block9(x: int, y: int, phi: int, sp: int, cp: int, tt: TrigTable) -> Seq<Seq<PathElement>> {
    seq![
        words::spec_path9(x, y, phi, sp, cp, tt.direct.theta_left as int, tt.direct.a9 as int),
        spec_timeflip(words::spec_path9(-x, y, -phi, -sp, cp, tt.flipped.theta_left as int, tt.flipped.a9 as int)),
        spec_reflect(words::spec_path9(x, -y, -phi, -sp, cp, tt.reflected.theta_left as int, tt.reflected.a9 as int)),
        spec_reflect(spec_timeflip(words::spec_path9(-x, -y, phi, sp, cp, tt.both.theta_left as int, tt.both.a9 as int))),
    ]
}

#[verifier::opaque]
pub open spec fn spec_block10(x: int, y: int, phi: int, sp: int, cp: int, tt: TrigTable) -> Seq<Seq<PathElement>> {
    seq![
        words::spec_path10(x, y, phi, sp, cp, tt.direct.theta_right as int),
        spec_timeflip(words::spec_path10(-x, y, -phi, -sp, cp, tt.flipped.theta_right as int)),
        spec_reflect(words::spec_path10(x, -y, -phi, -sp, cp, tt.reflected.theta_right as int)),
        spec_reflect(spec_timeflip(words::spec_path10(-x, -y, phi, sp, cp, tt.both.theta_right as int))),
    ]
}

#[verifier::opaque]
pub open spec fn spec_block11(x: int, y: int, phi: int, sp: int, cp: int, tt: TrigTable) -> Seq<Seq<PathElement>> {
    seq![
        words::spec_path11(x, y, phi, sp, cp, tt.direct.theta_right as int),
        spec_timeflip(words::spec_path11(-x, y, -phi, -sp, cp, tt.flipped.theta_right as int)),
        spec_reflect(words::spec_path11(x, -y, -phi, -sp, cp, tt.reflected.theta_right as int)),
        spec_reflect(spec_timeflip(words::spec_path11(-x, -y, phi, sp, cp, tt.both.theta_right as int))),
    ]
}

#[verifier::opaque]
pub open spec fn spec_block12(x: int, y: int, phi: int, sp: int, cp: int, tt: TrigTable) -> Seq<Seq<PathElement>> {
    seq![
        words::spec_path12(x, y, phi, sp, cp, tt.direct.theta_right as int, tt.direct.a12 as int),
        spec_timeflip(words::spec_path12(-x, y, -phi, -sp, cp, tt.flipped.theta_right as int, tt.flipped.a12 as int)),
        spec_reflect(words::spec_path12(x, -y, -phi, -sp, cp, tt.reflected.theta_right as int, tt.reflected.a12 as int)),
        spec_reflect(spec_timeflip(words::spec_path12(-x, -y, phi, sp, cp, tt.both.theta_right as int, tt.both.a12 as int))),
    ]
}

/// The 48 raw candidates of one query, in their fixed enumeration order:
/// families one to twelve outside, and inside each family the variants
/// direct, time-reversal, mirror-reflection, and both combined.
#[verifier::opaque]
pub open spec fn spec_raw_paths(rel: Pose, tt: TrigTable) -> Seq<Seq<PathElement>> {
    let x = rel.x as int;
    let y = rel.y as int;
    let phi = rel.theta_degree as int;
    let sp = tt.sin_phi as int;
    let cp = tt.cos_phi as int;
    spec_block1(x, y, phi, sp, cp, tt) + spec_block2(x, y, phi, sp, cp, tt)
        + spec_block3(x, y, phi, sp, cp, tt) + spec_block4(x, y, phi, sp, cp, tt)
        + spec_block5(x, y, phi, sp, cp, tt) + spec_block6(x, y, phi, sp, cp, tt)
        + spec_block7(x, y, phi, sp, cp, tt) + spec_block8(x, y, phi, sp, cp, tt)
        + spec_block9(x, y, phi, sp, cp, tt) + spec_block10(x, y, phi, sp, cp, tt)
        + spec_block11(x, y, phi, sp, cp, tt) + spec_block12(x, y, phi, sp, cp, tt)
}

/// Views distribute over concatenation.
proof fn lemma_views_add(a: Seq<Path>, b: Seq<Path>)
    ensures
        seq_views(a + b) == seq_views(a) + seq_views(b),
{
    assert(seq_views(a + b) =~= seq_views(a) + seq_views(b));
}

/// Well-formedness of all candidates survives concatenation.
proof fn lemma_all_wf_add(a: Seq<Seq<PathElement>>, b: Seq<Seq<PathElement>>)
    requires
        all_wf(a),
        all_wf(b),
    ensures
        all_wf(a + b),
{
    assert forall|i: int| 0 <= i < (a + b).len() implies words::family_out_wf(#[trigger] (a + b)[i]) by {
        if i < a.len() {
            assert((a + b)[i] == a[i]);
        } else {
            assert((a + b)[i] == b[i - a.len()]);
        }
    }
}

/// Degeneracy filtering of a candidate list: drop each candidate's
/// near-zero segments, then drop candidates that became empty, keeping
/// the enumeration order.
pub open spec fn spec_keep_paths(s: Seq<Seq<PathElement>>) -> Seq<Seq<PathElement>>
    decreases s.len(),
{
    if s.len() == 0 {
        Seq::empty()
    } else {
        let rest = spec_keep_paths(s.drop_last());
        let f = spec_filter_path(s.last());
        if f.len() > 0 {
            rest.push(f)
        } else {
            rest
        }
    }
}

/// Filtering never lengthens the candidate list.
pub proof fn lemma_keep_paths_len(s: Seq<Seq<PathElement>>)
    ensures
        spec_keep_paths(s).len() <= s.len(),
    decreases s.len(),
{
    if s.len() > 0 {
        lemma_keep_paths_len(s.drop_last());
    }
}

/// Everything `get_all_paths` returns: the raw candidates of the relative
/// pose under the supplied trigonometry, degeneracy-filtered.
pub open spec fn spec_all_paths(start: Pose, end: Pose, tt: TrigTable) -> Seq<Seq<PathElement>> {
    spec_keep_paths(spec_raw_paths(
        utils::spec_cob(start, end, tt.sin_start as int, tt.cos_start as int),
        tt,
    ))
}

/// Filtering keeps only segments above the threshold, and it keeps the
/// bounds the word families guarantee.
proof fn lemma_filter_path_bounds(s: Seq<PathElement>)
    requires
        forall|i: int| 0 <= i < s.len() ==> 0 <= #[trigger] s[i].param <= utils::PARAM_MAX,
    ensures
        forall|j: int| 0 <= j < spec_filter_path(s).len()
            ==> utils::EPS_FP < #[trigger] spec_filter_path(s)[j].param <= utils::PARAM_MAX,
    decreases s.len(),
{
    reveal(Seq::filter);
    if s.len() > 0 {
        assert(forall|i: int| 0 <= i < s.drop_last().len()
            ==> 0 <= #[trigger] s.drop_last()[i].param <= utils::PARAM_MAX);
        lemma_filter_path_bounds(s.drop_last());
    }
}

/// The symmetry maps keep segment count and parameters, so they keep the
/// word families' bounds.
proof fn lemma_sym_wf(s: Seq<PathElement>)
    requires
        words::family_out_wf(s),
    ensures
        words::family_out_wf(spec_timeflip(s)),
        words::family_out_wf(spec_reflect(s)),
        words::family_out_wf(spec_reflect(spec_timeflip(s))),
{
}

/// Candidate-list arguments every block builder takes.
pub open spec fn block_inputs_wf(x: int, y: int, phi: int, sp: int, cp: int, tt: TrigTable) -> bool {
    &&& words::family_inputs_wf(x, y, phi, sp, cp)
    &&& trig_table_wf(tt)
}

fn block1(x: i64, y: i64, phi: i64, sp: i64, cp: i64, trig: &TrigTable) -> (r: Vec<Path>)
    requires
        block_inputs_wf(x as int, y as int, phi as int, sp as int, cp as int, *trig),
    ensures
        seq_views(r@) == spec_block1(x as int, y as int, phi as int, sp as int, cp as int, *trig),
        all_wf(seq_views(r@)),
        r@.len() == 4,
{
    let p1: Path = words::path1(x, y, phi, sp, cp, trig.direct.theta_left);
    let p2: Path = timeflip(words::path1(-x, y, -phi, -sp, cp, trig.flipped.theta_left));
    let p3: Path = reflect(words::path1(x, -y, -phi, -sp, cp, trig.reflected.theta_left));
    let p4: Path = reflect(timeflip(words::path1(-x, -y, phi, sp, cp, trig.both.theta_left)));
    proof {
        lemma_sym_wf(words::spec_path1(-(x as int), y as int, -(phi as int), -(sp as int), cp as int, trig.flipped.theta_left as int));
        lemma_sym_wf(words::spec_path1(x as int, -(y as int), -(phi as int), -(sp as int), cp as int, trig.reflected.theta_left as int));
        lemma_sym_wf(words::spec_path1(-(x as int), -(y as int), phi as int, sp as int, cp as int, trig.both.theta_left as int));
        lemma_sym_wf(spec_timeflip(words::spec_path1(-(x as int), -(y as int), phi as int, sp as int, cp as int, trig.both.theta_left as int)));
    }
    let mut r: Vec<Path> = Vec::new();
    r.push(p1);
    r.push(p2);
    r.push(p3);
    r.push(p4);
    proof {
        assert(seq_views(r@) =~= spec_block1(x as int, y as int, phi as int, sp as int, cp as int, *trig)) by {
            reveal(spec_block1);
        }
    }
    r
}

fn block2(x: i64, y: i64, phi: i64, sp: i64, cp: i64, trig: &TrigTable) -> (r: Vec<Path>)
    requires
        block_inputs_wf(x as int, y as int, phi as int, sp as int, cp as int, *trig),
    ensures
        seq_views(r@) == spec_block2(x as int, y as int, phi as int, sp as int, cp as int, *trig),
        all_wf(seq_views(r@)),
        r@.len() == 4,
{
    let p1: Path = words::path2(x, y, phi, sp, cp, trig.direct.theta_right, trig.direct.alpha2);
    let p2: Path = timeflip(words::path2(-x, y, -phi, -sp, cp, trig.flipped.theta_right, trig.flipped.alpha2));
    let p3: Path = reflect(words::path2(x, -y, -phi, -sp, cp, trig.reflected.theta_right, trig.reflected.alpha2));
    let p4: Path = reflect(timeflip(words::path2(-x, -y, phi, sp, cp, trig.both.theta_right, trig.both.alpha2)));
    proof {
        lemma_sym_wf(words::spec_path2(-(x as int), y as int, -(phi as int), -(sp as int), cp as int, trig.flipped.theta_right as int, trig.flipped.alpha2 as int));
        lemma_sym_wf(words::spec_path2(x as int, -(y as int), -(phi as int), -(sp as int), cp as int, trig.reflected.theta_right as int, trig.reflected.alpha2 as int));
        lemma_sym_wf(words::spec_path2(-(x as int), -(y as int), phi as int, sp as int, cp as int, trig.both.theta_right as int, trig.both.alpha2 as int));
        lemma_sym_wf(spec_timeflip(words::spec_path2(-(x as int), -(y as int), phi as int, sp as int, cp as int, trig.both.theta_right as int, trig.both.alpha2 as int)));
    }
    let mut r: Vec<Path> = Vec::new();
    r.push(p1);
    r.push(p2);
    r.push(p3);
    r.push(p4);
    proof {
        assert(seq_views(r@) =~= spec_block2(x as int, y as int, phi as int, sp as int, cp as int, *trig)) by {
            reveal(spec_block2);
        }
    }
    r
}

fn block3(x: i64, y: i64, phi: i64, sp: i64, cp: i64, trig: &TrigTable) -> (r: Vec<Path>)
    requires
        block_inputs_wf(x as int, y as int, phi as int, sp as int, cp as int, *trig),
    ensures
        seq_views(r@) == spec_block3(x as int, y as int, phi as int, sp as int, cp as int, *trig),
        all_wf(seq_views(r@)),
        r@.len() == 4,
{
    let p1: Path = words::path3(x, y, phi, sp, cp, trig.direct.theta_left, trig.direct.a34);
    let p2: Path = timeflip(words::path3(-x, y, -phi, -sp, cp, trig.flipped.theta_left, trig.flipped.a34));
    let p3: Path = reflect(words::path3(x, -y, -phi, -sp, cp, trig.reflected.theta_left, trig.reflected.a34));
    let p4: Path = reflect(timeflip(words::path3(-x, -y, phi, sp, cp, trig.both.theta_left, trig.both.a34)));
    proof {
        lemma_sym_wf(words::spec_path3(-(x as int), y as int, -(phi as int), -(sp as int), cp as int, trig.flipped.theta_left as int, trig.flipped.a34 as int));
        lemma_sym_wf(words::spec_path3(x as int, -(y as int), -(phi as int), -(sp as int), cp as int, trig.reflected.theta_left as int, trig.reflected.a34 as int));
        lemma_sym_wf(words::spec_path3(-(x as int), -(y as int), phi as int, sp as int, cp as int, trig.both.theta_left as int, trig.both.a34 as int));
        lemma_sym_wf(spec_timeflip(words::spec_path3(-(x as int), -(y as int), phi as int, sp as int, cp as int, trig.both.theta_left as int, trig.both.a34 as int)));
    }
    let mut r: Vec<Path> = Vec::new();
    r.push(p1);
    r.push(p2);
    r.push(p3);
    r.push(p4);
    proof {
        assert(seq_views(r@) =~= spec_block3(x as int, y as int, phi as int, sp as int, cp as int, *trig)) by {
            reveal(spec_block3);
        }
    }
    r
}

fn block4(x: i64, y: i64, phi: i64, sp: i64, cp: i64, trig: &TrigTable) -> (r: Vec<Path>)
    requires
        block_inputs_wf(x as int, y as int, phi as int, sp as int, cp as int, *trig),
    ensures
        seq_views(r@) == spec_block4(x as int, y as int, phi as int, sp as int, cp as int, *trig),
        all_wf(seq_views(r@)),
        r@.len() == 4,
{
    let p1: Path = words::path4(x, y, phi, sp, cp, trig.direct.theta_left, trig.direct.a34);
    let p2: Path = timeflip(words::path4(-x, y, -phi, -sp, cp, trig.flipped.theta_left, trig.flipped.a34));
    let p3: Path = reflect(words::path4(x, -y, -phi, -sp, cp, trig.reflected.theta_left, trig.reflected.a34));
    let p4: Path = reflect(timeflip(words::path4(-x, -y, phi, sp, cp, trig.both.theta_left, trig.both.a34)));
    proof {
        lemma_sym_wf(words::spec_path4(-(x as int), y as int, -(phi as int), -(sp as int), cp as int, trig.flipped.theta_left as int, trig.flipped.a34 as int));
        lemma_sym_wf(words::spec_path4(x as int, -(y as int), -(phi as int), -(sp as int), cp as int, trig.reflected.theta_left as int, trig.reflected.a34 as int));
        lemma_sym_wf(words::spec_path4(-(x as int), -(y as int), phi as int, sp as int, cp as int, trig.both.theta_left as int, trig.both.a34 as int));
        lemma_sym_wf(spec_timeflip(words::spec_path4(-(x as int), -(y as int), phi as int, sp as int, cp as int, trig.both.theta_left as int, trig.both.a34 as int)));
    }
    let mut r: Vec<Path> = Vec::new();
    r.push(p1);
    r.push(p2);
    r.push(p3);
    r.push(p4);
    proof {
        assert(seq_views(r@) =~= spec_block4(x as int, y as int, phi as int, sp as int, cp as int, *trig)) by {
            reveal(spec_block4);
        }
    }
    r
}

fn block5(x: i64, y: i64, phi: i64, sp: i64, cp: i64, trig: &TrigTable) -> (r: Vec<Path>)
    requires
        block_inputs_wf(x as int, y as int, phi as int, sp as int, cp as int, *trig),
    ensures
        seq_views(r@) == spec_block5(x as int, y as int, phi as int, sp as int, cp as int, *trig),
        all_wf(seq_views(r@)),
        r@.len() == 4,
{
    let p1: Path = words::path5(x, y, phi, sp, cp, trig.direct.theta_left, trig.direct.u5, trig.direct.a5);
    let p2: Path = timeflip(words::path5(-x, y, -phi, -sp, cp, trig.flipped.theta_left, trig.flipped.u5, trig.flipped.a5));
    let p3: Path = reflect(words::path5(x, -y, -phi, -sp, cp, trig.reflected.theta_left, trig.reflected.u5, trig.reflected.a5));
    let p4: Path = reflect(timeflip(words::path5(-x, -y, phi, sp, cp, trig.both.theta_left, trig.both.u5, trig.both.a5)));
    proof {
        lemma_sym_wf(words::spec_path5(-(x as int), y as int, -(phi as int), -(sp as int), cp as int, trig.flipped.theta_left as int, trig.flipped.u5 as int, trig.flipped.a5 as int));
        lemma_sym_wf(words::spec_path5(x as int, -(y as int), -(phi as int), -(sp as int), cp as int, trig.reflected.theta_left as int, trig.reflected.u5 as int, trig.reflected.a5 as int));
        lemma_sym_wf(words::spec_path5(-(x as int), -(y as int), phi as int, sp as int, cp as int, trig.both.theta_left as int, trig.both.u5 as int, trig.both.a5 as int));
        lemma_sym_wf(spec_timeflip(words::spec_path5(-(x as int), -(y as int), phi as int, sp as int, cp as int, trig.both.theta_left as int, trig.both.u5 as int, trig.both.a5 as int)));
    }
    let mut r: Vec<Path> = Vec::new();
    r.push(p1);
    r.push(p2);
    r.push(p3);
    r.push(p4);
    proof {
        assert(seq_views(r@) =~= spec_block5(x as int, y as int, phi as int, sp as int, cp as int, *trig)) by {
            reveal(spec_block5);
        }
    }
    r
}

fn block6(x: i64, y: i64, phi: i64, sp: i64, cp: i64, trig: &TrigTable) -> (r: Vec<Path>)
    requires
        block_inputs_wf(x as int, y as int, phi as int, sp as int, cp as int, *trig),
    ensures
        seq_views(r@) == spec_block6(x as int, y as int, phi as int, sp as int, cp as int, *trig),
        all_wf(seq_views(r@)),
        r@.len() == 4,
{
    let p1: Path = words::path6(x, y, phi, sp, cp, trig.direct.theta_right, trig.direct.a6_near, trig.direct.a6_far);
    let p2: Path = timeflip(words::path6(-x, y, -phi, -sp, cp, trig.flipped.theta_right, trig.flipped.a6_near, trig.flipped.a6_far));
    let p3: Path = reflect(words::path6(x, -y, -phi, -sp, cp, trig.reflected.theta_right, trig.reflected.a6_near, trig.reflected.a6_far));
    let p4: Path = reflect(timeflip(words::path6(-x, -y, phi, sp, cp, trig.both.theta_right, trig.both.a6_near, trig.both.a6_far)));
    proof {
        lemma_sym_wf(words::spec_path6(-(x as int), y as int, -(phi as int), -(sp as int), cp as int, trig.flipped.theta_right as int, trig.flipped.a6_near as int, trig.flipped.a6_far as int));
        lemma_sym_wf(words::spec_path6(x as int, -(y as int), -(phi as int), -(sp as int), cp as int, trig.reflected.theta_right as int, trig.reflected.a6_near as int, trig.reflected.a6_far as int));
        lemma_sym_wf(words::spec_path6(-(x as int), -(y as int), phi as int, sp as int, cp as int, trig.both.theta_right as int, trig.both.a6_near as int, trig.both.a6_far as int));
        lemma_sym_wf(spec_timeflip(words::spec_path6(-(x as int), -(y as int), phi as int, sp as int, cp as int, trig.both.theta_right as int, trig.both.a6_near as int, trig.both.a6_far as int)));
    }
    let mut r: Vec<Path> = Vec::new();
    r.push(p1);
    r.push(p2);
    r.push(p3);
    r.push(p4);
    proof {
        assert(seq_views(r@) =~= spec_block6(x as int, y as int, phi as int, sp as int, cp as int, *trig)) by {
            reveal(spec_block6);
        }
    }
    r
}

fn block7(x: i64, y: i64, phi: i64, sp: i64, cp: i64, trig: &TrigTable) -> (r: Vec<Path>)
    requires
        block_inputs_wf(x as int, y as int, phi as int, sp as int, cp as int, *trig),
    ensures
        seq_views(r@) == spec_block7(x as int, y as int, phi as int, sp as int, cp as int, *trig),
        all_wf(seq_views(r@)),
        r@.len() == 4,
{
    let p1: Path = words::path7(x, y, phi, sp, cp, trig.direct.theta_right, trig.direct.u7, trig.direct.a7);
    let p2: Path = timeflip(words::path7(-x, y, -phi, -sp, cp, trig.flipped.theta_right, trig.flipped.u7, trig.flipped.a7));
    let p3: Path = reflect(words::path7(x, -y, -phi, -sp, cp, trig.reflected.theta_right, trig.reflected.u7, trig.reflected.a7));
    let p4: Path = reflect(timeflip(words::path7(-x, -y, phi, sp, cp, trig.both.theta_right, trig.both.u7, trig.both.a7)));
    proof {
        lemma_sym_wf(words::spec_path7(-(x as int), y as int, -(phi as int), -(sp as int), cp as int, trig.flipped.theta_right as int, trig.flipped.u7 as int, trig.flipped.a7 as int));
        lemma_sym_wf(words::spec_path7(x as int, -(y as int), -(phi as int), -(sp as int), cp as int, trig.reflected.theta_right as int, trig.reflected.u7 as int, trig.reflected.a7 as int));
        lemma_sym_wf(words::spec_path7(-(x as int), -(y as int), phi as int, sp as int, cp as int, trig.both.theta_right as int, trig.both.u7 as int, trig.both.a7 as int));
        lemma_sym_wf(spec_timeflip(words::spec_path7(-(x as int), -(y as int), phi as int, sp as int, cp as int, trig.both.theta_right as int, trig.both.u7 as int, trig.both.a7 as int)));
    }
    let mut r: Vec<Path> = Vec::new();
    r.push(p1);
    r.push(p2);
    r.push(p3);
    r.push(p4);
    proof {
        assert(seq_views(r@) =~= spec_block7(x as int, y as int, phi as int, sp as int, cp as int, *trig)) by {
            reveal(spec_block7);
        }
    }
    r
}

fn block8(x: i64, y: i64, phi: i64, sp: i64, cp: i64, trig: &TrigTable) -> (r: Vec<Path>)
    requires
        block_inputs_wf(x as int, y as int, phi as int, sp as int, cp as int, *trig),
    ensures
        seq_views(r@) == spec_block8(x as int, y as int, phi as int, sp as int, cp as int, *trig),
        all_wf(seq_views(r@)),
        r@.len() == 4,
{
    let p1: Path = words::path8(x, y, phi, sp, cp, trig.direct.theta_left, trig.direct.a8);
    let p2: Path = timeflip(words::path8(-x, y, -phi, -sp, cp, trig.flipped.theta_left, trig.flipped.a8));
    let p3: Path = reflect(words::path8(x, -y, -phi, -sp, cp, trig.reflected.theta_left, trig.reflected.a8));
    let p4: Path = reflect(timeflip(words::path8(-x, -y, phi, sp, cp, trig.both.theta_left, trig.both.a8)));
    proof {
        lemma_sym_wf(words::spec_path8(-(x as int), y as int, -(phi as int), -(sp as int), cp as int, trig.flipped.theta_left as int, trig.flipped.a8 as int));
        lemma_sym_wf(words::spec_path8(x as int, -(y as int), -(phi as int), -(sp as int), cp as int, trig.reflected.theta_left as int, trig.reflected.a8 as int));
        lemma_sym_wf(words::spec_path8(-(x as int), -(y as int), phi as int, sp as int, cp as int, trig.both.theta_left as int, trig.both.a8 as int));
        lemma_sym_wf(spec_timeflip(words::spec_path8(-(x as int), -(y as int), phi as int, sp as int, cp as int, trig.both.theta_left as int, trig.both.a8 as int)));
    }
    let mut r: Vec<Path> = Vec::new();
    r.push(p1);
    r.push(p2);
    r.push(p3);
    r.push(p4);
    proof {
        assert(seq_views(r@) =~= spec_block8(x as int, y as int, phi as int, sp as int, cp as int, *trig)) by {
            reveal(spec_block8);
        }
    }
    r
}

fn block9(x: i64, y: i64, phi: i64, sp: i64, cp: i64, trig: &TrigTable) -> (r: Vec<Path>)
    requires
        block_inputs_wf(x as int, y as int, phi as int, sp as int, cp as int, *trig),
    ensures
        seq_views(r@) == spec_block9(x as int, y as int, phi as int, sp as int, cp as int, *trig),
        all_wf(seq_views(r@)),
        r@.len() == 4,
{
    let p1: Path = words::path9(x, y, phi, sp, cp, trig.direct.theta_left, trig.direct.a9);
    let p2: Path = timeflip(words::path9(-x, y, -phi, -sp, cp, trig.flipped.theta_left, trig.flipped.a9));
    let p3: Path = reflect(words::path9(x, -y, -phi, -sp, cp, trig.reflected.theta_left, trig.reflected.a9));
    let p4: Path = reflect(timeflip(words::path9(-x, -y, phi, sp, cp, trig.both.theta_left, trig.both.a9)));
    proof {
        lemma_sym_wf(words::spec_path9(-(x as int), y as int, -(phi as int), -(sp as int), cp as int, trig.flipped.theta_left as int, trig.flipped.a9 as int));
        lemma_sym_wf(words::spec_path9(x as int, -(y as int), -(phi as int), -(sp as int), cp as int, trig.reflected.theta_left as int, trig.reflected.a9 as int));
        lemma_sym_wf(words::spec_path9(-(x as int), -(y as int), phi as int, sp as int, cp as int, trig.both.theta_left as int, trig.both.a9 as int));
        lemma_sym_wf(spec_timeflip(words::spec_path9(-(x as int), -(y as int), phi as int, sp as int, cp as int, trig.both.theta_left as int, trig.both.a9 as int)));
    }
    let mut r: Vec<Path> = Vec::new();
    r.push(p1);
    r.push(p2);
    r.push(p3);
    r.push(p4);
    proof {
        assert(seq_views(r@) =~= spec_block9(x as int, y as int, phi as int, sp as int, cp as int, *trig)) by {
            reveal(spec_block9);
        }
    }
    r
}

fn block10(x: i64, y: i64, phi: i64, sp: i64, cp: i64, trig: &TrigTable) -> (r: Vec<Path>)
    requires
        block_inputs_wf(x as int, y as int, phi as int, sp as int, cp as int, *trig),
    ensures
        seq_views(r@) == spec_block10(x as int, y as int, phi as int, sp as int, cp as int, *trig),
        all_wf(seq_views(r@)),
        r@.len() == 4,
{
    let p1: Path = words::path10(x, y, phi, sp, cp, trig.direct.theta_right);
    let p2: Path = timeflip(words::path10(-x, y, -phi, -sp, cp, trig.flipped.theta_right));
    let p3: Path = reflect(words::path10(x, -y, -phi, -sp, cp, trig.reflected.theta_right));
    let p4: Path = reflect(timeflip(words::path10(-x, -y, phi, sp, cp, trig.both.theta_right)));
    proof {
        lemma_sym_wf(words::spec_path10(-(x as int), y as int, -(phi as int), -(sp as int), cp as int, trig.flipped.theta_right as int));
        lemma_sym_wf(words::spec_path10(x as int, -(y as int), -(phi as int), -(sp as int), cp as int, trig.reflected.theta_right as int));
        lemma_sym_wf(words::spec_path10(-(x as int), -(y as int), phi as int, sp as int, cp as int, trig.both.theta_right as int));
        lemma_sym_wf(spec_timeflip(words::spec_path10(-(x as int), -(y as int), phi as int, sp as int, cp as int, trig.both.theta_right as int)));
    }
    let mut r: Vec<Path> = Vec::new();
    r.push(p1);
    r.push(p2);
    r.push(p3);
    r.push(p4);
    proof {
        assert(seq_views(r@) =~= spec_block10(x as int, y as int, phi as int, sp as int, cp as int, *trig)) by {
            reveal(spec_block10);
        }
    }
    r
}

fn block11(x: i64, y: i64, phi: i64, sp: i64, cp: i64, trig: &TrigTable) -> (r: Vec<Path>)
    requires
        block_inputs_wf(x as int, y as int, phi as int, sp as int, cp as int, *trig),
    ensures
        seq_views(r@) == spec_block11(x as int, y as int, phi as int, sp as int, cp as int, *trig),
        all_wf(seq_views(r@)),
        r@.len() == 4,
{
    let p1: Path = words::path11(x, y, phi, sp, cp, trig.direct.theta_right);
    let p2: Path = timeflip(words::path11(-x, y, -phi, -sp, cp, trig.flipped.theta_right));
    let p3: Path = reflect(words::path11(x, -y, -phi, -sp, cp, trig.reflected.theta_right));
    let p4: Path = reflect(timeflip(words::path11(-x, -y, phi, sp, cp, trig.both.theta_right)));
    proof {
        lemma_sym_wf(words::spec_path11(-(x as int), y as int, -(phi as int), -(sp as int), cp as int, trig.flipped.theta_right as int));
        lemma_sym_wf(words::spec_path11(x as int, -(y as int), -(phi as int), -(sp as int), cp as int, trig.reflected.theta_right as int));
        lemma_sym_wf(words::spec_path11(-(x as int), -(y as int), phi as int, sp as int, cp as int, trig.both.theta_right as int));
        lemma_sym_wf(spec_timeflip(words::spec_path11(-(x as int), -(y as int), phi as int, sp as int, cp as int, trig.both.theta_right as int)));
    }
    let mut r: Vec<Path> = Vec::new();
    r.push(p1);
    r.push(p2);
    r.push(p3);
    r.push(p4);
    proof {
        assert(seq_views(r@) =~= spec_block11(x as int, y as int, phi as int, sp as int, cp as int, *trig)) by {
            reveal(spec_block11);
        }
    }
    r
}

fn block12(x: i64, y: i64, phi: i64, sp: i64, cp: i64, trig: &TrigTable) -> (r: Vec<Path>)
    requires
        block_inputs_wf(x as int, y as int, phi as int, sp as int, cp as int, *trig),
    ensures
        seq_views(r@) == spec_block12(x as int, y as int, phi as int, sp as int, cp as int, *trig),
        all_wf(seq_views(r@)),
        r@.len() == 4,
{
    let p1: Path = words::path12(x, y, phi, sp, cp, trig.direct.theta_right, trig.direct.a12);
    let p2: Path = timeflip(words::path12(-x, y, -phi, -sp, cp, trig.flipped.theta_right, trig.flipped.a12));
    let p3: Path = reflect(words::path12(x, -y, -phi, -sp, cp, trig.reflected.theta_right, trig.reflected.a12));
    let p4: Path = reflect(timeflip(words::path12(-x, -y, phi, sp, cp, trig.both.theta_right, trig.both.a12)));
    proof {
        lemma_sym_wf(words::spec_path12(-(x as int), y as int, -(phi as int), -(sp as int), cp as int, trig.flipped.theta_right as int, trig.flipped.a12 as int));
        lemma_sym_wf(words::spec_path12(x as int, -(y as int), -(phi as int), -(sp as int), cp as int, trig.reflected.theta_right as int, trig.reflected.a12 as int));
        lemma_sym_wf(words::spec_path12(-(x as int), -(y as int), phi as int, sp as int, cp as int, trig.both.theta_right as int, trig.both.a12 as int));
        lemma_sym_wf(spec_timeflip(words::spec_path12(-(x as int), -(y as int), phi as int, sp as int, cp as int, trig.both.theta_right as int, trig.both.a12 as int)));
    }
    let mut r: Vec<Path> = Vec::new();
    r.push(p1);
    r.push(p2);
    r.push(p3);
    r.push(p4);
    proof {
        assert(seq_views(r@) =~= spec_block12(x as int, y as int, phi as int, sp as int, cp as int, *trig)) by {
            reveal(spec_block12);
        }
    }
    r
}

/// Builds the 48 raw candidates of the relative pose `rel` in enumeration
/// order.
#[verifier::rlimit(60)]
fn build_raw(rel: Pose, trig: &TrigTable) -> (raw: Vec<Path>)
    requires
        utils::spec_abs(rel.x as int) <= utils::REL_MAX as int,
        utils::spec_abs(rel.y as int) <= utils::REL_MAX as int,
        utils::spec_abs(rel.theta_degree as int) <= utils::REL_MAX as int,
        trig_table_wf(*trig),
    ensures
        seq_views(raw@) == spec_raw_paths(rel, *trig),
        all_wf(seq_views(raw@)),
        raw@.len() == 48,
{
    let x: i64 = rel.x;
    let y: i64 = rel.y;
    let phi: i64 = rel.theta_degree;
    let sp: i64 = trig.sin_phi;
    let cp: i64 = trig.cos_phi;

    let mut raw: Vec<Path> = block1(x, y, phi, sp, cp, trig);
    let mut b2: Vec<Path> = block2(x, y, phi, sp, cp, trig);
    let mut b3: Vec<Path> = block3(x, y, phi, sp, cp, trig);
    let mut b4: Vec<Path> = block4(x, y, phi, sp, cp, trig);
    let mut b5: Vec<Path> = block5(x, y, phi, sp, cp, trig);
    let mut b6: Vec<Path> = block6(x, y, phi, sp, cp, trig);
    let mut b7: Vec<Path> = block7(x, y, phi, sp, cp, trig);
    let mut b8: Vec<Path> = block8(x, y, phi, sp, cp, trig);
    let mut b9: Vec<Path> = block9(x, y, phi, sp, cp, trig);
    let mut b10: Vec<Path> = block10(x, y, phi, sp, cp, trig);
    let mut b11: Vec<Path> = block11(x, y, phi, sp, cp, trig);
    let mut b12: Vec<Path> = block12(x, y, phi, sp, cp, trig);

    let ghost g1 = raw@;
    let ghost g2 = b2@;
    let ghost g3 = b3@;
    let ghost g4 = b4@;
    let ghost g5 = b5@;
    let ghost g6 = b6@;
    let ghost g7 = b7@;
    let ghost g8 = b8@;
    let ghost g9 = b9@;
    let ghost g10 = b10@;
    let ghost g11 = b11@;
    let ghost g12 = b12@;

    raw.append(&mut b2);
    proof {
        lemma_views_add(g1, g2);
        lemma_all_wf_add(seq_views(g1), seq_views(g2));
    }
    let ghost h2 = raw@;
    raw.append(&mut b3);
    proof {
        lemma_views_add(h2, g3);
        lemma_all_wf_add(seq_views(h2), seq_views(g3));
    }
    let ghost h3 = raw@;
    raw.append(&mut b4);
    proof {
        lemma_views_add(h3, g4);
        lemma_all_wf_add(seq_views(h3), seq_views(g4));
    }
    let ghost h4 = raw@;
    raw.append(&mut b5);
    proof {
        lemma_views_add(h4, g5);
        lemma_all_wf_add(seq_views(h4), seq_views(g5));
    }
    let ghost h5 = raw@;
    raw.append(&mut b6);
    proof {
        lemma_views_add(h5, g6);
        lemma_all_wf_add(seq_views(h5), seq_views(g6));
    }
    let ghost h6 = raw@;
    raw.append(&mut b7);
    proof {
        lemma_views_add(h6, g7);
        lemma_all_wf_add(seq_views(h6), seq_views(g7));
    }
    let ghost h7 = raw@;
    raw.append(&mut b8);
    proof {
        lemma_views_add(h7, g8);
        lemma_all_wf_add(seq_views(h7), seq_views(g8));
    }
    let ghost h8 = raw@;
    raw.append(&mut b9);
    proof {
        lemma_views_add(h8, g9);
        lemma_all_wf_add(seq_views(h8), seq_views(g9));
    }
    let ghost h9 = raw@;
    raw.append(&mut b10);
    proof {
        lemma_views_add(h9, g10);
        lemma_all_wf_add(seq_views(h9), seq_views(g10));
    }
    let ghost h10 = raw@;
    raw.append(&mut b11);
    proof {
        lemma_views_add(h10, g11);
        lemma_all_wf_add(seq_views(h10), seq_views(g11));
    }
    let ghost h11 = raw@;
    raw.append(&mut b12);
    proof {
        lemma_views_add(h11, g12);
        lemma_all_wf_add(seq_views(h11), seq_views(g12));
        assert(seq_views(raw@) == spec_raw_paths(rel, *trig)) by {
            reveal(spec_raw_paths);
        }
    }
    raw
}

/// Degeneracy-filters a candidate list known to match the ghost sequence
/// `raw_spec` elementwise.
fn keep_stage(raw: &Vec<Path>, Ghost(raw_spec): Ghost<Seq<Seq<PathElement>>>) -> (out: Vec<Path>)
    requires
        raw@.len() == raw_spec.len(),
        forall|k: int| 0 <= k < raw@.len() ==> #[trigger] raw@[k]@ == raw_spec[k],
        forall|k: int| 0 <= k < raw@.len() ==> words::family_out_wf(#[trigger] raw@[k]@),
    ensures
        out@.len() == spec_keep_paths(raw_spec).len(),
        forall|i: int| 0 <= i < out@.len() ==> #[trigger] out@[i]@ == spec_keep_paths(raw_spec)[i],
        forall|i: int| 0 <= i < out@.len() ==> 1 <= #[trigger] out@[i]@.len() <= 5,
        forall|i: int, j: int| 0 <= i < out@.len() && 0 <= j < out@[i]@.len()
            ==> utils::EPS_FP < #[trigger] out@[i]@[j].param <= utils::PARAM_MAX,
{
    let mut out: Vec<Path> = Vec::new();
    let mut i: usize = 0;
    proof {
        assert(raw_spec.take(0) =~= Seq::<Seq<PathElement>>::empty());
    }
    while i < raw.len()
        invariant
            i <= raw.len(),
            raw@.len() == raw_spec.len(),
            forall|k: int| 0 <= k < raw@.len() ==> #[trigger] raw@[k]@ == raw_spec[k],
            forall|k: int| 0 <= k < raw@.len() ==> words::family_out_wf(#[trigger] raw@[k]@),
            out@.len() == spec_keep_paths(raw_spec.take(i as int)).len(),
            forall|k: int| 0 <= k < out@.len()
                ==> #[trigger] out@[k]@ == spec_keep_paths(raw_spec.take(i as int))[k],
            forall|k: int| 0 <= k < out@.len() ==> 1 <= #[trigger] out@[k]@.len() <= 5,
            forall|k: int, j: int| 0 <= k < out@.len() && 0 <= j < out@[k]@.len()
                ==> utils::EPS_FP < #[trigger] out@[k]@[j].param <= utils::PARAM_MAX,
        decreases raw.len() - i,
    {
        let f: Path = filter_path(&raw[i]);
        proof {
            assert(raw_spec.take(i as int + 1).drop_last() =~= raw_spec.take(i as int));
            assert(raw_spec.take(i as int + 1).last() == raw_spec[i as int]);
            lemma_filter_path_bounds(raw@[i as int]@);
            raw@[i as int]@.lemma_filter_len(|e: PathElement| spec_keep_elem(e));
        }
        if f.len() > 0 {
            out.push(f);
        }
        i = i + 1;
    }
    proof {
        assert(raw_spec.take(raw_spec.len() as int) =~= raw_spec);
    }
    out
}

/// Builds every candidate maneuver between the two poses: twelve word
/// families, each expanded by the four structural symmetries, then
/// degeneracy-filtered.  Yields at most 48 non-empty candidates, each of
/// one to five segments whose parameters all lie strictly above the
/// degeneracy threshold.
#[verifier::rlimit(100)]
pub fn get_all_paths(start: Pose, end: Pose, trig: &TrigTable) -> (r: Vec<Path>)
    requires
        utils::pose_wf(start),
        utils::pose_wf(end),
        trig_table_wf(*trig),
    ensures
        r@.len() == spec_all_paths(start, end, *trig).len(),
        forall|i: int| 0 <= i < r@.len() ==> r@[i]@ == spec_all_paths(start, end, *trig)[i],
        r@.len() <= 48,
        forall|i: int| 0 <= i < r@.len() ==> 1 <= #[trigger] r@[i]@.len() <= 5,
        forall|i: int, j: int| 0 <= i < r@.len() && 0 <= j < r@[i]@.len()
            ==> utils::EPS_FP < #[trigger] r@[i]@[j].param <= utils::PARAM_MAX,
{
    let rel: Pose = utils::change_of_basis(&start, &end, trig.sin_start, trig.cos_start);
    let raw: Vec<Path> = build_raw(rel, trig);
    proof {
        assert forall|k: int| 0 <= k < raw@.len() implies #[trigger] raw@[k]@
            == spec_raw_paths(rel, *trig)[k] && words::family_out_wf(raw@[k]@) by {
            assert(seq_views(raw@)[k] == raw@[k]@);
            assert(words::family_out_wf(seq_views(raw@)[k]));
        }
    }
    let out: Vec<Path> = keep_stage(&raw, Ghost(spec_raw_paths(rel, *trig)));
    proof {
        lemma_keep_paths_len(spec_raw_paths(rel, *trig));
    }
    out
}

/// `i` is the position of the first minimum-length candidate.
pub open spec fn is_first_min(s: Seq<Seq<PathElement>>, i: int) -> bool {
    &&& 0 <= i < s.len()
    &&& forall|j: int| 0 <= j < s.len() ==> spec_path_len(s[i]) <= spec_path_len(#[trigger] s[j])
    &&& forall|j: int| 0 <= j < i ==> spec_path_len(#[trigger] s[j]) > spec_path_len(s[i])
}

/// A path whose segments all carry a bounded parameter has bounded length.
proof fn lemma_path_len_upper(s: Seq<PathElement>)
    requires
        forall|i: int| 0 <= i < s.len() ==> 0 <= #[trigger] s[i].param <= utils::PARAM_MAX,
    ensures
        spec_path_len(s) <= s.len() * utils::PARAM_MAX as int,
    decreases s.len(),
{
    if s.len() > 0 {
        assert(forall|i: int| 0 <= i < s.drop_last().len()
            ==> 0 <= #[trigger] s.drop_last()[i].param <= utils::PARAM_MAX);
        lemma_path_len_upper(s.drop_last());
    }
}

/// A non-empty path of strictly positive parameters has strictly positive
/// length.
proof fn lemma_path_len_positive(s: Seq<PathElement>)
    requires
        s.len() >= 1,
        forall|i: int| 0 <= i < s.len() ==> #[trigger] s[i].param > 0,
    ensures
        spec_path_len(s) > 0,
    decreases s.len(),
{
    lemma_path_len_nonneg(s.drop_last());
}

fn clone_path(p: &Path) -> (r: Path)
    ensures
        r@ == p@,
{
    let mut out: Vec<PathElement> = Vec::new();
    let mut i: usize = 0;
    while i < p.len()
        invariant
            i <= p.len(),
            out@ == p@.take(i as int),
        decreases p.len() - i,
    {
        out.push(p[i]);
        proof {
            assert(p@.take(i as int + 1) =~= p@.take(i as int).push(p@[i as int]));
        }
        i = i + 1;
    }
    proof {
        assert(p@.take(p@.len() as int) =~= p@);
    }
    out
}

/// Picks the shortest candidate maneuver; ties resolve to the first one in
/// enumeration order.  Absent exactly when no candidate survives
/// filtering; a returned maneuver is non-empty and of strictly positive
/// length.
pub fn get_optimal_path(start: Pose, end: Pose, trig: &TrigTable) -> (r: Option<Path>)
    requires
        utils::pose_wf(start),
        utils::pose_wf(end),
        trig_table_wf(*trig),
    ensures
        (match r {
            Option::None => spec_all_paths(start, end, *trig).len() == 0,
            Option::Some(p) => {
                &&& exists|i: int|
                    is_first_min(spec_all_paths(start, end, *trig), i)
                        && p@ == spec_all_paths(start, end, *trig)[i]
                &&& 1 <= p@.len() <= 5
                &&& spec_path_len(p@) > 0
            },
        }),
{
    let cands: Vec<Path> = get_all_paths(start, end, trig);
    let ghost all = spec_all_paths(start, end, *trig);
    if cands.len() == 0 {
        return Option::None;
    }
    proof {
        lemma_path_len_upper(all[0]);
    }
    let mut best_idx: usize = 0;
    let mut best_len: i64 = path_length(&cands[0]);
    let mut i: usize = 1;
    while i < cands.len()
        invariant
            1 <= i <= cands.len(),
            cands@.len() == all.len(),
            all.len() >= 1,
            forall|k: int| 0 <= k < all.len() ==> #[trigger] cands@[k]@ == all[k],
            forall|k: int| 0 <= k < all.len() ==> 1 <= #[trigger] all[k].len() <= 5,
            forall|k: int, j: int| 0 <= k < all.len() && 0 <= j < all[k].len()
                ==> utils::EPS_FP < #[trigger] all[k][j].param <= utils::PARAM_MAX,
            best_idx < i,
            best_len as int == spec_path_len(all[best_idx as int]),
            forall|j: int| 0 <= j < i as int
                ==> spec_path_len(#[trigger] all[j]) >= best_len as int,
            forall|j: int| 0 <= j < best_idx as int
                ==> spec_path_len(#[trigger] all[j]) > best_len as int,
        decreases cands.len() - i,
    {
        proof {
            lemma_path_len_upper(all[i as int]);
        }
        let l: i64 = path_length(&cands[i]);
        if l < best_len {
            best_idx = i;
            best_len = l;
        }
        i = i + 1;
    }
    let best: Path = clone_path(&cands[best_idx]);
    proof {
        lemma_path_len_positive(all[best_idx as int]);
        assert(is_first_min(all, best_idx as int));
    }
    Option::Some(best)
}

/// Rigid-transform invariance, in the part that is exact in fixed point:
/// translating both poses by one offset (their headings unchanged) leaves
/// the relative pose, and with it every candidate the planner generates,
/// unchanged.  A common change of heading likewise leaves the relative
/// heading unchanged, which this lemma covers through the heading
/// equalities it requires.
pub proof fn lemma_translation_invariance(p1: Pose, p2: Pose, q1: Pose, q2: Pose, tt: TrigTable)
    requires
        q2.x as int - q1.x as int == p2.x as int - p1.x as int,
        q2.y as int - q1.y as int == p2.y as int - p1.y as int,
        q1.theta_degree == p1.theta_degree,
        q2.theta_degree == p2.theta_degree,
    ensures
        utils::spec_cob(q1, q2, tt.sin_start as int, tt.cos_start as int)
            == utils::spec_cob(p1, p2, tt.sin_start as int, tt.cos_start as int),
        spec_all_paths(q1, q2, tt) == spec_all_paths(p1, p2, tt),
{
}

/// The raw enumeration is non-empty and starts with family 1's direct
/// variant.
pub proof fn lemma_raw_paths_shape(rel: Pose, tt: TrigTable)
    ensures
        spec_raw_paths(rel, tt).len() >= 1,
        spec_raw_paths(rel, tt)[0] == words::spec_path1(
            rel.x as int, rel.y as int, rel.theta_degree as int,
            tt.sin_phi as int, tt.cos_phi as int, tt.direct.theta_left as int,
        ),
{
    reveal(spec_raw_paths);
    reveal(spec_block1);
}

/// If a candidate list's first entry survives filtering, it is the first
/// entry of the filtered list.
proof fn lemma_keep_paths_first(s: Seq<Seq<PathElement>>)
    requires
        s.len() >= 1,
        spec_filter_path(s[0]).len() > 0,
    ensures
        spec_keep_paths(s).len() >= 1,
        spec_keep_paths(s)[0] == spec_filter_path(s[0]),
    decreases s.len(),
{
    if s.len() == 1 {
        assert(s.drop_last() =~= Seq::<Seq<PathElement>>::empty());
        assert(s.last() == s[0]);
    } else {
        assert(s.drop_last()[0] == s[0]);
        lemma_keep_paths_first(s.drop_last());
    }
}

/// The straight-line case: for a goal at `(d, 0)` straight ahead with the
/// same heading, the very first candidate (family 1, direct) is the single
/// straight forward segment of length exactly `d`, so the selected optimal
/// maneuver is never longer than `d`.  The trigonometric inputs of this
/// query are exactly representable, which the lemma requires.
pub proof fn lemma_straight_line_candidate(start: Pose, end: Pose, d: int, tt: TrigTable)
    requires
        start.x == 0 && start.y == 0 && start.theta_degree == 0,
        end.x as int == d && end.y == 0 && end.theta_degree == 0,
        utils::EPS_FP < d <= utils::POSE_MAX as int,
        tt.sin_start == 0 && tt.cos_start as int == utils::SCALE as int,
        tt.sin_phi == 0 && tt.cos_phi as int == utils::SCALE as int,
        tt.direct.theta_left == 0,
    ensures
        spec_all_paths(start, end, tt).len() >= 1,
        spec_all_paths(start, end, tt)[0]
            == seq![PathElement { param: d as i64, steering: Steering::Straight, gear: Gear::Forward }],
        spec_path_len(spec_all_paths(start, end, tt)[0]) == d,
{
    let s_int: int = utils::SCALE as int;
    let rel = utils::spec_cob(start, end, 0, s_int);
    assert(rel.x as int == d && rel.y == 0 && rel.theta_degree == 0) by {
        lemma_div_multiples_vanish(d, s_int);
        assert(d * s_int == s_int * d) by (nonlinear_arith);
        assert(utils::spec_scale_div(d * s_int) == d);
        assert(utils::spec_cob_x(start, end, 0, s_int) == d);
        assert(utils::spec_cob_y(start, end, 0, s_int) == 0);
    }
    let raw = spec_raw_paths(rel, tt);
    let first = words::spec_path1(d, 0, 0, 0, s_int, 0);
    lemma_raw_paths_shape(rel, tt);
    assert(raw[0] == first) by {
        reveal(spec_block1);
    }
    let e0 = spec_create(0, Steering::Left, Gear::Forward);
    let e1 = spec_create(d, Steering::Straight, Gear::Forward);
    assert(first == seq![e0, e1, e0]) by {
        assert(utils::spec_deg2rad(0) == 0);
        assert(utils::spec_norm(0) == 0);
        assert(words::spec_rho_left(d, 0, 0, s_int) == d) by {
            assert(utils::is_sqrt_floor(d, d * d)) by (nonlinear_arith)
                requires d >= 0;
            utils::lemma_sqrt_floor_unique(d, d * d);
        }
        assert(first =~= seq![e0, e1, e0]);
    }
    let straight = seq![PathElement { param: d as i64, steering: Steering::Straight, gear: Gear::Forward }];
    assert(spec_filter_path(first) == straight) by {
        reveal_with_fuel(Seq::filter, 5);
        assert(seq![e0, e1, e0].drop_last() =~= seq![e0, e1]);
        assert(seq![e0, e1].drop_last() =~= seq![e0]);
        assert(seq![e0].drop_last() =~= Seq::<PathElement>::empty());
        assert(!spec_keep_elem(e0));
        assert(spec_keep_elem(e1));
        assert(spec_filter_path(first) =~= straight);
    }
    lemma_keep_paths_first(raw);
    assert(spec_path_len(straight) == d) by {
        assert(straight.drop_last() =~= Seq::<PathElement>::empty());
        assert(spec_path_len(Seq::<PathElement>::empty()) == 0);
        assert(straight.last().param as int == d);
    }
}

} // verus!
