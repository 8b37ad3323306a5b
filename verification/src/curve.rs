//! The sampled curves: the Cornu spiral and the diffraction profile.
//!
//! The Fresnel integrals and the angle of a complex number are not computed
//! here. Whoever builds a curve hands in two functions: `fresnel`, which
//! returns `(C(u), S(u))` in billionths for a Fresnel parameter `u` in
//! billionths, and `angle`, which returns the angle of `re + i * im` in
//! billionths of a radian when called with `(im, re)`. A curve is stated in
//! terms of what these two functions return.
use vstd::prelude::*;
use crate::calc::DifrPoint;
use crate::difr::{Screens, MAX_X};
use crate::optics::{norm, normalized, phasor, spec_im, spec_norm, spec_re, spec_u, K_MAX};

verus! {

/// The distance between neighbouring samples of the spiral: 0.04 cm.
pub const GRID_STEP: i32 = 40_000;

/// The number of samples of each curve.
pub const GRID_POINTS: usize = 1001;

/// The position of sample `i`. Before one screen the samples span the whole
/// plane from `-MAX_X` to `MAX_X`; before two screens, whose pattern is
/// symmetric, they span the half from the axis to `MAX_X` at half the step.
pub open spec fn spec_grid_x(rezhim: Screens, i: int) -> int {
    match rezhim {
        Screens::One => i * GRID_STEP as int - MAX_X as int,
        Screens::Two => i * GRID_STEP as int / 2,
    }
}

/// Whether `fresnel` may return `(c, s)` for `u`.
pub open spec fn is_fresnel_at<F: Fn(i64) -> (i32, i32)>(fresnel: &F, u: i64, c: i64, s: i64) -> bool {
    &&& i32::MIN <= c <= i32::MAX
    &&& i32::MIN <= s <= i32::MAX
    &&& call_ensures(*fresnel, (u,), (c as i32, s as i32))
}

/// Whether `p` is the sample of the diffraction profile at `u`: its amplitude
/// and phase are those of the wave whose Fresnel integrals `fresnel` returned
/// for `u`.
pub open spec fn is_sample<F: Fn(i64) -> (i32, i32), G: Fn(i64, i64) -> i64>(
    fresnel: &F,
    angle: &G,
    rezhim: Screens,
    u: i64,
    p: DifrPoint,
) -> bool {
    &&& p.u == u
    &&& exists|c: i32, s: i32|
        {
            &&& #[trigger] call_ensures(*fresnel, (u,), (c, s))
            &&& p.abs == spec_norm(rezhim, c as int, s as int)
            &&& call_ensures(
                *angle,
                (spec_im(rezhim, s as int) as i64, spec_re(rezhim, c as int) as i64),
                p.phi,
            )
        }
}

/// Whether `curve` is the Cornu spiral sampled with scale factor `k`: sample
/// `i` is `(u, C(u), S(u))` at the Fresnel parameter of position `i` of the
/// whole plane. The screens have no part in it.
pub open spec fn is_spiral<F: Fn(i64) -> (i32, i32)>(
    fresnel: &F,
    k: int,
    curve: Seq<(i64, i64, i64)>,
) -> bool {
    &&& curve.len() == GRID_POINTS
    &&& forall|i: int|
        0 <= i < GRID_POINTS ==> {
            &&& (#[trigger] curve[i]).0 == spec_u(spec_grid_x(Screens::One, i), k)
            &&& is_fresnel_at(fresnel, curve[i].0, curve[i].1, curve[i].2)
        }
}

/// Whether `curve` is the diffraction profile behind the given screens,
/// sampled with scale factor `k`.
pub open spec fn is_profile<F: Fn(i64) -> (i32, i32), G: Fn(i64, i64) -> i64>(
    fresnel: &F,
    angle: &G,
    rezhim: Screens,
    k: int,
    curve: Seq<DifrPoint>,
) -> bool {
    &&& curve.len() == GRID_POINTS
    &&& forall|i: int|
        0 <= i < GRID_POINTS ==> spec_u(spec_grid_x(rezhim, i), k) == (#[trigger] curve[i]).u
            && is_sample(fresnel, angle, rezhim, curve[i].u, curve[i])
}

/// Whether `fresnel` returns one value only for each argument.
pub open spec fn is_function<F: Fn(i64) -> (i32, i32)>(fresnel: &F) -> bool {
    forall|u: i64, a: (i32, i32), b: (i32, i32)|
        #[trigger] call_ensures(*fresnel, (u,), a) && #[trigger] call_ensures(*fresnel, (u,), b)
            ==> a == b
}

/// Whether `angle` returns one value only for each pair of arguments.
pub open spec fn is_angle_function<G: Fn(i64, i64) -> i64>(angle: &G) -> bool {
    forall|yx: (i64, i64), a: i64, b: i64|
        #[trigger] call_ensures(*angle, yx, a) && #[trigger] call_ensures(*angle, yx, b) ==> a
            == b
}

/// Whether `fresnel` accepts every argument.
pub open spec fn is_total<F: Fn(i64) -> (i32, i32)>(fresnel: &F) -> bool {
    forall|u: i64| call_requires(*fresnel, (u,))
}

/// Whether `angle` accepts every pair of arguments.
pub open spec fn is_angle_total<G: Fn(i64, i64) -> i64>(angle: &G) -> bool {
    forall|y: i64, x: i64| call_requires(*angle, (y, x))
}

/// Computes the position of sample `i` of a curve.
pub fn grid_x(rezhim: Screens, i: usize) -> (x: i32)
    requires
        i < GRID_POINTS,
    ensures
        x == spec_grid_x(rezhim, i as int),
        -MAX_X <= x <= MAX_X,
{
    match rezhim {
        Screens::One => (i as i32) * GRID_STEP - MAX_X,
        Screens::Two => (i as i32) * GRID_STEP / 2,
    }
}

/// Computes the sample of the diffraction profile at `u`.
pub fn sample<F: Fn(i64) -> (i32, i32), G: Fn(i64, i64) -> i64>(
    rezhim: Screens,
    u: i64,
    fresnel: &F,
    angle: &G,
) -> (p: DifrPoint)
    requires
        is_total(fresnel),
        is_angle_total(angle),
    ensures
        is_sample(fresnel, angle, rezhim, u, p),
{
    let (c, s) = fresnel(u);
    let (re, im) = phasor(rezhim, c, s);
    let abs: i64 = norm(rezhim, c, s);
    let phi: i64 = angle(im, re);
    DifrPoint::new(u, abs, phi)
}

/// Samples the Cornu spiral over the whole plane.
pub fn build_spiral<F: Fn(i64) -> (i32, i32)>(k: i64, fresnel: &F) -> (curve: Vec<(i64, i64, i64)>)
    requires
        0 <= k <= K_MAX,
        is_total(fresnel),
    ensures
        is_spiral(fresnel, k as int, curve@),
{
    let mut curve: Vec<(i64, i64, i64)> = Vec::new();
    let mut i: usize = 0;
    while i < GRID_POINTS
        invariant
            0 <= k <= K_MAX,
            is_total(fresnel),
            i <= GRID_POINTS,
            curve@.len() == i,
            forall|j: int|
                0 <= j < i ==> {
                    &&& (#[trigger] curve@[j]).0 == spec_u(spec_grid_x(Screens::One, j), k as int)
                    &&& is_fresnel_at(fresnel, curve@[j].0, curve@[j].1, curve@[j].2)
                },
        decreases GRID_POINTS - i,
    {
        let x: i32 = grid_x(Screens::One, i);
        let u: i64 = normalized(x, k);
        let (c, s) = fresnel(u);
        curve.push((u, c as i64, s as i64));
        i = i + 1;
    }
    curve
}

/// Samples the diffraction profile behind the given screens.
pub fn build_profile<F: Fn(i64) -> (i32, i32), G: Fn(i64, i64) -> i64>(
    rezhim: Screens,
    k: i64,
    fresnel: &F,
    angle: &G,
) -> (curve: Vec<DifrPoint>)
    requires
        0 <= k <= K_MAX,
        is_total(fresnel),
        is_angle_total(angle),
    ensures
        is_profile(fresnel, angle, rezhim, k as int, curve@),
{
    let mut curve: Vec<DifrPoint> = Vec::new();
    let mut i: usize = 0;
    while i < GRID_POINTS
        invariant
            0 <= k <= K_MAX,
            is_total(fresnel),
            is_angle_total(angle),
            i <= GRID_POINTS,
            curve@.len() == i,
            forall|j: int|
                0 <= j < i ==> spec_u(spec_grid_x(rezhim, j), k as int) == (#[trigger] curve@[j]).u
                    && is_sample(fresnel, angle, rezhim, curve@[j].u, curve@[j]),
        decreases GRID_POINTS - i,
    {
        let x: i32 = grid_x(rezhim, i);
        let u: i64 = normalized(x, k);
        let p: DifrPoint = sample(rezhim, u, fresnel, angle);
        curve.push(p);
        i = i + 1;
    }
    curve
}

/// The Fresnel parameter grows with the position, and grows strictly from
/// one sample to the next for every scale factor of positive parameters
/// (none of which is below 50 000 in its scale).
pub proof fn lemma_grid_ascends(rezhim: Screens, k: int, i: int, j: int)
    requires
        0 <= k,
        0 <= i <= j < GRID_POINTS,
    ensures
        spec_u(spec_grid_x(rezhim, i), k) <= spec_u(spec_grid_x(rezhim, j), k),
        k >= 50_000 && i < j ==> spec_u(spec_grid_x(rezhim, i), k) < spec_u(
            spec_grid_x(rezhim, j),
            k,
        ),
{
    let x = spec_grid_x(rezhim, i);
    let y = spec_grid_x(rezhim, j);
    assert(x <= y && (i < j ==> x + 20_000 <= y)) by {
        match rezhim {
            Screens::One => {},
            Screens::Two => {
                assert(i * 40_000 / 2 == i * 20_000 && j * 40_000 / 2 == j * 20_000);
            },
        }
    }
    if x >= 0 {
        assert(x * k / 1_000_000_000 <= y * k / 1_000_000_000 && (k >= 50_000 && x + 20_000 <= y
            ==> x * k / 1_000_000_000 < y * k / 1_000_000_000)) by (nonlinear_arith)
            requires
                0 <= x <= y,
                0 <= k,
        ;
    } else if y >= 0 {
        // a position left of the axis is a whole step away from it
        assert(x <= -40_000);
        assert(0 < (-x) * k / 1_000_000_000 + y * k / 1_000_000_000 || k < 50_000) by (nonlinear_arith)
            requires
                x <= -40_000,
                0 <= y,
                0 <= k,
        ;
        assert(0 <= (-x) * k / 1_000_000_000 && 0 <= y * k / 1_000_000_000) by (nonlinear_arith)
            requires
                x < 0 <= y,
                0 <= k,
        ;
    } else {
        assert((-y) * k / 1_000_000_000 <= (-x) * k / 1_000_000_000 && (k >= 50_000 && x + 20_000
            <= y ==> (-y) * k / 1_000_000_000 < (-x) * k / 1_000_000_000)) by (nonlinear_arith)
            requires
                0 <= -y <= -x,
                0 <= k,
        ;
    }
}

/// Both curves are ordered by the Fresnel parameter of their samples, and for
/// every scale factor of positive parameters no two samples share one.
pub proof fn lemma_curves_ascend<F: Fn(i64) -> (i32, i32), G: Fn(i64, i64) -> i64>(
    fresnel: &F,
    angle: &G,
    rezhim: Screens,
    k: int,
    spiral: Seq<(i64, i64, i64)>,
    profile: Seq<DifrPoint>,
)
    requires
        0 <= k,
        is_spiral(fresnel, k, spiral),
        is_profile(fresnel, angle, rezhim, k, profile),
    ensures
        forall|i: int, j: int| 0 <= i <= j < GRID_POINTS ==> spiral[i].0 <= spiral[j].0,
        forall|i: int, j: int| 0 <= i <= j < GRID_POINTS ==> profile[i].u <= profile[j].u,
        k >= 50_000 ==> forall|i: int, j: int|
            0 <= i < j < GRID_POINTS ==> spiral[i].0 < spiral[j].0,
        k >= 50_000 ==> forall|i: int, j: int|
            0 <= i < j < GRID_POINTS ==> profile[i].u < profile[j].u,
{
    assert forall|i: int, j: int| 0 <= i <= j < GRID_POINTS implies spiral[i].0 <= spiral[j].0 && (
    k >= 50_000 && i < j ==> spiral[i].0 < spiral[j].0) by {
        lemma_grid_ascends(Screens::One, k, i, j);
    }
    assert forall|i: int, j: int| 0 <= i <= j < GRID_POINTS implies profile[i].u <= profile[j].u
        && (k >= 50_000 && i < j ==> profile[i].u < profile[j].u) by {
        lemma_grid_ascends(rezhim, k, i, j);
    }
}

/// The spiral is the same whatever the screens: a function `fresnel` and a
/// scale factor leave room for one spiral only.
pub proof fn lemma_spiral_unique<F: Fn(i64) -> (i32, i32)>(
    fresnel: &F,
    k: int,
    a: Seq<(i64, i64, i64)>,
    b: Seq<(i64, i64, i64)>,
)
    requires
        is_function(fresnel),
        is_spiral(fresnel, k, a),
        is_spiral(fresnel, k, b),
    ensures
        a == b,
{
    assert forall|i: int| 0 <= i < GRID_POINTS implies a[i] == b[i] by {
        let u = a[i].0;
        assert(b[i].0 == u);
        assert(call_ensures(*fresnel, (u,), (a[i].1 as i32, a[i].2 as i32)));
        assert(call_ensures(*fresnel, (u,), (b[i].1 as i32, b[i].2 as i32)));
    }
    assert(a =~= b);
}

/// Building a profile again gives the same profile: two functions, the
/// screens and a scale factor leave room for one profile only.
pub proof fn lemma_profile_unique<F: Fn(i64) -> (i32, i32), G: Fn(i64, i64) -> i64>(
    fresnel: &F,
    angle: &G,
    rezhim: Screens,
    k: int,
    a: Seq<DifrPoint>,
    b: Seq<DifrPoint>,
)
    requires
        is_function(fresnel),
        is_angle_function(angle),
        is_profile(fresnel, angle, rezhim, k, a),
        is_profile(fresnel, angle, rezhim, k, b),
    ensures
        a == b,
{
    assert forall|i: int| 0 <= i < GRID_POINTS implies a[i] == b[i] by {
        let u = a[i].u;
        assert(b[i].u == u);
        assert(is_sample(fresnel, angle, rezhim, u, a[i]));
        assert(is_sample(fresnel, angle, rezhim, u, b[i]));
        let (ca, sa) = choose|c: i32, s: i32|
            {
                &&& #[trigger] call_ensures(*fresnel, (u,), (c, s))
                &&& a[i].abs == spec_norm(rezhim, c as int, s as int)
                &&& call_ensures(
                    *angle,
                    (spec_im(rezhim, s as int) as i64, spec_re(rezhim, c as int) as i64),
                    a[i].phi,
                )
            };
        let (cb, sb) = choose|c: i32, s: i32|
            {
                &&& #[trigger] call_ensures(*fresnel, (u,), (c, s))
                &&& b[i].abs == spec_norm(rezhim, c as int, s as int)
                &&& call_ensures(
                    *angle,
                    (spec_im(rezhim, s as int) as i64, spec_re(rezhim, c as int) as i64),
                    b[i].phi,
                )
            };
        assert((ca, sa) == (cb, sb));
    }
    assert(a =~= b);
}

} // verus!
