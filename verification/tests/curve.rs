use std::cell::RefCell;

use diffraction::calc::DifrPoint;
use diffraction::curve::{build_profile, build_spiral, grid_x, sample, GRID_POINTS};
use diffraction::difr::{Difr, EditState, Screens};
use diffraction::optics::normalized;

fn fresnel_fixed(u: i64) -> (i32, i32) {
    let (s, c) = fresnel::fresnl(u as f64 / 1e9);
    ((c * 1e9).round() as i32, (s * 1e9).round() as i32)
}

fn angle_fixed(im: i64, re: i64) -> i64 {
    ((im as f64).atan2(re as f64) * 1e9).round() as i64
}

// The scale factor of 40 cm, 40 cm and 3 cm: 0.182574185835.
const K: i64 = 182_574_185_835;

// The scale factor of the largest distances and wavelength of the type.
const K_SMALLEST: i64 = 465_661_287;

#[test]
fn grid_of_one_screen_spans_the_plane() {
    assert_eq!(grid_x(Screens::One, 0), -20_000_000);
    assert_eq!(grid_x(Screens::One, 1), -19_960_000);
    assert_eq!(grid_x(Screens::One, 500), 0);
    assert_eq!(grid_x(Screens::One, 1000), 20_000_000);
}

#[test]
fn grid_of_two_screens_spans_the_half_plane() {
    assert_eq!(grid_x(Screens::Two, 0), 0);
    assert_eq!(grid_x(Screens::Two, 1), 20_000);
    assert_eq!(grid_x(Screens::Two, 500), 10_000_000);
    assert_eq!(grid_x(Screens::Two, 1000), 20_000_000);
}

#[test]
fn spiral_has_a_sample_for_each_grid_position() {
    let spiral = build_spiral(K, &fresnel_fixed);
    assert_eq!(spiral.len(), GRID_POINTS);
    for (i, p) in spiral.iter().enumerate() {
        let u = normalized(grid_x(Screens::One, i), K);
        let (c, s) = fresnel_fixed(u);
        assert_eq!(*p, (u, c as i64, s as i64));
    }
    for i in 1..spiral.len() {
        assert!(spiral[i - 1].0 < spiral[i].0);
    }
}

#[test]
fn spiral_passes_through_the_origin_and_is_odd() {
    let spiral = build_spiral(K, &fresnel_fixed);
    assert_eq!(spiral[500], (0, 0, 0));
    for i in 0..=500 {
        let (u, c, s) = spiral[i];
        assert_eq!(spiral[1000 - i], (-u, -c, -s));
    }
}

#[test]
fn spiral_holds_the_fresnel_integrals() {
    let spiral = build_spiral(K, &fresnel_fixed);
    // u = 20 * 0.182574185835 = 3.651483716
    let (u, c, s) = spiral[1000];
    assert_eq!(u, 3_651_483_716);
    let (s_real, c_real) = fresnel::fresnl(3.651483716);
    assert!((c as f64 / 1e9 - c_real).abs() < 1e-9);
    assert!((s as f64 / 1e9 - s_real).abs() < 1e-9);
    assert!(c != s);
}

#[test]
fn spiral_asks_for_each_grid_position_once_and_in_order() {
    let asked: RefCell<Vec<i64>> = RefCell::new(Vec::new());
    let recording = |u: i64| -> (i32, i32) {
        asked.borrow_mut().push(u);
        (7, -9)
    };
    let spiral = build_spiral(1_000_000_000_000, &recording);
    let asked = asked.into_inner();
    assert_eq!(asked.len(), 1001);
    for (i, u) in asked.iter().enumerate() {
        // with k = 1 the Fresnel parameter is the position in centimetres
        assert_eq!(*u, (i as i64 * 40_000 - 20_000_000) * 1_000);
        assert_eq!(spiral[i], (*u, 7, -9));
    }
}

#[test]
fn curves_ascend_strictly_for_the_smallest_scale_factor() {
    let constant = |_u: i64| -> (i32, i32) { (0, 0) };
    let spiral = build_spiral(K_SMALLEST, &constant);
    for i in 1..spiral.len() {
        assert!(spiral[i - 1].0 < spiral[i].0);
    }
    for rezhim in [Screens::One, Screens::Two] {
        let profile = build_profile(rezhim, K_SMALLEST, &constant, &angle_fixed);
        assert_eq!(profile.len(), spiral.len());
        for i in 1..profile.len() {
            assert!(profile[i - 1].u < profile[i].u);
        }
    }
    // 0.02 cm * 0.000465661287 = 9.3e-6
    let profile = build_profile(Screens::Two, K_SMALLEST, &constant, &angle_fixed);
    assert_eq!(profile[1].u, 9_313);
    assert_eq!(profile[2].u, 18_626);
}

#[test]
fn curves_ascend_strictly_for_the_largest_distances_and_wavelength() {
    let mut fz = Difr::default();
    fz.set_l1(u32::MAX);
    fz.set_l2(u32::MAX);
    fz.set_lambda(u32::MAX);
    assert_eq!(fz.settle(&fresnel_fixed, &angle_fixed), EditState::DirtyCheap);
    assert_eq!(fz.k(), K_SMALLEST);
    for rezhim in [Screens::One, Screens::Two] {
        assert_eq!(fz.rezhim(), rezhim);
        assert_eq!(fz.difs().len(), fz.difs_3d().len());
        for i in 1..1001 {
            assert!(fz.difs()[i - 1].p_norm()[0] < fz.difs()[i].p_norm()[0]);
            assert!(fz.difs_3d()[i - 1].0 < fz.difs_3d()[i].0);
        }
        fz.switch_screens(&fresnel_fixed, &angle_fixed);
    }
}

#[test]
fn sample_of_one_screen() {
    let p = sample(Screens::One, 0, &fresnel_fixed, &angle_fixed);
    // re = im = 1/2: amplitude 1/2, phase pi/4
    assert_eq!(p, DifrPoint { u: 0, abs: 500_000_000, phi: 785_398_163 });
}

#[test]
fn sample_of_two_screens_at_the_axis_is_dark() {
    let p = sample(Screens::Two, 0, &fresnel_fixed, &angle_fixed);
    assert_eq!(p, DifrPoint { u: 0, abs: 0, phi: 0 });
}

#[test]
fn sample_far_behind_one_edge() {
    let p = sample(Screens::One, 50_000_000_000, &fresnel_fixed, &angle_fixed);
    // C(50) = 0.5 and S(50) = 0.5 - 1 / (50 pi): the amplitude is 0.99682, not yet 1
    let (s, c) = fresnel::fresnl(50.0);
    let real = (c + 0.5).hypot(s + 0.5) / std::f64::consts::SQRT_2;
    assert!((real - 0.99682).abs() < 1e-5);
    assert!((p.abs as f64 / 1e9 - real).abs() < 5e-9, "{}", p.abs);
    assert!((p.abs - 1_000_000_000).abs() < 4_000_000);
    let far = sample(Screens::One, 5_000_000_000_000, &fresnel_fixed, &angle_fixed);
    assert!((far.abs - 1_000_000_000).abs() < 100_000, "{}", far.abs);
}

#[test]
fn sample_tends_to_one_behind_one_edge() {
    // the amplitude is within 0.25 / u of 1 from u = 2 on
    let mut u: i64 = 2_000_000_000;
    while u < 4_000_000_000_000_000 {
        let p = sample(Screens::One, u, &fresnel_fixed, &angle_fixed);
        let off = (p.abs - 1_000_000_000).abs() as f64 / 1e9;
        assert!(off <= 0.25 / (u as f64 / 1e9) + 2e-6, "{u}: {}", p.abs);
        u += u / 7 + 1;
    }
}

#[test]
fn sample_far_before_one_edge_is_dark() {
    let p = sample(Screens::One, -5_000_000_000_000, &fresnel_fixed, &angle_fixed);
    assert!(p.abs < 100_000, "{}", p.abs);
}

#[test]
fn sample_hands_the_phasor_to_the_angle() {
    let seen: RefCell<Vec<(i64, i64)>> = RefCell::new(Vec::new());
    let constant = |_u: i64| -> (i32, i32) { (100_000_000, -200_000_000) };
    let recording = |im: i64, re: i64| -> i64 {
        seen.borrow_mut().push((im, re));
        42
    };
    let one = sample(Screens::One, 5, &constant, &recording);
    let two = sample(Screens::Two, 6, &constant, &recording);
    assert_eq!(
        seen.into_inner(),
        vec![(300_000_000, 600_000_000), (-400_000_000, 200_000_000)]
    );
    // sqrt((0.6^2 + 0.3^2) / 2) = 0.474341649..., sqrt((0.2^2 + 0.4^2) / 2) = 0.316227766...
    assert_eq!(one, DifrPoint { u: 5, abs: 474_341_649, phi: 42 });
    assert_eq!(two, DifrPoint { u: 6, abs: 316_227_766, phi: 42 });
}

#[test]
fn profile_of_one_screen_follows_the_formula() {
    let profile = build_profile(Screens::One, K, &fresnel_fixed, &angle_fixed);
    assert_eq!(profile.len(), GRID_POINTS);
    for (i, p) in profile.iter().enumerate() {
        let x = -20.0 + i as f64 * 0.04;
        let u = normalized(grid_x(Screens::One, i), K);
        assert_eq!(p.u, u);
        assert!((u as f64 / 1e9 - x * 0.182574185835).abs() < 2e-9);
        let (s, c) = fresnel::fresnl(u as f64 / 1e9);
        let (re, im) = (c + 0.5, s + 0.5);
        let abs = re.hypot(im) / std::f64::consts::SQRT_2;
        assert!((p.abs as f64 / 1e9 - abs).abs() < 5e-9, "{i}: {} against {abs}", p.abs);
        if abs > 1e-3 {
            assert!((p.phi as f64 / 1e9 - im.atan2(re)).abs() < 1e-5);
        }
    }
}

#[test]
fn profile_of_two_screens_follows_the_formula() {
    let profile = build_profile(Screens::Two, K, &fresnel_fixed, &angle_fixed);
    assert_eq!(profile.len(), GRID_POINTS);
    assert_eq!(profile[0], DifrPoint { u: 0, abs: 0, phi: 0 });
    for (i, p) in profile.iter().enumerate() {
        let x = i as f64 * 0.02;
        let u = normalized(grid_x(Screens::Two, i), K);
        assert_eq!(p.u, u);
        assert!((u as f64 / 1e9 - x * 0.182574185835).abs() < 2e-9);
        let (s, c) = fresnel::fresnl(u as f64 / 1e9);
        let abs = (2.0 * c).hypot(2.0 * s) / std::f64::consts::SQRT_2;
        assert!((p.abs as f64 / 1e9 - abs).abs() < 5e-9, "{i}: {} against {abs}", p.abs);
    }
}

#[test]
fn curve_3d_is_the_same_behind_one_and_two_screens() {
    let mut one = Difr::default();
    let mut two = Difr::default();
    assert_eq!(one.settle(&fresnel_fixed, &angle_fixed), EditState::DirtyCheap);
    assert_eq!(two.settle(&fresnel_fixed, &angle_fixed), EditState::DirtyCheap);
    two.switch_screens(&fresnel_fixed, &angle_fixed);
    assert_eq!(one.rezhim(), Screens::One);
    assert_eq!(two.rezhim(), Screens::Two);
    assert_eq!(one.difs_3d(), two.difs_3d());
    assert!(one.difs() != two.difs());
}

#[test]
fn rebuild_twice_gives_the_same_curves() {
    let mut fz = Difr::default();
    fz.settle(&fresnel_fixed, &angle_fixed);
    let first_1d = fz.difs().clone();
    let first_3d = fz.difs_3d().clone();
    fz.rebuild_integrals(&fresnel_fixed, &angle_fixed);
    assert_eq!(fz.difs(), &first_1d);
    assert_eq!(fz.difs_3d(), &first_3d);
    fz.rebuild_integrals(&fresnel_fixed, &angle_fixed);
    assert_eq!(fz.difs(), &first_1d);
    assert_eq!(fz.difs_3d(), &first_3d);
}

#[test]
fn rebuild_uses_the_committed_parameters() {
    let mut fz = Difr::default();
    fz.settle(&fresnel_fixed, &angle_fixed);
    let first_3d = fz.difs_3d().clone();
    fz.set_l1(10_000_000);
    // the edit is pending: a rebuild still gives the curves of what was committed
    fz.rebuild_integrals(&fresnel_fixed, &angle_fixed);
    assert_eq!(fz.difs_3d(), &first_3d);
    assert_eq!(fz.settle(&fresnel_fixed, &angle_fixed), EditState::DirtyCheap);
    assert!(fz.difs_3d() != &first_3d);
    assert_eq!(fz.difs_3d(), &build_spiral(fz.k(), &fresnel_fixed));
    assert_eq!(fz.difs(), &build_profile(Screens::One, fz.k(), &fresnel_fixed, &angle_fixed));
}
