use diffraction::difr::{Difr, EditState};
use diffraction::zones::fresnel_zones;

fn fresnel_fixed(u: i64) -> (i32, i32) {
    let (s, c) = fresnel::fresnl(u as f64 / 1e9);
    ((c * 1e9).round() as i32, (s * 1e9).round() as i32)
}

fn angle_fixed(im: i64, re: i64) -> i64 {
    ((im as f64).atan2(re as f64) * 1e9).round() as i64
}

// l1 = l2 = 25 cm and lambda = 0.5 cm give b = 0.5 * 25 * 25 / 50 = 6.25 cm^2.
const L: u32 = 25_000_000;
const LAMBDA: u32 = 500_000;

// The square of the extent MAX_X * sqrt(2), in squared length units.
const EXTENT_SQ: i64 = 800_000_000_000_000;

#[test]
fn zones_of_b_six_and_a_quarter_start_at_zero() {
    let zones = fresnel_zones(L, L, LAMBDA, 10_000_000, false);
    assert_eq!(zones[0], 0);
    assert_eq!(zones[1], 2_500_000);
    // sqrt(12.5) = 3.5355339...
    assert_eq!(zones[2], 3_535_533);
    assert!((zones[2] as f64 / 1e6 - 3.535534).abs() < 1e-5);
    assert_eq!(zones[4], 5_000_000);
}

#[test]
fn zones_of_b_six_and_a_quarter_ascend_strictly() {
    let zones = fresnel_zones(L, L, LAMBDA, 10_000_000, false);
    for i in 1..zones.len() {
        assert!(zones[i - 1] < zones[i]);
    }
}

#[test]
fn zones_of_b_six_and_a_quarter_end_at_the_cap() {
    let zones = fresnel_zones(L, L, LAMBDA, 10_000_000, false);
    // cap = 2 * round(400 / 6.25) = 128, and r_128 = sqrt(800) is the extent itself
    assert_eq!(zones.len(), 129);
    assert_eq!(*zones.last().unwrap(), 28_284_271);
    let beyond = zones.iter().filter(|r| **r * **r > EXTENT_SQ).count();
    assert_eq!(beyond, 0);
}

#[test]
fn zones_follow_the_formula() {
    let zones = fresnel_zones(L, L, LAMBDA, 10_000_000, false);
    for (n, r) in zones.iter().enumerate() {
        let real = (n as f64 * 6.25).sqrt();
        assert!((*r as f64 / 1e6 - real).abs() < 1e-5, "zone {n}: {r} against {real}");
    }
}

#[test]
fn zones_end_with_the_first_beyond_the_extent() {
    // b = 3 * 40 * 40 / 80 = 60 cm^2: r_13 = sqrt(780) = 27.93, r_14 = sqrt(840) = 28.98
    let zones = fresnel_zones(40_000_000, 40_000_000, 3_000_000, 10_000_000, false);
    assert_eq!(zones.len(), 15);
    assert_eq!(zones[13], 27_928_480);
    assert_eq!(zones[14], 28_982_753);
    let beyond = zones.iter().filter(|r| **r * **r > EXTENT_SQ).count();
    assert_eq!(beyond, 1);
    assert!(zones[14] * zones[14] > EXTENT_SQ);
}

#[test]
fn zones_of_a_circular_aperture_end_at_its_edge() {
    // r_1 = sqrt(60) = 7.745967, r_2 = sqrt(120) = 10.95: cut to the aperture's 10 cm
    let zones = fresnel_zones(40_000_000, 40_000_000, 3_000_000, 10_000_000, true);
    assert_eq!(zones, vec![0, 7_745_966, 10_000_000]);
    assert!((zones[1] as f64 / 1e6 - 7.745967).abs() < 1e-5);
}

#[test]
fn zones_of_a_circular_aperture_whose_edge_is_a_zone_radius() {
    // r_4 = sqrt(4 * 6.25) = 5 cm exactly
    let zones = fresnel_zones(L, L, LAMBDA, 5_000_000, true);
    assert_eq!(zones, vec![0, 2_500_000, 3_535_533, 4_330_127, 5_000_000]);
}

#[test]
fn zones_of_a_closed_circular_aperture() {
    assert_eq!(fresnel_zones(L, L, LAMBDA, 0, true), vec![0]);
    assert_eq!(fresnel_zones(L, L, LAMBDA, -7_000_000, true), vec![-7_000_000]);
}

#[test]
fn zones_stop_at_the_cap() {
    // b = 4000 cm^2: cap = 2 * round(400 / 4000) = 0
    let zones = fresnel_zones(400_000_000, 400_000_000, 20_000_000, 10_000_000, false);
    assert_eq!(zones, vec![0]);
    // b = 800 cm^2: 400 / 800 is rounded up, cap = 2, r_2 = 40 cm is beyond the extent
    let zones = fresnel_zones(400_000_000, 400_000_000, 4_000_000, 10_000_000, false);
    assert_eq!(zones, vec![0, 28_284_271, 40_000_000]);
    // b = 801 cm^2: 400 / 801 is rounded down, cap = 0
    let zones = fresnel_zones(400_000_000, 400_000_000, 4_005_000, 10_000_000, false);
    assert_eq!(zones, vec![0]);
}

#[test]
fn zones_of_a_tiny_b_ascend() {
    // b = 0.02 cm^2, far below the guard: many zones, none out of order
    let zones = fresnel_zones(40_000_000, 40_000_000, 1_000, 10_000_000, false);
    // cap = 2 * round(400 / 0.02) = 40 000; n * b > 800 never happens before it
    assert_eq!(zones.len(), 40_001);
    for i in 1..zones.len() {
        assert!(zones[i - 1] < zones[i]);
    }
    assert_eq!(*zones.last().unwrap(), 28_284_271);
}

#[test]
fn zones_without_a_distance_or_a_wavelength_are_none() {
    assert!(fresnel_zones(40_000_000, 40_000_000, 0, 10_000_000, false).is_empty());
    assert!(fresnel_zones(40_000_000, 40_000_000, 0, 10_000_000, true).is_empty());
    assert!(fresnel_zones(0, 40_000_000, 3_000_000, 10_000_000, false).is_empty());
    assert!(fresnel_zones(40_000_000, 0, 3_000_000, -5, true).is_empty());
    assert!(fresnel_zones(0, 0, 0, 0, true).is_empty());
}

#[test]
fn zones_of_a_b_too_small_for_the_cap_are_none() {
    // b = 0.0006 * 0.001 * 0.001 / 0.002 = 3e-7 cm^2: 2 * round(400 / b) = 2 666 666 666
    assert!(fresnel_zones(1_000, 1_000, 600, 10_000_000, false).is_empty());
    assert!(fresnel_zones(1_000, 1_000, 600, 10_000_000, true).is_empty());
    // the smallest b of all
    assert!(fresnel_zones(1, 1, 1, 10_000_000, false).is_empty());
    assert!(fresnel_zones(1, 1, 1, -1, true).is_empty());
}

#[test]
fn zones_of_the_largest_b() {
    // b = 4295 * 2147 cm^2: cap = 0
    let zones = fresnel_zones(u32::MAX, u32::MAX, u32::MAX, 10_000_000, false);
    assert_eq!(zones, vec![0]);
}

#[test]
fn model_zones_before_anything_is_committed_are_none() {
    let fz = Difr::default();
    assert!(fz.get_fresnel_zones(false).is_empty());
    assert!(fz.get_fresnel_zones(true).is_empty());
}

#[test]
fn model_zones_come_from_the_committed_parameters() {
    let mut fz = Difr::default();
    assert_eq!(fz.settle(&fresnel_fixed, &angle_fixed), EditState::DirtyCheap);
    fz.set_l1(25_000_000);
    fz.set_l2(25_000_000);
    // not settled yet: the zones are still those of the committed 40 cm, 40 cm, 3 cm
    assert_eq!(fz.get_fresnel_zones(true), vec![0, 7_745_966, 10_000_000]);
    assert_eq!(fz.get_fresnel_zones(false).len(), 15);
}
