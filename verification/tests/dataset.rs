use diffraction::dataset::{ratio, sort_by_position, ExperimentalDataSet, MAX_POINTS};

fn set_of(points: &[(i32, i32)]) -> ExperimentalDataSet {
    let mut set = ExperimentalDataSet::new();
    for &(x, i) in points {
        assert!(set.insert(x, i));
    }
    set
}

#[test]
fn new_set_is_empty() {
    let set = ExperimentalDataSet::new();
    assert_eq!(set.len(), 0);
    assert!(set.points().is_empty());
    assert_eq!(set.reference_current(), 0);
    let other = ExperimentalDataSet::default();
    assert_eq!(other.len(), 0);
    assert_eq!(other.reference_current(), 0);
}

#[test]
fn resort_orders_by_position() {
    let mut set = set_of(&[(3, 1), (1, 2), (0, 0)]);
    set.resort();
    assert_eq!(set.points(), &vec![(0, 0), (1, 2), (3, 1)]);
}

#[test]
fn resort_keeps_the_order_of_points_at_one_position() {
    let mut set = set_of(&[(5, 1), (2, 9), (5, 2), (2, 8), (5, 3), (-1, 0), (2, 7)]);
    set.resort();
    assert_eq!(set.points(), &vec![(-1, 0), (2, 9), (2, 8), (2, 7), (5, 1), (5, 2), (5, 3)]);
}

#[test]
fn resort_ignores_the_current() {
    let mut set = set_of(&[(1, 5), (1, -5), (1, 0)]);
    set.resort();
    assert_eq!(set.points(), &vec![(1, 5), (1, -5), (1, 0)]);
}

#[test]
fn resort_of_few_points() {
    let mut set = ExperimentalDataSet::new();
    set.resort();
    assert_eq!(set.len(), 0);
    assert!(set.insert(4, 4));
    set.resort();
    assert_eq!(set.points(), &vec![(4, 4)]);
}

#[test]
fn sort_by_position_agrees_with_a_stable_sort() {
    let mut seed: u64 = 0x2545_f491_4f6c_dd1d;
    for round in 0..200 {
        let mut points: Vec<(i32, i32)> = Vec::new();
        for k in 0..(round % 37) {
            seed ^= seed << 13;
            seed ^= seed >> 7;
            seed ^= seed << 17;
            points.push(((seed % 11) as i32 - 5, k));
        }
        let mut expected = points.clone();
        expected.sort_by(|a, b| a.0.cmp(&b.0));
        sort_by_position(&mut points);
        assert_eq!(points, expected);
    }
}

#[test]
fn sort_by_position_of_extreme_positions() {
    let mut points = vec![(i32::MAX, 1), (0, 2), (i32::MIN, 3), (i32::MAX, 4), (i32::MIN, 5)];
    sort_by_position(&mut points);
    assert_eq!(points, vec![(i32::MIN, 3), (i32::MIN, 5), (0, 2), (i32::MAX, 1), (i32::MAX, 4)]);
}

#[test]
fn insert_rejects_the_fifty_first_point() {
    let mut set = ExperimentalDataSet::new();
    for n in 0..50 {
        assert!(set.insert(n, n + 1));
    }
    assert_eq!(set.len(), MAX_POINTS);
    let before = set.points().clone();
    assert!(!set.insert(50, 51));
    assert_eq!(set.len(), 50);
    assert_eq!(set.points(), &before);
}

#[test]
fn set_position_and_set_current_edit_one_field() {
    let mut set = set_of(&[(3, 1), (1, 2)]);
    set.set_position(0, 7);
    assert_eq!(set.points(), &vec![(7, 1), (1, 2)]);
    set.set_current(1, -4);
    assert_eq!(set.points(), &vec![(7, 1), (1, -4)]);
}

#[test]
fn reference_current_is_kept_beside_the_points() {
    let mut set = set_of(&[(3, 1)]);
    set.set_reference_current(25_000);
    assert_eq!(set.reference_current(), 25_000);
    *set.reference_current_mut() += 5;
    assert_eq!(set.reference_current(), 25_005);
    set.resort();
    set.maintain_sentinel();
    assert_eq!(set.reference_current(), 25_005);
    assert_eq!(set.points(), &vec![(3, 1), (0, 0)]);
}

#[test]
fn maintain_sentinel_gives_an_empty_set_its_row() {
    let mut set = ExperimentalDataSet::new();
    set.maintain_sentinel();
    assert_eq!(set.points(), &vec![(0, 0)]);
    set.maintain_sentinel();
    assert_eq!(set.points(), &vec![(0, 0)]);
}

#[test]
fn maintain_sentinel_appends_after_a_measured_point() {
    let mut set = set_of(&[(3, 1), (1, 2)]);
    set.maintain_sentinel();
    assert_eq!(set.points(), &vec![(3, 1), (1, 2), (0, 0)]);
    set.maintain_sentinel();
    assert_eq!(set.points(), &vec![(3, 1), (1, 2), (0, 0)]);
}

#[test]
fn maintain_sentinel_moves_the_row_back_to_the_end() {
    let mut set = set_of(&[(3, 1), (1, 2), (0, 0)]);
    set.resort();
    assert_eq!(set.points(), &vec![(0, 0), (1, 2), (3, 1)]);
    set.maintain_sentinel();
    assert_eq!(set.points(), &vec![(1, 2), (3, 1), (0, 0)]);
}

#[test]
fn maintain_sentinel_removes_one_row_at_a_time() {
    let mut set = set_of(&[(0, 0), (0, 0), (0, 0)]);
    set.maintain_sentinel();
    assert_eq!(set.points(), &vec![(0, 0), (0, 0)]);
    set.maintain_sentinel();
    assert_eq!(set.points(), &vec![(0, 0)]);
}

#[test]
fn maintain_sentinel_keeps_half_empty_rows() {
    let mut set = set_of(&[(0, 5), (7, 0)]);
    set.maintain_sentinel();
    assert_eq!(set.points(), &vec![(0, 5), (7, 0), (0, 0)]);
}

#[test]
fn maintain_sentinel_of_a_full_set() {
    let mut set = ExperimentalDataSet::new();
    for n in 1..=50 {
        assert!(set.insert(n, n));
    }
    set.maintain_sentinel();
    assert_eq!(set.len(), 50);
    assert_eq!(set.points()[49], (50, 50));
    // a sentinel in the middle of a full set leaves, and its row comes back at the end
    set.set_position(10, 0);
    set.set_current(10, 0);
    set.maintain_sentinel();
    assert_eq!(set.len(), 49);
    assert_eq!(set.points()[10], (12, 12));
    set.maintain_sentinel();
    assert_eq!(set.len(), 50);
    assert_eq!(set.points()[49], (0, 0));
}

#[test]
fn ratio_is_the_quotient_of_two_currents() {
    assert_eq!(ratio(5_000, 10_000), 500_000_000);
    assert_eq!(ratio(-1, 3), -333_333_333);
    assert_eq!(ratio(1, -3), -333_333_333);
    assert_eq!(ratio(-2, -3), 666_666_666);
    assert_eq!(ratio(0, 7), 0);
    assert_eq!(ratio(i32::MIN, 1), -2_147_483_648_000_000_000);
    assert_eq!(ratio(i32::MAX, i32::MIN), -999_999_999);
}

#[test]
fn ratio_without_a_reference_is_zero() {
    assert_eq!(ratio(5_000, 0), 0);
    assert_eq!(ratio(0, 0), 0);
    assert_eq!(ratio(i32::MIN, 0), 0);
}
