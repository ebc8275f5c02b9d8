use population_dynm_sim::geometry::{
    axis_delta, displace, distance_sq, floor_sqrt, magnitude, HALF_UNIT, UNIT,
};
use population_dynm_sim::individual::{Individual, Site};

#[test]
fn axis_delta_wraps_across_the_boundary() {
    assert_eq!(axis_delta(10_000, 990_000), 20_000);
    assert_eq!(axis_delta(990_000, 10_000), 20_000);
    assert_ne!(axis_delta(10_000, 990_000), 980_000);
}

#[test]
fn axis_delta_of_half_a_side_is_the_maximum() {
    assert_eq!(axis_delta(0, 500_000), HALF_UNIT);
    assert_eq!(axis_delta(100_000, 600_000), HALF_UNIT);
    assert_eq!(axis_delta(750_000, 250_000), HALF_UNIT);
}

#[test]
fn axis_delta_never_exceeds_half_a_side() {
    let mut a: u64 = 0;
    while a < UNIT {
        let mut b: u64 = 0;
        while b < UNIT {
            let d = axis_delta(a, b);
            assert!(d <= HALF_UNIT);
            assert_eq!(d, axis_delta(b, a));
            b += 37_003;
        }
        a += 41_011;
    }
}

#[test]
fn axis_delta_of_equal_coordinates_is_zero() {
    assert_eq!(axis_delta(0, 0), 0);
    assert_eq!(axis_delta(999_999, 999_999), 0);
    assert_eq!(axis_delta(999_999, 0), 1);
}

#[test]
fn distance_sq_adds_the_squared_deltas() {
    assert_eq!(distance_sq(10_000, 10_000, 990_000, 990_000), 800_000_000);
    assert_eq!(distance_sq(100_000, 100_000, 150_000, 100_000), 2_500_000_000);
    assert_eq!(distance_sq(0, 0, 500_000, 500_000), 500_000_000_000);
    assert_eq!(distance_sq(300_000, 400_000, 300_000, 400_000), 0);
}

#[test]
fn floor_sqrt_is_the_integer_root() {
    assert_eq!(floor_sqrt(0), 0);
    assert_eq!(floor_sqrt(1), 1);
    assert_eq!(floor_sqrt(2), 1);
    assert_eq!(floor_sqrt(3), 1);
    assert_eq!(floor_sqrt(4), 2);
    assert_eq!(floor_sqrt(800_000_000), 28_284);
    assert_eq!(floor_sqrt(1_000_000_000_000), 1_000_000);
    assert_eq!(floor_sqrt(999_999_999_999), 999_999);
    assert_eq!(floor_sqrt(u64::MAX), 4_294_967_295);
}

#[test]
fn individual_distance_is_toroidal() {
    let a = Individual::new(0, 0, 10_000, 500_000);
    let b = Individual::new(1, 0, 990_000, 500_000);
    assert_eq!(a.distance(&b), 20_000);
    assert_eq!(b.distance(&a), 20_000);
    let c = Individual::new(2, 0, 0, 0);
    let d = Individual::new(3, 0, 300_000, 400_000);
    assert_eq!(c.distance(&d), 500_000);
}

#[test]
fn site_distance_sq_matches_the_free_function() {
    let a = Site { id: 0, x: 10_000, y: 10_000 };
    let b = Site { id: 1, x: 990_000, y: 990_000 };
    assert_eq!(a.distance_sq(&b), 800_000_000);
}

#[test]
fn individual_new_starts_empty() {
    let a = Individual::new(7, 2, 10, 20);
    assert_eq!(a.id, 7);
    assert_eq!(a.species, 2);
    assert_eq!(a.x_coord, 10);
    assert_eq!(a.y_coord, 20);
    assert_eq!(a.p_birth, 0);
    assert_eq!(a.p_death, 0);
    assert_eq!(a.p_move, 0);
    assert_eq!(a.birth_neighbor_weight, 0);
    assert_eq!(a.death_neighbor_weight, 0);
    assert!(a.birth_distances.is_empty());
    assert!(a.death_distances.is_empty());
    assert_eq!(a.site(), Site { id: 7, x: 10, y: 20 });
}

#[test]
fn magnitude_handles_the_most_negative_value() {
    assert_eq!(magnitude(0), 0);
    assert_eq!(magnitude(5), 5);
    assert_eq!(magnitude(-5), 5);
    assert_eq!(magnitude(i64::MIN), 9_223_372_036_854_775_808);
    assert_eq!(magnitude(i64::MAX), 9_223_372_036_854_775_807);
}

#[test]
fn displace_wraps_forward() {
    assert_eq!(displace(900_000, 50_000, 3_000_000), 50_000);
}

#[test]
fn displace_wraps_backward() {
    assert_eq!(displace(100_000, 50_000, -3_000_000), 950_000);
}

#[test]
fn displace_without_spread_or_deviate_stays() {
    assert_eq!(displace(123_456, 0, 3_000_000), 123_456);
    assert_eq!(displace(123_456, 50_000, 0), 123_456);
}

#[test]
fn displace_inside_the_habitat() {
    assert_eq!(displace(500_000, 100_000, 1_500_000), 650_000);
    assert_eq!(displace(500_000, 100_000, -1_500_000), 350_000);
}

#[test]
fn displace_stays_in_the_habitat_at_the_extremes() {
    assert!(displace(999_999, u64::MAX, i64::MIN) < UNIT);
    assert!(displace(0, u64::MAX, i64::MAX) < UNIT);
    assert!(displace(0, 1_000_000_000_000, -1) < UNIT);
}
