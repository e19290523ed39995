use swarm_opt::fixed::{clamp_i128, div_toward_zero, isqrt};
use swarm_opt::space::{ConfigError, SearchSpace, COORD_LIMIT};

#[test]
fn space_rejects_bad_bounds() {
    assert_eq!(SearchSpace::new(vec![], vec![]).err(), Some(ConfigError::EmptyBounds));
    assert_eq!(SearchSpace::new(vec![0], vec![1, 2]).err(), Some(ConfigError::LengthMismatch));
    assert_eq!(SearchSpace::new(vec![3], vec![2]).err(), Some(ConfigError::InvertedBounds));
    assert_eq!(
        SearchSpace::new(vec![-COORD_LIMIT - 1], vec![0]).err(),
        Some(ConfigError::CoordinateOutOfRange)
    );
    assert!(SearchSpace::new(vec![-COORD_LIMIT, 4], vec![COORD_LIMIT, 4]).is_ok());
}

#[test]
fn space_range_limit_and_clamp() {
    let space = SearchSpace::new(vec![-10, 0], vec![40, 0]).unwrap();
    assert_eq!(space.dims(), 2);
    assert_eq!(space.range(0), 50);
    assert_eq!(space.velocity_limit(0), 10);
    assert_eq!(space.range(1), 0);
    assert_eq!(space.clamp(-11, 0), -10);
    assert_eq!(space.clamp(41, 0), 40);
    assert_eq!(space.clamp(7, 0), 7);
    assert!(space.contains_point(&vec![40, 0]));
    assert!(!space.contains_point(&vec![41, 0]));
    assert!(!space.contains_point(&vec![0]));
}

#[test]
fn random_offsets_stay_below_the_range() {
    let space = SearchSpace::new(vec![0, 5], vec![10, 5]).unwrap();
    let mut seen_nonzero = false;
    for _ in 0..200 {
        let o = space.random_offsets();
        assert_eq!(o.len(), 2);
        assert!(o[0] < 10);
        assert_eq!(o[1], 0);
        seen_nonzero |= o[0] != 0;
    }
    assert!(seen_nonzero);
}

#[test]
fn division_rounds_toward_zero() {
    assert_eq!(div_toward_zero(7, 2), 3);
    assert_eq!(div_toward_zero(-7, 2), -3);
    assert_eq!(div_toward_zero(-8, 2), -4);
}

#[test]
fn clamp_limits_both_sides() {
    assert_eq!(clamp_i128(-5, -3, 3), -3);
    assert_eq!(clamp_i128(5, -3, 3), 3);
    assert_eq!(clamp_i128(1, -3, 3), 1);
}

#[test]
fn integer_square_root() {
    assert_eq!(isqrt(0), 0);
    assert_eq!(isqrt(24), 4);
    assert_eq!(isqrt(25), 5);
    assert_eq!(isqrt(1 << 100), 1 << 50);
}
