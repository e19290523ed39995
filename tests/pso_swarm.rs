use swarm_opt::pso::{classic_pso, compare, Particle, Swarm};
use swarm_opt::space::{ConfigError, SearchSpace};

const TICKS: f64 = 1048576.0;

fn key(loss: f64) -> u64 {
    if loss.is_nan() {
        u64::MAX
    } else {
        loss.to_bits()
    }
}

fn decay_loss(p: &Vec<i64>, x: &[f64], y: &[f64]) -> u64 {
    let a1 = p[0] as f64 / TICKS;
    let a2 = p[1] as f64 / TICKS;
    let e1 = p[2] as f64 / TICKS;
    let e2 = p[3] as f64 / TICKS;
    let loss: f64 = x
        .iter()
        .zip(y)
        .map(|(x, y)| {
            let pred = (-x / e1).exp() * a1 + (-x / e2).exp() * a2;
            (pred - y).powi(2)
        })
        .sum();
    key(loss)
}

fn distance_to_700(p: &Vec<i64>) -> u64 {
    (p[0] - 700).unsigned_abs()
}

fn line_space() -> SearchSpace {
    SearchSpace::new(vec![0], vec![1000]).unwrap()
}

#[test]
fn pso_fits_exponential_decay() {
    let x: Vec<f64> = (0..=10).map(|v| v as f64).collect();
    let y: Vec<f64> = x.iter().map(|x| (-x).exp() + 2.0 * (-x / 2.0).exp()).collect();
    let objective = |p: &Vec<i64>| decay_loss(p, &x, &y);
    let upper = vec![3 * 1048576; 4];
    let lower = vec![0; 4];
    let (loss, best, mean, stddev) =
        classic_pso(upper, lower, &objective, 4000, 65536, 131072, 131072, 100).unwrap();
    let loss = f64::from_bits(loss);
    assert!(loss < 0.05, "loss {}", loss);
    let b: Vec<f64> = best.iter().map(|v| *v as f64 / TICKS).collect();
    let direct = (b[0] - 1.0).abs() + (b[1] - 2.0).abs() + (b[2] - 1.0).abs() + (b[3] - 2.0).abs();
    let swapped = (b[0] - 2.0).abs() + (b[1] - 1.0).abs() + (b[2] - 2.0).abs() + (b[3] - 1.0).abs();
    assert!(direct.min(swapped) < 2.0, "best {:?}", b);
    assert_eq!(mean.len(), 4);
    assert_eq!(stddev.len(), 4);
}

#[test]
fn positions_stay_in_bounds_and_bests_never_rise() {
    let space = SearchSpace::new(vec![-500, 0], vec![500, 2000]).unwrap();
    let objective = |p: &Vec<i64>| (p[0] * p[0] + (p[1] - 1500) * (p[1] - 1500)) as u64;
    let mut swarm = Swarm::new(30, &space, &objective);
    for _ in 0..40 {
        let before: Vec<u64> = swarm.particle_list.iter().map(|p| p.local_best_loss).collect();
        let global_before = swarm.global_best_loss;
        swarm.evolution(&space, 65536, 131072, 131072, &objective);
        for (p, b) in swarm.particle_list.iter().zip(&before) {
            assert!(space.contains_point(&p.position));
            assert!(p.local_best_loss <= *b);
            assert_eq!(p.local_best_loss, objective(&p.local_best_position));
        }
        assert!(swarm.global_best_loss <= global_before);
        let m = swarm.particle_list.iter().map(|p| p.local_best_loss).min().unwrap();
        assert_eq!(swarm.global_best_loss, m);
    }
}

#[test]
fn single_particle_global_best_is_its_personal_best() {
    let space = line_space();
    let mut swarm = Swarm::new(1, &space, &distance_to_700);
    for _ in 0..20 {
        swarm.evolution(&space, 65536, 131072, 131072, &distance_to_700);
        assert_eq!(swarm.global_best_loss, swarm.particle_list[0].local_best_loss);
        assert_eq!(swarm.global_best_position, swarm.particle_list[0].local_best_position);
    }
}

#[test]
fn particle_starts_at_offset_with_tenth_of_range_backwards() {
    let space = line_space();
    let p = Particle::from_offsets(&space, &vec![500], &distance_to_700);
    assert_eq!(p.position, vec![500]);
    assert_eq!(p.velocity, vec![-100]);
    assert_eq!(p.local_best_position, vec![500]);
    assert_eq!(p.local_best_loss, 200);
}

#[test]
fn velocity_update_golden_values() {
    let space = line_space();
    let mut p = Particle::from_offsets(&space, &vec![500], &distance_to_700);
    // v = 1.0 * -100 + 2.0 * 0.5 * 0 + 2.0 * 0.25 * 300 = 50
    let loss = p.evolution(&space, 65536, 131072, 131072, &vec![800], &vec![32768], &vec![16384], &distance_to_700);
    assert_eq!(p.velocity, vec![50]);
    assert_eq!(p.position, vec![550]);
    assert_eq!(loss, 150);
    assert_eq!(p.local_best_loss, 150);
    assert_eq!(p.local_best_position, vec![550]);
}

#[test]
fn velocity_is_limited_and_position_clamped() {
    let space = line_space();
    let mut p = Particle::from_offsets(&space, &vec![950], &distance_to_700);
    // 10.0 * 0.99998 * (1000 - 950) = 499.99, limited to 1000 / 5 = 200
    let loss = p.evolution(&space, 0, 0, 655360, &vec![1000], &vec![0], &vec![65535], &distance_to_700);
    assert_eq!(p.velocity, vec![200]);
    assert_eq!(p.position, vec![1000]);
    assert_eq!(loss, 300);
    assert_eq!(p.local_best_loss, 250);
    assert_eq!(p.local_best_position, vec![950]);
}

#[test]
fn negative_velocity_rounds_toward_zero() {
    let space = line_space();
    let mut p = Particle::from_offsets(&space, &vec![10], &distance_to_700);
    let _ = p.evolution(&space, 21845, 0, 0, &vec![10], &vec![0], &vec![0], &distance_to_700);
    // 21845 * -100 / 65536 = -33.33
    assert_eq!(p.velocity, vec![-33]);
    assert_eq!(p.position, vec![0]);
}

#[test]
fn same_draws_give_same_step() {
    let space = SearchSpace::new(vec![0, 0], vec![1000, 1000]).unwrap();
    let objective = |p: &Vec<i64>| (p[0] + p[1]) as u64;
    let mut a = Particle::from_offsets(&space, &vec![300, 600], &objective);
    let mut b = Particle::from_offsets(&space, &vec![300, 600], &objective);
    let gb = vec![100, 100];
    let r1 = vec![1000, 40000];
    let r2 = vec![65535, 7];
    let la = a.evolution(&space, 45000, 90000, 70000, &gb, &r1, &r2, &objective);
    let lb = b.evolution(&space, 45000, 90000, 70000, &gb, &r1, &r2, &objective);
    assert_eq!(la, lb);
    assert_eq!(a.position, b.position);
    assert_eq!(a.velocity, b.velocity);
    assert_eq!(a.local_best_position, b.local_best_position);
}

#[test]
fn swarm_generation_with_draws_is_reproducible() {
    let space = line_space();
    let offsets = vec![vec![100], vec![900], vec![400]];
    let r1 = vec![vec![30000], vec![20000], vec![10000]];
    let r2 = vec![vec![50000], vec![5000], vec![60000]];
    let mut a = Swarm::from_offsets(&space, &offsets, &distance_to_700);
    let mut b = Swarm::from_offsets(&space, &offsets, &distance_to_700);
    a.evolve_with(&space, 65536, 131072, 131072, &r1, &r2, &distance_to_700);
    b.evolve_with(&space, 65536, 131072, 131072, &r1, &r2, &distance_to_700);
    for (p, q) in a.particle_list.iter().zip(&b.particle_list) {
        assert_eq!(p.position, q.position);
        assert_eq!(p.velocity, q.velocity);
    }
    assert_eq!(a.global_best_loss, b.global_best_loss);
    assert_eq!(a.global_best_position, b.global_best_position);
}

#[test]
fn compare_takes_last_of_equal_losses() {
    let space = line_space();
    let ps = vec![
        Particle::from_offsets(&space, &vec![600], &distance_to_700),
        Particle::from_offsets(&space, &vec![800], &distance_to_700),
        Particle::from_offsets(&space, &vec![0], &distance_to_700),
    ];
    let (loss, pos) = compare(&ps, None);
    assert_eq!(loss, 100);
    assert_eq!(pos, vec![800]);
    let (loss, pos) = compare(&ps, Some(100));
    assert_eq!(loss, 100);
    assert_eq!(pos, vec![800]);
}

#[test]
fn initial_global_best_is_smallest_loss() {
    let space = line_space();
    let offsets = vec![vec![100], vec![650], vec![400]];
    let swarm = Swarm::from_offsets(&space, &offsets, &distance_to_700);
    assert_eq!(swarm.num_of_particles, 3);
    assert_eq!(swarm.global_best_loss, 50);
    assert_eq!(swarm.global_best_position, vec![650]);
}

#[test]
fn statistics_exact_values() {
    let space = line_space();
    let offsets = vec![vec![0], vec![10]];
    let swarm = Swarm::from_offsets(&space, &offsets, &distance_to_700);
    let (mean, stddev) = swarm.result_evaluate(&space);
    assert_eq!(mean, vec![5]);
    assert_eq!(stddev, vec![5]);
    let offsets = vec![vec![1], vec![2], vec![4]];
    let swarm = Swarm::from_offsets(&space, &offsets, &distance_to_700);
    let (mean, stddev) = swarm.result_evaluate(&space);
    // mean 7/3 -> 2; squared deviations 1, 0, 4 -> variance 5/3 -> 1; root 1
    assert_eq!(mean, vec![2]);
    assert_eq!(stddev, vec![1]);
}

#[test]
fn statistics_zero_spread_for_identical_positions() {
    let space = SearchSpace::new(vec![0, -50], vec![1000, 50]).unwrap();
    let offsets = vec![vec![300, 7], vec![300, 90], vec![300, 40]];
    let objective = |p: &Vec<i64>| p[0] as u64;
    let swarm = Swarm::from_offsets(&space, &offsets, &objective);
    let (mean, stddev) = swarm.result_evaluate(&space);
    assert_eq!(mean[0], 300);
    assert_eq!(stddev[0], 0);
    assert!(stddev[1] > 0);
}

#[test]
fn statistics_twice_are_identical() {
    let space = SearchSpace::new(vec![-1000, -1000], vec![1000, 1000]).unwrap();
    let objective = |p: &Vec<i64>| (p[0].abs() + p[1].abs()) as u64;
    let mut swarm = Swarm::new(25, &space, &objective);
    swarm.evolution(&space, 50000, 100000, 100000, &objective);
    let first = swarm.result_evaluate(&space);
    let second = swarm.result_evaluate(&space);
    assert_eq!(first, second);
}

#[test]
fn classic_pso_configuration_errors() {
    let f = |p: &Vec<i64>| p[0].unsigned_abs();
    assert_eq!(classic_pso(vec![], vec![], &f, 5, 1, 1, 1, 3).unwrap_err(), ConfigError::EmptyBounds);
    assert_eq!(classic_pso(vec![5], vec![0, 0], &f, 5, 1, 1, 1, 3).unwrap_err(), ConfigError::LengthMismatch);
    assert_eq!(classic_pso(vec![0], vec![5], &f, 5, 1, 1, 1, 3).unwrap_err(), ConfigError::InvertedBounds);
    assert_eq!(
        classic_pso(vec![1 << 41], vec![0], &f, 5, 1, 1, 1, 3).unwrap_err(),
        ConfigError::CoordinateOutOfRange
    );
    assert_eq!(classic_pso(vec![5], vec![0], &f, 0, 1, 1, 1, 3).unwrap_err(), ConfigError::EmptyPopulation);
    assert_eq!(
        classic_pso(vec![5], vec![0], &f, 1 << 41, 1, 1, 1, 3).unwrap_err(),
        ConfigError::PopulationTooLarge
    );
    assert_eq!(classic_pso(vec![5], vec![0], &f, 5, 1, 1, 1, 0).unwrap_err(), ConfigError::NoGenerations);
}

#[test]
fn classic_pso_best_is_scored_and_in_bounds() {
    let (loss, best, mean, stddev) =
        classic_pso(vec![1000], vec![0], &distance_to_700, 20, 40000, 80000, 80000, 30).unwrap();
    assert_eq!(loss, distance_to_700(&best));
    assert!(best[0] >= 0 && best[0] <= 1000);
    assert!(mean[0] >= 0 && mean[0] <= 1000);
    assert_eq!(stddev.len(), 1);
}

#[test]
fn nan_loss_never_wins_after_a_number() {
    let space = line_space();
    let nan_first = |p: &Vec<i64>| if p[0] == 100 { key(f64::NAN) } else { key(p[0] as f64) };
    let offsets = vec![vec![200], vec![100], vec![300]];
    let swarm = Swarm::from_offsets(&space, &offsets, &nan_first);
    assert_eq!(swarm.global_best_position, vec![200]);
}

#[test]
fn random_particle_starts_moving_backwards() {
    let space = SearchSpace::new(vec![0, -30], vec![1000, 70]).unwrap();
    let objective = |p: &Vec<i64>| p[0].unsigned_abs();
    let p = Particle::new(&space, &objective);
    assert_eq!(p.velocity, vec![-100, -10]);
    assert_eq!(p.local_best_position, p.position);
    assert!(space.contains_point(&p.position));
}

#[test]
fn global_best_outside_the_box_still_keeps_particle_inside() {
    let space = line_space();
    let mut p = Particle::from_offsets(&space, &vec![900], &distance_to_700);
    let _ = p.evolution(&space, 65536, 131072, 131072, &vec![i64::MAX], &vec![65535], &vec![65535], &distance_to_700);
    assert_eq!(p.velocity, vec![200]);
    assert_eq!(p.position, vec![1000]);
    assert!(p.local_best_loss <= 200);
}
