use swarm_opt::de::{de, CrossoverResult, MutationForce, Particle, Swarm};
use swarm_opt::space::{ConfigError, SearchSpace};

const TICKS: f64 = 1048576.0;

fn toy_loss(p: &Vec<i64>) -> u64 {
    let v = p[0] as f64 / TICKS;
    let loss = (v * 1.0 - 1.0).powf(2.0);
    loss.to_bits()
}

fn distance_to_700(p: &Vec<i64>) -> u64 {
    (p[0] - 700).unsigned_abs()
}

#[test]
fn de_toy_problem_improves() {
    let space = SearchSpace::new(vec![0], vec![2 * 1048576]).unwrap();
    let mut swarm = Swarm::new(20, &space);
    let (initial_loss, initial_best) = swarm.result(&toy_loss);
    for _ in 0..10 {
        swarm.evolution(&space, 32768, 32768, &toy_loss);
    }
    let (final_loss, final_best) = swarm.result(&toy_loss);
    assert!(f64::from_bits(final_loss) <= f64::from_bits(initial_loss));
    let before = (initial_best[0] as f64 / TICKS - 1.0).abs();
    let after = (final_best[0] as f64 / TICKS - 1.0).abs();
    assert!(after <= before);
}

#[test]
fn de_driver_toy_problem() {
    let (loss, best) = de(vec![2 * 1048576], vec![0], &toy_loss, 20, 32768, 32768, 10).unwrap();
    assert_eq!(loss, toy_loss(&best));
    assert!(f64::from_bits(loss) < 0.25);
}

#[test]
fn de_best_never_worsens_over_generations() {
    let space = SearchSpace::new(vec![0, 0], vec![1000, 1000]).unwrap();
    let f = |p: &Vec<i64>| ((p[0] - 300).abs() + (p[1] - 800).abs()) as u64;
    let mut swarm = Swarm::new(15, &space);
    let mut best = swarm.result(&f).0;
    for _ in 0..30 {
        let before: Vec<u64> = swarm.particles.iter().map(|p| f(&p.position)).collect();
        swarm.evolution(&space, 40000, 30000, &f);
        for (p, b) in swarm.particles.iter().zip(&before) {
            assert!(f(&p.position) <= *b);
        }
        let now = swarm.result(&f).0;
        assert!(now <= best);
        best = now;
    }
}

#[test]
fn de_small_populations_do_not_hang() {
    let space = SearchSpace::new(vec![0], vec![1000]).unwrap();
    for n in 1..3 {
        let mut swarm = Swarm::new(n, &space);
        for _ in 0..5 {
            swarm.evolution(&space, 32768, 32768, &distance_to_700);
        }
        assert_eq!(swarm.particles.len(), n);
    }
}

#[test]
fn de_initial_positions_in_bounds() {
    let space = SearchSpace::new(vec![-5, 10], vec![5, 20]).unwrap();
    let swarm = Swarm::new(50, &space);
    for p in &swarm.particles {
        assert!(space.contains_point(&p.position));
    }
}

#[test]
fn de_trial_vectors_may_leave_the_box() {
    let space = SearchSpace::new(vec![0], vec![1000]).unwrap();
    let offsets = vec![vec![1000], vec![0], vec![1000]];
    let mut swarm = Swarm::from_offsets(&space, &offsets);
    let f = |p: &Vec<i64>| (p[0] - 5000).unsigned_abs();
    // slot 0: (1000 - 0) * 1.0 + 1000 = 2000, outside the box, and better
    let picks = vec![(0, 1, 2), (1, 1, 1), (1, 1, 1)];
    let draws = vec![vec![0], vec![65535], vec![65535]];
    swarm.evolve_with(&space, 65536, 0, &picks, 0, &draws, &f);
    assert_eq!(swarm.particles[0].position, vec![2000]);
    assert!(!space.contains_point(&swarm.particles[0].position));
}

#[test]
fn mutation_vector_exact() {
    let a = Particle { position: vec![10, 4] };
    let b = Particle { position: vec![4, 11] };
    let c = Particle { position: vec![1, 1] };
    let mut m = MutationForce::new();
    assert!(m.mutation_force.is_empty());
    m.calc_mutation_force(32768, &a, &b, &c);
    // (6 * 0.5) + 1 = 4; (-7 * 0.5 = -3.5 -> -3) + 1 = -2
    assert_eq!(m.mutation_force, vec![4, -2]);
}

#[test]
fn mutation_saturates_at_i64_limits() {
    let a = Particle { position: vec![i64::MAX] };
    let b = Particle { position: vec![i64::MIN] };
    let c = Particle { position: vec![i64::MAX] };
    let mut m = MutationForce::new();
    m.calc_mutation_force(65536, &a, &b, &c);
    assert_eq!(m.mutation_force, vec![i64::MAX]);
}

#[test]
fn crossover_exact() {
    let parent = Particle { position: vec![1, 2, 3, 4] };
    let m = MutationForce { mutation_force: vec![10, 20, 30, 40] };
    let mut c = CrossoverResult::new(4);
    assert_eq!(c.crossover_result, vec![0, 0, 0, 0]);
    c.calc_crossover_res(30000, &parent, &m, 3, &vec![29999, 30000, 30001, 65535]);
    assert_eq!(c.crossover_result, vec![10, 20, 3, 40]);
}

#[test]
fn selection_takes_trial_on_tie() {
    let f = |p: &Vec<i64>| (p[0] % 10) as u64;
    let mut p = Particle { position: vec![13] };
    let trial = CrossoverResult { crossover_result: vec![23] };
    assert_eq!(p.select(&trial, &f), (3, 3));
    assert_eq!(p.position, vec![23]);
    let worse = CrossoverResult { crossover_result: vec![9] };
    assert_eq!(p.select(&worse, &f), (3, 9));
    assert_eq!(p.position, vec![23]);
}

#[test]
fn result_takes_last_of_equal_losses() {
    let space = SearchSpace::new(vec![0], vec![1000]).unwrap();
    let offsets = vec![vec![600], vec![800], vec![0], vec![650]];
    let swarm = Swarm::from_offsets(&space, &offsets);
    assert_eq!(swarm.result(&distance_to_700), (50, vec![650]));
    let offsets = vec![vec![600], vec![800], vec![0]];
    let swarm = Swarm::from_offsets(&space, &offsets);
    assert_eq!(swarm.result(&distance_to_700), (100, vec![800]));
}

#[test]
fn de_configuration_errors() {
    let f = |p: &Vec<i64>| p[0].unsigned_abs();
    assert_eq!(de(vec![], vec![], &f, 5, 1, 1, 3).unwrap_err(), ConfigError::EmptyBounds);
    assert_eq!(de(vec![0], vec![5], &f, 5, 1, 1, 3).unwrap_err(), ConfigError::InvertedBounds);
    assert_eq!(de(vec![5], vec![0], &f, 0, 1, 1, 3).unwrap_err(), ConfigError::EmptyPopulation);
    assert_eq!(de(vec![5], vec![0], &f, 5, 1, 1, 0).unwrap_err(), ConfigError::NoGenerations);
}

#[test]
fn de_new_population_has_fresh_scratch_vectors() {
    let space = SearchSpace::new(vec![0, 0, 0], vec![9, 9, 9]).unwrap();
    let swarm = Swarm::new(4, &space);
    assert_eq!(swarm.number_of_particles, 4);
    assert_eq!(swarm.mutation_force_list.len(), 4);
    for (m, c) in swarm.mutation_force_list.iter().zip(&swarm.crossover_res_list) {
        assert!(m.mutation_force.is_empty());
        assert_eq!(c.crossover_result, vec![0, 0, 0]);
    }
}

#[test]
fn de_single_candidate_never_moves() {
    let space = SearchSpace::new(vec![0, 0], vec![1000, 1000]).unwrap();
    let f = |p: &Vec<i64>| (p[0] + p[1]) as u64;
    let mut swarm = Swarm::new(1, &space);
    let start = swarm.particles[0].position.clone();
    for _ in 0..10 {
        swarm.evolution(&space, 50000, 40000, &f);
        assert_eq!(swarm.particles[0].position, start);
    }
}

#[test]
fn crossover_shares_one_forced_index() {
    let space = SearchSpace::new(vec![0, 0, 0, 0], vec![1000, 1000, 1000, 1000]).unwrap();
    let offsets = vec![vec![1, 2, 3, 4], vec![10, 20, 30, 40], vec![100, 200, 300, 400]];
    let mut swarm = Swarm::from_offsets(&space, &offsets);
    swarm.mutation(&space, 65536);
    let mutants: Vec<Vec<i64>> = swarm.mutation_force_list.iter().map(|m| m.mutation_force.clone()).collect();
    swarm.croseeover(&space, 0);
    let shared = (0..4).any(|j| {
        swarm
            .crossover_res_list
            .iter()
            .zip(&mutants)
            .all(|(c, m)| c.crossover_result[j] == m[j])
    });
    assert!(shared);
    let kept: Vec<Vec<i64>> = swarm.mutation_force_list.iter().map(|m| m.mutation_force.clone()).collect();
    assert_eq!(kept, mutants);
}

#[test]
fn de_result_no_worse_than_any_initial_candidate() {
    let f = |p: &Vec<i64>| ((p[0] - 300).abs() + (p[1] - 800).abs()) as u64;
    let space = SearchSpace::new(vec![0, 0], vec![1000, 1000]).unwrap();
    let mut swarm = Swarm::new(10, &space);
    let initial: Vec<u64> = swarm.particles.iter().map(|p| f(&p.position)).collect();
    for _ in 0..15 {
        swarm.evolution(&space, 40000, 30000, &f);
    }
    let (loss, best) = swarm.result(&f);
    assert_eq!(loss, f(&best));
    assert!(initial.iter().all(|l| loss <= *l));
}
