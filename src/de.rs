//! Differential evolution.
use vstd::prelude::*;

use crate::fixed::{clamp_i128, clamp_int, div_toward_zero, div_trunc, lemma_div_trunc_bound, UNIT};
use crate::pso::{deterministic, scores};
use crate::pso::total;
use crate::rng::{draw_below, random_fractions};
use crate::space::{bounds_error, in_box, ConfigError, SearchSpace};

verus! {

/// `v` saturated to the range of `i64`.
pub open spec fn saturate(v: int) -> int {
    clamp_int(v, i64::MIN as int, i64::MAX as int)
}

/// One coordinate of a mutation vector: `(a - b) * f + c`, with `f` a
/// multiple of `1 / UNIT`, the product rounded toward zero and the sum
/// saturated to the range of `i64`.
pub open spec fn mutant_coord(f: i32, a: i64, b: i64, c: i64) -> int {
    saturate(div_trunc((a - b) * f, UNIT as int) + c)
}

/// The mutation vector built from donors `a`, `b` and `c`.
pub open spec fn mutant(f: i32, a: Seq<i64>, b: Seq<i64>, c: Seq<i64>) -> Seq<i64> {
    Seq::new(a.len(), |i: int| mutant_coord(f, a[i], b[i], c[i]) as i64)
}

/// The trial vector: coordinate `i` comes from the mutation vector `m` when
/// the draw `r[i]` is `<= cr` or `i` is the forced index `j`, and from the
/// parent `p` otherwise.
pub open spec fn trial(cr: u32, j: int, r: Seq<u16>, m: Seq<i64>, p: Seq<i64>) -> Seq<i64> {
    Seq::new(p.len(), |i: int| if r[i] <= cr || i == j { m[i] } else { p[i] })
}

/// `(loss, position)` is what a scan of `positions` with their `losses`
/// settles on when it takes the first and then every later candidate whose
/// loss is `<=` the loss chosen so far.
pub open spec fn picked_best(
    positions: Seq<Seq<i64>>,
    losses: Seq<u64>,
    loss: u64,
    position: Seq<i64>,
) -> bool {
    exists|k: int|
        0 <= k < losses.len() && #[trigger] losses[k] == loss && positions[k] == position
            && (forall|j: int| 0 <= j < losses.len() ==> loss <= #[trigger] losses[j]) && (forall|
            j: int,
        | k < j < losses.len() ==> loss < #[trigger] losses[j])
}

/// `losses` holds the objective's loss of every position in `positions`.
pub open spec fn evaluations<F: Fn(&Vec<i64>) -> u64>(
    objective: F,
    positions: Seq<Seq<i64>>,
    losses: Seq<u64>,
) -> bool {
    &&& losses.len() == positions.len()
    &&& forall|k: int| 0 <= k < losses.len() ==> scores(objective, positions[k], #[trigger] losses[k])
}

/// One individual of the population.
pub struct Particle {
    pub position: Vec<i64>,
}

impl Particle {
    /// An individual at `lower[i] + offsets[i]`.
    pub fn from_offsets(space: &SearchSpace, offsets: &Vec<u64>) -> (r: Particle)
        requires
            space.wf(),
            offsets@.len() == space.dims_spec(),
            forall|i: int| 0 <= i < offsets@.len() ==> #[trigger] offsets@[i] <= space.range_spec(i),
        ensures
            space.contains(r.position@),
            forall|i: int|
                0 <= i < offsets@.len() ==> #[trigger] r.position@[i] == space.lower@[i] + offsets@[i],
    {
        let n = space.dims();
        let mut position: Vec<i64> = Vec::with_capacity(n);
        let mut i: usize = 0;
        while i < n
            invariant
                space.wf(),
                n == space.dims_spec(),
                offsets@.len() == n,
                forall|k: int| 0 <= k < n ==> #[trigger] offsets@[k] <= space.range_spec(k),
                0 <= i <= n,
                position@.len() == i,
                forall|k: int| 0 <= k < i ==> #[trigger] position@[k] == space.lower@[k] + offsets@[k],
            decreases n - i,
        {
            position.push(space.lower[i] + offsets[i] as i64);
            i = i + 1;
        }
        Particle { position }
    }

    /// An individual placed uniformly at random in the space.
    pub fn new(space: &SearchSpace) -> (r: Particle)
        requires
            space.wf(),
        ensures
            space.contains(r.position@),
    {
        let offsets = space.random_offsets();
        Particle::from_offsets(space, &offsets)
    }

    /// Greedy selection: the trial vector replaces the position when its loss
    /// is `<=` the loss of the position. Returns both losses, the current
    /// position's first.
    pub fn select<F: Fn(&Vec<i64>) -> u64>(
        &mut self,
        crossover_res: &CrossoverResult,
        objective: &F,
    ) -> (r: (u64, u64))
        requires
            total(*objective),
        ensures
            scores(*objective, old(self).position@, r.0),
            scores(*objective, crossover_res.crossover_result@, r.1),
            r.1 <= r.0 ==> final(self).position@ == crossover_res.crossover_result@,
            r.1 > r.0 ==> final(self).position@ == old(self).position@,
    {
        let origin = objective(&self.position);
        let new_position = crossover_res.crossover_result.clone();
        assert(new_position@ =~= crossover_res.crossover_result@);
        let new_fit = objective(&new_position);
        if new_fit <= origin {
            self.position = new_position;
        }
        (origin, new_fit)
    }
}

/// The mutation vector of one slot.
pub struct MutationForce {
    pub mutation_force: Vec<i64>,
}

impl MutationForce {
    /// An empty mutation vector.
    pub fn new() -> (r: MutationForce)
        ensures
            r.mutation_force@.len() == 0,
    {
        MutationForce { mutation_force: Vec::new() }
    }

    /// `(particle1 - particle2) * differential_weight + particle3`,
    /// coordinate by coordinate.
    pub fn calc_mutation_force(
        &mut self,
        differential_weight: i32,
        particle1: &Particle,
        particle2: &Particle,
        particle3: &Particle,
    )
        requires
            particle2.position@.len() == particle1.position@.len(),
            particle3.position@.len() == particle1.position@.len(),
        ensures
            final(self).mutation_force@ == mutant(
                differential_weight,
                particle1.position@,
                particle2.position@,
                particle3.position@,
            ),
    {
        let n = particle1.position.len();
        let mut m: Vec<i64> = Vec::with_capacity(n);
        let mut i: usize = 0;
        while i < n
            invariant
                n == particle1.position@.len(),
                particle2.position@.len() == n,
                particle3.position@.len() == n,
                0 <= i <= n,
                m@.len() == i,
                forall|k: int|
                    0 <= k < i ==> #[trigger] m@[k] == mutant_coord(
                        differential_weight,
                        particle1.position@[k],
                        particle2.position@[k],
                        particle3.position@[k],
                    ),
            decreases n - i,
        {
            let a = particle1.position[i] as i128;
            let b = particle2.position[i] as i128;
            let c = particle3.position[i] as i128;
            let d = a - b;
            assert(-0x1_0000_0000_0000_0000_0000_0000 <= d * differential_weight
                <= 0x1_0000_0000_0000_0000_0000_0000) by (nonlinear_arith)
                requires
                    -0x1_0000_0000_0000_0000 <= d <= 0x1_0000_0000_0000_0000,
                    -0x8000_0000 <= differential_weight <= 0x8000_0000,
            ;
            let q = div_toward_zero(d * (differential_weight as i128), UNIT);
            proof {
                lemma_div_trunc_bound(d * differential_weight, UNIT as int);
            }
            let s = clamp_i128(q + c, i64::MIN as i128, i64::MAX as i128);
            m.push(s as i64);
            i = i + 1;
        }
        assert(m@ =~= mutant(
            differential_weight,
            particle1.position@,
            particle2.position@,
            particle3.position@,
        ));
        self.mutation_force = m;
    }
}

/// The trial vector of one slot.
pub struct CrossoverResult {
    pub crossover_result: Vec<i64>,
}

impl CrossoverResult {
    /// A trial vector of `dims` zeros.
    pub fn new(dims: usize) -> (r: CrossoverResult)
        ensures
            r.crossover_result@ == Seq::new(dims as nat, |i: int| 0i64),
    {
        let mut v: Vec<i64> = Vec::with_capacity(dims);
        let mut i: usize = 0;
        while i < dims
            invariant
                0 <= i <= dims,
                v@ == Seq::new(i as nat, |k: int| 0i64),
            decreases dims - i,
        {
            v.push(0);
            i = i + 1;
            assert(v@ =~= Seq::new(i as nat, |k: int| 0i64));
        }
        CrossoverResult { crossover_result: v }
    }

    /// Mixes the mutation vector into the parent: coordinate `i` comes from
    /// the mutation vector when `draws[i] <= cross_probability` (both
    /// multiples of `1 / UNIT`) or `i == force_change_index`.
    pub fn calc_crossover_res(
        &mut self,
        cross_probability: u32,
        particle: &Particle,
        mutation_force: &MutationForce,
        force_change_index: usize,
        draws: &Vec<u16>,
    )
        requires
            mutation_force.mutation_force@.len() == particle.position@.len(),
            draws@.len() == particle.position@.len(),
        ensures
            final(self).crossover_result@ == trial(
                cross_probability,
                force_change_index as int,
                draws@,
                mutation_force.mutation_force@,
                particle.position@,
            ),
    {
        let n = particle.position.len();
        let mut t: Vec<i64> = Vec::with_capacity(n);
        let mut i: usize = 0;
        while i < n
            invariant
                n == particle.position@.len(),
                mutation_force.mutation_force@.len() == n,
                draws@.len() == n,
                0 <= i <= n,
                t@.len() == i,
                forall|k: int|
                    0 <= k < i ==> #[trigger] t@[k] == trial(
                        cross_probability,
                        force_change_index as int,
                        draws@,
                        mutation_force.mutation_force@,
                        particle.position@,
                    )[k],
            decreases n - i,
        {
            if draws[i] as u32 <= cross_probability || i == force_change_index {
                t.push(mutation_force.mutation_force[i]);
            } else {
                t.push(particle.position[i]);
            }
            i = i + 1;
        }
        assert(t@ =~= trial(
            cross_probability,
            force_change_index as int,
            draws@,
            mutation_force.mutation_force@,
            particle.position@,
        ));
        self.crossover_result = t;
    }
}

/// `after` is what greedy selection leaves in a slot that held `before` and
/// was offered `offered`.
pub open spec fn selected<F: Fn(&Vec<i64>) -> u64>(
    objective: F,
    before: Seq<i64>,
    offered: Seq<i64>,
    after: Seq<i64>,
) -> bool {
    exists|lo: u64, ln: u64|
        #[trigger] scores(objective, before, lo) && #[trigger] scores(objective, offered, ln) && (
        if ln <= lo {
            after == offered
        } else {
            after == before
        })
}

/// `m` is the mutation vector of three donors of `particles`, each any
/// member of the population (the same one may be drawn more than once).
pub open spec fn mutant_of(f: i32, particles: Seq<Particle>, m: Seq<i64>) -> bool {
    exists|a: int, b: int, c: int|
        0 <= a < particles.len() && 0 <= b < particles.len() && 0 <= c < particles.len() && m
            == #[trigger] mutant(f, particles[a].position@, particles[b].position@, particles[c].position@)
}

/// `after` is what greedy selection leaves in a slot that held `before` and
/// was offered some trial vector.
pub open spec fn selected_from_some<F: Fn(&Vec<i64>) -> u64>(
    objective: F,
    before: Seq<i64>,
    after: Seq<i64>,
) -> bool {
    exists|offered: Seq<i64>| #[trigger] selected(objective, before, offered, after)
}

/// `new` holds the trial vectors of `old` built with the forced index `j` and
/// the draws `draws`, one row per slot.
pub open spec fn crossed_with(
    space: SearchSpace,
    cr: u32,
    j: int,
    draws: Seq<Seq<u16>>,
    old: Swarm,
    new: Swarm,
) -> bool {
    &&& 0 <= j < space.dims_spec()
    &&& draws.len() == old.particles@.len()
    &&& new.crossover_res_list@.len() == old.particles@.len()
    &&& forall|k: int| 0 <= k < draws.len() ==> (#[trigger] draws[k]).len() == space.dims_spec()
    &&& forall|k: int|
        0 <= k < old.particles@.len() ==> (#[trigger] new.crossover_res_list@[k]).crossover_result@
            == trial(
            cr,
            j,
            draws[k],
            old.mutation_force_list@[k].mutation_force@,
            old.particles@[k].position@,
        )
}

/// `new` is `old` after one generation with donors `picks`, forced index `j`
/// and crossover draws `draws`: mutation from the old positions, crossover
/// with the one shared index, then greedy selection in every slot.
pub open spec fn de_generation_with<F: Fn(&Vec<i64>) -> u64>(
    space: SearchSpace,
    f: i32,
    cr: u32,
    picks: Seq<(usize, usize, usize)>,
    j: int,
    draws: Seq<Seq<u16>>,
    old: Swarm,
    new: Swarm,
    objective: F,
) -> bool {
    let n = old.particles@.len();
    &&& 0 <= j < space.dims_spec()
    &&& picks.len() == n
    &&& draws.len() == n
    &&& new.particles@.len() == n
    &&& forall|k: int| 0 <= k < n ==> (#[trigger] picks[k]).0 < n && picks[k].1 < n && picks[k].2 < n
    &&& forall|k: int| 0 <= k < n ==> (#[trigger] draws[k]).len() == space.dims_spec()
    &&& forall|k: int|
        0 <= k < n ==> selected(
            objective,
            old.particles@[k].position@,
            trial(
                cr,
                j,
                draws[k],
                mutant(
                    f,
                    old.particles@[picks[k].0 as int].position@,
                    old.particles@[picks[k].1 as int].position@,
                    old.particles@[picks[k].2 as int].position@,
                ),
                old.particles@[k].position@,
            ),
            #[trigger] new.particles@[k].position@,
        )
}

/// `new` is `old` after one generation with some donors and draws.
pub open spec fn de_generation<F: Fn(&Vec<i64>) -> u64>(
    space: SearchSpace,
    f: i32,
    cr: u32,
    old: Swarm,
    new: Swarm,
    objective: F,
) -> bool {
    exists|picks: Seq<(usize, usize, usize)>, j: int, draws: Seq<Seq<u16>>|
        #[trigger] de_generation_with(space, f, cr, picks, j, draws, old, new, objective)
}

/// A population evolved by differential evolution, with the scratch vectors
/// of one generation.
pub struct Swarm {
    pub particles: Vec<Particle>,
    pub mutation_force_list: Vec<MutationForce>,
    pub crossover_res_list: Vec<CrossoverResult>,
    pub number_of_particles: usize,
}

impl Swarm {
    pub open spec fn positions(&self) -> Seq<Seq<i64>> {
        self.particles@.map_values(|p: Particle| p.position@)
    }

    /// At least one individual, each with one coordinate per dimension, and
    /// one mutation and one trial vector per slot.
    pub open spec fn wf(&self, dims: nat) -> bool {
        &&& self.number_of_particles == self.particles@.len()
        &&& self.particles@.len() > 0
        &&& self.mutation_force_list@.len() == self.particles@.len()
        &&& self.crossover_res_list@.len() == self.particles@.len()
        &&& forall|k: int|
            0 <= k < self.particles@.len() ==> (#[trigger] self.particles@[k]).position@.len() == dims
    }

    /// Slot `k` holds an empty mutation vector and a trial vector of `dims`
    /// zeros.
    pub open spec fn fresh_scratch(&self, k: int, dims: nat) -> bool {
        &&& self.mutation_force_list@[k].mutation_force@.len() == 0
        &&& self.crossover_res_list@[k].crossover_result@ == Seq::new(dims, |i: int| 0i64)
    }

    /// Every mutation vector has one coordinate per dimension.
    pub open spec fn mutated(&self, dims: nat) -> bool {
        forall|k: int|
            0 <= k < self.mutation_force_list@.len()
                ==> (#[trigger] self.mutation_force_list@[k]).mutation_force@.len() == dims
    }

    /// The population of the individuals that `Particle::from_offsets`
    /// builds from each row of `offsets`.
    pub fn from_offsets(space: &SearchSpace, offsets: &Vec<Vec<u64>>) -> (r: Swarm)
        requires
            space.wf(),
            offsets@.len() > 0,
            forall|k: int|
                0 <= k < offsets@.len() ==> (#[trigger] offsets@[k])@.len() == space.dims_spec(),
            forall|k: int, i: int|
                0 <= k < offsets@.len() && 0 <= i < space.dims_spec() ==> #[trigger] offsets@[k]@[i]
                    <= space.range_spec(i),
        ensures
            r.wf(space.dims_spec()),
            r.number_of_particles == offsets@.len(),
            forall|k: int|
                0 <= k < offsets@.len() ==> space.contains(#[trigger] r.particles@[k].position@),
            forall|k: int, i: int|
                0 <= k < offsets@.len() && 0 <= i < space.dims_spec()
                    ==> #[trigger] r.particles@[k].position@[i] == space.lower@[i] + offsets@[k]@[i],            forall|k: int| 0 <= k < offsets@.len() ==> r.fresh_scratch(k, space.dims_spec()),
    {
        let n = offsets.len();
        let d = space.dims();
        let mut particles: Vec<Particle> = Vec::with_capacity(n);
        let mut mutation_force_list: Vec<MutationForce> = Vec::with_capacity(n);
        let mut crossover_res_list: Vec<CrossoverResult> = Vec::with_capacity(n);
        let mut k: usize = 0;
        while k < n
            invariant
                space.wf(),
                d == space.dims_spec(),
                n == offsets@.len(),
                forall|k: int|
                    0 <= k < offsets@.len() ==> (#[trigger] offsets@[k])@.len() == space.dims_spec(),
                forall|k: int, i: int|
                    0 <= k < offsets@.len() && 0 <= i < space.dims_spec()
                        ==> #[trigger] offsets@[k]@[i] <= space.range_spec(i),
                0 <= k <= n,
                particles@.len() == k,
                mutation_force_list@.len() == k,
                crossover_res_list@.len() == k,
                forall|j: int| 0 <= j < k ==> space.contains(#[trigger] particles@[j].position@),
                forall|j: int, i: int|
                    0 <= j < k && 0 <= i < space.dims_spec()
                        ==> #[trigger] particles@[j].position@[i] == space.lower@[i] + offsets@[j]@[i],
                forall|j: int|
                    0 <= j < k ==> (#[trigger] mutation_force_list@[j]).mutation_force@.len() == 0,
                forall|j: int|
                    0 <= j < k ==> (#[trigger] crossover_res_list@[j]).crossover_result@ == Seq::new(
                        d as nat,
                        |i: int| 0i64,
                    ),
            decreases n - k,
        {
            let row = &offsets[k];
            assert forall|i: int| 0 <= i < row@.len() implies #[trigger] row@[i]
                <= space.range_spec(i) by {
                assert(offsets@[k as int]@[i] <= space.range_spec(i));
            }
            particles.push(Particle::from_offsets(space, row));
            mutation_force_list.push(MutationForce::new());
            crossover_res_list.push(CrossoverResult::new(d));
            k = k + 1;
        }
        Swarm { particles, mutation_force_list, crossover_res_list, number_of_particles: n }
    }

    /// A population of `number_of_particles` individuals placed uniformly at
    /// random in the space.
    pub fn new(number_of_particles: usize, space: &SearchSpace) -> (r: Swarm)
        requires
            space.wf(),
            number_of_particles > 0,
        ensures
            r.wf(space.dims_spec()),
            r.number_of_particles == number_of_particles,
            forall|k: int|
                0 <= k < number_of_particles ==> space.contains(
                    #[trigger] r.particles@[k].position@,
                ),            forall|k: int| 0 <= k < number_of_particles ==> r.fresh_scratch(k, space.dims_spec()),
    {
        let mut offsets: Vec<Vec<u64>> = Vec::with_capacity(number_of_particles);
        let mut k: usize = 0;
        while k < number_of_particles
            invariant
                space.wf(),
                0 <= k <= number_of_particles,
                offsets@.len() == k,
                forall|j: int| 0 <= j < k ==> (#[trigger] offsets@[j])@.len() == space.dims_spec(),
                forall|j: int, i: int|
                    0 <= j < k && 0 <= i < space.dims_spec() ==> #[trigger] offsets@[j]@[i]
                        <= space.range_spec(i),
            decreases number_of_particles - k,
        {
            offsets.push(space.random_offsets());
            k = k + 1;
        }
        Swarm::from_offsets(space, &offsets)
    }

    /// Mutation with chosen donors: slot `k` gets the mutation vector of
    /// donors `picks[k].0`, `picks[k].1` and `picks[k].2`.
    pub fn mutation_with(
        &mut self,
        space: &SearchSpace,
        differential_weight: i32,
        picks: &Vec<(usize, usize, usize)>,
    )
        requires
            old(self).wf(space.dims_spec()),
            picks@.len() == old(self).particles@.len(),
            forall|k: int|
                0 <= k < picks@.len() ==> (#[trigger] picks@[k]).0 < old(self).particles@.len()
                    && picks@[k].1 < old(self).particles@.len() && picks@[k].2 < old(self).particles@.len(),
        ensures
            final(self).wf(space.dims_spec()),
            final(self).mutated(space.dims_spec()),
            final(self).particles@ == old(self).particles@,
            final(self).crossover_res_list@ == old(self).crossover_res_list@,
            forall|k: int|
                0 <= k < picks@.len() ==> (#[trigger] final(self).mutation_force_list@[k]).mutation_force@
                    == mutant(
                    differential_weight,
                    old(self).particles@[picks@[k].0 as int].position@,
                    old(self).particles@[picks@[k].1 as int].position@,
                    old(self).particles@[picks@[k].2 as int].position@,
                ),
    {
        let n = self.particles.len();
        let mut k: usize = 0;
        while k < n
            invariant
                self.wf(space.dims_spec()),
                n == self.particles@.len(),
                self.particles@ == old(self).particles@,
                self.crossover_res_list@ == old(self).crossover_res_list@,
                picks@.len() == n,
                forall|j: int|
                    0 <= j < n ==> (#[trigger] picks@[j]).0 < n && picks@[j].1 < n && picks@[j].2 < n,
                0 <= k <= n,
                forall|j: int|
                    0 <= j < k ==> (#[trigger] self.mutation_force_list@[j]).mutation_force@
                        == mutant(
                        differential_weight,
                        self.particles@[picks@[j].0 as int].position@,
                        self.particles@[picks@[j].1 as int].position@,
                        self.particles@[picks@[j].2 as int].position@,
                    ),
            decreases n - k,
        {
            let (a, b, c) = picks[k];
            assert(self.particles@[a as int].position@.len() == space.dims_spec());
            assert(self.particles@[b as int].position@.len() == space.dims_spec());
            assert(self.particles@[c as int].position@.len() == space.dims_spec());
            self.mutation_force_list[k].calc_mutation_force(
                differential_weight,
                &self.particles[a],
                &self.particles[b],
                &self.particles[c],
            );
            k = k + 1;
        }
        assert forall|k: int| 0 <= k < n implies (#[trigger] self.mutation_force_list@[k]).mutation_force@.len()
            == space.dims_spec() by {
            assert(self.particles@[picks@[k].0 as int].position@.len() == space.dims_spec());
        }
    }
}

impl Swarm {
    /// Mutation with donors drawn uniformly at random, with replacement, from
    /// the whole population (a slot may draw itself; any population size
    /// works).
    pub fn mutation(&mut self, space: &SearchSpace, differential_weight: i32)
        requires
            old(self).wf(space.dims_spec()),
        ensures
            final(self).wf(space.dims_spec()),
            final(self).mutated(space.dims_spec()),
            final(self).particles@ == old(self).particles@,
            final(self).crossover_res_list@ == old(self).crossover_res_list@,
            forall|k: int|
                0 <= k < final(self).mutation_force_list@.len() ==> mutant_of(
                    differential_weight,
                    old(self).particles@,
                    (#[trigger] final(self).mutation_force_list@[k]).mutation_force@,
                ),
    {
        let n = self.particles.len();
        let mut picks: Vec<(usize, usize, usize)> = Vec::with_capacity(n);
        let mut k: usize = 0;
        while k < n
            invariant
                n == self.particles@.len(),
                n > 0,
                0 <= k <= n,
                picks@.len() == k,
                forall|j: int|
                    0 <= j < k ==> (#[trigger] picks@[j]).0 < n && picks@[j].1 < n && picks@[j].2 < n,
            decreases n - k,
        {
            let a = draw_below(n as u64) as usize;
            let b = draw_below(n as u64) as usize;
            let c = draw_below(n as u64) as usize;
            picks.push((a, b, c));
            k = k + 1;
        }
        self.mutation_with(space, differential_weight, &picks);
        assert forall|k: int| 0 <= k < n implies mutant_of(
            differential_weight,
            old(self).particles@,
            (#[trigger] self.mutation_force_list@[k]).mutation_force@,
        ) by {
            let (a, b, c) = (picks@[k].0 as int, picks@[k].1 as int, picks@[k].2 as int);
            assert(self.mutation_force_list@[k].mutation_force@ == mutant(
                differential_weight,
                old(self).particles@[a].position@,
                old(self).particles@[b].position@,
                old(self).particles@[c].position@,
            ));
        }
    }

    /// Crossover with chosen draws: slot `k` gets the trial vector of its
    /// parent, its mutation vector, the draws `draws[k]` and the forced index
    /// `force_change_index`, shared by all slots.
    pub fn crossover_with(
        &mut self,
        space: &SearchSpace,
        crossover_probability: u32,
        force_change_index: usize,
        draws: &Vec<Vec<u16>>,
    )
        requires
            old(self).wf(space.dims_spec()),
            old(self).mutated(space.dims_spec()),
            draws@.len() == old(self).particles@.len(),
            forall|k: int| 0 <= k < draws@.len() ==> (#[trigger] draws@[k])@.len() == space.dims_spec(),
        ensures
            final(self).wf(space.dims_spec()),
            final(self).mutated(space.dims_spec()),
            final(self).particles@ == old(self).particles@,
            final(self).mutation_force_list@ == old(self).mutation_force_list@,
            forall|k: int|
                0 <= k < draws@.len() ==> (#[trigger] final(self).crossover_res_list@[k]).crossover_result@
                    == trial(
                    crossover_probability,
                    force_change_index as int,
                    draws@[k]@,
                    old(self).mutation_force_list@[k].mutation_force@,
                    old(self).particles@[k].position@,
                ),
    {
        let n = self.particles.len();
        let mut k: usize = 0;
        while k < n
            invariant
                self.wf(space.dims_spec()),
                self.mutated(space.dims_spec()),
                n == self.particles@.len(),
                self.particles@ == old(self).particles@,
                self.mutation_force_list@ == old(self).mutation_force_list@,
                draws@.len() == n,
                forall|j: int| 0 <= j < n ==> (#[trigger] draws@[j])@.len() == space.dims_spec(),
                0 <= k <= n,
                forall|j: int|
                    0 <= j < k ==> (#[trigger] self.crossover_res_list@[j]).crossover_result@
                        == trial(
                        crossover_probability,
                        force_change_index as int,
                        draws@[j]@,
                        self.mutation_force_list@[j].mutation_force@,
                        self.particles@[j].position@,
                    ),
            decreases n - k,
        {
            assert(self.particles@[k as int].position@.len() == space.dims_spec());
            assert(self.mutation_force_list@[k as int].mutation_force@.len() == space.dims_spec());
            self.crossover_res_list[k].calc_crossover_res(
                crossover_probability,
                &self.particles[k],
                &self.mutation_force_list[k],
                force_change_index,
                &draws[k],
            );
            k = k + 1;
        }
    }

    /// Crossover with one forced dimension drawn uniformly for the whole
    /// population and one fresh draw per slot and dimension.
    pub fn croseeover(&mut self, space: &SearchSpace, crossover_probability: u32)
        requires
            space.wf(),
            old(self).wf(space.dims_spec()),
            old(self).mutated(space.dims_spec()),
        ensures
            final(self).wf(space.dims_spec()),
            final(self).mutated(space.dims_spec()),
            final(self).particles@ == old(self).particles@,
            final(self).mutation_force_list@ == old(self).mutation_force_list@,
            forall|k: int|
                0 <= k < old(self).particles@.len() ==> (#[trigger] final(self).crossover_res_list@[k]).crossover_result@.len() == space.dims_spec(),
            exists|j: int, draws: Seq<Seq<u16>>|
                #[trigger] crossed_with(*space, crossover_probability, j, draws, *old(self), *final(self)),
    {
        let n = self.particles.len();
        let d = space.dims();
        let force_change_index = draw_below(d as u64) as usize;
        let mut draws: Vec<Vec<u16>> = Vec::with_capacity(n);
        let mut k: usize = 0;
        while k < n
            invariant
                d == space.dims_spec(),
                0 <= k <= n,
                draws@.len() == k,
                forall|j: int| 0 <= j < k ==> (#[trigger] draws@[j])@.len() == d,
            decreases n - k,
        {
            draws.push(random_fractions(d));
            k = k + 1;
        }
        self.crossover_with(space, crossover_probability, force_change_index, &draws);
        proof {
            let rows = Seq::new(n as nat, |k: int| draws@[k]@);
            assert forall|k: int| 0 <= k < n implies (#[trigger] self.crossover_res_list@[k]).crossover_result@.len()
                == space.dims_spec() by {
                assert(old(self).particles@[k].position@.len() == space.dims_spec());
            }
            assert(crossed_with(
                *space,
                crossover_probability,
                force_change_index as int,
                rows,
                *old(self),
                *self,
            ));
        }
    }

    /// Greedy selection in every slot: the trial vector replaces the parent
    /// when its loss is `<=` the parent's.
    pub fn select<F: Fn(&Vec<i64>) -> u64>(&mut self, space: &SearchSpace, objective: &F)
        requires
            total(*objective),
            old(self).wf(space.dims_spec()),
            forall|k: int|
                0 <= k < old(self).particles@.len() ==> (#[trigger] old(self).crossover_res_list@[k]).crossover_result@.len() == space.dims_spec(),
        ensures
            final(self).wf(space.dims_spec()),
            final(self).mutation_force_list@ == old(self).mutation_force_list@,
            final(self).crossover_res_list@ == old(self).crossover_res_list@,
            forall|k: int|
                0 <= k < old(self).particles@.len() ==> selected(
                    *objective,
                    old(self).particles@[k].position@,
                    old(self).crossover_res_list@[k].crossover_result@,
                    #[trigger] final(self).particles@[k].position@,
                ),
    {
        let n = self.particles.len();
        let mut k: usize = 0;
        while k < n
            invariant
                total(*objective),
                self.wf(space.dims_spec()),
                n == self.particles@.len(),
                self.mutation_force_list@ == old(self).mutation_force_list@,
                self.crossover_res_list@ == old(self).crossover_res_list@,
                forall|j: int|
                    0 <= j < n ==> (#[trigger] self.crossover_res_list@[j]).crossover_result@.len()
                        == space.dims_spec(),
                0 <= k <= n,
                forall|j: int| k <= j < n ==> #[trigger] self.particles@[j] == old(self).particles@[j],
                forall|j: int|
                    0 <= j < k ==> selected(
                        *objective,
                        old(self).particles@[j].position@,
                        old(self).crossover_res_list@[j].crossover_result@,
                        #[trigger] self.particles@[j].position@,
                    ),
            decreases n - k,
        {
            let ghost before = self.particles@[k as int].position@;
            let (lo, ln) = self.particles[k].select(&self.crossover_res_list[k], objective);
            assert(scores(*objective, before, lo));
            assert(scores(*objective, self.crossover_res_list@[k as int].crossover_result@, ln));
            assert(self.particles@[k as int].position@.len() == space.dims_spec());
            k = k + 1;
        }
    }
}

impl Swarm {
    /// One generation with chosen draws: mutation for every slot, then
    /// crossover for every slot, then selection for every slot. Every slot
    /// ends holding either its parent or its trial vector.
    pub fn evolve_with<F: Fn(&Vec<i64>) -> u64>(
        &mut self,
        space: &SearchSpace,
        differential_weight: i32,
        crossover_probability: u32,
        picks: &Vec<(usize, usize, usize)>,
        force_change_index: usize,
        draws: &Vec<Vec<u16>>,
        objective: &F,
    )
        requires
            total(*objective),
            old(self).wf(space.dims_spec()),
            picks@.len() == old(self).particles@.len(),
            forall|k: int|
                0 <= k < picks@.len() ==> (#[trigger] picks@[k]).0 < old(self).particles@.len()
                    && picks@[k].1 < old(self).particles@.len() && picks@[k].2 < old(self).particles@.len(),
            draws@.len() == old(self).particles@.len(),
            forall|k: int| 0 <= k < draws@.len() ==> (#[trigger] draws@[k])@.len() == space.dims_spec(),
        ensures
            final(self).wf(space.dims_spec()),
            final(self).number_of_particles == old(self).number_of_particles,
            forall|k: int|
                0 <= k < old(self).particles@.len() ==> selected(
                    *objective,
                    old(self).particles@[k].position@,
                    trial(
                        crossover_probability,
                        force_change_index as int,
                        draws@[k]@,
                        mutant(
                            differential_weight,
                            old(self).particles@[picks@[k].0 as int].position@,
                            old(self).particles@[picks@[k].1 as int].position@,
                            old(self).particles@[picks@[k].2 as int].position@,
                        ),
                        old(self).particles@[k].position@,
                    ),
                    #[trigger] final(self).particles@[k].position@,
                ),
    {
        self.mutation_with(space, differential_weight, picks);
        self.crossover_with(space, crossover_probability, force_change_index, draws);
        proof {
            assert forall|k: int| 0 <= k < self.particles@.len() implies (#[trigger] self.crossover_res_list@[k]).crossover_result@.len()
                == space.dims_spec() by {
                assert(self.particles@[k].position@.len() == space.dims_spec());
            }
        }
        self.select(space, objective);
    }

    /// One generation with fresh random draws. Every slot ends no worse than
    /// it started.
    pub fn evolution<F: Fn(&Vec<i64>) -> u64>(
        &mut self,
        space: &SearchSpace,
        differential_weight: i32,
        crossover_probability: u32,
        objective: &F,
    )
        requires
            space.wf(),
            total(*objective),
            old(self).wf(space.dims_spec()),
        ensures
            final(self).wf(space.dims_spec()),
            final(self).number_of_particles == old(self).number_of_particles,
            forall|k: int|
                0 <= k < old(self).particles@.len() ==> selected_from_some(
                    *objective,
                    old(self).particles@[k].position@,
                    #[trigger] final(self).particles@[k].position@,
                ),
            de_generation(
                *space,
                differential_weight,
                crossover_probability,
                *old(self),
                *final(self),
                *objective,
            ),
    {
        let n = self.particles.len();
        let d = space.dims();
        let mut picks: Vec<(usize, usize, usize)> = Vec::with_capacity(n);
        let mut draws: Vec<Vec<u16>> = Vec::with_capacity(n);
        let mut k: usize = 0;
        while k < n
            invariant
                n == self.particles@.len(),
                n > 0,
                d == space.dims_spec(),
                0 <= k <= n,
                picks@.len() == k,
                draws@.len() == k,
                forall|j: int|
                    0 <= j < k ==> (#[trigger] picks@[j]).0 < n && picks@[j].1 < n && picks@[j].2 < n,
                forall|j: int| 0 <= j < k ==> (#[trigger] draws@[j])@.len() == d,
            decreases n - k,
        {
            let a = draw_below(n as u64) as usize;
            let b = draw_below(n as u64) as usize;
            let c = draw_below(n as u64) as usize;
            picks.push((a, b, c));
            draws.push(random_fractions(d));
            k = k + 1;
        }
        let force_change_index = draw_below(d as u64) as usize;
        self.evolve_with(
            space,
            differential_weight,
            crossover_probability,
            &picks,
            force_change_index,
            &draws,
            objective,
        );
        proof {
            let rows = Seq::new(n as nat, |k: int| draws@[k]@);
            assert(de_generation_with(
                *space,
                differential_weight,
                crossover_probability,
                picks@,
                force_change_index as int,
                rows,
                *old(self),
                *self,
                *objective,
            ));
            assert forall|k: int| 0 <= k < old(self).particles@.len() implies selected_from_some(
                *objective,
                old(self).particles@[k].position@,
                #[trigger] self.particles@[k].position@,
            ) by {
                let t = trial(
                    crossover_probability,
                    force_change_index as int,
                    rows[k],
                    mutant(
                        differential_weight,
                        old(self).particles@[picks@[k].0 as int].position@,
                        old(self).particles@[picks@[k].1 as int].position@,
                        old(self).particles@[picks@[k].2 as int].position@,
                    ),
                    old(self).particles@[k].position@,
                );
                assert(selected(
                    *objective,
                    old(self).particles@[k].position@,
                    t,
                    self.particles@[k].position@,
                ));
            }
        }
    }

    /// The best individual: the positions are scored once each and scanned
    /// in order, the first taken, then every later one whose loss is `<=`
    /// the loss taken so far. Returns its loss and a copy of its position.
    pub fn result<F: Fn(&Vec<i64>) -> u64>(&self, objective: &F) -> (r: (u64, Vec<i64>))
        requires
            total(*objective),
            self.particles@.len() > 0,
        ensures
            exists|losses: Seq<u64>|
                #[trigger] evaluations(*objective, self.positions(), losses) && picked_best(
                    self.positions(),
                    losses,
                    r.0,
                    r.1@,
                ),
    {
        let n = self.particles.len();
        let ghost positions = self.positions();
        let ghost mut losses: Seq<u64> = Seq::empty();
        let mut best_loss: u64 = 0;
        let mut best_index: usize = 0;
        let mut i: usize = 0;
        while i < n
            invariant
                total(*objective),
                n == self.particles@.len(),
                positions == self.positions(),
                0 <= i <= n,
                losses.len() == i,
                forall|k: int| 0 <= k < i ==> scores(*objective, positions[k], #[trigger] losses[k]),
                i > 0 ==> 0 <= best_index < i && losses[best_index as int] == best_loss,
                forall|k: int| 0 <= k < i ==> best_loss <= #[trigger] losses[k],
                forall|k: int| best_index < k < i ==> best_loss < #[trigger] losses[k],
            decreases n - i,
        {
            let x = objective(&self.particles[i].position);
            assert(positions[i as int] == self.particles@[i as int].position@);
            proof {
                losses = losses.push(x);
            }
            if i == 0 || x <= best_loss {
                best_loss = x;
                best_index = i;
            }
            i = i + 1;
        }
        let best = self.particles[best_index].position.clone();
        assert(best@ =~= positions[best_index as int]);
        assert(evaluations(*objective, positions, losses));
        (best_loss, best)
    }
}

/// Some loss in `losses` is `<= b`.
pub open spec fn attains(losses: Seq<u64>, b: u64) -> bool {
    exists|k: int| 0 <= k < losses.len() && #[trigger] losses[k] <= b
}

/// With an objective that gives one loss per position, a generation never
/// makes a slot worse: in every slot the loss after is `<=` the loss
/// before, so the best loss of the population never rises.
pub proof fn lemma_generation_never_worsens<F: Fn(&Vec<i64>) -> u64>(
    objective: F,
    before: Seq<Seq<i64>>,
    after: Seq<Seq<i64>>,
    before_losses: Seq<u64>,
    after_losses: Seq<u64>,
)
    requires
        deterministic(objective),
        after.len() == before.len(),
        forall|k: int|
            0 <= k < before.len() ==> selected_from_some(objective, before[k], #[trigger] after[k]),
        evaluations(objective, before, before_losses),
        evaluations(objective, after, after_losses),
    ensures
        forall|k: int| 0 <= k < before.len() ==> #[trigger] after_losses[k] <= before_losses[k],
        forall|b: u64| #[trigger] attains(before_losses, b) ==> attains(after_losses, b),
{
    assert forall|k: int| 0 <= k < before.len() implies #[trigger] after_losses[k]
        <= before_losses[k] by {
        assert(selected_from_some(objective, before[k], after[k]));
        let offered = choose|offered: Seq<i64>| #[trigger] selected(objective, before[k], offered, after[k]);
        let (lo, ln) = choose|lo: u64, ln: u64|
            #[trigger] scores(objective, before[k], lo) && #[trigger] scores(objective, offered, ln)
                && (if ln <= lo {
                after[k] == offered
            } else {
                after[k] == before[k]
            });
        assert(scores(objective, before[k], before_losses[k]));
        assert(scores(objective, after[k], after_losses[k]));
        assert(lo == before_losses[k]);
        if ln <= lo {
            assert(ln == after_losses[k]);
        } else {
            assert(lo == after_losses[k]);
        }
    }
    assert forall|b: u64| #[trigger] attains(before_losses, b) implies attains(after_losses, b) by {
        let k = choose|k: int| 0 <= k < before.len() && #[trigger] before_losses[k] <= b;
        assert(after_losses[k] <= before_losses[k]);
    }
}

/// A population of one candidate never moves: its three donors are itself,
/// so its mutation vector and its trial vector are its own position.
pub proof fn lemma_single_candidate_stays<F: Fn(&Vec<i64>) -> u64>(
    space: SearchSpace,
    f: i32,
    cr: u32,
    old: Swarm,
    new: Swarm,
    objective: F,
)
    requires
        old.particles@.len() == 1,
        de_generation(space, f, cr, old, new, objective),
    ensures
        new.particles@[0].position@ == old.particles@[0].position@,
{
    let (picks, j, draws) = choose|picks: Seq<(usize, usize, usize)>, j: int, draws: Seq<Seq<u16>>|
        #[trigger] de_generation_with(space, f, cr, picks, j, draws, old, new, objective);
    let p = old.particles@[0].position@;
    assert(picks[0].0 == 0 && picks[0].1 == 0 && picks[0].2 == 0);
    let m = mutant(f, p, p, p);
    assert forall|i: int| 0 <= i < p.len() implies #[trigger] m[i] == p[i] by {
        assert((p[i] - p[i]) * f == 0);
        assert(div_trunc(0, UNIT as int) == 0);
    }
    assert(m =~= p);
    let t = trial(cr, j, draws[0], m, p);
    assert(t =~= p);
    assert(selected(objective, p, t, new.particles@[0].position@));
}

/// The error that `de` reports for this configuration, if any.
pub open spec fn de_config_error(
    position_max: Seq<i64>,
    position_min: Seq<i64>,
    num_of_particles: usize,
    steps: usize,
) -> Option<ConfigError> {
    match bounds_error(position_min, position_max) {
        Some(e) => Some(e),
        None => if num_of_particles == 0 {
            Some(ConfigError::EmptyPopulation)
        } else if steps == 0 {
            Some(ConfigError::NoGenerations)
        } else {
            None
        },
    }
}

/// `(loss, best)` is the scan result over some final population of `n`
/// positions with their losses.
pub open spec fn scanned<F: Fn(&Vec<i64>) -> u64>(
    objective: F,
    n: usize,
    positions: Seq<Seq<i64>>,
    losses: Seq<u64>,
    loss: u64,
    best: Seq<i64>,
) -> bool {
    &&& positions.len() == n
    &&& evaluations(objective, positions, losses)
    &&& picked_best(positions, losses, loss, best)
}

/// Generation `t` of `hist` leads to generation `t + 1`.
pub open spec fn de_step_at<F: Fn(&Vec<i64>) -> u64>(
    space: SearchSpace,
    f: i32,
    cr: u32,
    hist: Seq<Swarm>,
    t: int,
    objective: F,
) -> bool {
    de_generation(space, f, cr, hist[t], hist[t + 1], objective)
}

/// `hist` is the history of a run over the box `[lower, upper]`: a freshly
/// placed population of `n`, then `steps` generations, ending with the scan
/// result `(loss, best)`. With an objective that gives one loss per position,
/// that loss is no worse than the loss of any initial candidate.
pub open spec fn de_run<F: Fn(&Vec<i64>) -> u64>(
    space: SearchSpace,
    hist: Seq<Swarm>,
    lower: Seq<i64>,
    upper: Seq<i64>,
    n: usize,
    f: i32,
    cr: u32,
    steps: usize,
    objective: F,
    loss: u64,
    best: Seq<i64>,
) -> bool {
    &&& space.lower@ == lower
    &&& space.upper@ == upper
    &&& hist.len() == steps + 1
    &&& hist[0].wf(lower.len())
    &&& hist[0].number_of_particles == n
    &&& forall|k: int| 0 <= k < n ==> in_box(lower, upper, (#[trigger] hist[0].particles@[k]).position@)
    &&& forall|t: int| 0 <= t < steps ==> #[trigger] de_step_at(space, f, cr, hist, t, objective)
    &&& exists|losses: Seq<u64>|
        #[trigger] scanned(objective, n, hist[steps as int].positions(), losses, loss, best)
    &&& deterministic(objective) ==> forall|k: int, l0: u64|
        0 <= k < n && #[trigger] scores(objective, hist[0].particles@[k].position@, l0) ==> loss <= l0
}

/// Along one slot, a generation never raises the loss: if every loss of
/// `before` is at most any loss of `start`, the same holds of `after`.
proof fn lemma_slot_chain<F: Fn(&Vec<i64>) -> u64>(
    objective: F,
    start: Seq<i64>,
    before: Seq<i64>,
    after: Seq<i64>,
)
    requires
        deterministic(objective),
        selected_from_some(objective, before, after),
        forall|l0: u64, l: u64|
            #[trigger] scores(objective, start, l0) && #[trigger] scores(objective, before, l) ==> l
                <= l0,
    ensures
        forall|l0: u64, l: u64|
            #[trigger] scores(objective, start, l0) && #[trigger] scores(objective, after, l) ==> l
                <= l0,
{
    let offered = choose|offered: Seq<i64>| #[trigger] selected(objective, before, offered, after);
    let (lo, ln) = choose|lo: u64, ln: u64|
        #[trigger] scores(objective, before, lo) && #[trigger] scores(objective, offered, ln) && (
        if ln <= lo {
            after == offered
        } else {
            after == before
        });
    assert forall|l0: u64, l: u64|
        #[trigger] scores(objective, start, l0) && #[trigger] scores(objective, after, l) implies l
        <= l0 by {
        assert(lo <= l0);
        if ln <= lo {
            assert(scores(objective, offered, l));
        } else {
            assert(scores(objective, before, l));
        }
    }
}

/// A full differential evolution run: `num_of_particles` individuals placed
/// at random in the box `[position_min, position_max]`, then `steps`
/// generations with the differential weight and crossover probability given
/// as multiples of `1 / UNIT`. Trial vectors are not clamped, so later
/// positions may leave the box. Returns the best loss and position of the
/// final population, or, before any work, the configuration error.
pub fn de<F: Fn(&Vec<i64>) -> u64>(
    position_max: Vec<i64>,
    position_min: Vec<i64>,
    objective: &F,
    num_of_particles: usize,
    differential_weight: i32,
    crossover_probability: u32,
    steps: usize,
) -> (r: Result<(u64, Vec<i64>), ConfigError>)
    requires
        total(*objective),
    ensures
        de_config_error(position_max@, position_min@, num_of_particles, steps) matches Some(e)
            ==> r is Err && r->Err_0 == e,
        de_config_error(position_max@, position_min@, num_of_particles, steps) is None ==> r is Ok,
        r is Ok ==> scores(*objective, r->Ok_0.1@, r->Ok_0.0),
        r is Ok ==> r->Ok_0.1@.len() == position_min@.len(),
        r is Ok ==> exists|space: SearchSpace, hist: Seq<Swarm>|
            #[trigger] de_run(
                space,
                hist,
                position_min@,
                position_max@,
                num_of_particles,
                differential_weight,
                crossover_probability,
                steps,
                *objective,
                r->Ok_0.0,
                r->Ok_0.1@,
            ),
        r is Ok ==> exists|positions: Seq<Seq<i64>>, losses: Seq<u64>|
            #[trigger] scanned(*objective, num_of_particles, positions, losses, r->Ok_0.0, r->Ok_0.1@),
{
    let space = match SearchSpace::new(position_min, position_max) {
        Ok(s) => s,
        Err(e) => {
            return Err(e);
        },
    };
    if num_of_particles == 0 {
        return Err(ConfigError::EmptyPopulation);
    }
    if steps == 0 {
        return Err(ConfigError::NoGenerations);
    }
    let mut swarm = Swarm::new(num_of_particles, &space);
    let ghost mut hist: Seq<Swarm> = seq![swarm];
    let mut t: usize = 0;
    while t < steps
        invariant
            space.wf(),
            total(*objective),
            swarm.wf(space.dims_spec()),
            swarm.number_of_particles == num_of_particles,
            0 <= t <= steps,
            hist.len() == t + 1,
            hist[t as int] == swarm,
            hist[0].wf(space.dims_spec()),
            hist[0].number_of_particles == num_of_particles,
            forall|k: int|
                0 <= k < num_of_particles ==> space.contains(
                    (#[trigger] hist[0].particles@[k]).position@,
                ),
            forall|u: int|
                0 <= u < t ==> #[trigger] de_step_at(
                    space,
                    differential_weight,
                    crossover_probability,
                    hist,
                    u,
                    *objective,
                ),
            deterministic(*objective) ==> forall|k: int, l0: u64, l: u64|
                0 <= k < num_of_particles && #[trigger] scores(
                    *objective,
                    hist[0].particles@[k].position@,
                    l0,
                ) && #[trigger] scores(*objective, swarm.particles@[k].position@, l) ==> l <= l0,
        decreases steps - t,
    {
        let ghost prev = swarm;
        swarm.evolution(&space, differential_weight, crossover_probability, objective);
        proof {
            let next = hist.push(swarm);
            assert forall|u: int| 0 <= u < t + 1 implies #[trigger] de_step_at(
                space,
                differential_weight,
                crossover_probability,
                next,
                u,
                *objective,
            ) by {
                if u < t {
                    assert(de_step_at(
                        space,
                        differential_weight,
                        crossover_probability,
                        hist,
                        u,
                        *objective,
                    ));
                    assert(next[u] == hist[u]);
                    assert(next[u + 1] == hist[u + 1]);
                } else {
                    assert(next[u] == prev);
                    assert(next[u + 1] == swarm);
                }
            }
            if deterministic(*objective) {
                assert forall|k: int, l0: u64, l: u64|
                    0 <= k < num_of_particles && #[trigger] scores(
                        *objective,
                        hist[0].particles@[k].position@,
                        l0,
                    ) && #[trigger] scores(*objective, swarm.particles@[k].position@, l) implies l
                    <= l0 by {
                    lemma_slot_chain(
                        *objective,
                        hist[0].particles@[k].position@,
                        prev.particles@[k].position@,
                        swarm.particles@[k].position@,
                    );
                }
            }
            hist = next;
        }
        t = t + 1;
    }
    let (loss, best) = swarm.result(objective);
    let ghost positions = swarm.positions();
    let ghost losses = choose|losses: Seq<u64>|
        #[trigger] evaluations(*objective, positions, losses) && picked_best(
            positions,
            losses,
            loss,
            best@,
        );
    proof {
        let k = choose|k: int|
            0 <= k < losses.len() && #[trigger] losses[k] == loss && positions[k] == best@
                && (forall|j: int| 0 <= j < losses.len() ==> loss <= #[trigger] losses[j]) && (forall|
                j: int,
            | k < j < losses.len() ==> loss < #[trigger] losses[j]);
        assert(scores(*objective, positions[k], losses[k]));
        assert(swarm.particles@[k].position@.len() == space.dims_spec());
        assert(scanned(*objective, num_of_particles, positions, losses, loss, best@));
    }
    let r = Ok((loss, best));
    proof {
        if deterministic(*objective) {
            assert forall|k: int, l0: u64|
                0 <= k < num_of_particles && #[trigger] scores(
                    *objective,
                    hist[0].particles@[k].position@,
                    l0,
                ) implies loss <= l0 by {
                assert(positions[k] == swarm.particles@[k].position@);
                assert(scores(*objective, positions[k], losses[k]));
            }
        }
        assert forall|k: int| 0 <= k < num_of_particles implies in_box(
            position_min@,
            position_max@,
            (#[trigger] hist[0].particles@[k]).position@,
        ) by {
            assert(space.contains(hist[0].particles@[k].position@));
        }
    }
    assert(de_run(
        space,
        hist,
        position_min@,
        position_max@,
        num_of_particles,
        differential_weight,
        crossover_probability,
        steps,
        *objective,
        r->Ok_0.0,
        r->Ok_0.1@,
    ));
    assert(scanned(*objective, num_of_particles, positions, losses, r->Ok_0.0, r->Ok_0.1@));
    r
}

} // verus!
