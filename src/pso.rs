//! Particle swarm optimisation.
use vstd::prelude::*;

use crate::fixed::{
    clamp_i128, clamp_int, div_toward_zero, div_trunc, is_isqrt, isqrt, lemma_isqrt_unique, UNIT,
};
use crate::rng::random_fractions;
use crate::space::{bounds_error, in_box, ConfigError, SearchSpace, COORD_LIMIT};

verus! {

/// The objective accepts every position.
pub open spec fn total<F: Fn(&Vec<i64>) -> u64>(objective: F) -> bool {
    forall|p: &Vec<i64>| #[trigger] call_requires(objective, (p,))
}

/// `loss` is what the objective gives for position `p`.
pub open spec fn scores<F: Fn(&Vec<i64>) -> u64>(objective: F, p: Seq<i64>, loss: u64) -> bool {
    exists|v: &Vec<i64>| v@ == p && #[trigger] call_ensures(objective, (v,), loss)
}

/// The objective gives the same loss for the same position.
pub open spec fn deterministic<F: Fn(&Vec<i64>) -> u64>(objective: F) -> bool {
    forall|p: Seq<i64>, a: u64, b: u64|
        #[trigger] scores(objective, p, a) && #[trigger] scores(objective, p, b) ==> a == b
}

/// New speed along dimension `i`:
/// `w*v + c1*r1*(best - p) + c2*r2*(global_best - p)` with `w`, `c1`, `c2`,
/// `r1` and `r2` read as multiples of `1 / UNIT`, rounded toward zero, then
/// limited to `± range(i) / 5`.
pub open spec fn next_velocity(
    space: SearchSpace,
    w: i32,
    c1: i32,
    c2: i32,
    r1: u16,
    r2: u16,
    p: i64,
    v: i64,
    best: i64,
    global_best: i64,
    i: int,
) -> int {
    let num = w * v * UNIT + c1 * r1 * (best - p) + c2 * r2 * (global_best - p);
    let lim = space.velocity_limit_spec(i);
    clamp_int(div_trunc(num, UNIT * UNIT), -lim, lim)
}

/// The velocities after one update of a particle.
pub open spec fn stepped_velocity(
    space: SearchSpace,
    w: i32,
    c1: i32,
    c2: i32,
    r1: Seq<u16>,
    r2: Seq<u16>,
    old: Particle,
    global_best: Seq<i64>,
) -> Seq<i64> {
    Seq::new(
        old.position@.len(),
        |i: int|
            next_velocity(
                space,
                w,
                c1,
                c2,
                r1[i],
                r2[i],
                old.position@[i],
                old.velocity@[i],
                old.local_best_position@[i],
                global_best[i],
                i,
            ) as i64,
    )
}

/// The positions reached from `p` by velocities `v`, clamped into the space.
pub open spec fn stepped_position(space: SearchSpace, p: Seq<i64>, v: Seq<i64>) -> Seq<i64> {
    Seq::new(p.len(), |i: int| space.clamp_spec(p[i] + v[i], i) as i64)
}

/// `|a * b| <= x * y` when `|a| <= x` and `|b| <= y`.
proof fn lemma_product_bound(a: int, b: int, x: int, y: int)
    requires
        -x <= a <= x,
        -y <= b <= y,
    ensures
        -(x * y) <= a * b <= x * y,
{
    assert(-(x * y) <= a * b <= x * y) by (nonlinear_arith)
        requires
            -x <= a <= x,
            -y <= b <= y,
    ;
}

/// `next_velocity` computed for one dimension.
fn velocity_step(
    space: &SearchSpace,
    w: i32,
    c1: i32,
    c2: i32,
    r1: u16,
    r2: u16,
    p: i64,
    v: i64,
    best: i64,
    global_best: i64,
    i: usize,
) -> (r: i64)
    requires
        space.wf(),
        i < space.dims_spec(),
        -COORD_LIMIT <= p <= COORD_LIMIT,
        -COORD_LIMIT <= v <= COORD_LIMIT,
        -COORD_LIMIT <= best <= COORD_LIMIT,
    ensures
        r == next_velocity(*space, w, c1, c2, r1, r2, p, v, best, global_best, i as int),
        -space.velocity_limit_spec(i as int) <= r <= space.velocity_limit_spec(i as int),
{
    let lim = space.velocity_limit(i) as i128;
    let c = 0x8000_0000i128;
    let l = 0x100_0000_0000i128;
    proof {
        lemma_product_bound(w as int, v as int, c as int, l as int);
        lemma_product_bound(w * v, UNIT as int, c * l, UNIT as int);
        lemma_product_bound(c1 as int, r1 as int, c as int, UNIT as int);
        lemma_product_bound(c1 * r1, best - p, c * UNIT, 2 * l);
        lemma_product_bound(c2 as int, r2 as int, c as int, UNIT as int);
        lemma_product_bound(c2 * r2, global_best - p, c * UNIT, 0x1_0000_0000_0000_0000);
    }
    let inertia = (w as i128) * (v as i128) * UNIT;
    let cognitive = (c1 as i128) * (r1 as i128) * ((best as i128) - (p as i128));
    let social = (c2 as i128) * (r2 as i128) * ((global_best as i128) - (p as i128));
    let num = inertia + cognitive + social;
    let q = div_toward_zero(num, UNIT * UNIT);
    let r = clamp_i128(q, -lim, lim);
    r as i64
}

/// One particle of the swarm.
pub struct Particle {
    pub position: Vec<i64>,
    pub velocity: Vec<i64>,
    pub local_best_position: Vec<i64>,
    pub local_best_loss: u64,
}

impl Particle {
    /// Position and personal best lie in the space; every speed lies within
    /// its dimension's limit.
    pub open spec fn wf(&self, space: SearchSpace) -> bool {
        &&& space.contains(self.position@)
        &&& space.contains(self.local_best_position@)
        &&& self.velocity@.len() == space.dims_spec()
        &&& forall|i: int|
            0 <= i < self.velocity@.len() ==> -space.velocity_limit_spec(i) <= #[trigger] self.velocity@[i]
                <= space.velocity_limit_spec(i)
    }

    /// A particle at `lower[i] + offsets[i]`, moving at `-range(i) / 10`
    /// (rounded toward zero), whose personal best is where it starts.
    pub fn from_offsets<F: Fn(&Vec<i64>) -> u64>(
        space: &SearchSpace,
        offsets: &Vec<u64>,
        objective: &F,
    ) -> (r: Particle)
        requires
            space.wf(),
            total(*objective),
            offsets@.len() == space.dims_spec(),
            forall|i: int| 0 <= i < offsets@.len() ==> #[trigger] offsets@[i] <= space.range_spec(i),
        ensures
            r.wf(*space),
            forall|i: int|
                0 <= i < offsets@.len() ==> #[trigger] r.position@[i] == space.lower@[i] + offsets@[i],
            forall|i: int|
                0 <= i < offsets@.len() ==> #[trigger] r.velocity@[i] == -(space.range_spec(i) / 10),
            r.local_best_position@ == r.position@,
            scores(*objective, r.position@, r.local_best_loss),
    {
        let n = space.dims();
        let mut position: Vec<i64> = Vec::with_capacity(n);
        let mut velocity: Vec<i64> = Vec::with_capacity(n);
        let mut i: usize = 0;
        while i < n
            invariant
                space.wf(),
                n == space.dims_spec(),
                offsets@.len() == n,
                forall|k: int| 0 <= k < n ==> #[trigger] offsets@[k] <= space.range_spec(k),
                0 <= i <= n,
                position@.len() == i,
                velocity@.len() == i,
                forall|k: int| 0 <= k < i ==> #[trigger] position@[k] == space.lower@[k] + offsets@[k],
                forall|k: int| 0 <= k < i ==> #[trigger] velocity@[k] == -(space.range_spec(k) / 10),
            decreases n - i,
        {
            let range = space.range(i);
            position.push(space.lower[i] + offsets[i] as i64);
            velocity.push(-(range / 10));
            i = i + 1;
        }
        let local_best_position = position.clone();
        assert(local_best_position@ =~= position@);
        let local_best_loss = objective(&position);
        Particle { position, velocity, local_best_position, local_best_loss }
    }

    /// One update of the particle. Along every dimension the velocity becomes
    /// `next_velocity` of the draws `r1[i]`, `r2[i]`, and the position moves
    /// by it and is clamped into the space. The personal best moves to the new
    /// position only when its loss is strictly smaller. Returns that loss.
    pub fn evolution<F: Fn(&Vec<i64>) -> u64>(
        &mut self,
        space: &SearchSpace,
        w: i32,
        c1: i32,
        c2: i32,
        global_best_position: &Vec<i64>,
        r1: &Vec<u16>,
        r2: &Vec<u16>,
        objective: &F,
    ) -> (loss: u64)
        requires
            space.wf(),
            total(*objective),
            old(self).wf(*space),
            global_best_position@.len() == space.dims_spec(),
            r1@.len() == space.dims_spec(),
            r2@.len() == space.dims_spec(),
        ensures
            final(self).wf(*space),
            final(self).velocity@ == stepped_velocity(
                *space,
                w,
                c1,
                c2,
                r1@,
                r2@,
                *old(self),
                global_best_position@,
            ),
            final(self).position@ == stepped_position(
                *space,
                old(self).position@,
                final(self).velocity@,
            ),
            scores(*objective, final(self).position@, loss),
            loss < old(self).local_best_loss ==> final(self).local_best_loss == loss
                && final(self).local_best_position@ == final(self).position@,
            loss >= old(self).local_best_loss ==> final(self).local_best_loss
                == old(self).local_best_loss && final(self).local_best_position@ == old(
                self,
            ).local_best_position@,
    {
        let n = space.dims();
        let mut velocity: Vec<i64> = Vec::with_capacity(n);
        let mut position: Vec<i64> = Vec::with_capacity(n);
        let mut i: usize = 0;
        while i < n
            invariant
                space.wf(),
                n == space.dims_spec(),
                self.wf(*space),
                global_best_position@.len() == n,
                r1@.len() == n,
                r2@.len() == n,
                0 <= i <= n,
                velocity@.len() == i,
                position@.len() == i,
                forall|k: int|
                    0 <= k < i ==> #[trigger] velocity@[k] == stepped_velocity(
                        *space,
                        w,
                        c1,
                        c2,
                        r1@,
                        r2@,
                        *self,
                        global_best_position@,
                    )[k],
                forall|k: int|
                    0 <= k < i ==> #[trigger] position@[k] == space.clamp_spec(
                        self.position@[k] + velocity@[k],
                        k,
                    ),
                forall|k: int|
                    0 <= k < i ==> -space.velocity_limit_spec(k) <= #[trigger] velocity@[k]
                        <= space.velocity_limit_spec(k),
                forall|k: int|
                    0 <= k < i ==> space.lower@[k] <= #[trigger] position@[k] <= space.upper@[k],
            decreases n - i,
        {
            let v = velocity_step(
                space,
                w,
                c1,
                c2,
                r1[i],
                r2[i],
                self.position[i],
                self.velocity[i],
                self.local_best_position[i],
                global_best_position[i],
                i,
            );
            velocity.push(v);
            let p = space.clamp(self.position[i] as i128 + v as i128, i);
            position.push(p);
            i = i + 1;
        }
        assert(velocity@ =~= stepped_velocity(
            *space,
            w,
            c1,
            c2,
            r1@,
            r2@,
            *self,
            global_best_position@,
        ));
        assert(position@ =~= stepped_position(*space, self.position@, velocity@));
        self.velocity = velocity;
        self.position = position;
        let loss = objective(&self.position);
        if loss < self.local_best_loss {
            self.local_best_loss = loss;
            self.local_best_position = self.position.clone();
            assert(self.local_best_position@ =~= self.position@);
        }
        loss
    }

    /// A particle placed uniformly at random in the space.
    pub fn new<F: Fn(&Vec<i64>) -> u64>(space: &SearchSpace, objective: &F) -> (r: Particle)
        requires
            space.wf(),
            total(*objective),
        ensures
            r.wf(*space),
            forall|i: int|
                0 <= i < space.dims_spec() ==> #[trigger] r.velocity@[i] == -(space.range_spec(i) / 10),
            r.local_best_position@ == r.position@,
            scores(*objective, r.position@, r.local_best_loss),
    {
        let offsets = space.random_offsets();
        Particle::from_offsets(space, &offsets, objective)
    }
}

/// `(loss, position)` is what a single scan of `list` settles on when it
/// starts from `current`, takes the first personal best it meets when there is
/// no current value, and then replaces its choice by every later personal best
/// whose loss is `<=` the loss chosen so far: the smallest loss, at the last
/// particle that has it.
pub open spec fn is_reduction(list: Seq<Particle>, loss: u64, position: Seq<i64>) -> bool {
    exists|k: int|
        0 <= k < list.len() && #[trigger] list[k].local_best_loss == loss
            && list[k].local_best_position@ == position && (forall|j: int|
            0 <= j < list.len() ==> loss <= #[trigger] list[j].local_best_loss) && (forall|j: int|
            k < j < list.len() ==> loss < #[trigger] list[j].local_best_loss)
}

/// Some particle's personal best is no worse than `x`.
pub open spec fn reaches(list: Seq<Particle>, x: u64) -> bool {
    exists|k: int| 0 <= k < list.len() && #[trigger] list[k].local_best_loss <= x
}

/// The global best of a swarm: the smallest personal-best loss, with the
/// personal-best position of the last particle that has it. A scan seeded
/// with a `current` loss gives the same answer provided some particle reaches
/// that loss.
pub fn compare(particle_list: &Vec<Particle>, current_global_best_loss: Option<u64>) -> (r: (
    u64,
    Vec<i64>,
))
    requires
        particle_list@.len() > 0,
        current_global_best_loss matches Some(x) ==> reaches(particle_list@, x),
    ensures
        is_reduction(particle_list@, r.0, r.1@),
        current_global_best_loss matches Some(x) ==> r.0 <= x,
{
    let n = particle_list.len();
    let mut best_loss: Option<u64> = current_global_best_loss;
    let mut best_position: Option<Vec<i64>> = None;
    let ghost mut chosen: int = 0;
    let mut i: usize = 0;
    while i < n
        invariant
            n == particle_list@.len(),
            n > 0,
            0 <= i <= n,
            current_global_best_loss matches Some(x) ==> reaches(particle_list@, x),
            best_loss is None ==> i == 0 && current_global_best_loss is None,
            best_loss matches Some(b) ==> forall|j: int|
                0 <= j < i ==> b <= #[trigger] particle_list@[j].local_best_loss,
            best_loss matches Some(b) ==> (current_global_best_loss matches Some(x) ==> b <= x),
            best_position is None ==> best_loss == current_global_best_loss && forall|j: int|
                0 <= j < i ==> best_loss->Some_0 < #[trigger] particle_list@[j].local_best_loss,
            best_position matches Some(p) ==> best_loss is Some && 0 <= chosen < i
                && particle_list@[chosen].local_best_loss == best_loss->Some_0
                && particle_list@[chosen].local_best_position@ == p@ && forall|j: int|
                chosen < j < i ==> best_loss->Some_0 < #[trigger] particle_list@[j].local_best_loss,
        decreases n - i,
    {
        let a = &particle_list[i];
        let take = match best_loss {
            None => true,
            Some(x) => a.local_best_loss <= x,
        };
        if take {
            best_loss = Some(a.local_best_loss);
            let p = a.local_best_position.clone();
            assert(p@ =~= a.local_best_position@);
            best_position = Some(p);
            proof {
                chosen = i as int;
            }
        }
        i = i + 1;
    }
    proof {
        if best_position is None {
            let x = current_global_best_loss->Some_0;
            let k = choose|k: int| 0 <= k < n && #[trigger] particle_list@[k].local_best_loss <= x;
            assert(x < particle_list@[k].local_best_loss);
        }
    }
    let loss = match best_loss {
        Some(b) => b,
        None => 0,
    };
    let position = match best_position {
        Some(p) => p,
        None => Vec::new(),
    };
    (loss, position)
}

/// `new` is `old` after one update with draws `r1`, `r2` against the global
/// best position `global_best`.
pub open spec fn particle_step<F: Fn(&Vec<i64>) -> u64>(
    space: SearchSpace,
    w: i32,
    c1: i32,
    c2: i32,
    r1: Seq<u16>,
    r2: Seq<u16>,
    global_best: Seq<i64>,
    old: Particle,
    new: Particle,
    objective: F,
) -> bool {
    &&& new.velocity@ == stepped_velocity(space, w, c1, c2, r1, r2, old, global_best)
    &&& new.position@ == stepped_position(space, old.position@, new.velocity@)
    &&& exists|loss: u64|
        #[trigger] scores(objective, new.position@, loss) && (if loss < old.local_best_loss {
            new.local_best_loss == loss && new.local_best_position@ == new.position@
        } else {
            new.local_best_loss == old.local_best_loss && new.local_best_position@
                == old.local_best_position@
        })
}

/// Every personal-best loss is the objective's loss at that personal best.
pub open spec fn bests_scored<F: Fn(&Vec<i64>) -> u64>(list: Seq<Particle>, objective: F) -> bool {
    forall|k: int|
        0 <= k < list.len() ==> scores(
            objective,
            (#[trigger] list[k]).local_best_position@,
            list[k].local_best_loss,
        )
}

/// `new` is `old` after one generation with draws `r1`, `r2`: every particle
/// took one update against the global best position of `old`.
pub open spec fn generation_with<F: Fn(&Vec<i64>) -> u64>(
    space: SearchSpace,
    w: i32,
    c1: i32,
    c2: i32,
    r1: Seq<Seq<u16>>,
    r2: Seq<Seq<u16>>,
    old: Swarm,
    new: Swarm,
    objective: F,
) -> bool {
    &&& r1.len() == old.particle_list@.len()
    &&& r2.len() == old.particle_list@.len()
    &&& new.particle_list@.len() == old.particle_list@.len()
    &&& forall|k: int| 0 <= k < r1.len() ==> (#[trigger] r1[k]).len() == space.dims_spec()
    &&& forall|k: int| 0 <= k < r2.len() ==> (#[trigger] r2[k]).len() == space.dims_spec()
    &&& forall|k: int|
        0 <= k < old.particle_list@.len() ==> particle_step(
            space,
            w,
            c1,
            c2,
            r1[k],
            r2[k],
            old.global_best_position@,
            old.particle_list@[k],
            #[trigger] new.particle_list@[k],
            objective,
        )
}

/// `new` is `old` after one generation with some draws.
pub open spec fn generation<F: Fn(&Vec<i64>) -> u64>(
    space: SearchSpace,
    w: i32,
    c1: i32,
    c2: i32,
    old: Swarm,
    new: Swarm,
    objective: F,
) -> bool {
    exists|r1: Seq<Seq<u16>>, r2: Seq<Seq<u16>>|
        #[trigger] generation_with(space, w, c1, c2, r1, r2, old, new, objective)
}

/// A swarm of particles and the best position any of them has seen.
pub struct Swarm {
    pub num_of_particles: usize,
    pub particle_list: Vec<Particle>,
    pub global_best_position: Vec<i64>,
    pub global_best_loss: u64,
}

impl Swarm {
    /// At least one particle, each well formed, and the global best is the
    /// reduction of the personal bests.
    pub open spec fn wf(&self, space: SearchSpace) -> bool {
        &&& self.num_of_particles == self.particle_list@.len()
        &&& self.particle_list@.len() > 0
        &&& forall|k: int|
            0 <= k < self.particle_list@.len() ==> #[trigger] self.particle_list@[k].wf(space)
        &&& is_reduction(self.particle_list@, self.global_best_loss, self.global_best_position@)
    }

    /// The swarm of the particles that `Particle::from_offsets` builds from
    /// each row of `offsets`, with its global best.
    pub fn from_offsets<F: Fn(&Vec<i64>) -> u64>(
        space: &SearchSpace,
        offsets: &Vec<Vec<u64>>,
        objective: &F,
    ) -> (r: Swarm)
        requires
            space.wf(),
            total(*objective),
            offsets@.len() > 0,
            forall|k: int|
                0 <= k < offsets@.len() ==> (#[trigger] offsets@[k])@.len() == space.dims_spec(),
            forall|k: int, i: int|
                0 <= k < offsets@.len() && 0 <= i < space.dims_spec() ==> #[trigger] offsets@[k]@[i]
                    <= space.range_spec(i),
        ensures
            r.wf(*space),
            r.num_of_particles == offsets@.len(),
            forall|k: int, i: int|
                0 <= k < offsets@.len() && 0 <= i < space.dims_spec()
                    ==> #[trigger] r.particle_list@[k].position@[i] == space.lower@[i]
                    + offsets@[k]@[i],
            forall|k: int|
                0 <= k < offsets@.len() ==> #[trigger] r.particle_list@[k].local_best_position@
                    == r.particle_list@[k].position@,
            forall|k: int|
                0 <= k < offsets@.len() ==> scores(
                    *objective,
                    #[trigger] r.particle_list@[k].position@,
                    r.particle_list@[k].local_best_loss,
                ),
            bests_scored(r.particle_list@, *objective),
    {
        let n = offsets.len();
        let mut particle_list: Vec<Particle> = Vec::with_capacity(n);
        let mut k: usize = 0;
        while k < n
            invariant
                space.wf(),
                total(*objective),
                n == offsets@.len(),
                forall|k: int|
                    0 <= k < offsets@.len() ==> (#[trigger] offsets@[k])@.len() == space.dims_spec(),
                forall|k: int, i: int|
                    0 <= k < offsets@.len() && 0 <= i < space.dims_spec()
                        ==> #[trigger] offsets@[k]@[i] <= space.range_spec(i),
                0 <= k <= n,
                particle_list@.len() == k,
                forall|j: int| 0 <= j < k ==> #[trigger] particle_list@[j].wf(*space),
                forall|j: int, i: int|
                    0 <= j < k && 0 <= i < space.dims_spec()
                        ==> #[trigger] particle_list@[j].position@[i] == space.lower@[i]
                        + offsets@[j]@[i],
                forall|j: int|
                    0 <= j < k ==> #[trigger] particle_list@[j].local_best_position@
                        == particle_list@[j].position@,
                forall|j: int|
                    0 <= j < k ==> scores(
                        *objective,
                        #[trigger] particle_list@[j].position@,
                        particle_list@[j].local_best_loss,
                    ),
            decreases n - k,
        {
            let row = &offsets[k];
            assert forall|i: int| 0 <= i < row@.len() implies #[trigger] row@[i]
                <= space.range_spec(i) by {
                assert(offsets@[k as int]@[i] <= space.range_spec(i));
            }
            let p = Particle::from_offsets(space, row, objective);
            particle_list.push(p);
            k = k + 1;
        }
        let (global_best_loss, global_best_position) = compare(&particle_list, None);
        assert forall|j: int| 0 <= j < n implies scores(
            *objective,
            (#[trigger] particle_list@[j]).local_best_position@,
            particle_list@[j].local_best_loss,
        ) by {
            assert(scores(*objective, particle_list@[j].position@, particle_list@[j].local_best_loss));
        }
        Swarm { num_of_particles: n, particle_list, global_best_position, global_best_loss }
    }

    /// A swarm of `num_of_particles` particles placed uniformly at random.
    pub fn new<F: Fn(&Vec<i64>) -> u64>(
        num_of_particles: usize,
        space: &SearchSpace,
        objective: &F,
    ) -> (r: Swarm)
        requires
            space.wf(),
            total(*objective),
            num_of_particles > 0,
        ensures
            r.wf(*space),
            r.num_of_particles == num_of_particles,
            forall|k: int|
                0 <= k < num_of_particles ==> #[trigger] r.particle_list@[k].local_best_position@
                    == r.particle_list@[k].position@,
            forall|k: int|
                0 <= k < num_of_particles ==> scores(
                    *objective,
                    #[trigger] r.particle_list@[k].position@,
                    r.particle_list@[k].local_best_loss,
                ),
            bests_scored(r.particle_list@, *objective),
    {
        let mut offsets: Vec<Vec<u64>> = Vec::with_capacity(num_of_particles);
        let mut k: usize = 0;
        while k < num_of_particles
            invariant
                space.wf(),
                0 <= k <= num_of_particles,
                offsets@.len() == k,
                forall|j: int| 0 <= j < k ==> (#[trigger] offsets@[j])@.len() == space.dims_spec(),
                forall|j: int, i: int|
                    0 <= j < k && 0 <= i < space.dims_spec() ==> #[trigger] offsets@[j]@[i]
                        <= space.range_spec(i),
            decreases num_of_particles - k,
        {
            let row = space.random_offsets();
            offsets.push(row);
            k = k + 1;
        }
        Swarm::from_offsets(space, &offsets, objective)
    }
}

impl Swarm {
    /// One generation with the given draws: every particle is updated with
    /// its rows `r1[k]`, `r2[k]` against the global best position of the
    /// previous generation, and only then is the global best recomputed from
    /// the new personal bests.
    pub fn evolve_with<F: Fn(&Vec<i64>) -> u64>(
        &mut self,
        space: &SearchSpace,
        w: i32,
        c1: i32,
        c2: i32,
        r1: &Vec<Vec<u16>>,
        r2: &Vec<Vec<u16>>,
        objective: &F,
    )
        requires
            space.wf(),
            total(*objective),
            old(self).wf(*space),
            r1@.len() == old(self).particle_list@.len(),
            r2@.len() == old(self).particle_list@.len(),
            forall|k: int| 0 <= k < r1@.len() ==> (#[trigger] r1@[k])@.len() == space.dims_spec(),
            forall|k: int| 0 <= k < r2@.len() ==> (#[trigger] r2@[k])@.len() == space.dims_spec(),
        ensures
            final(self).wf(*space),
            final(self).num_of_particles == old(self).num_of_particles,
            forall|k: int|
                0 <= k < old(self).particle_list@.len() ==> particle_step(
                    *space,
                    w,
                    c1,
                    c2,
                    r1@[k]@,
                    r2@[k]@,
                    old(self).global_best_position@,
                    old(self).particle_list@[k],
                    #[trigger] final(self).particle_list@[k],
                    *objective,
                ),
            final(self).global_best_loss <= old(self).global_best_loss,
            bests_scored(old(self).particle_list@, *objective) ==> bests_scored(
                final(self).particle_list@,
                *objective,
            ),
    {
        let n = self.particle_list.len();
        let ghost before = self.particle_list@;
        let mut k: usize = 0;
        while k < n
            invariant
                space.wf(),
                total(*objective),
                n == before.len(),
                n == self.particle_list@.len(),
                n == self.num_of_particles,
                self.num_of_particles == old(self).num_of_particles,
                before == old(self).particle_list@,
                self.global_best_loss == old(self).global_best_loss,
                self.global_best_position@ == old(self).global_best_position@,
                is_reduction(before, self.global_best_loss, self.global_best_position@),
                forall|j: int| 0 <= j < n ==> #[trigger] before[j].wf(*space),
                r1@.len() == n,
                r2@.len() == n,
                forall|j: int| 0 <= j < n ==> (#[trigger] r1@[j])@.len() == space.dims_spec(),
                forall|j: int| 0 <= j < n ==> (#[trigger] r2@[j])@.len() == space.dims_spec(),
                0 <= k <= n,
                forall|j: int| 0 <= j < n ==> #[trigger] self.particle_list@[j].wf(*space),
                forall|j: int|
                    0 <= j < n ==> #[trigger] self.particle_list@[j].local_best_loss
                        <= before[j].local_best_loss,
                forall|j: int| k <= j < n ==> #[trigger] self.particle_list@[j] == before[j],
                forall|j: int|
                    0 <= j < k ==> particle_step(
                        *space,
                        w,
                        c1,
                        c2,
                        r1@[j]@,
                        r2@[j]@,
                        self.global_best_position@,
                        before[j],
                        #[trigger] self.particle_list@[j],
                        *objective,
                    ),
            decreases n - k,
        {
            let ghost prev = self.particle_list@[k as int];
            assert(before[k as int].wf(*space));
            proof {
                let g = choose|g: int|
                    0 <= g < before.len() && #[trigger] before[g].local_best_loss
                        == self.global_best_loss && before[g].local_best_position@
                        == self.global_best_position@ && (forall|j: int|
                        0 <= j < before.len() ==> self.global_best_loss
                            <= #[trigger] before[j].local_best_loss) && (forall|j: int|
                        g < j < before.len() ==> self.global_best_loss
                            < #[trigger] before[j].local_best_loss);
                assert(before[g].wf(*space));
            }
            let loss = self.particle_list[k].evolution(
                space,
                w,
                c1,
                c2,
                &self.global_best_position,
                &r1[k],
                &r2[k],
                objective,
            );
            assert(scores(*objective, self.particle_list@[k as int].position@, loss));
            k = k + 1;
        }
        proof {
            let g = choose|g: int|
                0 <= g < before.len() && #[trigger] before[g].local_best_loss
                    == self.global_best_loss && before[g].local_best_position@
                    == self.global_best_position@ && (forall|j: int|
                    0 <= j < before.len() ==> self.global_best_loss
                        <= #[trigger] before[j].local_best_loss) && (forall|j: int|
                    g < j < before.len() ==> self.global_best_loss
                        < #[trigger] before[j].local_best_loss);
            assert(self.particle_list@[g].local_best_loss <= self.global_best_loss);
            if bests_scored(before, *objective) {
                assert forall|k: int| 0 <= k < n implies scores(
                    *objective,
                    (#[trigger] self.particle_list@[k]).local_best_position@,
                    self.particle_list@[k].local_best_loss,
                ) by {
                    assert(particle_step(
                        *space,
                        w,
                        c1,
                        c2,
                        r1@[k]@,
                        r2@[k]@,
                        self.global_best_position@,
                        before[k],
                        self.particle_list@[k],
                        *objective,
                    ));
                    assert(scores(
                        *objective,
                        before[k].local_best_position@,
                        before[k].local_best_loss,
                    ));
                }
            }
        }
        let (global_best_loss, global_best_position) = compare(
            &self.particle_list,
            Some(self.global_best_loss),
        );
        self.global_best_loss = global_best_loss;
        self.global_best_position = global_best_position;
    }

    /// One generation with fresh random draws: every particle moves, then the
    /// global best is recomputed. No personal best and no global best gets
    /// worse.
    pub fn evolution<F: Fn(&Vec<i64>) -> u64>(
        &mut self,
        space: &SearchSpace,
        w: i32,
        c1: i32,
        c2: i32,
        objective: &F,
    )
        requires
            space.wf(),
            total(*objective),
            old(self).wf(*space),
        ensures
            final(self).wf(*space),
            final(self).num_of_particles == old(self).num_of_particles,
            forall|k: int|
                0 <= k < old(self).particle_list@.len()
                    ==> #[trigger] final(self).particle_list@[k].local_best_loss <= old(
                    self,
                ).particle_list@[k].local_best_loss,
            final(self).global_best_loss <= old(self).global_best_loss,
            generation(*space, w, c1, c2, *old(self), *final(self), *objective),
            forall|k: int|
                0 <= k < final(self).particle_list@.len() ==> space.contains(
                    #[trigger] final(self).particle_list@[k].position@,
                ),
            bests_scored(old(self).particle_list@, *objective) ==> bests_scored(
                final(self).particle_list@,
                *objective,
            ),
    {
        let n = self.particle_list.len();
        let d = space.dims();
        let mut r1: Vec<Vec<u16>> = Vec::with_capacity(n);
        let mut r2: Vec<Vec<u16>> = Vec::with_capacity(n);
        let mut k: usize = 0;
        while k < n
            invariant
                d == space.dims_spec(),
                0 <= k <= n,
                r1@.len() == k,
                r2@.len() == k,
                forall|j: int| 0 <= j < k ==> (#[trigger] r1@[j])@.len() == d,
                forall|j: int| 0 <= j < k ==> (#[trigger] r2@[j])@.len() == d,
            decreases n - k,
        {
            r1.push(random_fractions(d));
            r2.push(random_fractions(d));
            k = k + 1;
        }
        self.evolve_with(space, w, c1, c2, &r1, &r2, objective);
        proof {
            let d1 = Seq::new(n as nat, |k: int| r1@[k]@);
            let d2 = Seq::new(n as nat, |k: int| r2@[k]@);
            assert(generation_with(*space, w, c1, c2, d1, d2, *old(self), *self, *objective));
            assert forall|k: int| 0 <= k < n implies #[trigger] self.particle_list@[k].local_best_loss
                <= old(self).particle_list@[k].local_best_loss by {
                assert(particle_step(
                    *space,
                    w,
                    c1,
                    c2,
                    r1@[k]@,
                    r2@[k]@,
                    old(self).global_best_position@,
                    old(self).particle_list@[k],
                    self.particle_list@[k],
                    *objective,
                ));
            }
            assert forall|k: int| 0 <= k < n implies space.contains(
                #[trigger] self.particle_list@[k].position@,
            ) by {
                assert(self.particle_list@[k].wf(*space));
            }
        }
    }
}

/// Largest swarm whose statistics `result_evaluate` computes.
pub const MAX_PARTICLES: u64 = 1099511627776;

/// Sum of coordinate `i` over the positions of `list`.
pub open spec fn coord_sum(list: Seq<Particle>, i: int) -> int
    decreases list.len(),
{
    if list.len() == 0 {
        0
    } else {
        coord_sum(list.drop_last(), i) + list.last().position@[i]
    }
}

/// Mean of coordinate `i` over the positions of `list`, rounded toward zero.
pub open spec fn coord_mean(list: Seq<Particle>, i: int) -> int {
    div_trunc(coord_sum(list, i), list.len() as int)
}

/// Sum of the squared distances of coordinate `i` from `m`.
pub open spec fn sq_dev_sum(list: Seq<Particle>, i: int, m: int) -> int
    decreases list.len(),
{
    if list.len() == 0 {
        0
    } else {
        let d = list.last().position@[i] - m;
        sq_dev_sum(list.drop_last(), i, m) + d * d
    }
}

/// Population variance of coordinate `i`, taken about the rounded mean and
/// rounded down.
pub open spec fn coord_variance(list: Seq<Particle>, i: int) -> int {
    sq_dev_sum(list, i, coord_mean(list, i)) / (list.len() as int)
}

/// `mean` and `stddev` are the per-dimension mean and population standard
/// deviation (integer square root of the variance) of the positions in `list`.
pub open spec fn is_statistics(list: Seq<Particle>, dims: nat, mean: Seq<i64>, stddev: Seq<u64>) -> bool {
    &&& mean.len() == dims
    &&& stddev.len() == dims
    &&& forall|i: int| 0 <= i < dims ==> #[trigger] mean[i] == coord_mean(list, i)
    &&& forall|i: int| 0 <= i < dims ==> is_isqrt(coord_variance(list, i), #[trigger] stddev[i] as int)
}

proof fn lemma_quotient_bound(a: int, n: int, l: int)
    requires
        n > 0,
        l >= 0,
        -(n * l) <= a <= n * l,
    ensures
        -l <= div_trunc(a, n) <= l,
{
    if a >= 0 {
        assert(a / n <= l) by (nonlinear_arith)
            requires
                n > 0,
                0 <= a <= n * l,
        ;
        assert(a / n >= 0) by (nonlinear_arith)
            requires
                n > 0,
                0 <= a,
        ;
    } else {
        let b = -a;
        assert(b / n <= l) by (nonlinear_arith)
            requires
                n > 0,
                0 <= b <= n * l,
        ;
        assert(b / n >= 0) by (nonlinear_arith)
            requires
                n > 0,
                0 <= b,
        ;
    }
}

impl Swarm {
    /// Sum of coordinate `i` over all particle positions.
    fn position_sum(&self, space: &SearchSpace, i: usize) -> (r: i128)
        requires
            space.wf(),
            self.wf(*space),
            i < space.dims_spec(),
            self.particle_list@.len() <= MAX_PARTICLES,
        ensures
            r == coord_sum(self.particle_list@, i as int),
            -(self.particle_list@.len() * COORD_LIMIT) <= r <= self.particle_list@.len()
                * COORD_LIMIT,
    {
        let n = self.particle_list.len();
        let mut acc: i128 = 0;
        let mut k: usize = 0;
        while k < n
            invariant
                space.wf(),
                self.wf(*space),
                i < space.dims_spec(),
                n == self.particle_list@.len(),
                n <= MAX_PARTICLES,
                0 <= k <= n,
                acc == coord_sum(self.particle_list@.subrange(0, k as int), i as int),
                -(k * COORD_LIMIT) <= acc <= k * COORD_LIMIT,
            decreases n - k,
        {
            assert(self.particle_list@[k as int].wf(*space));
            let p = self.particle_list[k].position[i];
            assert(self.particle_list@.subrange(0, k + 1).drop_last() =~= self.particle_list@.subrange(
                0,
                k as int,
            ));
            acc = acc + p as i128;
            k = k + 1;
        }
        assert(self.particle_list@.subrange(0, n as int) =~= self.particle_list@);
        acc
    }

    /// Sum of the squared distances of coordinate `i` from `m`.
    fn square_deviation_sum(&self, space: &SearchSpace, i: usize, m: i64) -> (r: i128)
        requires
            space.wf(),
            self.wf(*space),
            i < space.dims_spec(),
            self.particle_list@.len() <= MAX_PARTICLES,
            -COORD_LIMIT <= m <= COORD_LIMIT,
        ensures
            r == sq_dev_sum(self.particle_list@, i as int, m as int),
            0 <= r <= self.particle_list@.len() * 0x4_0000_0000_0000_0000_0000,
    {
        let n = self.particle_list.len();
        let mut acc: i128 = 0;
        let mut k: usize = 0;
        while k < n
            invariant
                space.wf(),
                self.wf(*space),
                i < space.dims_spec(),
                -COORD_LIMIT <= m <= COORD_LIMIT,
                n == self.particle_list@.len(),
                n <= MAX_PARTICLES,
                0 <= k <= n,
                acc == sq_dev_sum(self.particle_list@.subrange(0, k as int), i as int, m as int),
                0 <= acc <= k * 0x4_0000_0000_0000_0000_0000,
            decreases n - k,
        {
            assert(self.particle_list@[k as int].wf(*space));
            let d = self.particle_list[k].position[i] as i128 - m as i128;
            proof {
                lemma_product_bound(d as int, d as int, 2 * COORD_LIMIT, 2 * COORD_LIMIT);
                assert((2 * COORD_LIMIT) * (2 * COORD_LIMIT) == 0x4_0000_0000_0000_0000_0000);
                assert(d * d >= 0) by (nonlinear_arith);
            }
            assert(self.particle_list@.subrange(0, k + 1).drop_last() =~= self.particle_list@.subrange(
                0,
                k as int,
            ));
            acc = acc + d * d;
            k = k + 1;
        }
        assert(self.particle_list@.subrange(0, n as int) =~= self.particle_list@);
        acc
    }

    /// Per-dimension mean and population standard deviation of the current
    /// positions (not the personal bests), in ticks: the mean rounded toward
    /// zero, the deviation the integer square root of the variance.
    pub fn result_evaluate(&self, space: &SearchSpace) -> (r: (Vec<i64>, Vec<u64>))
        requires
            space.wf(),
            self.wf(*space),
            self.particle_list@.len() <= MAX_PARTICLES,
        ensures
            is_statistics(self.particle_list@, space.dims_spec(), r.0@, r.1@),
    {
        let d = space.dims();
        let n = self.particle_list.len();
        let mut mean: Vec<i64> = Vec::with_capacity(d);
        let mut stddev: Vec<u64> = Vec::with_capacity(d);
        let mut i: usize = 0;
        while i < d
            invariant
                space.wf(),
                self.wf(*space),
                d == space.dims_spec(),
                n == self.particle_list@.len(),
                n <= MAX_PARTICLES,
                0 <= i <= d,
                mean@.len() == i,
                stddev@.len() == i,
                forall|j: int| 0 <= j < i ==> #[trigger] mean@[j] == coord_mean(self.particle_list@, j),
                forall|j: int|
                    0 <= j < i ==> is_isqrt(
                        coord_variance(self.particle_list@, j),
                        #[trigger] stddev@[j] as int,
                    ),
            decreases d - i,
        {
            let sum = self.position_sum(space, i);
            let m = div_toward_zero(sum, n as i128);
            proof {
                lemma_quotient_bound(sum as int, n as int, COORD_LIMIT as int);
            }
            let m = m as i64;
            let sq = self.square_deviation_sum(space, i, m);
            assert(sq / (n as i128) <= sq) by (nonlinear_arith)
                requires
                    n > 0,
                    sq >= 0,
            ;
            assert(sq < 0x1000_0000_0000_0000_0000_0000_0000_0000) by (nonlinear_arith)
                requires
                    0 <= sq <= n * 0x4_0000_0000_0000_0000_0000,
                    n <= MAX_PARTICLES,
            ;
            let variance = sq / (n as i128);
            assert(variance >= 0) by (nonlinear_arith)
                requires
                    n > 0,
                    sq >= 0,
                    variance == sq / (n as i128),
            ;
            let s = isqrt(variance as u128);
            mean.push(m);
            stddev.push(s);
            i = i + 1;
        }
        (mean, stddev)
    }
}

/// The error that `classic_pso` reports for this configuration, if any.
pub open spec fn pso_config_error(
    position_max: Seq<i64>,
    position_min: Seq<i64>,
    num_of_particles: usize,
    steps: usize,
) -> Option<ConfigError> {
    match bounds_error(position_min, position_max) {
        Some(e) => Some(e),
        None => if num_of_particles == 0 {
            Some(ConfigError::EmptyPopulation)
        } else if num_of_particles > MAX_PARTICLES {
            Some(ConfigError::PopulationTooLarge)
        } else if steps == 0 {
            Some(ConfigError::NoGenerations)
        } else {
            None
        },
    }
}

/// `list` is a final population of `n` particles, all in the box, none with
/// a personal best below `loss`, whose position statistics are `mean` and
/// `stddev`.
pub open spec fn final_population(
    list: Seq<Particle>,
    n: usize,
    loss: u64,
    lower: Seq<i64>,
    upper: Seq<i64>,
    mean: Seq<i64>,
    stddev: Seq<u64>,
) -> bool {
    &&& list.len() == n
    &&& forall|k: int| 0 <= k < list.len() ==> loss <= (#[trigger] list[k]).local_best_loss
    &&& forall|k: int| 0 <= k < list.len() ==> in_box(lower, upper, (#[trigger] list[k]).position@)
    &&& is_statistics(list, lower.len(), mean, stddev)
}

/// Generation `t` of `hist` leads to generation `t + 1`.
pub open spec fn step_at<F: Fn(&Vec<i64>) -> u64>(
    space: SearchSpace,
    w: i32,
    c1: i32,
    c2: i32,
    hist: Seq<Swarm>,
    t: int,
    objective: F,
) -> bool {
    generation(space, w, c1, c2, hist[t], hist[t + 1], objective)
}

/// `hist` is the history of a run over the box `[lower, upper]`: a freshly
/// placed swarm of `n` particles, then `steps` generations, ending with global
/// best `(loss, best)` and position statistics `mean`, `stddev`.
pub open spec fn pso_run<F: Fn(&Vec<i64>) -> u64>(
    space: SearchSpace,
    hist: Seq<Swarm>,
    lower: Seq<i64>,
    upper: Seq<i64>,
    n: usize,
    w: i32,
    c1: i32,
    c2: i32,
    steps: usize,
    objective: F,
    loss: u64,
    best: Seq<i64>,
    mean: Seq<i64>,
    stddev: Seq<u64>,
) -> bool {
    &&& space.lower@ == lower
    &&& space.upper@ == upper
    &&& hist.len() == steps + 1
    &&& hist[0].wf(space)
    &&& hist[0].num_of_particles == n
    &&& forall|k: int|
        0 <= k < n ==> (#[trigger] hist[0].particle_list@[k]).local_best_position@
            == hist[0].particle_list@[k].position@
    &&& bests_scored(hist[0].particle_list@, objective)
    &&& forall|t: int| 0 <= t < steps ==> #[trigger] step_at(space, w, c1, c2, hist, t, objective)
    &&& hist[steps as int].global_best_loss == loss
    &&& hist[steps as int].global_best_position@ == best
    &&& loss <= hist[0].global_best_loss
    &&& is_statistics(hist[steps as int].particle_list@, lower.len(), mean, stddev)
}

/// A full particle swarm run: `num_of_particles` particles placed at random
/// in the box `[position_min, position_max]`, then `steps` generations with
/// inertia `w`, cognitive weight `c1` and social weight `c2` (multiples of
/// `1 / UNIT`). Returns the global best loss and position and the mean and
/// standard deviation of the final positions; or, before any work, the
/// configuration error.
pub fn classic_pso<F: Fn(&Vec<i64>) -> u64>(
    position_max: Vec<i64>,
    position_min: Vec<i64>,
    objective: &F,
    num_of_particles: usize,
    w: i32,
    c1: i32,
    c2: i32,
    steps: usize,
) -> (r: Result<(u64, Vec<i64>, Vec<i64>, Vec<u64>), ConfigError>)
    requires
        total(*objective),
    ensures
        pso_config_error(position_max@, position_min@, num_of_particles, steps) matches Some(e)
            ==> r is Err && r->Err_0 == e,
        pso_config_error(position_max@, position_min@, num_of_particles, steps) is None ==> r is Ok,
        r is Ok ==> scores(*objective, r->Ok_0.1@, r->Ok_0.0),
        r is Ok ==> in_box(position_min@, position_max@, r->Ok_0.1@),
        r is Ok ==> exists|space: SearchSpace, hist: Seq<Swarm>|
            #[trigger] pso_run(
                space,
                hist,
                position_min@,
                position_max@,
                num_of_particles,
                w,
                c1,
                c2,
                steps,
                *objective,
                r->Ok_0.0,
                r->Ok_0.1@,
                r->Ok_0.2@,
                r->Ok_0.3@,
            ),
        r is Ok ==> exists|list: Seq<Particle>|
            #[trigger] final_population(
                list,
                num_of_particles,
                r->Ok_0.0,
                position_min@,
                position_max@,
                r->Ok_0.2@,
                r->Ok_0.3@,
            ),
{
    let space = match SearchSpace::new(position_min, position_max) {
        Ok(s) => s,
        Err(e) => {
            return Err(e);
        },
    };
    if num_of_particles == 0 {
        return Err(ConfigError::EmptyPopulation);
    }
    if num_of_particles as u64 > MAX_PARTICLES {
        return Err(ConfigError::PopulationTooLarge);
    }
    if steps == 0 {
        return Err(ConfigError::NoGenerations);
    }
    let mut swarm = Swarm::new(num_of_particles, &space, objective);
    let ghost mut hist: Seq<Swarm> = seq![swarm];
    let mut t: usize = 0;
    while t < steps
        invariant
            space.wf(),
            total(*objective),
            swarm.wf(space),
            swarm.num_of_particles == num_of_particles,
            num_of_particles <= MAX_PARTICLES,
            bests_scored(swarm.particle_list@, *objective),
            0 <= t <= steps,
            hist.len() == t + 1,
            hist[t as int] == swarm,
            hist[0].wf(space),
            hist[0].num_of_particles == num_of_particles,
            forall|k: int|
                0 <= k < num_of_particles ==> (#[trigger] hist[0].particle_list@[k]).local_best_position@
                    == hist[0].particle_list@[k].position@,
            bests_scored(hist[0].particle_list@, *objective),
            forall|u: int| 0 <= u < t ==> #[trigger] step_at(space, w, c1, c2, hist, u, *objective),
            swarm.global_best_loss <= hist[0].global_best_loss,
        decreases steps - t,
    {
        let ghost prev = swarm;
        swarm.evolution(&space, w, c1, c2, objective);
        proof {
            let next = hist.push(swarm);
            assert forall|u: int| 0 <= u < t + 1 implies #[trigger] step_at(
                space,
                w,
                c1,
                c2,
                next,
                u,
                *objective,
            ) by {
                if u < t {
                    assert(step_at(space, w, c1, c2, hist, u, *objective));
                    assert(next[u] == hist[u]);
                    assert(next[u + 1] == hist[u + 1]);
                } else {
                    assert(next[u] == prev);
                    assert(next[u + 1] == swarm);
                }
            }
            hist = next;
        }
        t = t + 1;
    }
    let (mean, stddev) = swarm.result_evaluate(&space);
    proof {
        let list = swarm.particle_list@;
        let g = choose|g: int|
            0 <= g < list.len() && #[trigger] list[g].local_best_loss == swarm.global_best_loss
                && list[g].local_best_position@ == swarm.global_best_position@ && (forall|j: int|
                0 <= j < list.len() ==> swarm.global_best_loss <= #[trigger] list[j].local_best_loss)
                && (forall|j: int|
                g < j < list.len() ==> swarm.global_best_loss < #[trigger] list[j].local_best_loss);
        assert(list[g].wf(space));
        assert(scores(*objective, list[g].local_best_position@, list[g].local_best_loss));
        assert forall|k: int| 0 <= k < list.len() implies in_box(
            space.lower@,
            space.upper@,
            (#[trigger] list[k]).position@,
        ) by {
            assert(list[k].wf(space));
        }
    }
    let ghost list = swarm.particle_list@;
    let loss = swarm.global_best_loss;
    let best = swarm.global_best_position;
    let r = Ok((loss, best, mean, stddev));
    assert(pso_run(
        space,
        hist,
        position_min@,
        position_max@,
        num_of_particles,
        w,
        c1,
        c2,
        steps,
        *objective,
        r->Ok_0.0,
        r->Ok_0.1@,
        r->Ok_0.2@,
        r->Ok_0.3@,
    ));
    assert(final_population(
        list,
        num_of_particles,
        r->Ok_0.0,
        position_min@,
        position_max@,
        r->Ok_0.2@,
        r->Ok_0.3@,
    ));
    r
}

proof fn lemma_constant_sums(list: Seq<Particle>, i: int, c: int)
    requires
        forall|k: int| 0 <= k < list.len() ==> (#[trigger] list[k]).position@[i] == c,
    ensures
        coord_sum(list, i) == list.len() * c,
        sq_dev_sum(list, i, c) == 0,
    decreases list.len(),
{
    if list.len() > 0 {
        let rest = list.drop_last();
        assert forall|k: int| 0 <= k < rest.len() implies (#[trigger] rest[k]).position@[i] == c by {
            assert(rest[k] == list[k]);
        }
        lemma_constant_sums(rest, i, c);
        assert(list.last() == list[list.len() - 1]);
        assert(rest.len() * c + c == list.len() * c) by (nonlinear_arith)
            requires
                rest.len() + 1 == list.len(),
        ;
    }
}

/// The standard deviation of a coordinate that every particle shares is
/// zero (and the mean is that coordinate).
pub proof fn lemma_stddev_zero_when_identical(
    list: Seq<Particle>,
    dims: nat,
    mean: Seq<i64>,
    stddev: Seq<u64>,
    i: int,
)
    requires
        list.len() > 0,
        0 <= i < dims,
        is_statistics(list, dims, mean, stddev),
        forall|k: int| 0 <= k < list.len() ==> (#[trigger] list[k]).position@[i] == list[0].position@[i],
    ensures
        mean[i] == list[0].position@[i],
        stddev[i] == 0,
{
    let c = list[0].position@[i] as int;
    let n = list.len() as int;
    lemma_constant_sums(list, i, c);
    if c >= 0 {
        assert((n * c) / n == c) by (nonlinear_arith)
            requires
                n > 0,
        ;
        assert(n * c >= 0) by (nonlinear_arith)
            requires
                n > 0,
                c >= 0,
        ;
    } else {
        assert((n * (-c)) / n == -c) by (nonlinear_arith)
            requires
                n > 0,
        ;
        assert(n * c < 0) by (nonlinear_arith)
            requires
                n > 0,
                c < 0,
        ;
        assert(-(n * c) == n * (-c)) by (nonlinear_arith);
    }
    assert(coord_mean(list, i) == c);
    assert(coord_variance(list, i) == 0);
    assert(is_isqrt(0, stddev[i] as int));
    if stddev[i] > 0 {
        assert(stddev[i] * stddev[i] >= 1) by (nonlinear_arith)
            requires
                stddev[i] >= 1,
        ;
    }
}

/// The statistics of a population are a function of it: two computations
/// on the same population give the same means and deviations.
pub proof fn lemma_statistics_unique(
    list: Seq<Particle>,
    dims: nat,
    mean_a: Seq<i64>,
    stddev_a: Seq<u64>,
    mean_b: Seq<i64>,
    stddev_b: Seq<u64>,
)
    requires
        is_statistics(list, dims, mean_a, stddev_a),
        is_statistics(list, dims, mean_b, stddev_b),
    ensures
        mean_a == mean_b,
        stddev_a == stddev_b,
{
    assert forall|i: int| 0 <= i < dims implies #[trigger] stddev_a[i] == stddev_b[i] by {
        lemma_isqrt_unique(coord_variance(list, i), stddev_a[i] as int, stddev_b[i] as int);
    }
    assert(mean_a =~= mean_b);
    assert(stddev_a =~= stddev_b);
}

/// In a swarm of one particle the global best is that particle's personal
/// best.
pub proof fn lemma_single_particle_global_best(swarm: Swarm, space: SearchSpace)
    requires
        swarm.wf(space),
        swarm.particle_list@.len() == 1,
    ensures
        swarm.global_best_loss == swarm.particle_list@[0].local_best_loss,
        swarm.global_best_position@ == swarm.particle_list@[0].local_best_position@,
{
}

/// An update is reproducible: with the same draws, the same global best
/// and an objective that gives one loss per position, two updates of the
/// same particle end in the same particle.
pub proof fn lemma_step_reproducible<F: Fn(&Vec<i64>) -> u64>(
    space: SearchSpace,
    w: i32,
    c1: i32,
    c2: i32,
    r1: Seq<u16>,
    r2: Seq<u16>,
    global_best: Seq<i64>,
    old: Particle,
    a: Particle,
    b: Particle,
    objective: F,
)
    requires
        deterministic(objective),
        particle_step(space, w, c1, c2, r1, r2, global_best, old, a, objective),
        particle_step(space, w, c1, c2, r1, r2, global_best, old, b, objective),
    ensures
        a.velocity@ == b.velocity@,
        a.position@ == b.position@,
        a.local_best_loss == b.local_best_loss,
        a.local_best_position@ == b.local_best_position@,
{
    let la = choose|loss: u64|
        #[trigger] scores(objective, a.position@, loss) && (if loss < old.local_best_loss {
            a.local_best_loss == loss && a.local_best_position@ == a.position@
        } else {
            a.local_best_loss == old.local_best_loss && a.local_best_position@
                == old.local_best_position@
        });
    let lb = choose|loss: u64|
        #[trigger] scores(objective, b.position@, loss) && (if loss < old.local_best_loss {
            b.local_best_loss == loss && b.local_best_position@ == b.position@
        } else {
            b.local_best_loss == old.local_best_loss && b.local_best_position@
                == old.local_best_position@
        });
    assert(la == lb);
}

} // verus!
