//! The box-bounded search space.
use vstd::prelude::*;

use crate::fixed::clamp_int;
use crate::rng::draw_below;

verus! {

/// Largest magnitude of a bound, in ticks.
pub const COORD_LIMIT: i64 = 1099511627776;

/// Why a run's configuration was refused before any work started.
#[derive(Debug, Clone, Copy, PartialEq, Eq, Structural)]
pub enum ConfigError {
    /// No dimension at all.
    EmptyBounds,
    /// The lower and upper bound lists differ in length.
    LengthMismatch,
    /// Some bound lies outside `[-COORD_LIMIT, COORD_LIMIT]`.
    CoordinateOutOfRange,
    /// Some lower bound lies above its upper bound.
    InvertedBounds,
    /// A population of no candidates.
    EmptyPopulation,
    /// More candidates than the statistics can sum exactly.
    PopulationTooLarge,
    /// A run of no generations.
    NoGenerations,
}

/// Per-dimension bounds `lower[i] <= upper[i]`.
pub struct SearchSpace {
    pub lower: Vec<i64>,
    pub upper: Vec<i64>,
}

pub open spec fn coords_in_range(s: Seq<i64>) -> bool {
    forall|i: int| 0 <= i < s.len() ==> -COORD_LIMIT <= #[trigger] s[i] <= COORD_LIMIT
}

pub open spec fn ordered(lower: Seq<i64>, upper: Seq<i64>) -> bool {
    forall|i: int| 0 <= i < lower.len() ==> #[trigger] lower[i] <= #[trigger] upper[i]
}

/// `p` has one coordinate per bound, each within `[lower[i], upper[i]]`.
pub open spec fn in_box(lower: Seq<i64>, upper: Seq<i64>, p: Seq<i64>) -> bool {
    &&& p.len() == lower.len()
    &&& forall|i: int| 0 <= i < p.len() ==> lower[i] <= #[trigger] p[i] <= upper[i]
}

/// The error that `SearchSpace::new` reports for these bounds, if any.
pub open spec fn bounds_error(lower: Seq<i64>, upper: Seq<i64>) -> Option<ConfigError> {
    if lower.len() == 0 {
        Some(ConfigError::EmptyBounds)
    } else if lower.len() != upper.len() {
        Some(ConfigError::LengthMismatch)
    } else if !coords_in_range(lower) || !coords_in_range(upper) {
        Some(ConfigError::CoordinateOutOfRange)
    } else if !ordered(lower, upper) {
        Some(ConfigError::InvertedBounds)
    } else {
        None
    }
}

impl SearchSpace {
    pub open spec fn wf(&self) -> bool {
        bounds_error(self.lower@, self.upper@).is_none()
    }

    pub open spec fn dims_spec(&self) -> nat {
        self.lower@.len()
    }

    pub open spec fn range_spec(&self, i: int) -> int {
        self.upper@[i] - self.lower@[i]
    }

    /// Velocities of dimension `i` stay within `± range(i) / 5`.
    pub open spec fn velocity_limit_spec(&self, i: int) -> int {
        self.range_spec(i) / 5
    }

    pub open spec fn clamp_spec(&self, v: int, i: int) -> int {
        clamp_int(v, self.lower@[i] as int, self.upper@[i] as int)
    }

    /// `p` has one coordinate per dimension, each within its bounds.
    pub open spec fn contains(&self, p: Seq<i64>) -> bool {
        in_box(self.lower@, self.upper@, p)
    }

    /// Checks the bounds and builds the search space.
    pub fn new(lower: Vec<i64>, upper: Vec<i64>) -> (r: Result<SearchSpace, ConfigError>)
        ensures
            match bounds_error(lower@, upper@) {
                Some(e) => r == Err::<SearchSpace, ConfigError>(e),
                None => r is Ok && r->Ok_0.lower@ == lower@ && r->Ok_0.upper@ == upper@,
            },
    {
        if lower.len() == 0 {
            return Err(ConfigError::EmptyBounds);
        }
        if lower.len() != upper.len() {
            return Err(ConfigError::LengthMismatch);
        }
        let n = lower.len();
        let mut i: usize = 0;
        while i < n
            invariant
                n == lower@.len(),
                n == upper@.len(),
                0 <= i <= n,
                forall|k: int| 0 <= k < i ==> -COORD_LIMIT <= #[trigger] lower@[k] <= COORD_LIMIT,
                forall|k: int| 0 <= k < i ==> -COORD_LIMIT <= #[trigger] upper@[k] <= COORD_LIMIT,
            decreases n - i,
        {
            if lower[i] < -COORD_LIMIT || lower[i] > COORD_LIMIT || upper[i] < -COORD_LIMIT
                || upper[i] > COORD_LIMIT {
                return Err(ConfigError::CoordinateOutOfRange);
            }
            i = i + 1;
        }
        let mut j: usize = 0;
        while j < n
            invariant
                n == lower@.len(),
                n == upper@.len(),
                0 <= j <= n,
                coords_in_range(lower@),
                coords_in_range(upper@),
                forall|k: int| 0 <= k < j ==> #[trigger] lower@[k] <= upper@[k],
            decreases n - j,
        {
            if lower[j] > upper[j] {
                return Err(ConfigError::InvertedBounds);
            }
            j = j + 1;
        }
        Ok(SearchSpace { lower, upper })
    }

    pub fn dims(&self) -> (r: usize)
        ensures
            r == self.dims_spec(),
    {
        self.lower.len()
    }

    /// `upper[i] - lower[i]`.
    pub fn range(&self, i: usize) -> (r: i64)
        requires
            self.wf(),
            i < self.dims_spec(),
        ensures
            r == self.range_spec(i as int),
            0 <= r <= 2 * COORD_LIMIT,
    {
        self.upper[i] - self.lower[i]
    }

    /// `range(i) / 5`: the largest speed along dimension `i`.
    pub fn velocity_limit(&self, i: usize) -> (r: i64)
        requires
            self.wf(),
            i < self.dims_spec(),
        ensures
            r == self.velocity_limit_spec(i as int),
            0 <= r <= COORD_LIMIT,
    {
        self.range(i) / 5
    }

    /// `min(max(v, lower[i]), upper[i])`.
    pub fn clamp(&self, v: i128, i: usize) -> (r: i64)
        requires
            self.wf(),
            i < self.dims_spec(),
        ensures
            r == self.clamp_spec(v as int, i as int),
            self.lower@[i as int] <= r <= self.upper@[i as int],
    {
        if v < self.lower[i] as i128 {
            self.lower[i]
        } else if v > self.upper[i] as i128 {
            self.upper[i]
        } else {
            v as i64
        }
    }

    /// One random offset per dimension, drawn uniformly from `[0, range(i))`
    /// (zero where the range is empty).
    pub fn random_offsets(&self) -> (r: Vec<u64>)
        requires
            self.wf(),
        ensures
            r@.len() == self.dims_spec(),
            forall|i: int|
                0 <= i < r@.len() ==> #[trigger] r@[i] < self.range_spec(i) || (self.range_spec(i)
                    == 0 && r@[i] == 0),
    {
        let n = self.dims();
        let mut r: Vec<u64> = Vec::with_capacity(n);
        let mut i: usize = 0;
        while i < n
            invariant
                self.wf(),
                n == self.dims_spec(),
                0 <= i <= n,
                r@.len() == i,
                forall|k: int|
                    0 <= k < i ==> #[trigger] r@[k] < self.range_spec(k) || (self.range_spec(k) == 0
                        && r@[k] == 0),
            decreases n - i,
        {
            let range = self.range(i);
            if range == 0 {
                r.push(0);
            } else {
                let d = draw_below(range as u64);
                r.push(d);
            }
            i = i + 1;
        }
        r
    }

    /// Whether every coordinate of `p` lies within its bounds.
    pub fn contains_point(&self, p: &Vec<i64>) -> (r: bool)
        requires
            self.wf(),
        ensures
            r == self.contains(p@),
    {
        if p.len() != self.dims() {
            return false;
        }
        let mut i: usize = 0;
        while i < p.len()
            invariant
                self.wf(),
                p@.len() == self.dims_spec(),
                0 <= i <= p@.len(),
                forall|k: int| 0 <= k < i ==> self.lower@[k] <= #[trigger] p@[k] <= self.upper@[k],
            decreases p@.len() - i,
        {
            if p[i] < self.lower[i] || p[i] > self.upper[i] {
                return false;
            }
            i = i + 1;
        }
        true
    }
}

} // verus!
