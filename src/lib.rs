//! Population-based optimisation of a small parameter vector: particle swarm
//! optimisation and differential evolution over a box-bounded search space.
//!
//! Coordinates are fixed-point integers ("ticks"); the caller chooses how many
//! ticks make one unit of a parameter. Run-level coefficients and random
//! fractions are fixed-point values with `fixed::UNIT` steps per unit. The
//! objective is a caller-supplied closure that scores a position with a loss
//! key: a smaller key is a better fit.
pub mod de;
pub mod fixed;
pub mod pso;
mod rng;
pub mod space;
