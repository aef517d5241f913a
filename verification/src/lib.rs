//! Monte Carlo estimation of the probability that five points drawn uniformly
//! at random from the unit disk all lie within some common semicircle.
//!
//! Points carry fixed-point integer coordinates: a coordinate `c` stands for
//! the real number `c / SCALE`, so the closed unit disk is the set of points
//! with `x * x + y * y <= SCALE * SCALE`. The semicircle predicate is a sign
//! test on 2D cross products, which is exact on integers.

pub mod geometry;
pub mod sampling;
pub mod estimator;

pub use geometry::Point;
pub use geometry::cross_val;
pub use geometry::is_in_same_semicircle;
pub use sampling::SCALE;
pub use sampling::Trial;
pub use sampling::new_rng;
pub use sampling::sample_point;
pub use sampling::sample_trial;
pub use estimator::monte_carlo_simulation;
