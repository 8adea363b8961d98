//! Monte Carlo estimation of pi.
//!
//! Points are drawn uniformly from the unit square and classified by whether
//! they fall strictly inside the unit circle centred at the origin. The share
//! of points inside approximates the area of the quarter disc, pi / 4.
//!
//! Coordinates are fixed-point numbers: an integer `n` stands for the real
//! number `n / 2^53`, which is exactly the grid on which a uniform
//! double-precision sample in `[0, 1)` lies. All arithmetic on them is exact.

pub mod estimator;
pub mod point;
pub mod sampler;

pub use estimator::{integrate, integrate_from, integrate_over, EstimateError, Ratio};
pub use point::{is_in_unit_circle_fn, Point, UNIT};
pub use sampler::PointGenerator;
