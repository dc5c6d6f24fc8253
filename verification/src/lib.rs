//! A probabilistic cardinality estimator: a fixed array of small registers
//! that summarises a stream of hashed values, and the rules that read an
//! estimate of the number of distinct values back out of it.
//!
//! Everything here works on integers. An estimate is handed out in exact
//! terms, as a fraction or as the two counts of linear counting, and is
//! turned into a floating-point number by the caller.

pub mod bits;
pub mod error;
pub mod estimate;
pub mod histogram;
pub mod laws;
pub mod model;
pub mod sketch;

pub use crate::bits::{count_leading_zeros, position_of_leftmost_one_bit};
pub use crate::error::HllError;
pub use crate::estimate::{
    all_in_range, alpha_for, checked_raw_hyperloglog_estimate, count_zero_registers,
    estimate_from_registers, get_alpha, raw_hyperloglog_estimate, registers_for, scaled_harmonic_sum, scaled_inverse_power,
    Cardinality, Estimator, Ratio, MAX_PRECISION, MIN_PRECISION,
};
pub use crate::histogram::value_distribution;
pub use crate::sketch::{estimate_cardinality, HyperLogLog};
