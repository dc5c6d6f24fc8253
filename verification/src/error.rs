//! The ways in which building a sketch can fail.

use vstd::prelude::*;

verus! {

/// Why a sketch, or a constant derived from its precision, could not be had.
#[derive(Debug, PartialEq, Eq)]
pub enum HllError {
    /// The precision lies outside the supported range.
    InvalidPrecision,
    /// The operating system's randomness source could not be opened; the
    /// cause is the operating system's own account of the failure.
    RandomnessUnavailable { cause: String },
}

} // verus!
