//! Estimates the classical bit-security of a Learning-With-Errors (LWE)
//! instance against the primal unique-SVP lattice attack.
//!
//! All numeric work is done in fixed-point integer arithmetic: logarithms and
//! root-Hermite factors are carried at scale 2^48 (see [`fixed::FIX_ONE`]),
//! the noise width sigma at scale 2^32 (see [`fixed::SIGMA_ONE`]), and bit
//! costs in millibits (thousandths of a bit of log2 cost).

pub mod cost;
pub mod estimator;
pub mod fixed;
pub mod hermite;
pub mod optimizer;
pub mod parse;

pub use cost::bkz_cost;
pub use estimator::estimate;
pub use estimator::estimate_core;
pub use estimator::estimate_lwe;
pub use estimator::get_beta;
pub use estimator::get_bkz_cost;
pub use estimator::get_delta;
pub use estimator::EstimateError;
pub use estimator::LweParams;
pub use estimator::SecurityEstimate;
pub use fixed::FIX_ONE;
pub use fixed::SIGMA_ONE;
pub use hermite::beta_from_delta;
pub use hermite::delta_0;
pub use optimizer::primal_usvp;
pub use optimizer::N_MAX;
pub use parse::parse_number;
pub use parse::ParseNumberError;
