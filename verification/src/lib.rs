//! Building blocks for estimating the entropy of a discrete distribution
//! from a small number of samples.
//!
//! The crate carves subsamples out of an empirical distribution according to
//! a schedule of (subsample size, repetition count) groups, producing one
//! unnormalized distribution per scheduled observation.  Plug-in ("naive")
//! entropy values computed on those observations can then be extrapolated to
//! infinite sample size by fitting a polynomial in the inverse subsample
//! size; the fitting itself works on floating-point values and therefore
//! lives outside this library, which owns and verifies the integer core:
//! schedules, validation, subsample carving, and duplicate counting.

use vstd::prelude::*;

pub mod estimator;
pub mod sampling_method;
pub mod traits;
pub mod utils;

verus! {

pub use crate::estimator::{DirectEstimator, Estimator, NaiveEstimator};
pub use crate::sampling_method::bootstrap::SubsampleSource;
pub use crate::sampling_method::{Bootstrap, FixedPartition};
pub use crate::traits::SamplingMethod;
pub use crate::utils::count_dup;

} // verus!
