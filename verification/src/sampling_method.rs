//! Concrete subsampling strategies.

use vstd::prelude::*;

pub mod bootstrap;
pub mod fixed_partition;

verus! {

pub use crate::sampling_method::bootstrap::Bootstrap;
pub use crate::sampling_method::fixed_partition::FixedPartition;

} // verus!
