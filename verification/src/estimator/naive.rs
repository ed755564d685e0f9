//! Validated input of the plug-in ("naive") entropy computation.

use crate::utils::{seq_sum, sum_slice};
use vstd::prelude::*;

verus! {

/// A borrow of an unnormalized distribution on which plug-in entropy is to be
/// computed.
///
/// Plug-in entropy is defined exactly when the distribution's total mass is
/// positive; [`NaiveEstimator::new`] checks that and nothing else.  The
/// floating-point evaluation of the entropy formula itself belongs to the
/// numeric layer on top of this crate.
#[derive(Debug)]
pub struct NaiveEstimator<'a> {
    unnorm_distr: &'a [usize],
}

/// The distribution's total mass is zero, so plug-in entropy is undefined.
#[derive(Debug)]
pub struct NullDistribution;

impl<'a> NaiveEstimator<'a> {
    /// The held unnormalized distribution.
    pub closed spec fn spec_unnorm_distr(&self) -> Seq<usize> {
        self.unnorm_distr@
    }

    /// Plug-in entropy is defined on the held distribution.
    pub open spec fn wf(&self) -> bool {
        1 <= seq_sum(self.spec_unnorm_distr())
    }

    /// Validates that `unnorm_distr` has positive total mass and wraps it.
    pub fn new(unnorm_distr: &'a [usize]) -> (r: Result<Self, NullDistribution>)
        requires
            seq_sum(unnorm_distr@) <= usize::MAX,
        ensures
            match r {
                Ok(n) => n.spec_unnorm_distr() == unnorm_distr@ && n.wf(),
                Err(_) => seq_sum(unnorm_distr@) == 0,
            },
    {
        let total = sum_slice(unnorm_distr);
        if total == 0 {
            return Err(NullDistribution);
        }
        Ok(NaiveEstimator::new_unchecked(unnorm_distr))
    }

    /// Wraps `unnorm_distr` without validating its total mass.
    pub fn new_unchecked(unnorm_distr: &'a [usize]) -> (r: Self)
        ensures
            r.spec_unnorm_distr() == unnorm_distr@,
    {
        NaiveEstimator { unnorm_distr }
    }
}

} // verus!
