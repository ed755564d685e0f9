//! Extrapolating entropy estimators, each a thin wrapper around a sampling
//! method.

use crate::traits::SamplingMethod;
use vstd::prelude::*;

pub mod direct;
pub mod naive;

verus! {

pub use crate::estimator::direct::DirectEstimator;
pub use crate::estimator::naive::NaiveEstimator;

/// Entropy estimator that weights observations toward larger subsamples.
///
/// A wrapper around a concrete sampling method.  The held method's
/// [`subsamples`](SamplingMethod::subsamples) yields the naive entropy
/// observations; the entropy estimate is the constant term of a least-squares
/// polynomial fit in the inverse subsample size, with both the design matrix
/// and the observation vector scaled by the subsample size.  The
/// floating-point fit itself belongs to the numeric layer on top of this
/// crate, which reports [`FittingError`] when the normal matrix is singular.
#[derive(Debug)]
pub struct Estimator<M> {
    sampling_method: M,
}

/// The least-squares problem behind an entropy estimate has no unique
/// solution.
#[derive(Debug)]
pub struct FittingError;

impl<M> Estimator<M> where M: SamplingMethod {
    /// The sampling method the estimator draws observations from.
    pub closed spec fn spec_sampling_method(&self) -> M {
        self.sampling_method
    }

    /// Constructs a new `Estimator`.
    pub fn new(sampling_method: M) -> (r: Self)
        ensures
            r.spec_sampling_method() == sampling_method,
    {
        Estimator { sampling_method }
    }

    /// Returns the underlying sampling method.
    pub fn sampling_method(&self) -> (r: &M)
        ensures
            *r == self.spec_sampling_method(),
    {
        &self.sampling_method
    }

    /// Returns the underlying sampling method, for mutation.
    pub fn sampling_method_mut(&mut self) -> (r: &mut M)
        ensures
            *r == old(self).spec_sampling_method(),
            final(self).spec_sampling_method() == *final(r),
    {
        &mut self.sampling_method
    }
}

impl<M> From<M> for Estimator<M> where M: SamplingMethod {
    /// Wraps the sampling method, as [`Estimator::new`] does.
    fn from(sampling_method: M) -> (r: Self)
        ensures
            r.spec_sampling_method() == sampling_method,
    {
        Estimator::new(sampling_method)
    }
}

impl<M> vstd::std_specs::convert::FromSpecImpl<M> for Estimator<M> where M: SamplingMethod {
    open spec fn obeys_from_spec() -> bool {
        true
    }

    closed spec fn from_spec(sampling_method: M) -> Estimator<M> {
        Estimator { sampling_method }
    }
}

impl<M> Estimator<M> {
    /// Replaces the sampling method while keeping the estimator wrapper.
    pub fn set_sampling_method<M2>(self, other: M2) -> (r: Estimator<M2>) where
        M2: SamplingMethod,

        ensures
            r.spec_sampling_method() == other,
    {
        Estimator { sampling_method: other }
    }
}

} // verus!
