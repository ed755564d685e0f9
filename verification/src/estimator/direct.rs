//! The direct (unweighted) extrapolating entropy estimator.

use crate::traits::SamplingMethod;
use vstd::prelude::*;

verus! {

/// Direct entropy estimator.
///
/// It extrapolates naive entropy computations at small subsample sizes by
/// fitting a plain polynomial in the inverse subsample size, with no
/// observation scaling; the constant coefficient is the entropy estimate.
/// Like [`Estimator`](crate::Estimator), it wraps a concrete sampling method
/// whose [`subsamples`](SamplingMethod::subsamples) yields the observations;
/// the floating-point fit belongs to the numeric layer on top of this crate,
/// which reports [`FittingError`] when the fit is singular.
#[derive(Debug)]
pub struct DirectEstimator<M> {
    sampling_method: M,
}

/// The polynomial fit behind an entropy estimate is singular.
#[derive(Debug)]
pub struct FittingError;

impl<M> DirectEstimator<M> where M: SamplingMethod {
    /// The sampling method the estimator draws observations from.
    pub closed spec fn spec_sampling_method(&self) -> M {
        self.sampling_method
    }

    /// Constructs a new `DirectEstimator`.
    pub fn new(sampling_method: M) -> (r: Self)
        ensures
            r.spec_sampling_method() == sampling_method,
    {
        DirectEstimator { sampling_method }
    }

    /// Returns the underlying sampling method.
    pub fn sampling_method(&self) -> (r: &M)
        ensures
            *r == self.spec_sampling_method(),
    {
        &self.sampling_method
    }

    /// Returns the underlying sampling method, for mutation.
    pub fn sampling_method_mut(&mut self) -> (r: &mut M)
        ensures
            *r == old(self).spec_sampling_method(),
            final(self).spec_sampling_method() == *final(r),
    {
        &mut self.sampling_method
    }
}

impl<M> From<M> for DirectEstimator<M> where M: SamplingMethod {
    /// Wraps the sampling method, as [`DirectEstimator::new`] does.
    fn from(sampling_method: M) -> (r: Self)
        ensures
            r.spec_sampling_method() == sampling_method,
    {
        DirectEstimator::new(sampling_method)
    }
}

impl<M> vstd::std_specs::convert::FromSpecImpl<M> for DirectEstimator<M> where M: SamplingMethod {
    open spec fn obeys_from_spec() -> bool {
        true
    }

    closed spec fn from_spec(sampling_method: M) -> DirectEstimator<M> {
        DirectEstimator { sampling_method }
    }
}

impl<M> DirectEstimator<M> {
    /// Replaces the sampling method while keeping the estimator wrapper.
    pub fn set_sampling_method<M2>(self, other: M2) -> (r: DirectEstimator<M2>) where
        M2: SamplingMethod,

        ensures
            r.spec_sampling_method() == other,
    {
        DirectEstimator { sampling_method: other }
    }
}

} // verus!
