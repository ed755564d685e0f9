//! The capability contract shared by the concrete subsampling strategies.

use crate::utils::{
    lemma_seq_sum_add, lemma_seq_sum_lower, lemma_seq_sum_nonneg, lemma_seq_sum_repeat,
    lemma_seq_sum_take_le, lemma_seq_sum_take_succ, seq_sum,
};
use vstd::arithmetic::mul::lemma_mul_nonnegative;
use vstd::prelude::*;

verus! {

/// All scheduled subsample sizes in observation order: the size of group 0
/// repeated `reps[0]` times, then the size of group 1, and so on.
pub open spec fn expand_schedule(sizes: Seq<usize>, reps: Seq<usize>) -> Seq<usize>
    decreases sizes.len(),
{
    if sizes.len() == 0 || sizes.len() != reps.len() {
        Seq::empty()
    } else {
        expand_schedule(sizes.drop_last(), reps.drop_last()) + Seq::new(
            reps.last() as nat,
            |k: int| sizes.last(),
        )
    }
}

pub proof fn lemma_expand_schedule_len(sizes: Seq<usize>, reps: Seq<usize>)
    requires
        sizes.len() == reps.len(),
    ensures
        expand_schedule(sizes, reps).len() == seq_sum(reps),
    decreases sizes.len(),
{
    if sizes.len() > 0 {
        lemma_expand_schedule_len(sizes.drop_last(), reps.drop_last());
    }
}

pub proof fn lemma_expand_schedule_take_succ(sizes: Seq<usize>, reps: Seq<usize>, i: int)
    requires
        sizes.len() == reps.len(),
        0 <= i < sizes.len(),
    ensures
        expand_schedule(sizes.take(i + 1), reps.take(i + 1)) == expand_schedule(
            sizes.take(i),
            reps.take(i),
        ) + Seq::new(reps[i] as nat, |k: int| sizes[i]),
    decreases sizes.len(),
{
    assert(sizes.take(i + 1).drop_last() =~= sizes.take(i));
    assert(reps.take(i + 1).drop_last() =~= reps.take(i));
    assert(expand_schedule(sizes.take(i + 1), reps.take(i + 1)) =~= expand_schedule(
        sizes.take(i),
        reps.take(i),
    ) + Seq::new(reps[i] as nat, |k: int| sizes[i]));
}

pub proof fn lemma_expand_schedule_index(sizes: Seq<usize>, reps: Seq<usize>, i: int, j: int)
    requires
        sizes.len() == reps.len(),
        0 <= i < sizes.len(),
        0 <= j < reps[i],
    ensures
        0 <= seq_sum(reps.take(i)) + j < expand_schedule(sizes, reps).len(),
        expand_schedule(sizes, reps)[seq_sum(reps.take(i)) + j] == sizes[i],
    decreases sizes.len(),
{
    lemma_expand_schedule_len(sizes, reps);
    lemma_seq_sum_nonneg(reps.take(i));
    lemma_seq_sum_take_succ(reps, i);
    lemma_seq_sum_take_le(reps, i + 1);
    lemma_expand_schedule_len(sizes.drop_last(), reps.drop_last());
    if i == sizes.len() - 1 {
        assert(reps.take(i) =~= reps.drop_last());
    } else {
        lemma_expand_schedule_index(sizes.drop_last(), reps.drop_last(), i, j);
        assert(reps.drop_last().take(i) =~= reps.take(i));
    }
}

pub proof fn lemma_expand_schedule_entries(sizes: Seq<usize>, reps: Seq<usize>)
    requires
        sizes.len() == reps.len(),
        forall|i: int| 0 <= i < sizes.len() ==> 1 <= #[trigger] sizes[i],
    ensures
        forall|k: int|
            0 <= k < expand_schedule(sizes, reps).len() ==> 1 <= #[trigger] expand_schedule(
                sizes,
                reps,
            )[k],
    decreases sizes.len(),
{
    if sizes.len() > 0 {
        lemma_expand_schedule_entries(sizes.drop_last(), reps.drop_last());
        assert forall|k: int|
            0 <= k < expand_schedule(sizes, reps).len() implies 1 <= #[trigger] expand_schedule(
            sizes,
            reps,
        )[k] by {
            let a = expand_schedule(sizes.drop_last(), reps.drop_last());
            if k < a.len() {
                assert(expand_schedule(sizes, reps)[k] == a[k]);
            } else {
                assert(expand_schedule(sizes, reps)[k] == sizes.last());
            }
        }
    }
}

pub proof fn lemma_expand_mass_take_le(sizes: Seq<usize>, reps: Seq<usize>, i: int)
    requires
        sizes.len() == reps.len(),
        0 <= i <= sizes.len(),
    ensures
        seq_sum(expand_schedule(sizes.take(i), reps.take(i))) <= seq_sum(
            expand_schedule(sizes, reps),
        ),
    decreases sizes.len() - i,
{
    if i == sizes.len() {
        assert(sizes.take(i) =~= sizes);
        assert(reps.take(i) =~= reps);
    } else {
        lemma_expand_schedule_take_succ(sizes, reps, i);
        lemma_seq_sum_add(
            expand_schedule(sizes.take(i), reps.take(i)),
            Seq::new(reps[i] as nat, |k: int| sizes[i]),
        );
        lemma_seq_sum_repeat(sizes[i], reps[i] as nat);
        lemma_mul_nonnegative(reps[i] as int, sizes[i] as int);
        lemma_expand_mass_take_le(sizes, reps, i + 1);
    }
}

/// A valid strategy schedules strictly more observations than the polynomial
/// degree: a degree-d fit has d + 1 unknowns, and the schedule repeats each
/// of its more-than-d groups at least once.
pub proof fn lemma_enough_observations<M: SamplingMethod>(m: &M)
    requires
        m.wf(),
    ensures
        m.spec_degree() < seq_sum(m.spec_samples_rep()),
{
    m.lemma_schedule_wf();
    lemma_seq_sum_lower(m.spec_samples_rep());
}

/// A strategy for carving subsamples out of an empirical distribution
/// according to a (subsample size, repetition count) schedule.
///
/// The plug-in entropy values of the distributions that [`Self::subsamples`]
/// returns, taken at their paired subsample sizes, are the observations an
/// extrapolating estimator fits its polynomial to.
pub trait SamplingMethod: Sized {
    /// Error returned when a degree change is rejected.
    type DegreeError;

    /// Error returned when a group-count change is rejected.
    type NumGroupsError;

    /// Error returned when a distribution change is rejected.
    type UnnormDistrError;

    /// Degree of the polynomial later fitted to the naive entropy
    /// observations.
    spec fn spec_degree(&self) -> int;

    /// Number of groups in the subsampling schedule.
    spec fn spec_num_groups(&self) -> int;

    /// Scheduled subsample size of each group.
    spec fn spec_size_subsamples(&self) -> Seq<usize>;

    /// Scheduled number of repetitions of each group.
    spec fn spec_samples_rep(&self) -> Seq<usize>;

    /// Validity. Every value this crate's validated constructors hand out
    /// satisfies it, and every mutation preserves it.
    spec fn wf(&self) -> bool;

    /// Which degrees `set_degree` accepts on this value.
    spec fn degree_acceptable(&self, degree: usize) -> bool;

    /// Which group counts `set_num_groups` accepts on this value.
    spec fn num_groups_acceptable(&self, num_groups: usize) -> bool;

    /// Which replacement distributions `set_unnorm_distr` accepts on this
    /// value.
    spec fn unnorm_distr_acceptable(&self, unnorm_distr: Seq<usize>) -> bool;

    /// The schedule of a valid strategy is coherent: one entry per group in
    /// both schedule arrays, no zero entries, more groups than the polynomial
    /// degree, and a total observation count that fits in `usize`.
    proof fn lemma_schedule_wf(&self)
        requires
            self.wf(),
        ensures
            self.spec_size_subsamples().len() == self.spec_num_groups(),
            self.spec_samples_rep().len() == self.spec_num_groups(),
            0 <= self.spec_degree() < self.spec_num_groups(),
            forall|i: int|
                0 <= i < self.spec_num_groups() ==> 1 <= #[trigger] self.spec_size_subsamples()[i],
            forall|i: int|
                0 <= i < self.spec_num_groups() ==> 1 <= #[trigger] self.spec_samples_rep()[i],
            seq_sum(self.spec_samples_rep()) <= usize::MAX,
    ;

    /// Returns the degree of the polynomial used to fit the naive entropy
    /// estimations.
    fn degree(&self) -> (d: usize)
        requires
            self.wf(),
        ensures
            d as int == self.spec_degree(),
    ;

    /// Changes the degree of the polynomial used to fit the naive entropy
    /// estimations.
    fn set_degree(&mut self, degree: usize) -> (r: Result<(), Self::DegreeError>)
        requires
            old(self).wf(),
        ensures
            final(self).wf(),
            r is Ok <==> old(self).degree_acceptable(degree),
            r is Ok ==> final(self).spec_degree() == degree
                && final(self).spec_num_groups() == old(self).spec_num_groups()
                && final(self).spec_size_subsamples() == old(self).spec_size_subsamples()
                && final(self).spec_samples_rep() == old(self).spec_samples_rep(),
            r is Err ==> *final(self) == *old(self),
    ;

    /// Returns the number of groups in the subsampling schedule.
    fn num_groups(&self) -> (g: usize)
        requires
            self.wf(),
        ensures
            g as int == self.spec_num_groups(),
    ;

    /// Changes the number of groups.
    fn set_num_groups(&mut self, num_groups: usize) -> (r: Result<(), Self::NumGroupsError>)
        requires
            old(self).wf(),
        ensures
            final(self).wf(),
            r is Ok <==> old(self).num_groups_acceptable(num_groups),
            r is Ok ==> final(self).spec_num_groups() == num_groups && final(self).spec_degree()
                == old(self).spec_degree(),
            r is Err ==> *final(self) == *old(self),
    ;

    /// Changes the unnormalized distribution from which subsamples will be
    /// taken.
    fn set_unnorm_distr(&mut self, unnorm_distr: &[usize]) -> (r: Result<(), Self::UnnormDistrError>)
        requires
            old(self).wf(),
            seq_sum(unnorm_distr@) <= usize::MAX,
        ensures
            final(self).wf(),
            r is Ok <==> old(self).unnorm_distr_acceptable(unnorm_distr@),
            r is Ok ==> final(self).spec_degree() == old(self).spec_degree()
                && final(self).spec_num_groups() == old(self).spec_num_groups(),
            r is Err ==> *final(self) == *old(self),
    ;

    /// Size of the subsamples, for each group.
    ///
    /// The entry at each position is the subsample size on which naive
    /// entropy will be computed, repeated the number of times given by the
    /// same position of `samples_rep`.  Conventionally the sizes are sorted
    /// from greatest to smallest.
    fn size_subsamples(&self) -> (v: Vec<usize>)
        requires
            self.wf(),
        ensures
            v@ == self.spec_size_subsamples(),
    ;

    /// Number of repetitions of each group, aligned by position with
    /// `size_subsamples`.
    fn samples_rep(&self) -> (v: Vec<usize>)
        requires
            self.wf(),
        ensures
            v@ == self.spec_samples_rep(),
    ;

    /// Total number of naive entropy estimations used to fit a polynomial:
    /// the sum of `samples_rep()`.
    ///
    /// This need not equal the total number of samples of the underlying
    /// distribution.
    fn total_samples(&self) -> (t: usize)
        requires
            self.wf(),
        ensures
            t as int == seq_sum(self.spec_samples_rep()),
    {
        let reps = self.samples_rep();
        proof {
            self.lemma_schedule_wf();
        }
        let mut t: usize = 0;
        let mut i: usize = 0;
        while i < reps.len()
            invariant
                i <= reps@.len(),
                t as int == seq_sum(reps@.take(i as int)),
                seq_sum(reps@) <= usize::MAX,
            decreases reps@.len() - i,
        {
            proof {
                lemma_seq_sum_take_succ(reps@, i as int);
                lemma_seq_sum_take_le(reps@, i as int + 1);
            }
            t = t + reps[i];
            i += 1;
        }
        proof {
            assert(reps@.take(reps@.len() as int) =~= reps@);
        }
        t
    }

    /// Carves one subsample per scheduled observation and returns, in
    /// schedule order, its size paired with the unnormalized distribution of
    /// the carved subsample.
    ///
    /// The plug-in entropy of the distribution in each entry `(n, d)` is the
    /// naive entropy observation for subsample size `n`; each distribution
    /// has no zero entries and total mass `n`.
    fn subsamples(&mut self) -> (obs: Vec<(usize, Vec<usize>)>)
        requires
            old(self).wf(),
        ensures
            final(self).wf(),
            final(self).spec_degree() == old(self).spec_degree(),
            final(self).spec_num_groups() == old(self).spec_num_groups(),
            final(self).spec_size_subsamples() == old(self).spec_size_subsamples(),
            final(self).spec_samples_rep() == old(self).spec_samples_rep(),
            obs@.len() == seq_sum(old(self).spec_samples_rep()),
            forall|k: int|
                0 <= k < obs@.len() ==> #[trigger] obs@[k].0 == expand_schedule(
                    old(self).spec_size_subsamples(),
                    old(self).spec_samples_rep(),
                )[k],
            forall|k: int| 0 <= k < obs@.len() ==> seq_sum(#[trigger] obs@[k].1@) == obs@[k].0,
            forall|k: int, j: int|
                0 <= k < obs@.len() && 0 <= j < obs@[k].1@.len() ==> 1 <= #[trigger] obs@[k].1@[j],
    ;
}

} // verus!
