//! The deterministic fixed-partition subsampling strategy.

use crate::traits::{
    expand_schedule, lemma_expand_mass_take_le, lemma_expand_schedule_entries,
    lemma_expand_schedule_index, lemma_expand_schedule_len, lemma_expand_schedule_take_succ,
    SamplingMethod,
};
use crate::utils::{
    count_dup, is_dup_counts, lemma_seq_sum_add, lemma_seq_sum_lower, lemma_seq_sum_nonneg,
    lemma_seq_sum_repeat, lemma_seq_sum_take_le, lemma_seq_sum_take_succ, seq_sum,
};
use vstd::prelude::*;
use vstd::slice::slice_to_vec;

verus! {

broadcast use vstd::laws_eq::group_laws_eq;

/// A subsampling strategy with a caller-fixed schedule that consumes an
/// explicit sample sequence from its back, without replacement.
///
/// Strictly speaking the strategy carves a sub-partition: the sample sequence
/// may hold more elements than the schedule consumes, and the extra elements
/// are simply not used.  The schedule and the sample sequence are structurally
/// fixed after construction; only the polynomial degree may still be lowered.
#[derive(Debug)]
pub struct FixedPartition {
    samples: Vec<usize>,
    size_subsamples: Vec<usize>,
    samples_rep: Vec<usize>,
    degree: usize,
}

/// Why construction of a [`FixedPartition`] was rejected.
#[derive(Debug)]
pub enum ConstructionError {
    /// The schedule consumes more samples than were supplied.
    TooFewSamples,
    /// There are no more groups than the polynomial degree.
    LowNumGroups,
    /// There are more repetition entries than subsample sizes.
    TooManyRepetitions,
    /// There are more subsample sizes than repetition entries.
    TooManySubsampleSizes,
    /// A repetition entry is zero.
    NullRepetition,
    /// A subsample size is zero.
    NullSubsampleSize,
}

/// A degree change was rejected: the new degree would not stay below the
/// number of groups.
#[derive(Debug)]
pub struct TooHighDegree;

/// The schedule and distribution of a [`FixedPartition`] are structurally
/// fixed and cannot be replaced.
#[derive(Debug)]
pub struct Unmutable;

/// The `k`-th subsample that partition consumption carves out of `samples`
/// under the expanded schedule `expanded`: chunks are taken from the back of
/// the sequence, element by element, one chunk per scheduled observation, in
/// schedule order.
pub open spec fn partition_chunk(samples: Seq<usize>, expanded: Seq<usize>, k: int) -> Seq<usize> {
    let end = samples.len() - seq_sum(expanded.take(k));
    samples.subrange(end - expanded[k], end).reverse()
}

impl FixedPartition {
    /// The sample sequence subsamples are carved from.
    pub closed spec fn spec_samples(&self) -> Seq<usize> {
        self.samples@
    }

    /// Validates a schedule against a sample sequence and constructs the
    /// strategy.
    ///
    /// `samples` is a collection of samples where repeated elements count as
    /// two realizations of the same value; `size_subsamples` and
    /// `samples_rep` are the parallel schedule arrays; `degree` is the degree
    /// of the polynomial later fitted to the observations.
    ///
    /// Supplying more samples than the schedule consumes is fine; the
    /// leftover samples are unused.  Each way a schedule can be unusable is
    /// rejected with its own [`ConstructionError`] variant, checked in the
    /// order of the contract below.
    pub fn new(
        samples: &[usize],
        size_subsamples: &[usize],
        samples_rep: &[usize],
        degree: usize,
    ) -> (r: Result<Self, ConstructionError>)
        ensures
            match r {
                Ok(fp) => {
                    &&& fp.wf()
                    &&& fp.spec_samples() == samples@
                    &&& fp.spec_size_subsamples() == size_subsamples@
                    &&& fp.spec_samples_rep() == samples_rep@
                    &&& fp.spec_degree() == degree
                    &&& degree < size_subsamples@.len() == samples_rep@.len()
                    &&& seq_sum(expand_schedule(size_subsamples@, samples_rep@)) <= samples@.len()
                },
                Err(e) => match e {
                    ConstructionError::LowNumGroups => size_subsamples@.len() <= degree,
                    ConstructionError::TooManyRepetitions => degree < size_subsamples@.len()
                        < samples_rep@.len(),
                    ConstructionError::TooManySubsampleSizes => degree < size_subsamples@.len()
                        && samples_rep@.len() < size_subsamples@.len(),
                    ConstructionError::NullRepetition => {
                        &&& degree < size_subsamples@.len() == samples_rep@.len()
                        &&& exists|i: int|
                            0 <= i < samples_rep@.len() && #[trigger] samples_rep@[i] == 0
                    },
                    ConstructionError::NullSubsampleSize => {
                        &&& degree < size_subsamples@.len() == samples_rep@.len()
                        &&& forall|i: int|
                            0 <= i < samples_rep@.len() ==> 1 <= #[trigger] samples_rep@[i]
                        &&& exists|i: int|
                            0 <= i < size_subsamples@.len() && #[trigger] size_subsamples@[i] == 0
                    },
                    ConstructionError::TooFewSamples => {
                        &&& degree < size_subsamples@.len() == samples_rep@.len()
                        &&& forall|i: int|
                            0 <= i < samples_rep@.len() ==> 1 <= #[trigger] samples_rep@[i]
                        &&& forall|i: int|
                            0 <= i < size_subsamples@.len() ==> 1 <= #[trigger] size_subsamples@[i]
                        &&& samples@.len() < seq_sum(
                            expand_schedule(size_subsamples@, samples_rep@),
                        )
                    },
                },
            },
    {
        let num_groups = size_subsamples.len();
        if num_groups <= degree {
            return Err(ConstructionError::LowNumGroups);
        }
        if samples_rep.len() > size_subsamples.len() {
            return Err(ConstructionError::TooManyRepetitions);
        }
        if samples_rep.len() < size_subsamples.len() {
            return Err(ConstructionError::TooManySubsampleSizes);
        }
        let mut i: usize = 0;
        while i < samples_rep.len()
            invariant
                samples_rep@.len() == size_subsamples@.len(),
                degree < size_subsamples@.len(),
                i <= samples_rep@.len(),
                forall|j: int| 0 <= j < i ==> 1 <= #[trigger] samples_rep@[j],
            decreases samples_rep@.len() - i,
        {
            if samples_rep[i] == 0 {
                return Err(ConstructionError::NullRepetition);
            }
            i += 1;
        }
        let mut i: usize = 0;
        while i < size_subsamples.len()
            invariant
                samples_rep@.len() == size_subsamples@.len(),
                degree < size_subsamples@.len(),
                i <= size_subsamples@.len(),
                forall|j: int| 0 <= j < i ==> 1 <= #[trigger] size_subsamples@[j],
                forall|j: int| 0 <= j < samples_rep@.len() ==> 1 <= #[trigger] samples_rep@[j],
            decreases size_subsamples@.len() - i,
        {
            if size_subsamples[i] == 0 {
                return Err(ConstructionError::NullSubsampleSize);
            }
            i += 1;
        }
        proof {
            assert(samples.len() == samples@.len());
        }
        let mut desired: usize = 0;
        let mut i: usize = 0;
        while i < size_subsamples.len()
            invariant
                samples@.len() <= usize::MAX,
                size_subsamples@.len() == samples_rep@.len(),
                degree < size_subsamples@.len(),
                i <= size_subsamples@.len(),
                forall|j: int| 0 <= j < size_subsamples@.len() ==> 1 <= #[trigger] size_subsamples@[j],
                forall|j: int| 0 <= j < samples_rep@.len() ==> 1 <= #[trigger] samples_rep@[j],
                desired as int == seq_sum(
                    expand_schedule(
                        size_subsamples@.take(i as int),
                        samples_rep@.take(i as int),
                    ),
                ),
            decreases size_subsamples@.len() - i,
        {
            proof {
                lemma_expand_schedule_take_succ(size_subsamples@, samples_rep@, i as int);
                lemma_seq_sum_add(
                    expand_schedule(
                        size_subsamples@.take(i as int),
                        samples_rep@.take(i as int),
                    ),
                    Seq::new(samples_rep@[i as int] as nat, |k: int| size_subsamples@[i as int]),
                );
                lemma_seq_sum_repeat(size_subsamples@[i as int], samples_rep@[i as int] as nat);
            }
            let prod = match size_subsamples[i].checked_mul(samples_rep[i]) {
                Some(p) => p,
                None => {
                    proof {
                        lemma_expand_mass_take_le(size_subsamples@, samples_rep@, i as int + 1);
                        assert((size_subsamples@[i as int] as int) * (samples_rep@[i as int] as int)
                            > usize::MAX);
                        assert(seq_sum(
                            expand_schedule(
                                size_subsamples@.take(i as int + 1),
                                samples_rep@.take(i as int + 1),
                            ),
                        ) == desired + (samples_rep@[i as int] as nat) * size_subsamples@[i as int]);
                        assert(samples@.len() < seq_sum(
                            expand_schedule(size_subsamples@, samples_rep@),
                        ));
                    }
                    return Err(ConstructionError::TooFewSamples);
                },
            };
            let total = match desired.checked_add(prod) {
                Some(t) => t,
                None => {
                    proof {
                        lemma_expand_mass_take_le(size_subsamples@, samples_rep@, i as int + 1);
                    }
                    return Err(ConstructionError::TooFewSamples);
                },
            };
            desired = total;
            i += 1;
        }
        proof {
            assert(size_subsamples@.take(size_subsamples@.len() as int) =~= size_subsamples@);
            assert(samples_rep@.take(samples_rep@.len() as int) =~= samples_rep@);
        }
        if samples.len() < desired {
            return Err(ConstructionError::TooFewSamples);
        }
        Ok(Self::new_unchecked(samples, size_subsamples, samples_rep, degree))
    }

    /// Constructs the strategy without validating the schedule.
    ///
    /// A value built from an unvalidated schedule may not be well-formed, in
    /// which case the subsample-carving operations are not available.
    pub fn new_unchecked(
        samples: &[usize],
        size_subsamples: &[usize],
        samples_rep: &[usize],
        degree: usize,
    ) -> (r: Self)
        ensures
            r.spec_samples() == samples@,
            r.spec_size_subsamples() == size_subsamples@,
            r.spec_samples_rep() == samples_rep@,
            r.spec_degree() == degree,
    {
        FixedPartition {
            samples: slice_to_vec(samples),
            size_subsamples: slice_to_vec(size_subsamples),
            samples_rep: slice_to_vec(samples_rep),
            degree,
        }
    }
}

impl SamplingMethod for FixedPartition {
    type DegreeError = TooHighDegree;

    type NumGroupsError = Unmutable;

    type UnnormDistrError = Unmutable;

    closed spec fn spec_degree(&self) -> int {
        self.degree as int
    }

    closed spec fn spec_num_groups(&self) -> int {
        self.size_subsamples@.len() as int
    }

    closed spec fn spec_size_subsamples(&self) -> Seq<usize> {
        self.size_subsamples@
    }

    closed spec fn spec_samples_rep(&self) -> Seq<usize> {
        self.samples_rep@
    }

    closed spec fn wf(&self) -> bool {
        &&& self.samples_rep@.len() == self.size_subsamples@.len()
        &&& (self.degree as int) < self.size_subsamples@.len()
        &&& forall|i: int|
            0 <= i < self.size_subsamples@.len() ==> 1 <= #[trigger] self.size_subsamples@[i]
        &&& forall|i: int|
            0 <= i < self.samples_rep@.len() ==> 1 <= #[trigger] self.samples_rep@[i]
        &&& seq_sum(expand_schedule(self.size_subsamples@, self.samples_rep@))
            <= self.samples@.len()
    }

    closed spec fn degree_acceptable(&self, degree: usize) -> bool {
        (degree as int) < self.size_subsamples@.len()
    }

    closed spec fn num_groups_acceptable(&self, num_groups: usize) -> bool {
        false
    }

    closed spec fn unnorm_distr_acceptable(&self, unnorm_distr: Seq<usize>) -> bool {
        false
    }

    proof fn lemma_schedule_wf(&self) {
        assert(self.spec_size_subsamples() == self.size_subsamples@);
        assert(self.spec_samples_rep() == self.samples_rep@);
        assert(self.spec_num_groups() == self.size_subsamples@.len() as int);
        assert(0 <= self.spec_degree() < self.spec_num_groups());
        assert(self.samples.len() == self.samples@.len());
        lemma_expand_schedule_len(self.size_subsamples@, self.samples_rep@);
        lemma_expand_schedule_entries(self.size_subsamples@, self.samples_rep@);
        lemma_seq_sum_lower(expand_schedule(self.size_subsamples@, self.samples_rep@));
        assert(seq_sum(self.spec_samples_rep()) <= self.samples@.len());
    }

    fn degree(&self) -> (d: usize) {
        self.degree
    }

    /// Lowers (or raises) the fitting degree; accepted exactly when the new
    /// degree stays below the number of groups.
    fn set_degree(&mut self, degree: usize) -> (r: Result<(), TooHighDegree>)
        ensures
            r is Ok <==> (degree as int) < old(self).spec_num_groups(),
            final(self).spec_samples() == old(self).spec_samples(),
    {
        if self.size_subsamples.len() > degree {
            self.degree = degree;
            Ok(())
        } else {
            Err(TooHighDegree)
        }
    }

    fn num_groups(&self) -> (g: usize) {
        self.size_subsamples.len()
    }

    /// Always fails: the schedule of a fixed partition cannot be replaced.
    fn set_num_groups(&mut self, num_groups: usize) -> (r: Result<(), Unmutable>)
        ensures
            r is Err,
            *final(self) == *old(self),
    {
        Err(Unmutable)
    }

    /// Always fails: the sample sequence of a fixed partition cannot be
    /// replaced.
    fn set_unnorm_distr(&mut self, unnorm_distr: &[usize]) -> (r: Result<(), Unmutable>)
        ensures
            r is Err,
            *final(self) == *old(self),
    {
        Err(Unmutable)
    }

    fn size_subsamples(&self) -> (v: Vec<usize>) {
        let v = slice_to_vec(self.size_subsamples.as_slice());
        v
    }

    fn samples_rep(&self) -> (v: Vec<usize>) {
        let v = slice_to_vec(self.samples_rep.as_slice());
        v
    }

    /// Carves the scheduled subsamples out of the sample sequence, back to
    /// front, and returns the unnormalized distribution of each.
    ///
    /// The run is deterministic: it leaves the strategy unchanged, and the
    /// observations are a function of the strategy's value alone, so a rerun
    /// yields the same observations again.  Well-formedness guarantees the
    /// sample sequence cannot run out before the schedule completes.
    fn subsamples(&mut self) -> (obs: Vec<(usize, Vec<usize>)>)
        ensures
            *final(self) == *old(self),
            forall|k: int|
                0 <= k < obs@.len() ==> is_dup_counts(
                    (#[trigger] obs@[k]).1@,
                    partition_chunk(
                        old(self).spec_samples(),
                        expand_schedule(
                            old(self).spec_size_subsamples(),
                            old(self).spec_samples_rep(),
                        ),
                        k,
                    ),
                ),
    {
        proof {
            self.lemma_schedule_wf();
            lemma_expand_schedule_len(self.size_subsamples@, self.samples_rep@);
            lemma_expand_schedule_entries(self.size_subsamples@, self.samples_rep@);
        }
        let ghost expanded = expand_schedule(self.size_subsamples@, self.samples_rep@);
        let mut obs: Vec<(usize, Vec<usize>)> = Vec::new();
        let mut remaining = self.samples.len();
        let num_groups = self.size_subsamples.len();
        let mut i: usize = 0;
        proof {
            assert(self.samples_rep@.take(0) =~= Seq::<usize>::empty());
            assert(expanded.take(0) =~= Seq::<usize>::empty());
        }
        while i < num_groups
            invariant
                *self == *old(self),
                num_groups == self.size_subsamples@.len(),
                self.samples_rep@.len() == num_groups,
                expanded == expand_schedule(self.size_subsamples@, self.samples_rep@),
                expanded.len() == seq_sum(self.samples_rep@),
                seq_sum(expanded) <= self.samples@.len(),
                forall|k: int| 0 <= k < expanded.len() ==> 1 <= #[trigger] expanded[k],
                i <= num_groups,
                obs@.len() == seq_sum(self.samples_rep@.take(i as int)),
                0 <= obs@.len() <= expanded.len(),
                remaining as int == self.samples@.len() - seq_sum(expanded.take(obs@.len() as int)),
                forall|k: int| 0 <= k < obs@.len() ==> (#[trigger] obs@[k]).0 == expanded[k],
                forall|k: int| 0 <= k < obs@.len() ==> seq_sum((#[trigger] obs@[k]).1@) == obs@[k].0,
                forall|k: int, j: int|
                    0 <= k < obs@.len() && 0 <= j < obs@[k].1@.len() ==> 1 <= #[trigger] obs@[k].1@[j],
                forall|k: int|
                    0 <= k < obs@.len() ==> is_dup_counts(
                        (#[trigger] obs@[k]).1@,
                        partition_chunk(self.samples@, expanded, k),
                    ),
            decreases num_groups - i,
        {
            let size = self.size_subsamples[i];
            let rep = self.samples_rep[i];
            proof {
                lemma_seq_sum_take_le(self.samples_rep@, i as int);
            }
            let mut j: usize = 0;
            while j < rep
                invariant
                    *self == *old(self),
                    num_groups == self.size_subsamples@.len(),
                    self.samples_rep@.len() == num_groups,
                    expanded == expand_schedule(self.size_subsamples@, self.samples_rep@),
                    expanded.len() == seq_sum(self.samples_rep@),
                    seq_sum(expanded) <= self.samples@.len(),
                    forall|k: int| 0 <= k < expanded.len() ==> 1 <= #[trigger] expanded[k],
                    0 <= i < num_groups,
                    size == self.size_subsamples@[i as int],
                    rep == self.samples_rep@[i as int],
                    j <= rep,
                    obs@.len() == seq_sum(self.samples_rep@.take(i as int)) + j,
                    0 <= obs@.len() <= expanded.len(),
                    remaining as int == self.samples@.len() - seq_sum(
                        expanded.take(obs@.len() as int),
                    ),
                    forall|k: int| 0 <= k < obs@.len() ==> (#[trigger] obs@[k]).0 == expanded[k],
                    forall|k: int|
                        0 <= k < obs@.len() ==> seq_sum((#[trigger] obs@[k]).1@) == obs@[k].0,
                    forall|k: int, j2: int|
                        0 <= k < obs@.len() && 0 <= j2 < obs@[k].1@.len() ==> 1 <= #[trigger] obs@[k].1@[j2],
                    forall|k: int|
                        0 <= k < obs@.len() ==> is_dup_counts(
                            (#[trigger] obs@[k]).1@,
                            partition_chunk(self.samples@, expanded, k),
                        ),
                decreases rep - j,
            {
                let ghost cnt = obs@.len() as int;
                proof {
                    lemma_seq_sum_nonneg(self.samples_rep@.take(i as int));
                    lemma_expand_schedule_index(
                        self.size_subsamples@,
                        self.samples_rep@,
                        i as int,
                        j as int,
                    );
                    lemma_seq_sum_take_succ(expanded, cnt);
                    lemma_seq_sum_take_le(expanded, cnt + 1);
                    lemma_seq_sum_nonneg(expanded.take(cnt));
                }
                let ghost rb = remaining as int;
                let mut chunk: Vec<usize> = Vec::new();
                let mut c: usize = 0;
                while c < size
                    invariant
                        *self == *old(self),
                        c <= size,
                        size <= rb,
                        rb <= self.samples@.len(),
                        remaining as int == rb - c,
                        chunk@.len() == c,
                        forall|m: int| 0 <= m < c ==> #[trigger] chunk@[m] == self.samples@[rb - 1
                            - m],
                    decreases size - c,
                {
                    remaining = remaining - 1;
                    chunk.push(self.samples[remaining]);
                    c += 1;
                }
                let hist = count_dup(chunk.as_slice());
                proof {
                    assert(chunk@ =~= self.samples@.subrange(rb - size, rb).reverse());
                    assert(chunk@ == partition_chunk(self.samples@, expanded, cnt));
                }
                obs.push((size, hist));
                j += 1;
            }
            proof {
                lemma_seq_sum_take_succ(self.samples_rep@, i as int);
            }
            i += 1;
        }
        proof {
            assert(self.samples_rep@.take(num_groups as int) =~= self.samples_rep@);
        }
        obs
    }
}

} // verus!
