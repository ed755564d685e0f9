//! The randomized bootstrap-style subsampling strategy.

use crate::traits::{
    expand_schedule, lemma_expand_schedule_index, lemma_expand_schedule_len, SamplingMethod,
};
use crate::utils::{
    count_dup, is_dup_counts, lemma_seq_sum_nonneg, lemma_seq_sum_take_le, lemma_seq_sum_take_succ,
    seq_sum, sum_slice,
};
use rand::seq::SliceRandom;
use vstd::arithmetic::div_mod::{
    lemma_div_by_self, lemma_div_is_ordered, lemma_div_nonincreasing, lemma_div_pos_is_pos,
};
use vstd::arithmetic::power2::{lemma_pow2_pos, lemma_pow2_strictly_increases, pow2};
use vstd::bits::{lemma_usize_pow2_no_overflow, lemma_usize_shl_is_mul, lemma_usize_shr_is_div};
use vstd::prelude::*;
use vstd::slice::slice_to_vec;

verus! {

broadcast use vstd::laws_eq::group_laws_eq;

/// A subsampling strategy that draws random subsamples, without replacement,
/// from the flat multiset an unnormalized distribution describes.
///
/// Group `i` of the schedule draws subsamples of size `mass >> (i + 1)` and
/// repeats the draw `1 << i` times: smaller subsamples are drawn more often,
/// compensating for the higher variance of their naive entropy values.  Every
/// repetition draws afresh from the full multiset, so draws do not accumulate
/// across repetitions.
#[derive(Debug, Clone)]
pub struct Bootstrap<R> {
    num_groups: usize,
    degree: usize,
    unnorm_distr: Vec<usize>,
    rng: R,
}

/// Why construction of a [`Bootstrap`] was rejected.
#[derive(Debug)]
pub enum ConstructionError {
    /// The distribution's total mass is too low for the number of groups.
    TooFewSamples(TooFewSamples),
    /// There are no more groups than the polynomial degree.
    LowNumGroups(LowNumGroups),
}

/// The number of groups is too low for the degree.
#[derive(Debug)]
pub struct LowNumGroups;

/// The degree is too high for the number of groups.
#[derive(Debug)]
pub struct HighDegree;

/// The distribution's total mass is too low: there must be at least one
/// sample to draw for the smallest group, that is `2^num_groups` in all.
#[derive(Debug)]
pub struct TooFewSamples;

/// The subsample sizes of a bootstrap schedule over a distribution of total
/// mass `mass`: group `i` draws `mass / 2^(i + 1)` elements.
pub open spec fn bootstrap_sizes(mass: int, num_groups: nat) -> Seq<usize> {
    Seq::new(num_groups, |i: int| (mass / pow2((i + 1) as nat) as int) as usize)
}

/// The repetition counts of a bootstrap schedule: group `i` is drawn `2^i`
/// times.
pub open spec fn bootstrap_reps(num_groups: nat) -> Seq<usize> {
    Seq::new(num_groups, |i: int| pow2(i as nat) as usize)
}

/// The flat multiset an unnormalized distribution describes, restricted to
/// its first `j` categories: category `0` repeated `h[0]` times, then
/// category `1`, and so on.
pub open spec fn expand_hist_prefix(h: Seq<usize>, j: int) -> Seq<usize>
    decreases j,
{
    if j <= 0 {
        Seq::empty()
    } else {
        expand_hist_prefix(h, j - 1) + Seq::new(h[j - 1] as nat, |k: int| (j - 1) as usize)
    }
}

/// The flat multiset an unnormalized distribution describes.
pub open spec fn expand_hist(h: Seq<usize>) -> Seq<usize> {
    expand_hist_prefix(h, h.len() as int)
}

pub proof fn lemma_expand_hist_prefix_len(h: Seq<usize>, j: int)
    requires
        0 <= j <= h.len(),
    ensures
        expand_hist_prefix(h, j).len() == seq_sum(h.take(j)),
    decreases j,
{
    if j > 0 {
        lemma_expand_hist_prefix_len(h, j - 1);
        assert(h.take(j).drop_last() =~= h.take(j - 1));
    }
}

/// The observation `ob` reports the duplicate counts of some multiset of
/// `ob.0` elements drawn from `pool` without replacement.
pub open spec fn is_subsample_of(ob: (usize, Vec<usize>), pool: Seq<usize>) -> bool {
    exists|draw: Seq<usize>|
        {
            &&& draw.len() == ob.0
            &&& (#[trigger] draw.to_multiset()).subset_of(pool.to_multiset())
            &&& is_dup_counts(ob.1@, draw)
        }
}

/// A source of random subsamples: anything that can draw a given number of
/// elements from a pool, without replacement within one draw.  Implemented
/// below for the ready-made random generators of the rand crate, which is how
/// a [`Bootstrap`] advances its generator.
pub trait SubsampleSource: Sized {
    /// Draws `min(amount, pool.len())` elements of `pool` without
    /// replacement: the result is a sub-multiset of the pool of exactly that
    /// length, in unspecified order.
    fn draw_without_replacement(&mut self, pool: &Vec<usize>, amount: usize) -> (r: Vec<usize>)
        ensures
            r@.len() == if amount as int <= pool@.len() {
                amount as int
            } else {
                pool@.len() as int
            },
            r@.to_multiset().subset_of(pool@.to_multiset()),
    ;
}

/// Relies on rand's `SliceRandom::choose_multiple`: it chooses
/// `min(amount, pool.len())` elements of the slice at pairwise distinct
/// positions, in unspecified order, so the result is a sub-multiset of the
/// pool of exactly that length.
#[verifier::external_body]
fn choose_multiple_without_replacement<R: rand::Rng>(
    rng: &mut R,
    pool: &Vec<usize>,
    amount: usize,
) -> (r: Vec<usize>)
    ensures
        r@.len() == if amount as int <= pool@.len() {
            amount as int
        } else {
            pool@.len() as int
        },
        r@.to_multiset().subset_of(pool@.to_multiset()),
{
    pool.choose_multiple(rng, amount).cloned().collect()
}

#[verifier::external_type_specification]
#[verifier::external_body]
pub struct ExThreadRng(rand::rngs::ThreadRng);

#[verifier::external_type_specification]
#[verifier::external_body]
pub struct ExStdRng(rand::rngs::StdRng);

impl SubsampleSource for rand::rngs::ThreadRng {
    fn draw_without_replacement(&mut self, pool: &Vec<usize>, amount: usize) -> (r: Vec<usize>) {
        choose_multiple_without_replacement(self, pool, amount)
    }
}

impl SubsampleSource for rand::rngs::StdRng {
    fn draw_without_replacement(&mut self, pool: &Vec<usize>, amount: usize) -> (r: Vec<usize>) {
        choose_multiple_without_replacement(self, pool, amount)
    }
}

proof fn lemma_groups_below_bits(num_groups: nat, mass: int)
    requires
        pow2(num_groups) <= mass,
        mass <= usize::MAX,
    ensures
        num_groups < usize::BITS,
{
    vstd::layout::unsigned_int_max_values();
    if num_groups >= usize::BITS {
        if num_groups > usize::BITS {
            lemma_pow2_strictly_increases(usize::BITS as nat, num_groups);
        }
    }
}

proof fn lemma_sum_bootstrap_reps(num_groups: nat)
    requires
        num_groups < usize::BITS,
    ensures
        seq_sum(bootstrap_reps(num_groups)) == pow2(num_groups) - 1,
    decreases num_groups,
{
    if num_groups == 0 {
        assert(bootstrap_reps(0) =~= Seq::<usize>::empty());
        assert(pow2(0) == 1) by {
            vstd::arithmetic::power2::lemma2_to64();
        }
    } else {
        lemma_usize_pow2_no_overflow((num_groups - 1) as nat);
        assert(bootstrap_reps(num_groups).drop_last() =~= bootstrap_reps((num_groups - 1) as nat));
        lemma_sum_bootstrap_reps((num_groups - 1) as nat);
        assert(pow2(num_groups) == 2 * pow2((num_groups - 1) as nat)) by {
            vstd::arithmetic::power2::lemma_pow2_unfold(num_groups);
        }
    }
}

/// The schedule law of a valid bootstrap strategy: group `i` draws
/// `mass / 2^(i + 1)` elements and repeats the draw `2^i` times, so the
/// schedule yields `2^num_groups - 1` observations in all.
pub proof fn lemma_bootstrap_schedule<R: SubsampleSource>(b: &Bootstrap<R>)
    requires
        b.wf(),
    ensures
        b.spec_size_subsamples() == bootstrap_sizes(b.spec_mass(), b.spec_num_groups() as nat),
        b.spec_samples_rep() == bootstrap_reps(b.spec_num_groups() as nat),
        seq_sum(b.spec_samples_rep()) == pow2(b.spec_num_groups() as nat) - 1,
{
    lemma_groups_below_bits(b.spec_num_groups() as nat, b.spec_mass());
    lemma_sum_bootstrap_reps(b.spec_num_groups() as nat);
}

impl<R> Bootstrap<R> {
    /// The unnormalized distribution subsamples are drawn from.
    pub closed spec fn spec_unnorm_distr(&self) -> Seq<usize> {
        self.unnorm_distr@
    }

    /// Total mass of the held distribution.
    pub open spec fn spec_mass(&self) -> int {
        seq_sum(self.spec_unnorm_distr())
    }
}

impl<R> Bootstrap<R> where R: SubsampleSource {
    /// Validates the parameters and constructs the strategy.
    ///
    /// `unnorm_distr` must be an unnormalized distribution: each entry is the
    /// number of times one specific value occurred.  To turn a collection of
    /// raw samples into one, see [`count_dup`].
    ///
    /// Construction is rejected when the number of groups does not exceed the
    /// degree, and when the distribution's total mass is below
    /// `2^num_groups`, the least mass whose smallest scheduled draw is still
    /// at least one element.
    pub fn new(unnorm_distr: &[usize], num_groups: usize, degree: usize, rng: R) -> (r: Result<
        Self,
        ConstructionError,
    >)
        requires
            seq_sum(unnorm_distr@) <= usize::MAX,
        ensures
            match r {
                Ok(b) => {
                    &&& b.wf()
                    &&& b.spec_unnorm_distr() == unnorm_distr@
                    &&& b.spec_degree() == degree
                    &&& b.spec_num_groups() == num_groups
                    &&& degree < num_groups
                    &&& pow2(num_groups as nat) <= seq_sum(unnorm_distr@)
                },
                Err(ConstructionError::LowNumGroups(_)) => num_groups <= degree,
                Err(ConstructionError::TooFewSamples(_)) => degree < num_groups && seq_sum(
                    unnorm_distr@,
                ) < pow2(num_groups as nat),
            },
    {
        if num_groups > degree {
            let available_samples = sum_slice(unnorm_distr);
            if num_groups < usize::BITS as usize {
                proof {
                    lemma_usize_pow2_no_overflow(num_groups as nat);
                    lemma_usize_shl_is_mul(1usize, num_groups);
                }
                if available_samples >= 1usize << num_groups {
                    Ok(Bootstrap::new_unchecked(unnorm_distr, num_groups, degree, rng))
                } else {
                    Err(ConstructionError::TooFewSamples(TooFewSamples))
                }
            } else {
                proof {
                    vstd::layout::unsigned_int_max_values();
                    if num_groups > usize::BITS {
                        lemma_pow2_strictly_increases(usize::BITS as nat, num_groups as nat);
                    }
                }
                Err(ConstructionError::TooFewSamples(TooFewSamples))
            }
        } else {
            Err(ConstructionError::LowNumGroups(LowNumGroups))
        }
    }

    /// Constructs the strategy without validating the parameters.
    ///
    /// A value built from unvalidated parameters may not be well-formed, in
    /// which case the subsample-drawing operations are not available.
    pub fn new_unchecked(unnorm_distr: &[usize], num_groups: usize, degree: usize, rng: R) -> (r:
        Self)
        ensures
            r.spec_unnorm_distr() == unnorm_distr@,
            r.spec_degree() == degree,
            r.spec_num_groups() == num_groups,
    {
        Bootstrap { num_groups, degree, unnorm_distr: slice_to_vec(unnorm_distr), rng }
    }
}

impl<R> SamplingMethod for Bootstrap<R> where R: SubsampleSource {
    type DegreeError = HighDegree;

    type NumGroupsError = ConstructionError;

    type UnnormDistrError = TooFewSamples;

    closed spec fn spec_degree(&self) -> int {
        self.degree as int
    }

    closed spec fn spec_num_groups(&self) -> int {
        self.num_groups as int
    }

    closed spec fn spec_size_subsamples(&self) -> Seq<usize> {
        bootstrap_sizes(self.spec_mass(), self.num_groups as nat)
    }

    closed spec fn spec_samples_rep(&self) -> Seq<usize> {
        bootstrap_reps(self.num_groups as nat)
    }

    closed spec fn wf(&self) -> bool {
        &&& (self.degree as int) < self.num_groups as int
        &&& self.spec_mass() <= usize::MAX
        &&& pow2(self.num_groups as nat) <= self.spec_mass()
    }

    closed spec fn degree_acceptable(&self, degree: usize) -> bool {
        (degree as int) < self.num_groups as int
    }

    closed spec fn num_groups_acceptable(&self, num_groups: usize) -> bool {
        (self.degree as int) < num_groups as int && pow2(num_groups as nat) <= self.spec_mass()
    }

    closed spec fn unnorm_distr_acceptable(&self, unnorm_distr: Seq<usize>) -> bool {
        pow2(self.num_groups as nat) <= seq_sum(unnorm_distr)
    }

    proof fn lemma_schedule_wf(&self) {
        let g = self.num_groups as nat;
        let mass = self.spec_mass();
        assert(self.spec_size_subsamples() == bootstrap_sizes(mass, g));
        assert(self.spec_samples_rep() == bootstrap_reps(g));
        assert(self.spec_num_groups() == self.num_groups as int);
        assert(0 <= self.spec_degree() < self.spec_num_groups());
        lemma_groups_below_bits(g, mass);
        lemma_seq_sum_nonneg(self.unnorm_distr@);
        assert forall|i: int| 0 <= i < g implies 1 <= #[trigger] self.spec_size_subsamples()[i] by {
            lemma_pow2_pos((i + 1) as nat);
            if i + 1 < g {
                lemma_pow2_strictly_increases((i + 1) as nat, g);
            }
            lemma_div_is_ordered(pow2((i + 1) as nat) as int, mass, pow2((i + 1) as nat) as int);
            lemma_div_by_self(pow2((i + 1) as nat) as int);
            lemma_div_nonincreasing(mass, pow2((i + 1) as nat) as int);
        }
        assert forall|i: int| 0 <= i < g implies 1 <= #[trigger] self.spec_samples_rep()[i] by {
            lemma_pow2_pos(i as nat);
            lemma_usize_pow2_no_overflow(i as nat);
        }
        lemma_sum_bootstrap_reps(g);
        lemma_pow2_pos(g);
    }

    fn degree(&self) -> (d: usize) {
        self.degree
    }

    /// Accepted exactly when the new degree stays below the number of groups.
    fn set_degree(&mut self, degree: usize) -> (r: Result<(), HighDegree>)
        ensures
            r is Ok <==> (degree as int) < old(self).spec_num_groups(),
            final(self).spec_unnorm_distr() == old(self).spec_unnorm_distr(),
    {
        if self.num_groups > degree {
            self.degree = degree;
            Ok(())
        } else {
            Err(HighDegree)
        }
    }

    fn num_groups(&self) -> (g: usize) {
        self.num_groups
    }

    /// Accepted exactly when the new group count exceeds the degree and the
    /// held distribution's total mass is at least `2^num_groups`.
    fn set_num_groups(&mut self, num_groups: usize) -> (r: Result<(), ConstructionError>)
        ensures
            r matches Err(ConstructionError::LowNumGroups(_)) <==> num_groups as int <= old(
                self,
            ).spec_degree(),
            r matches Err(ConstructionError::TooFewSamples(_)) <==> old(self).spec_degree()
                < num_groups as int && old(self).spec_mass() < pow2(num_groups as nat),
            final(self).spec_unnorm_distr() == old(self).spec_unnorm_distr(),
    {
        if num_groups > self.degree {
            proof {
                self.lemma_schedule_wf();
            }
            let available_samples = sum_slice(self.unnorm_distr.as_slice());
            if num_groups < usize::BITS as usize {
                proof {
                    lemma_usize_pow2_no_overflow(num_groups as nat);
                    lemma_usize_shl_is_mul(1usize, num_groups);
                }
                if available_samples >= 1usize << num_groups {
                    self.num_groups = num_groups;
                    Ok(())
                } else {
                    Err(ConstructionError::TooFewSamples(TooFewSamples))
                }
            } else {
                proof {
                    vstd::layout::unsigned_int_max_values();
                    if num_groups > usize::BITS {
                        lemma_pow2_strictly_increases(usize::BITS as nat, num_groups as nat);
                    }
                }
                Err(ConstructionError::TooFewSamples(TooFewSamples))
            }
        } else {
            Err(ConstructionError::LowNumGroups(LowNumGroups))
        }
    }

    /// Accepted exactly when the replacement distribution's total mass is at
    /// least `2^num_groups`.
    fn set_unnorm_distr(&mut self, unnorm_distr: &[usize]) -> (r: Result<(), TooFewSamples>)
        ensures
            r is Ok <==> pow2(old(self).spec_num_groups() as nat) <= seq_sum(unnorm_distr@),
            r is Ok ==> final(self).spec_unnorm_distr() == unnorm_distr@,
    {
        proof {
            self.lemma_schedule_wf();
            lemma_groups_below_bits(self.num_groups as nat, self.spec_mass());
            lemma_usize_pow2_no_overflow(self.num_groups as nat);
            lemma_usize_shl_is_mul(1usize, self.num_groups);
        }
        let available_samples = sum_slice(unnorm_distr);
        if available_samples >= 1usize << self.num_groups {
            self.unnorm_distr = slice_to_vec(unnorm_distr);
            Ok(())
        } else {
            Err(TooFewSamples)
        }
    }

    fn size_subsamples(&self) -> (v: Vec<usize>) {
        proof {
            self.lemma_schedule_wf();
            lemma_groups_below_bits(self.num_groups as nat, self.spec_mass());
        }
        let available_samples = sum_slice(self.unnorm_distr.as_slice());
        let mut v: Vec<usize> = Vec::new();
        let mut i: usize = 0;
        while i < self.num_groups
            invariant
                self.wf(),
                available_samples as int == self.spec_mass(),
                self.num_groups < usize::BITS,
                i <= self.num_groups,
                v@.len() == i,
                forall|j: int| 0 <= j < i ==> #[trigger] v@[j] == self.spec_size_subsamples()[j],
            decreases self.num_groups - i,
        {
            proof {
                lemma_pow2_pos((i + 1) as nat);
                lemma_pow2_pos(self.num_groups as nat);
                lemma_usize_shr_is_div(available_samples, (i + 1) as usize);
                lemma_div_pos_is_pos(self.spec_mass(), pow2((i + 1) as nat) as int);
                lemma_div_nonincreasing(self.spec_mass(), pow2((i + 1) as nat) as int);
            }
            v.push(available_samples >> (i + 1));
            i += 1;
        }
        proof {
            assert(v@ =~= self.spec_size_subsamples());
        }
        v
    }

    fn samples_rep(&self) -> (v: Vec<usize>) {
        proof {
            self.lemma_schedule_wf();
            lemma_groups_below_bits(self.num_groups as nat, self.spec_mass());
        }
        let mut v: Vec<usize> = Vec::new();
        let mut i: usize = 0;
        while i < self.num_groups
            invariant
                self.num_groups < usize::BITS,
                i <= self.num_groups,
                v@.len() == i,
                forall|j: int| 0 <= j < i ==> #[trigger] v@[j] == self.spec_samples_rep()[j],
            decreases self.num_groups - i,
        {
            proof {
                lemma_usize_pow2_no_overflow(i as nat);
                lemma_usize_shl_is_mul(1usize, i);
            }
            v.push(1usize << i);
            i += 1;
        }
        proof {
            assert(v@ =~= self.spec_samples_rep());
        }
        v
    }

    /// Draws the scheduled subsamples from the flat multiset the held
    /// distribution describes and returns the unnormalized distribution of
    /// each draw.
    ///
    /// Every repetition is drawn afresh from the full multiset, without
    /// replacement within the draw, advancing the held random generator; the
    /// schedule itself is left unchanged.
    fn subsamples(&mut self) -> (obs: Vec<(usize, Vec<usize>)>)
        ensures
            final(self).spec_unnorm_distr() == old(self).spec_unnorm_distr(),
            final(self).spec_degree() == old(self).spec_degree(),
            final(self).spec_num_groups() == old(self).spec_num_groups(),
            forall|k: int|
                0 <= k < obs@.len() ==> is_subsample_of(
                    #[trigger] obs@[k],
                    expand_hist(old(self).spec_unnorm_distr()),
                ),
    {
        proof {
            self.lemma_schedule_wf();
        }
        let sizes = self.size_subsamples();
        let reps = self.samples_rep();
        let ghost h = self.unnorm_distr@;
        let ghost expanded = expand_schedule(sizes@, reps@);
        proof {
            lemma_expand_schedule_len(sizes@, reps@);
        }
        // Expand the distribution into the flat multiset of category labels.
        let mut sample_long: Vec<usize> = Vec::new();
        let n_cats = self.unnorm_distr.len();
        let mut j: usize = 0;
        while j < n_cats
            invariant
                *self == *old(self),
                n_cats == self.unnorm_distr@.len(),
                h == self.unnorm_distr@,
                j <= n_cats,
                sample_long@ == expand_hist_prefix(h, j as int),
            decreases n_cats - j,
        {
            let count = self.unnorm_distr[j];
            let mut c: usize = 0;
            while c < count
                invariant
                    *self == *old(self),
                    h == self.unnorm_distr@,
                    j < h.len(),
                    count == h[j as int],
                    c <= count,
                    sample_long@ == expand_hist_prefix(h, j as int) + Seq::new(
                        c as nat,
                        |k: int| j,
                    ),
                decreases count - c,
            {
                sample_long.push(j);
                proof {
                    assert(sample_long@ =~= expand_hist_prefix(h, j as int) + Seq::new(
                        (c + 1) as nat,
                        |k: int| j,
                    ));
                }
                c += 1;
            }
            proof {
                assert(sample_long@ =~= expand_hist_prefix(h, j as int + 1));
            }
            j += 1;
        }
        proof {
            lemma_expand_hist_prefix_len(h, h.len() as int);
            assert(h.take(h.len() as int) =~= h);
            assert(sample_long@.len() == self.spec_mass());
        }
        proof {
            assert forall|k: int| 0 <= k < sizes@.len() implies #[trigger] sizes@[k] as int
                <= seq_sum(h) by {
                lemma_pow2_pos((k + 1) as nat);
                lemma_div_pos_is_pos(self.spec_mass(), pow2((k + 1) as nat) as int);
                lemma_div_nonincreasing(self.spec_mass(), pow2((k + 1) as nat) as int);
            }
        }
        // Draw each scheduled subsample and count its duplicates.
        let mut obs: Vec<(usize, Vec<usize>)> = Vec::new();
        let num_groups = sizes.len();
        let mut i: usize = 0;
        proof {
            assert(reps@.take(0) =~= Seq::<usize>::empty());
        }
        while i < num_groups
            invariant
                self.unnorm_distr@ == old(self).unnorm_distr@,
                self.degree == old(self).degree,
                self.num_groups == old(self).num_groups,
                h == self.unnorm_distr@,
                num_groups == self.num_groups,
                sizes@ == old(self).spec_size_subsamples(),
                reps@ == old(self).spec_samples_rep(),
                sizes@.len() == num_groups,
                reps@.len() == num_groups,
                expanded == expand_schedule(sizes@, reps@),
                expanded.len() == seq_sum(reps@),
                sample_long@.len() == seq_sum(h),
                sample_long@ == expand_hist(h),
                seq_sum(h) <= usize::MAX,
                forall|k: int| 0 <= k < num_groups ==> 1 <= #[trigger] sizes@[k],
                forall|k: int|
                    0 <= k < num_groups ==> #[trigger] sizes@[k] as int <= seq_sum(h),
                i <= num_groups,
                obs@.len() == seq_sum(reps@.take(i as int)),
                0 <= obs@.len() <= expanded.len(),
                forall|k: int| 0 <= k < obs@.len() ==> (#[trigger] obs@[k]).0 == expanded[k],
                forall|k: int| 0 <= k < obs@.len() ==> seq_sum((#[trigger] obs@[k]).1@) == obs@[k].0,
                forall|k: int, j2: int|
                    0 <= k < obs@.len() && 0 <= j2 < obs@[k].1@.len() ==> 1 <= #[trigger] obs@[k].1@[j2],
                forall|k: int|
                    0 <= k < obs@.len() ==> is_subsample_of(#[trigger] obs@[k], expand_hist(h)),
            decreases num_groups - i,
        {
            let size = sizes[i];
            let rep = reps[i];
            let mut t: usize = 0;
            while t < rep
                invariant
                    self.unnorm_distr@ == old(self).unnorm_distr@,
                    self.degree == old(self).degree,
                    self.num_groups == old(self).num_groups,
                    h == self.unnorm_distr@,
                    num_groups == self.num_groups,
                    sizes@ == old(self).spec_size_subsamples(),
                    reps@ == old(self).spec_samples_rep(),
                    sizes@.len() == num_groups,
                    reps@.len() == num_groups,
                    expanded == expand_schedule(sizes@, reps@),
                    expanded.len() == seq_sum(reps@),
                    sample_long@.len() == seq_sum(h),
                    sample_long@ == expand_hist(h),
                    seq_sum(h) <= usize::MAX,
                    forall|k: int| 0 <= k < num_groups ==> 1 <= #[trigger] sizes@[k],
                    forall|k: int|
                        0 <= k < num_groups ==> #[trigger] sizes@[k] as int <= seq_sum(h),
                    0 <= i < num_groups,
                    size == sizes@[i as int],
                    rep == reps@[i as int],
                    t <= rep,
                    obs@.len() == seq_sum(reps@.take(i as int)) + t,
                    0 <= obs@.len() <= expanded.len(),
                    forall|k: int| 0 <= k < obs@.len() ==> (#[trigger] obs@[k]).0 == expanded[k],
                    forall|k: int|
                        0 <= k < obs@.len() ==> seq_sum((#[trigger] obs@[k]).1@) == obs@[k].0,
                    forall|k: int, j2: int|
                        0 <= k < obs@.len() && 0 <= j2 < obs@[k].1@.len() ==> 1 <= #[trigger] obs@[k].1@[j2],
                    forall|k: int|
                        0 <= k < obs@.len() ==> is_subsample_of(#[trigger] obs@[k], expand_hist(h)),
                decreases rep - t,
            {
                proof {
                    lemma_seq_sum_nonneg(reps@.take(i as int));
                    lemma_expand_schedule_index(sizes@, reps@, i as int, t as int);
                    lemma_seq_sum_take_succ(reps@, i as int);
                    lemma_seq_sum_take_le(reps@, i as int + 1);
                }
                let draw = self.rng.draw_without_replacement(&sample_long, size);
                let hist = count_dup(draw.as_slice());
                proof {
                    assert(expand_hist(h) == sample_long@);
                    assert(is_subsample_of((size, hist), expand_hist(h))) by {
                        let witness = draw@;
                        assert(witness.len() == size && witness.to_multiset().subset_of(
                            expand_hist(h).to_multiset(),
                        ) && is_dup_counts(hist@, witness));
                    }
                }
                obs.push((size, hist));
                t += 1;
            }
            proof {
                lemma_seq_sum_take_succ(reps@, i as int);
            }
            i += 1;
        }
        proof {
            assert(reps@.take(num_groups as int) =~= reps@);
        }
        obs
    }
}

} // verus!
