//! Duplicate counting and the small arithmetic theory the contracts build on.

use core::hash::Hash;
use vstd::prelude::*;
use vstd::std_specs::cmp::PartialEqSpec;

verus! {

/// Sum of a sequence of machine integers, as a mathematical integer.
pub open spec fn seq_sum(s: Seq<usize>) -> int
    decreases s.len(),
{
    if s.len() == 0 {
        0
    } else {
        seq_sum(s.drop_last()) + s.last()
    }
}

pub proof fn lemma_seq_sum_nonneg(s: Seq<usize>)
    ensures
        0 <= seq_sum(s),
    decreases s.len(),
{
    if s.len() > 0 {
        lemma_seq_sum_nonneg(s.drop_last());
    }
}

pub proof fn lemma_seq_sum_push(s: Seq<usize>, v: usize)
    ensures
        seq_sum(s.push(v)) == seq_sum(s) + v,
{
    assert(s.push(v).drop_last() =~= s);
}

pub proof fn lemma_seq_sum_take_succ(s: Seq<usize>, i: int)
    requires
        0 <= i < s.len(),
    ensures
        seq_sum(s.take(i + 1)) == seq_sum(s.take(i)) + s[i],
{
    assert(s.take(i + 1).drop_last() =~= s.take(i));
}

pub proof fn lemma_seq_sum_take_le(s: Seq<usize>, i: int)
    requires
        0 <= i <= s.len(),
    ensures
        seq_sum(s.take(i)) <= seq_sum(s),
    decreases s.len() - i,
{
    if i == s.len() {
        assert(s.take(i) =~= s);
    } else {
        lemma_seq_sum_take_succ(s, i);
        lemma_seq_sum_take_le(s, i + 1);
    }
}

pub proof fn lemma_seq_sum_elem_le(s: Seq<usize>, j: int)
    requires
        0 <= j < s.len(),
    ensures
        s[j] <= seq_sum(s),
    decreases s.len(),
{
    if j == s.len() - 1 {
        lemma_seq_sum_nonneg(s.drop_last());
    } else {
        lemma_seq_sum_elem_le(s.drop_last(), j);
    }
}

pub proof fn lemma_seq_sum_update(s: Seq<usize>, j: int, v: usize)
    requires
        0 <= j < s.len(),
    ensures
        seq_sum(s.update(j, v)) == seq_sum(s) - s[j] + v,
    decreases s.len(),
{
    if j == s.len() - 1 {
        assert(s.update(j, v).drop_last() =~= s.drop_last());
    } else {
        assert(s.update(j, v).drop_last() =~= s.drop_last().update(j, v));
        lemma_seq_sum_update(s.drop_last(), j, v);
    }
}

pub proof fn lemma_seq_sum_add(a: Seq<usize>, b: Seq<usize>)
    ensures
        seq_sum(a + b) == seq_sum(a) + seq_sum(b),
    decreases b.len(),
{
    if b.len() == 0 {
        assert(a + b =~= a);
    } else {
        assert((a + b).drop_last() =~= a + b.drop_last());
        lemma_seq_sum_add(a, b.drop_last());
    }
}

pub proof fn lemma_seq_sum_repeat(v: usize, n: nat)
    ensures
        seq_sum(Seq::new(n, |k: int| v)) == n * v,
    decreases n,
{
    if n == 0 {
    } else {
        assert(Seq::new(n, |k: int| v).drop_last() =~= Seq::new((n - 1) as nat, |k: int| v));
        lemma_seq_sum_repeat(v, (n - 1) as nat);
        assert((n - 1) * v + v == n * v) by (nonlinear_arith);
    }
}

pub proof fn lemma_seq_sum_lower(s: Seq<usize>)
    requires
        forall|i: int| 0 <= i < s.len() ==> 1 <= #[trigger] s[i],
    ensures
        s.len() <= seq_sum(s),
    decreases s.len(),
{
    if s.len() > 0 {
        lemma_seq_sum_lower(s.drop_last());
    }
}

/// Sum of the entries of a slice; the caller guarantees that the total fits
/// in a machine word.
pub(crate) fn sum_slice(s: &[usize]) -> (t: usize)
    requires
        seq_sum(s@) <= usize::MAX,
    ensures
        t as int == seq_sum(s@),
{
    let n = s.len();
    let mut t: usize = 0;
    let mut i: usize = 0;
    while i < n
        invariant
            n == s@.len(),
            i <= n,
            t as int == seq_sum(s@.take(i as int)),
            seq_sum(s@) <= usize::MAX,
        decreases n - i,
    {
        proof {
            lemma_seq_sum_take_succ(s@, i as int);
            lemma_seq_sum_take_le(s@, i as int + 1);
        }
        t = t + s[i];
        i += 1;
    }
    proof {
        assert(s@.take(n as int) =~= s@);
    }
    t
}

/// The distinct elements of `s`, in order of first occurrence.
pub open spec fn firsts<T>(s: Seq<T>) -> Seq<T>
    decreases s.len(),
{
    if s.len() == 0 {
        Seq::empty()
    } else if s.drop_last().contains(s.last()) {
        firsts(s.drop_last())
    } else {
        firsts(s.drop_last()).push(s.last())
    }
}

/// How many elements of `s` equal `x`.
pub open spec fn occurrences<T>(s: Seq<T>, x: T) -> int
    decreases s.len(),
{
    if s.len() == 0 {
        0
    } else if s.last() == x {
        occurrences(s.drop_last(), x) + 1
    } else {
        occurrences(s.drop_last(), x)
    }
}

/// `c` lists, for each distinct element of `s` in order of first occurrence,
/// how often that element occurs in `s`.
pub open spec fn is_dup_counts<T>(c: Seq<usize>, s: Seq<T>) -> bool {
    &&& c.len() == firsts(s).len()
    &&& forall|j: int| 0 <= j < c.len() ==> #[trigger] c[j] == occurrences(s, firsts(s)[j])
}

/// A sequence has exactly one duplicate-count profile: any two profiles of
/// the same sequence are equal.  Operations whose contract reports
/// `is_dup_counts` of a fixed sequence are therefore deterministic, and
/// rerunning them yields the same counts again.
pub proof fn lemma_dup_counts_unique<T>(c1: Seq<usize>, c2: Seq<usize>, s: Seq<T>)
    requires
        is_dup_counts(c1, s),
        is_dup_counts(c2, s),
    ensures
        c1 == c2,
{
    assert(c1 =~= c2);
}

pub proof fn lemma_firsts_push<T>(s: Seq<T>, v: T)
    ensures
        firsts(s.push(v)) == if s.contains(v) {
            firsts(s)
        } else {
            firsts(s).push(v)
        },
{
    assert(s.push(v).drop_last() =~= s);
}

pub proof fn lemma_occurrences_push<T>(s: Seq<T>, x: T, v: T)
    ensures
        occurrences(s.push(v), x) == occurrences(s, x) + if v == x {
            1int
        } else {
            0int
        },
{
    assert(s.push(v).drop_last() =~= s);
}

pub proof fn lemma_occurrences_when_absent<T>(s: Seq<T>, x: T)
    requires
        !s.contains(x),
    ensures
        occurrences(s, x) == 0,
    decreases s.len(),
{
    if s.len() > 0 {
        assert(!s.drop_last().contains(x)) by {
            if s.drop_last().contains(x) {
                let k = choose|k: int| 0 <= k < s.drop_last().len() && s.drop_last()[k] == x;
                assert(s[k] == x);
            }
        }
        lemma_occurrences_when_absent(s.drop_last(), x);
    }
}

/// The part of `count_dup`'s loop invariant that only holds when executable
/// equality on `T` agrees with mathematical equality.
spec fn dup_loop_inv<T>(samples: Seq<T>, i: int, counts: Seq<usize>, fi: Seq<usize>) -> bool {
    let prefix = samples.take(i);
    let f = firsts(prefix);
    &&& f.len() == counts.len()
    &&& forall|j: int| #![trigger fi[j]] 0 <= j < fi.len() ==> f[j] == samples[fi[j] as int]
    &&& forall|j: int| 0 <= j < counts.len() ==> #[trigger] counts[j] == occurrences(prefix, f[j])
    &&& forall|j1: int, j2: int|
        #![trigger fi[j1], fi[j2]]
        0 <= j1 < j2 < fi.len() ==> samples[fi[j1] as int] != samples[fi[j2] as int]
    &&& forall|k: int|
        #![trigger samples[k]]
        0 <= k < i ==> exists|j: int| #![trigger fi[j]] 0 <= j < fi.len() && samples[k] == samples[fi[j] as int]
}

/// Index into `firsts_idx` of a previously recorded element that compares
/// equal to `samples[i]`, if there is one.
fn find_group<T: Eq>(samples: &[T], firsts_idx: &Vec<usize>, i: usize) -> (r: Option<usize>)
    requires
        i < samples@.len(),
        forall|j: int| 0 <= j < firsts_idx@.len() ==> #[trigger] firsts_idx@[j] < samples@.len(),
    ensures
        match r {
            Some(j) => {
                &&& j < firsts_idx@.len()
                &&& (T::obeys_eq_spec() ==> samples@[firsts_idx@[j as int] as int].eq_spec(
                    &samples@[i as int],
                ))
            },
            None => T::obeys_eq_spec() ==> forall|j: int|
                0 <= j < firsts_idx@.len() ==> !(#[trigger] samples@[firsts_idx@[j] as int].eq_spec(
                    &samples@[i as int],
                )),
        },
{
    let n = firsts_idx.len();
    let mut j: usize = 0;
    while j < n
        invariant
            n == firsts_idx@.len(),
            j <= n,
            i < samples@.len(),
            forall|jj: int| 0 <= jj < firsts_idx@.len() ==> #[trigger] firsts_idx@[jj] < samples@.len(),
            T::obeys_eq_spec() ==> forall|jj: int|
                0 <= jj < j ==> !(#[trigger] samples@[firsts_idx@[jj] as int].eq_spec(
                    &samples@[i as int],
                )),
        decreases n - j,
    {
        if samples[firsts_idx[j]] == samples[i] {
            return Some(j);
        }
        j += 1;
    }
    None
}

/// Returns how many times each distinct element occurs in `samples`, one
/// entry per distinct element, in order of first occurrence.
///
/// The correspondence between an element and its count is not part of the
/// result; only the counts are.  Whatever equality on `T` decides, the
/// returned counts are at least 1 each and add up to `samples.len()`; when
/// executable equality on `T` agrees with mathematical equality the result is
/// pinned down exactly.
pub fn count_dup<T>(samples: &[T]) -> (r: Vec<usize>) where T: Hash + Eq + Clone
    ensures
        seq_sum(r@) == samples@.len(),
        forall|j: int| 0 <= j < r@.len() ==> 1 <= #[trigger] r@[j],
        r@.len() <= samples@.len(),
        vstd::laws_eq::obeys_concrete_eq::<T>() ==> is_dup_counts(r@, samples@),
{
    let n = samples.len();
    let mut counts: Vec<usize> = Vec::new();
    let mut firsts_idx: Vec<usize> = Vec::new();
    let mut i: usize = 0;
    while i < n
        invariant
            n == samples@.len(),
            i <= n,
            counts@.len() == firsts_idx@.len(),
            counts@.len() <= i,
            seq_sum(counts@) == i,
            forall|j: int| 0 <= j < counts@.len() ==> 1 <= #[trigger] counts@[j],
            forall|j: int| 0 <= j < firsts_idx@.len() ==> #[trigger] firsts_idx@[j] < i,
            vstd::laws_eq::obeys_concrete_eq::<T>() ==> dup_loop_inv(
                samples@,
                i as int,
                counts@,
                firsts_idx@,
            ),
        decreases n - i,
    {
        let ghost prefix = samples@.take(i as int);
        let ghost x = samples@[i as int];
        let ghost counts0 = counts@;
        let ghost fi0 = firsts_idx@;
        proof {
            assert(samples@.take(i as int + 1) =~= prefix.push(x));
        }
        match find_group(samples, &firsts_idx, i) {
            Some(j) => {
                proof {
                    lemma_seq_sum_elem_le(counts0, j as int);
                }
                let c = counts[j];
                counts.set(j, c + 1);
                proof {
                    lemma_seq_sum_update(counts0, j as int, (c + 1) as usize);
                    if vstd::laws_eq::obeys_concrete_eq::<T>() {
                        reveal(vstd::laws_eq::obeys_concrete_eq);
                        let f = firsts(prefix);
                        assert(samples@[fi0[j as int] as int] == x);
                        assert(prefix[fi0[j as int] as int] == x);
                        assert(prefix.contains(x));
                        lemma_firsts_push(prefix, x);
                        assert forall|jj: int| 0 <= jj < counts@.len() implies #[trigger] counts@[jj]
                            == occurrences(prefix.push(x), f[jj]) by {
                            lemma_occurrences_push(prefix, f[jj], x);
                            if jj != j {
                                assert(f[jj] == samples@[fi0[jj] as int]);
                                assert(f[jj] != x);
                            }
                        }
                        assert forall|k: int|
                            #![trigger samples@[k]]
                            0 <= k < i + 1 implies exists|jj: int|
                            #![trigger fi0[jj]]
                            0 <= jj < fi0.len() && samples@[k] == samples@[fi0[jj] as int] by {
                            if k == i {
                                assert(samples@[k] == samples@[fi0[j as int] as int]);
                            }
                        }
                        assert(dup_loop_inv(samples@, i as int + 1, counts@, firsts_idx@));
                    }
                }
                i += 1;
            },
            None => {
                firsts_idx.push(i);
                counts.push(1);
                proof {
                    lemma_seq_sum_push(counts0, 1);
                    if vstd::laws_eq::obeys_concrete_eq::<T>() {
                        reveal(vstd::laws_eq::obeys_concrete_eq);
                        let f = firsts(prefix);
                        assert forall|jj: int|
                            #![trigger fi0[jj]]
                            0 <= jj < fi0.len() implies samples@[fi0[jj] as int] != x by {
                            assert(!samples@[fi0[jj] as int].eq_spec(&samples@[i as int]));
                        }
                        assert(!prefix.contains(x)) by {
                            if prefix.contains(x) {
                                let k = choose|k: int|
                                    0 <= k < prefix.len() && prefix[k] == x;
                                assert(samples@[k] == x);
                                let jj = choose|jj: int|
                                    0 <= jj < fi0.len() && samples@[k] == samples@[fi0[jj] as int];
                                assert(samples@[fi0[jj] as int] == x);
                            }
                        }
                        lemma_firsts_push(prefix, x);
                        lemma_occurrences_when_absent(prefix, x);
                        assert(firsts(prefix.push(x)) == f.push(x));
                        assert forall|jj: int| 0 <= jj < counts@.len() implies #[trigger] counts@[jj]
                            == occurrences(prefix.push(x), f.push(x)[jj]) by {
                            lemma_occurrences_push(prefix, f.push(x)[jj], x);
                            if jj < counts@.len() - 1 {
                                assert(f.push(x)[jj] == f[jj]);
                                assert(f[jj] == samples@[fi0[jj] as int]);
                                assert(f[jj] != x);
                                assert(counts@[jj] == counts0[jj]);
                            } else {
                                assert(f.push(x)[jj] == x);
                                assert(counts@[jj] == 1);
                            }
                        }
                        assert forall|k: int|
                            #![trigger samples@[k]]
                            0 <= k < i + 1 implies exists|jj: int|
                            #![trigger firsts_idx@[jj]]
                            0 <= jj < firsts_idx@.len() && samples@[k] == samples@[
                                firsts_idx@[jj] as int
                            ] by {
                            if k == i {
                                assert(samples@[k] == samples@[firsts_idx@[fi0.len() as int] as int]);
                            } else {
                                let jj = choose|jj: int|
                                    0 <= jj < fi0.len() && samples@[k] == samples@[fi0[jj] as int];
                                assert(firsts_idx@[jj] == fi0[jj]);
                                assert(samples@[k] == samples@[firsts_idx@[jj] as int]);
                            }
                        }
                        assert(dup_loop_inv(samples@, i as int + 1, counts@, firsts_idx@));
                    }
                }
                i += 1;
            },
        }
    }
    proof {
        assert(samples@.take(n as int) =~= samples@);
    }
    counts
}

} // verus!
