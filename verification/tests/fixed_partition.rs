use approx_entropy::sampling_method::fixed_partition::ConstructionError;
use approx_entropy::{FixedPartition, SamplingMethod};

#[test]
fn fixed_partition_new() {
    let samples = [0, 0, 0, 1, 1, 2];
    let size_subsamples = [3, 2, 1];
    let samples_rep = [1, 1, 1];
    let degree = 2;
    FixedPartition::new(&samples, &size_subsamples, &samples_rep, degree).unwrap();
}

#[test]
fn fixed_partition_size_subsamples() {
    let samples = [0, 0, 0, 1, 1, 2];
    let size_subsamples = [3, 2, 1];
    let samples_rep = [1, 1, 1];
    let degree = 2;
    let fixed = FixedPartition::new(&samples, &size_subsamples, &samples_rep, degree).unwrap();

    assert_eq!(size_subsamples.to_vec(), fixed.size_subsamples());
}

#[test]
fn fixed_partition_samples_rep() {
    let samples = [0, 0, 0, 1, 1, 2];
    let size_subsamples = [3, 2, 1];
    let samples_rep = [1, 1, 1];
    let degree = 2;
    let fixed = FixedPartition::new(&samples, &size_subsamples, &samples_rep, degree).unwrap();

    assert_eq!(samples_rep.to_vec(), fixed.samples_rep());
}

#[test]
fn fixed_partition_total_samples() {
    let samples = [0, 0, 0, 1, 1, 2];
    let size_subsamples = [3, 2, 1];
    let samples_rep = [1, 1, 1];
    let degree = 2;
    let fixed = FixedPartition::new(&samples, &size_subsamples, &samples_rep, degree).unwrap();

    assert_eq!(samples_rep.len(), fixed.total_samples());
}

#[test]
fn fixed_partition_consumes_groups_in_order() {
    let samples = [0, 0, 0, 1, 1, 2];
    let size_subsamples = [3, 2, 1];
    let samples_rep = [1, 1, 1];
    let mut fixed = FixedPartition::new(&samples, &size_subsamples, &samples_rep, 2).unwrap();

    assert_eq!(3, fixed.total_samples());
    let obs = fixed.subsamples();
    assert_eq!(3, obs.len());
    // The sample sequence is consumed from the back: [2, 1, 1], [0, 0], [0].
    assert_eq!(obs[0], (3, vec![1, 2]));
    assert_eq!(obs[1], (2, vec![2]));
    assert_eq!(obs[2], (1, vec![1]));
}

#[test]
fn fixed_partition_balanced_chunks() {
    // Every carved chunk of this balanced sequence is itself balanced, so
    // every naive entropy observation equals ln(2).
    let samples = [0, 1, 0, 1, 0, 0, 1, 1];
    let size_subsamples = [4, 2];
    let samples_rep = [1, 2];
    let mut fixed = FixedPartition::new(&samples, &size_subsamples, &samples_rep, 1).unwrap();

    let obs = fixed.subsamples();
    assert_eq!(obs, vec![(4, vec![2, 2]), (2, vec![1, 1]), (2, vec![1, 1])]);
    for (size, unnorm_distr) in &obs {
        let entropy = plugin_entropy(unnorm_distr);
        assert!((entropy - 2.0_f64.ln()).abs() <= 1e-6, "size {size}: {entropy}");
    }
}

#[test]
fn fixed_partition_subsamples_rerun_identical() {
    let samples = [0, 0, 0, 1, 1, 2];
    let size_subsamples = [3, 2, 1];
    let samples_rep = [1, 1, 1];
    let mut fixed = FixedPartition::new(&samples, &size_subsamples, &samples_rep, 2).unwrap();

    let first = fixed.subsamples();
    let second = fixed.subsamples();
    assert_eq!(first, second);
    assert_eq!(3, fixed.total_samples());
}

#[test]
fn fixed_partition_rejects_low_num_groups() {
    let r = FixedPartition::new(&[0, 0, 0, 1, 1, 2], &[3, 2, 1], &[1, 1, 1], 3);
    assert!(matches!(r, Err(ConstructionError::LowNumGroups)));
}

#[test]
fn fixed_partition_rejects_too_many_repetitions() {
    let r = FixedPartition::new(&[0, 0, 0, 1, 1, 2], &[3, 2, 1], &[1, 1, 1, 1], 2);
    assert!(matches!(r, Err(ConstructionError::TooManyRepetitions)));
}

#[test]
fn fixed_partition_rejects_too_many_subsample_sizes() {
    let r = FixedPartition::new(&[0, 0, 0, 1, 1, 2], &[3, 2, 1], &[1, 1], 2);
    assert!(matches!(r, Err(ConstructionError::TooManySubsampleSizes)));
}

#[test]
fn fixed_partition_rejects_null_repetition() {
    let r = FixedPartition::new(&[0, 0, 0, 1, 1, 2], &[3, 2, 1], &[1, 0, 1], 2);
    assert!(matches!(r, Err(ConstructionError::NullRepetition)));
}

#[test]
fn fixed_partition_rejects_null_subsample_size() {
    let r = FixedPartition::new(&[0, 0, 0, 1, 1, 2], &[3, 0, 1], &[1, 1, 1], 2);
    assert!(matches!(r, Err(ConstructionError::NullSubsampleSize)));
}

#[test]
fn fixed_partition_rejects_too_few_samples() {
    // The schedule needs 3 + 2 + 1 = 6 samples but only 5 are supplied.
    let r = FixedPartition::new(&[0, 0, 0, 1, 1], &[3, 2, 1], &[1, 1, 1], 2);
    assert!(matches!(r, Err(ConstructionError::TooFewSamples)));
}

#[test]
fn fixed_partition_allows_extra_samples() {
    let samples = [1; 100];
    let size_subsamples = [3, 2, 1];
    let samples_rep = [1, 2, 3];
    let degree = 2;
    FixedPartition::new(&samples, &size_subsamples, &samples_rep, degree).unwrap();
}

#[test]
fn fixed_partition_schedule_is_immutable() {
    let mut fixed = FixedPartition::new(&[0, 0, 0, 1, 1, 2], &[3, 2, 1], &[1, 1, 1], 2).unwrap();
    assert!(fixed.set_num_groups(4).is_err());
    assert!(fixed.set_unnorm_distr(&[4, 4]).is_err());
    assert_eq!(vec![3, 2, 1], fixed.size_subsamples());
}

#[test]
fn fixed_partition_set_degree() {
    let mut fixed = FixedPartition::new(&[0, 0, 0, 1, 1, 2], &[3, 2, 1], &[1, 1, 1], 2).unwrap();
    assert!(fixed.set_degree(1).is_ok());
    assert_eq!(1, fixed.degree());
    assert!(fixed.set_degree(3).is_err());
    assert_eq!(1, fixed.degree());
}

/// Plug-in entropy of an unnormalized distribution, in natural log units.
fn plugin_entropy(unnorm_distr: &[usize]) -> f64 {
    let total = unnorm_distr.iter().sum::<usize>() as f64;
    let mut entropy = 0.0;
    for &count in unnorm_distr {
        if count > 0 {
            let count = count as f64;
            entropy -= count * (count.ln() - total.ln());
        }
    }
    entropy / total
}
