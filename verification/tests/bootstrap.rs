use approx_entropy::sampling_method::bootstrap::ConstructionError;
use approx_entropy::{Bootstrap, SamplingMethod};

#[test]
fn bootstrap_new() {
    let num_groups = 3;
    let degree = 2;
    let rng = rand::thread_rng();
    Bootstrap::new(&[1, 2, 3, 4, 5, 6], num_groups, degree, rng).unwrap();
}

#[test]
fn bootstrap_size_subsamples() {
    let num_groups = 3;
    let degree = 2;
    let rng = rand::thread_rng();
    let bootstrap = Bootstrap::new(&[1, 2, 3, 4, 5, 6], num_groups, degree, rng).unwrap();

    assert_eq!(vec![10, 5, 2], bootstrap.size_subsamples());
}

#[test]
fn bootstrap_samples_rep() {
    let num_groups = 3;
    let degree = 2;
    let rng = rand::thread_rng();
    let bootstrap = Bootstrap::new(&[1, 2, 3, 4, 5, 6], num_groups, degree, rng).unwrap();

    assert_eq!(vec![1, 2, 4], bootstrap.samples_rep());
}

#[test]
fn bootstrap_total_samples() {
    let num_groups = 3;
    let degree = 2;
    let rng = rand::thread_rng();
    let bootstrap = Bootstrap::new(&[1, 2, 3, 4, 5, 6], num_groups, degree, rng).unwrap();

    assert_eq!(7, bootstrap.total_samples());
}

#[test]
fn bootstrap_rejects_low_num_groups() {
    let r = Bootstrap::new(&[1, 2, 3, 4, 5, 6], 2, 2, rand::thread_rng());
    assert!(matches!(r, Err(ConstructionError::LowNumGroups(_))));
}

#[test]
fn bootstrap_rejects_too_few_samples() {
    // Total mass 3 is below 2^3 = 8.
    let r = Bootstrap::new(&[1, 1, 1], 3, 1, rand::thread_rng());
    assert!(matches!(r, Err(ConstructionError::TooFewSamples(_))));
}

#[test]
fn bootstrap_accepts_mass_exactly_at_threshold() {
    // Total mass 8 meets the 2^3 threshold exactly.
    let bootstrap = Bootstrap::new(&[4, 4], 3, 2, rand::thread_rng()).unwrap();
    assert_eq!(vec![4, 2, 1], bootstrap.size_subsamples());
}

#[test]
fn bootstrap_subsamples_follow_schedule() {
    let mut bootstrap = Bootstrap::new(&[1, 2, 3, 4, 5, 6], 3, 2, rand::thread_rng()).unwrap();
    let obs = bootstrap.subsamples();

    let expected_sizes = [10, 5, 5, 2, 2, 2, 2];
    assert_eq!(obs.len(), expected_sizes.len());
    for (k, (size, unnorm_distr)) in obs.iter().enumerate() {
        assert_eq!(*size, expected_sizes[k]);
        // Each drawn subsample has exactly `size` elements in its histogram.
        assert_eq!(unnorm_distr.iter().sum::<usize>(), *size);
        assert!(unnorm_distr.iter().all(|&c| c >= 1));
    }
}

#[test]
fn bootstrap_subsamples_keep_schedule_intact() {
    let mut bootstrap = Bootstrap::new(&[1, 2, 3, 4, 5, 6], 3, 2, rand::thread_rng()).unwrap();
    let _ = bootstrap.subsamples();
    assert_eq!(vec![10, 5, 2], bootstrap.size_subsamples());
    assert_eq!(vec![1, 2, 4], bootstrap.samples_rep());
    assert_eq!(2, bootstrap.degree());
    assert_eq!(3, bootstrap.num_groups());
}

#[test]
fn bootstrap_set_degree() {
    let mut bootstrap = Bootstrap::new(&[1, 2, 3, 4, 5, 6], 3, 2, rand::thread_rng()).unwrap();
    assert!(bootstrap.set_degree(1).is_ok());
    assert_eq!(1, bootstrap.degree());
    assert!(bootstrap.set_degree(3).is_err());
    assert_eq!(1, bootstrap.degree());
}

#[test]
fn bootstrap_set_num_groups() {
    let mut bootstrap = Bootstrap::new(&[1, 2, 3, 4, 5, 6], 3, 2, rand::thread_rng()).unwrap();
    // Mass 21 supports 4 groups (2^4 = 16) but not 5 (2^5 = 32).
    assert!(bootstrap.set_num_groups(4).is_ok());
    assert_eq!(vec![10, 5, 2, 1], bootstrap.size_subsamples());
    assert_eq!(vec![1, 2, 4, 8], bootstrap.samples_rep());
    assert!(matches!(
        bootstrap.set_num_groups(5),
        Err(ConstructionError::TooFewSamples(_))
    ));
    assert!(matches!(
        bootstrap.set_num_groups(2),
        Err(ConstructionError::LowNumGroups(_))
    ));
    assert_eq!(4, bootstrap.num_groups());
}

#[test]
fn bootstrap_set_unnorm_distr() {
    let mut bootstrap = Bootstrap::new(&[1, 2, 3, 4, 5, 6], 3, 2, rand::thread_rng()).unwrap();
    assert!(bootstrap.set_unnorm_distr(&[4, 4]).is_ok());
    assert_eq!(vec![4, 2, 1], bootstrap.size_subsamples());
    // Mass 7 is below the 2^3 threshold.
    assert!(bootstrap.set_unnorm_distr(&[3, 4]).is_err());
    assert_eq!(vec![4, 2, 1], bootstrap.size_subsamples());
}

#[test]
fn bootstrap_subsamples_single_category() {
    // With all mass on one category, every draw holds just that category,
    // whatever the generator does: each histogram is exactly [size].
    let mut bootstrap = Bootstrap::new(&[0, 21, 0], 3, 2, rand::thread_rng()).unwrap();
    let obs = bootstrap.subsamples();
    assert_eq!(7, obs.len());
    for (size, unnorm_distr) in obs {
        assert_eq!(unnorm_distr, vec![size]);
    }
}
