use approx_entropy::{Bootstrap, DirectEstimator, Estimator, FixedPartition, NaiveEstimator, SamplingMethod};

#[test]
fn estimator_new_and_getters() {
    let bootstrap = Bootstrap::new(&[1, 2, 3, 4, 5, 6], 3, 2, rand::thread_rng()).unwrap();
    let mut estimator = Estimator::new(bootstrap);
    assert_eq!(3, estimator.sampling_method().num_groups());
    assert_eq!(2, estimator.sampling_method().degree());
    estimator.sampling_method_mut().set_degree(1).unwrap();
    assert_eq!(1, estimator.sampling_method().degree());
}

#[test]
fn estimator_set_sampling_method() {
    let bootstrap = Bootstrap::new(&[1, 2, 3, 4, 5, 6], 3, 2, rand::thread_rng()).unwrap();
    let estimator = Estimator::new(bootstrap);
    let fixed = FixedPartition::new(&[0, 0, 0, 1, 1, 2], &[3, 2, 1], &[1, 1, 1], 2).unwrap();
    let mut estimator = estimator.set_sampling_method(fixed);
    assert_eq!(vec![3, 2, 1], estimator.sampling_method().size_subsamples());
    let obs = estimator.sampling_method_mut().subsamples();
    assert_eq!(3, obs.len());
}

#[test]
fn direct_estimator_new_and_getters() {
    let bootstrap = Bootstrap::new(&[1, 2, 3, 4, 5, 6], 3, 2, rand::thread_rng()).unwrap();
    let mut estimator = DirectEstimator::new(bootstrap);
    assert_eq!(3, estimator.sampling_method().num_groups());
    assert_eq!(7, estimator.sampling_method().total_samples());
    estimator.sampling_method_mut().set_degree(1).unwrap();
    assert_eq!(1, estimator.sampling_method().degree());
}

#[test]
fn direct_estimator_set_sampling_method() {
    let bootstrap = Bootstrap::new(&[1, 2, 3, 4, 5, 6], 3, 2, rand::thread_rng()).unwrap();
    let estimator = DirectEstimator::new(bootstrap);
    let fixed = FixedPartition::new(&[0, 0, 0, 1, 1, 2], &[3, 2, 1], &[1, 1, 1], 2).unwrap();
    let estimator = estimator.set_sampling_method(fixed);
    assert_eq!(3, estimator.sampling_method().total_samples());
}

#[test]
fn naive_estimator_rejects_null_distribution() {
    assert!(NaiveEstimator::new(&[0, 0, 0]).is_err());
    assert!(NaiveEstimator::new(&[]).is_err());
}

#[test]
fn naive_estimator_accepts_positive_mass() {
    assert!(NaiveEstimator::new(&[11]).is_ok());
    assert!(NaiveEstimator::new(&[0, 1, 0]).is_ok());
}

#[test]
fn estimator_from_sampling_method() {
    let bootstrap = Bootstrap::new(&[1, 2, 3, 4, 5, 6], 3, 2, rand::thread_rng()).unwrap();
    let estimator = Estimator::from(bootstrap);
    assert_eq!(3, estimator.sampling_method().num_groups());
}

#[test]
fn direct_estimator_from_sampling_method() {
    let bootstrap = Bootstrap::new(&[1, 2, 3, 4, 5, 6], 3, 2, rand::thread_rng()).unwrap();
    let estimator = DirectEstimator::from(bootstrap);
    assert_eq!(2, estimator.sampling_method().degree());
}

#[test]
fn estimators_agree_on_fixed_partition() {
    // Both extrapolation methods fit the same degree-2 polynomial through the
    // same three observations, so the two entropy estimates must coincide up
    // to numerical error.
    let samples = [0, 1, 0, 1, 0, 1, 0];
    let size_subsamples = [4, 2, 1];
    let samples_rep = [1, 1, 1];
    let degree = 2;

    let fixed = FixedPartition::new(&samples, &size_subsamples, &samples_rep, degree).unwrap();
    let mut weighted = Estimator::new(fixed);
    let observations: Vec<(usize, f64)> = weighted
        .sampling_method_mut()
        .subsamples()
        .into_iter()
        .map(|(size, unnorm_distr)| (size, entropy_of(&unnorm_distr)))
        .collect();

    // Size-weighted least squares, as the weighted estimator fits it.
    let rows = observations.len();
    let cols = degree + 1;
    let y = nalgebra::DVector::from_vec(
        observations.iter().map(|&(size, value)| value * size as f64).collect(),
    );
    let x = nalgebra::DMatrix::<f64>::from_fn(rows, cols, |r, c| {
        (observations[r].0 as f64).powi(1 - c as i32)
    });
    let x_t = x.transpose();
    let b = x_t.clone() * y;
    let a = x_t * x;
    let weighted_estimate = a.lu().solve(&b).unwrap()[0];

    // Plain polynomial fit in the inverse subsample size, as the direct
    // estimator fits it.
    let fixed = FixedPartition::new(&samples, &size_subsamples, &samples_rep, degree).unwrap();
    let mut direct = DirectEstimator::new(fixed);
    let (inverse_sizes, values): (Vec<f64>, Vec<f64>) = direct
        .sampling_method_mut()
        .subsamples()
        .into_iter()
        .map(|(size, unnorm_distr)| (1.0 / size as f64, entropy_of(&unnorm_distr)))
        .unzip();
    let direct_estimate =
        polyfit_rs::polyfit_rs::polyfit(&inverse_sizes, &values, degree).unwrap()[0];

    assert!(
        (weighted_estimate - direct_estimate).abs() <= 1e-6,
        "{weighted_estimate} vs {direct_estimate}"
    );
}

/// Plug-in entropy of an unnormalized distribution, in natural log units.
fn entropy_of(unnorm_distr: &[usize]) -> f64 {
    let total = unnorm_distr.iter().sum::<usize>() as f64;
    let mut entropy = 0.0;
    for &count in unnorm_distr {
        if count > 0 {
            let count = count as f64;
            entropy -= count * (count.ln() - total.ln());
        }
    }
    entropy / total
}
