use routee_compass_core::scheduler::{apply_load_balancing_policy, min_bin, SchedulerError};

fn test_run_policy(weights: Vec<Option<u64>>, parallelism: usize) -> Vec<Vec<i64>> {
    apply_load_balancing_policy(&weights, parallelism, 1)
        .unwrap()
        .iter()
        .map(|qs| qs.iter().map(|i| *i as i64).collect())
        .collect()
}

#[test]
fn test_uniform_input() {
    // striped
    let queries: Vec<Option<u64>> = (0..12).map(|_| Some(1)).collect();
    let parallelism = 4;
    let result = test_run_policy(queries, parallelism);
    let expected: Vec<Vec<i64>> =
        vec![vec![0, 4, 8], vec![1, 5, 9], vec![2, 6, 10], vec![3, 7, 11]];
    assert_eq!(result, expected);
}

#[test]
fn test_incremental_input() {
    // this produces the same layout as the uniform input
    let queries: Vec<Option<u64>> = (0..12).map(|i| Some(i + 1)).collect();
    let parallelism = 4;
    let result = test_run_policy(queries, parallelism);
    let expected: Vec<Vec<i64>> =
        vec![vec![0, 4, 8], vec![1, 5, 9], vec![2, 6, 10], vec![3, 7, 11]];
    assert_eq!(result, expected);
}

#[test]
fn test_cycling_input() {
    let queries: Vec<Option<u64>> = [1, 4, 1, 2, 1, 4, 1, 2, 1, 4, 1, 2]
        .iter()
        .map(|estimate| Some(*estimate))
        .collect();
    let parallelism = 4;
    let result = test_run_policy(queries, parallelism);
    let expected = vec![vec![0, 4, 6, 8, 9], vec![1, 10], vec![2, 5], vec![3, 7, 11]];
    assert_eq!(result, expected);
}

#[test]
fn test_big_outlier() {
    let queries: Vec<Option<u64>> = [4, 1, 1, 1, 1, 1, 1, 1, 1, 1, 1, 1]
        .iter()
        .map(|est| Some(*est))
        .collect();
    let parallelism = 4;
    let result = test_run_policy(queries, parallelism);
    let expected = vec![vec![0], vec![1, 4, 7, 10], vec![2, 5, 8, 11], vec![3, 6, 9]];
    assert_eq!(result, expected);
}

#[test]
fn queries_without_estimate_weigh_the_default() {
    // with a default of 5 the one estimated query is the light one
    let weights = vec![None, Some(1), None, None];
    let batches = apply_load_balancing_policy(&weights, 2, 5).unwrap();
    assert_eq!(batches, vec![vec![0, 3], vec![1, 2]]);
}

#[test]
fn no_queries_give_no_batches() {
    let batches = apply_load_balancing_policy(&vec![], 4, 1).unwrap();
    assert!(batches.is_empty());
    let batches = apply_load_balancing_policy(&vec![], 0, 1).unwrap();
    assert!(batches.is_empty());
}

#[test]
fn queries_without_bins_are_refused() {
    let r = apply_load_balancing_policy(&vec![Some(1)], 0, 1);
    assert_eq!(r, Err(SchedulerError::NoBins));
    assert_eq!(min_bin(&vec![]), Err(SchedulerError::NoBins));
}

#[test]
fn min_bin_is_first_of_the_least() {
    assert_eq!(min_bin(&vec![3, 1, 2, 1]), Ok(1));
    assert_eq!(min_bin(&vec![0, 0]), Ok(0));
    assert_eq!(min_bin(&vec![7]), Ok(0));
}

#[test]
fn batches_conserve_the_queries_and_stay_within_twice_the_best() {
    let weights: Vec<u64> = vec![7, 3, 9, 1, 4, 4, 8, 2, 6, 5, 10, 1, 1];
    let estimates: Vec<Option<u64>> = weights.iter().map(|w| Some(*w)).collect();
    let bins = 3;
    let batches = apply_load_balancing_policy(&estimates, bins, 1).unwrap();
    assert_eq!(batches.len(), bins);
    let mut all: Vec<usize> = batches.iter().flatten().copied().collect();
    all.sort();
    assert_eq!(all, (0..weights.len()).collect::<Vec<usize>>());
    let total: u64 = weights.iter().sum();
    let heaviest: u64 = *weights.iter().max().unwrap();
    // no assignment can do better than the mean load or the heaviest query
    let lower_bound = std::cmp::max((total + bins as u64 - 1) / bins as u64, heaviest);
    for batch in &batches {
        let load: u64 = batch.iter().map(|i| weights[*i]).sum();
        assert!(load <= 2 * lower_bound);
    }
}

#[test]
fn large_weights_do_not_overflow() {
    let estimates = vec![Some(u64::MAX), Some(u64::MAX), Some(u64::MAX)];
    let batches = apply_load_balancing_policy(&estimates, 2, 1).unwrap();
    assert_eq!(batches, vec![vec![0, 2], vec![1]]);
}
