use routee_compass_core::map_matching::lcss::compress::{compress, compress_sorted};

#[test]
fn compress_test_test_compress_no_consecutive() {
    let points = vec![1, 3, 5, 7];
    let compressed = compress(points.clone());
    assert_eq!(compressed, points);
}

#[test]
fn compress_test_test_compress_all_consecutive() {
    let points = vec![1, 2, 3, 4, 5];
    let compressed = compress(points);
    assert_eq!(compressed, vec![3]);
}

#[test]
fn compress_test_test_compress_mixed() {
    let points = vec![1, 2, 3, 6, 7, 8, 10];
    let compressed = compress(points);
    assert_eq!(compressed, vec![2, 7, 10]);
}

#[test]
fn compress_test_test_compress_empty() {
    let points: Vec<usize> = vec![];
    let compressed = compress(points);
    assert!(compressed.is_empty());
}

#[test]
fn compress_test_test_compress_single() {
    let points = vec![5];
    let compressed = compress(points);
    assert_eq!(compressed, vec![5]);
}

#[test]
fn test_compress_duplicates() {
    let points = vec![1, 2, 4, 5];
    let compressed = compress(points);
    // 1,2 -> 2. 4,5 -> 5.
    assert_eq!(compressed, vec![2, 5]);
}

#[test]
fn trajectory_segment_test_compress_no_consecutive() {
    let points = vec![1, 3, 5, 7];
    let compressed = compress(points.clone());
    assert_eq!(compressed, points);
}

#[test]
fn trajectory_segment_test_compress_all_consecutive() {
    let points = vec![1, 2, 3, 4, 5];
    let compressed = compress(points);
    assert_eq!(compressed, vec![3]);
}

#[test]
fn trajectory_segment_test_compress_mixed() {
    let points = vec![1, 2, 3, 6, 7, 8, 10];
    let compressed = compress(points);
    assert_eq!(compressed, vec![2, 7, 10]);
}

#[test]
fn trajectory_segment_test_compress_empty() {
    let points: Vec<usize> = vec![];
    let compressed = compress(points);
    assert!(compressed.is_empty());
}

#[test]
fn trajectory_segment_test_compress_single() {
    let points = vec![5];
    let compressed = compress(points);
    assert_eq!(compressed, vec![5]);
}

#[test]
fn test_compress_groups() {
    let points = vec![1, 2, 4, 5];
    let compressed = compress(points);
    assert_eq!(compressed, vec![2, 5]);
}

#[test]
fn compress_sorts_its_input() {
    assert_eq!(compress(vec![10, 3, 2, 8, 1, 7, 6]), vec![2, 7, 10]);
    // a wrapper that handed its argument back would leave this unsorted
    assert_eq!(compress(vec![9, 1, 5]), vec![1, 5, 9]);
}

#[test]
fn compress_repeated_items_break_runs() {
    // in order: 2, 2, 3, 3 -> runs [2], [2, 3], [3]
    assert_eq!(compress(vec![3, 2, 3, 2]), vec![2, 3, 3]);
}

#[test]
fn compress_takes_upper_middle_of_even_runs() {
    assert_eq!(compress_sorted(&vec![4, 5]), vec![5]);
    assert_eq!(compress_sorted(&vec![4, 5, 6, 7]), vec![6]);
    assert_eq!(compress_sorted(&vec![4, 5, 6]), vec![5]);
}

#[test]
fn compress_at_the_top_of_the_range() {
    assert_eq!(
        compress(vec![usize::MAX, usize::MAX - 1, 0]),
        vec![0, usize::MAX]
    );
}

#[test]
fn compress_keeps_the_middle_of_each_run_of_distinct_indices() {
    // runs: 1..=3, 5, 9..=10, 20..=24
    let input = vec![10, 5, 22, 1, 3, 24, 2, 9, 20, 21, 23];
    let result = compress(input.clone());
    assert_eq!(result, vec![2, 5, 10, 22]);
    // strictly ascending, and one item for each run
    assert!(result.windows(2).all(|w| w[0] < w[1]));
    for (first, len) in [(1usize, 3usize), (5, 1), (9, 2), (20, 5)] {
        let inside: Vec<usize> = result
            .iter()
            .copied()
            .filter(|x| first <= *x && *x < first + len)
            .collect();
        assert_eq!(inside, vec![first + len / 2]);
    }
    // indices without neighbours come back in order
    assert_eq!(compress(vec![8, 2, 6, 4]), vec![2, 4, 6, 8]);
}
