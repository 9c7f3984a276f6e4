use all_pairs_shortest_paths_benchmarks::sampling::MIN_SAMPLE_SIZE;
use all_pairs_shortest_paths_benchmarks::sampling_params;

#[test]
fn small_graphs_get_many_short_samples() {
    assert_eq!(sampling_params(0), (100, 10));
    assert_eq!(sampling_params(10), (100, 10));
    assert_eq!(sampling_params(49), (100, 10));
}

#[test]
fn medium_graphs_from_fifty_vertices() {
    assert_eq!(sampling_params(50), (30, 20));
    assert_eq!(sampling_params(100), (30, 20));
    assert_eq!(sampling_params(199), (30, 20));
}

#[test]
fn large_graphs_from_two_hundred_vertices() {
    assert_eq!(sampling_params(200), (10, 60));
    assert_eq!(sampling_params(300), (10, 60));
    assert_eq!(sampling_params(499), (10, 60));
}

#[test]
fn huge_graphs_from_five_hundred_vertices() {
    assert_eq!(sampling_params(500), (10, 120));
    assert_eq!(sampling_params(1000), (10, 120));
    assert_eq!(sampling_params(usize::MAX), (10, 120));
}

#[test]
fn sample_size_never_below_harness_minimum() {
    for n in [0usize, 9, 10, 20, 49, 50, 51, 199, 200, 201, 499, 500, 750, 1000, usize::MAX] {
        let (samples, secs) = sampling_params(n);
        assert!(samples >= MIN_SAMPLE_SIZE);
        assert!(secs > 0);
    }
}

#[test]
fn larger_graphs_get_fewer_samples_and_more_time() {
    let sizes = [0usize, 10, 49, 50, 100, 199, 200, 300, 499, 500, 1000, usize::MAX];
    for pair in sizes.windows(2) {
        let (s_small, t_small) = sampling_params(pair[0]);
        let (s_large, t_large) = sampling_params(pair[1]);
        assert!(s_large <= s_small);
        assert!(t_small <= t_large);
    }
}
