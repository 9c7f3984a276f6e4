use all_pairs_shortest_paths_benchmarks::random_weight;

#[test]
fn weight_of_origin_under_seed_42() {
    let w = random_weight(42);
    assert_eq!(w.seed, 42);
    assert_eq!(w.weight((0, 0)), 2);
}

#[test]
fn weights_of_known_edges() {
    let w = random_weight(42);
    assert_eq!(w.weight((1, 2)), 1);
    assert_eq!(w.weight((2, 1)), 3);
    assert_eq!(random_weight(0).weight((0, 0)), 1);
    assert_eq!(random_weight(7).weight((100, 200)), 1);
}

#[test]
fn weight_wraps_around_on_large_inputs() {
    let w = random_weight(u64::MAX);
    assert_eq!(w.weight((usize::MAX, usize::MAX)), 8);
}

#[test]
fn weights_stay_between_one_and_nine() {
    for seed in [0u64, 1, 42, 12345, u64::MAX] {
        let w = random_weight(seed);
        for row in 0usize..30 {
            for col in 0usize..30 {
                let x = w.weight((row, col));
                assert!((1..=9).contains(&x));
            }
        }
    }
}

#[test]
fn weight_is_deterministic() {
    let a = random_weight(42);
    let b = random_weight(42);
    for row in 0usize..20 {
        for col in 0usize..20 {
            assert_eq!(a.weight((row, col)), b.weight((row, col)));
            assert_eq!(a.weight((row, col)), a.weight((row, col)));
        }
    }
}
