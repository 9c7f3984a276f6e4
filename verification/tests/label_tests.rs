use all_pairs_shortest_paths_benchmarks::decimal::push_decimal;
use all_pairs_shortest_paths_benchmarks::label::label_for_counts;

#[test]
fn label_of_complete_graph_on_four_vertices() {
    // K4 stores each of its 6 edges in both directions.
    assert_eq!(label_for_counts(4, 12), "V4_E6");
}

#[test]
fn label_of_grid_three_by_three() {
    // A 3x3 grid has 9 vertices and 12 edges.
    assert_eq!(label_for_counts(9, 24), "V9_E12");
}

#[test]
fn label_of_empty_graph() {
    assert_eq!(label_for_counts(0, 0), "V0_E0");
}

#[test]
fn label_rounds_odd_entry_count_down() {
    assert_eq!(label_for_counts(5, 7), "V5_E3");
}

#[test]
fn label_of_large_counts() {
    assert_eq!(label_for_counts(1000, 6000), "V1000_E3000");
    assert_eq!(label_for_counts(100, 9900), "V100_E4950");
}

#[test]
fn label_of_largest_counts() {
    let expected = format!("V{}_E{}", usize::MAX, usize::MAX / 2);
    assert_eq!(label_for_counts(usize::MAX, usize::MAX), expected);
}

#[test]
fn labels_of_different_counts_differ() {
    let a = label_for_counts(12, 6);
    let b = label_for_counts(1, 46);
    assert_eq!(a, "V12_E3");
    assert_eq!(b, "V1_E23");
    assert_ne!(a, b);
}

#[test]
fn decimal_appends_to_existing_text() {
    let mut s = String::from("n=");
    push_decimal(&mut s, 0);
    assert_eq!(s, "n=0");
    push_decimal(&mut s, 907);
    assert_eq!(s, "n=0907");
    let mut t = String::new();
    push_decimal(&mut t, 10);
    assert_eq!(t, "10");
}
