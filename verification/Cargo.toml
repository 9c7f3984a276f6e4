[package]
name = "all_pairs_shortest_paths_benchmarks"
version = "0.1.0"
edition = "2021"
publish = false

[dependencies]
geometric-traits = { version = "=0.2.3", default-features = false }
