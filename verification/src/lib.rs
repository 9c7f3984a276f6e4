//! Parameters, labels and edge weights for all-pairs shortest-path benchmarks.
pub mod decimal;
pub mod label;
pub mod sampling;
pub mod weight;

pub use label::label_for_counts;
pub use sampling::sampling_params;
pub use weight::{random_weight, RandomWeight};
