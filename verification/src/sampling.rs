//! How long to measure a benchmark, by the size of the graph it runs on.
use vstd::prelude::*;

verus! {

/// The smallest sample count that the measuring harness accepts.
pub const MIN_SAMPLE_SIZE: usize = 10;

/// The number of samples to take for a graph with `vertex_count` vertices.
pub open spec fn spec_sample_size(vertex_count: nat) -> nat {
    if vertex_count >= 500 {
        10
    } else if vertex_count >= 200 {
        10
    } else if vertex_count >= 50 {
        30
    } else {
        100
    }
}

/// The measurement time, in seconds, for a graph with `vertex_count` vertices.
pub open spec fn spec_measurement_secs(vertex_count: nat) -> nat {
    if vertex_count >= 500 {
        120
    } else if vertex_count >= 200 {
        60
    } else if vertex_count >= 50 {
        20
    } else {
        10
    }
}

/// Returns `(sample size, measurement time in seconds)` for a benchmark on a
/// graph with `vertex_count` vertices: small graphs get many short samples,
/// large graphs few samples over a longer time.
pub fn sampling_params(vertex_count: usize) -> (params: (usize, u64))
    ensures
        params.0 == spec_sample_size(vertex_count as nat),
        params.1 == spec_measurement_secs(vertex_count as nat),
{
    if vertex_count >= 500 {
        (10, 120)
    } else if vertex_count >= 200 {
        (10, 60)
    } else if vertex_count >= 50 {
        (30, 20)
    } else {
        (100, 10)
    }
}

/// Every graph size is measured with at least the harness's minimum sample
/// count, and for a positive time.
pub proof fn lemma_sampling_params_accepted(vertex_count: nat)
    ensures
        spec_sample_size(vertex_count) >= MIN_SAMPLE_SIZE,
        spec_measurement_secs(vertex_count) > 0,
{
}

/// A larger graph never gets more samples, and never less measurement time,
/// than a smaller one.
pub proof fn lemma_sampling_params_monotone(smaller: nat, larger: nat)
    requires
        smaller <= larger,
    ensures
        spec_sample_size(larger) <= spec_sample_size(smaller),
        spec_measurement_secs(smaller) <= spec_measurement_secs(larger),
{
}

} // verus!
