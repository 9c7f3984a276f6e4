//! Deterministic pseudo-random edge weights in `1..=9`, derived from a seed
//! and the coordinates of an edge.
use vstd::prelude::*;
use vstd::arithmetic::div_mod::{
    lemma_add_mod_noop, lemma_fundamental_div_mod, lemma_fundamental_div_mod_converse_mod,
    lemma_mod_sub_multiples_vanish, lemma_small_mod,
};

verus! {

/// The multiplier applied to the seed.
pub const SEED_MULTIPLIER: u64 = 6364136223846793005;

/// The multiplier applied to the row of an edge.
pub const ROW_MULTIPLIER: u64 = 2654435761;

/// The multiplier applied to the column of an edge.
pub const COLUMN_MULTIPLIER: u64 = 2246822519;

/// The modulus of 64-bit wrapping arithmetic.
pub open spec fn word_modulus() -> int {
    0x1_0000_0000_0000_0000
}

/// The 64-bit mix of a seed and an edge `(row, col)`:
/// `seed * 6364136223846793005 + row * 2654435761 + col * 2246822519`, modulo `2^64`.
pub open spec fn spec_weight_hash(seed: u64, row: usize, col: usize) -> int {
    (seed * SEED_MULTIPLIER + row * ROW_MULTIPLIER + col * COLUMN_MULTIPLIER) % word_modulus()
}

/// The weight of edge `(row, col)` under `seed`: one plus the mix modulo nine.
pub open spec fn spec_edge_weight(seed: u64, row: usize, col: usize) -> int {
    1 + spec_weight_hash(seed, row, col) % 9
}

/// A weighting of the edges of a graph, fixed by its seed.
pub struct RandomWeight {
    pub seed: u64,
}

/// Returns the weighting of edges determined by `seed`.
pub fn random_weight(seed: u64) -> (weights: RandomWeight)
    ensures
        weights.seed == seed,
{
    RandomWeight { seed }
}

/// `(x + y) mod 2^64` for two words, as wrapping addition computes it.
proof fn lemma_wrapping_add_is_mod(x: u64, y: u64)
    ensures
        vstd::wrapping::u64_specs::wrapping_add(x, y) == (x + y) % word_modulus(),
{
    if x + y > u64::MAX {
        assert((x + y) % word_modulus() == x + y - word_modulus());
    } else {
        assert((x + y) % word_modulus() == x + y);
    }
}

impl RandomWeight {
    /// The weight of the edge `(row, col)`, an integer in `1..=9`.
    pub fn weight(&self, edge: (usize, usize)) -> (w: u64)
        ensures
            w == spec_edge_weight(self.seed, edge.0, edge.1),
            1 <= w <= 9,
    {
        let (row, col) = edge;
        let seeded = self.seed.wrapping_mul(SEED_MULTIPLIER);
        let row_part = (row as u64).wrapping_mul(ROW_MULTIPLIER);
        let col_part = (col as u64).wrapping_mul(COLUMN_MULTIPLIER);
        let partial = seeded.wrapping_add(row_part);
        let h = partial.wrapping_add(col_part);
        proof {
            let m = word_modulus();
            let s = self.seed * SEED_MULTIPLIER;
            let r = row * ROW_MULTIPLIER;
            let c = col * COLUMN_MULTIPLIER;
            lemma_wrapping_add_is_mod(seeded, row_part);
            lemma_wrapping_add_is_mod(partial, col_part);
            assert(seeded == s % m);
            assert(row_part == r % m);
            assert(col_part == c % m);
            lemma_add_mod_noop(s, r, m);
            lemma_add_mod_noop(s + r, c, m);
            assert(h == spec_weight_hash(self.seed, row, col));
        }
        1 + h % 9
    }
}

/// Every edge weight, under every seed, lies in `1..=9`, and is one more than
/// the 64-bit mix of the seed and the edge reduced modulo nine.
pub proof fn lemma_edge_weight_range(seed: u64, row: usize, col: usize)
    ensures
        1 <= spec_edge_weight(seed, row, col) <= 9,
        spec_edge_weight(seed, row, col) - 1 == spec_weight_hash(seed, row, col) % 9,
{
}

/// The mix of the edge `(0, 0)` is the seed times 6364136223846793005, modulo `2^64`.
pub proof fn lemma_weight_hash_origin(seed: u64)
    ensures
        spec_weight_hash(seed, 0, 0) == (seed * 6364136223846793005) % 18446744073709551616,
{
}

/// Moving an edge one row down adds 2654435761 to its mix, modulo `2^64`:
/// every bit of the row takes part.
pub proof fn lemma_weight_hash_next_row(seed: u64, row: usize, col: usize)
    requires
        row < usize::MAX,
    ensures
        spec_weight_hash(seed, (row + 1) as usize, col) == (spec_weight_hash(seed, row, col)
            + 2654435761) % 18446744073709551616,
{
    let x = seed * SEED_MULTIPLIER + row * ROW_MULTIPLIER + col * COLUMN_MULTIPLIER;
    lemma_add_mod_noop(x, 2654435761, word_modulus());
    lemma_small_mod(2654435761, word_modulus() as nat);
}

/// Moving an edge one column right adds 2246822519 to its mix, modulo `2^64`:
/// every bit of the column takes part.
pub proof fn lemma_weight_hash_next_col(seed: u64, row: usize, col: usize)
    requires
        col < usize::MAX,
    ensures
        spec_weight_hash(seed, row, (col + 1) as usize) == (spec_weight_hash(seed, row, col)
            + 2246822519) % 18446744073709551616,
{
    let x = seed * SEED_MULTIPLIER + row * ROW_MULTIPLIER + col * COLUMN_MULTIPLIER;
    lemma_add_mod_noop(x, 2246822519, word_modulus());
    lemma_small_mod(2246822519, word_modulus() as nat);
}

/// Raising the seed by one adds 6364136223846793005 to every mix, modulo `2^64`.
pub proof fn lemma_weight_hash_next_seed(seed: u64, row: usize, col: usize)
    requires
        seed < u64::MAX,
    ensures
        spec_weight_hash((seed + 1) as u64, row, col) == (spec_weight_hash(seed, row, col)
            + 6364136223846793005) % 18446744073709551616,
{
    let x = seed * SEED_MULTIPLIER + row * ROW_MULTIPLIER + col * COLUMN_MULTIPLIER;
    lemma_add_mod_noop(x, 6364136223846793005, word_modulus());
    lemma_small_mod(6364136223846793005, word_modulus() as nat);
}

/// Among nine consecutive steps of 2246822519 from `base`, one lands on each
/// residue modulo nine (2246822519 is 5 modulo 9, and 5 is invertible modulo 9).
proof fn lemma_reach_residue(base: int, t: int) -> (j: int)
    requires
        0 <= base,
        0 <= t < 9,
    ensures
        0 <= j < 9,
        (base + j * 2246822519) % 9 == t,
{
    let r = base % 9;
    let q = base / 9;
    let u = 2 * (t - r);
    let j = u % 9;
    let b = u / 9;
    lemma_fundamental_div_mod(base, 9);
    lemma_fundamental_div_mod(u, 9);
    assert(base + j * 2246822519 == (q + 249646946 * j + (t - r) - 5 * b) * 9 + t)
        by (nonlinear_arith)
        requires
            base == 9 * q + r,
            u == 2 * (t - r),
            u == 9 * b + j,
    ;
    lemma_fundamental_div_mod_converse_mod(
        base + j * 2246822519,
        9,
        q + 249646946 * j + (t - r) - 5 * b,
        t,
    );
    j
}

/// Every weight in `1..=9` is given, under every seed, to some edge of the
/// first row: the weights cover the whole range.
pub proof fn lemma_every_weight_attained(seed: u64, w: int)
    requires
        1 <= w <= 9,
    ensures
        exists|col: usize| col < 18 && #[trigger] spec_edge_weight(seed, 0, col) == w,
{
    let m = word_modulus();
    let c = 2246822519int;
    let h0 = (seed * SEED_MULTIPLIER) % m;
    let c0: int = if h0 + 8 * c < m { 0 } else { 9 };
    let wrap: int = if c0 == 0 { 0 } else { m };
    let base = h0 + c0 * c - wrap;
    assert(0 <= base && base + 8 * c < m);
    let j = lemma_reach_residue(base, w - 1);
    let col = (c0 + j) as usize;
    let x = h0 + col * c;
    lemma_add_mod_noop(seed * SEED_MULTIPLIER, col * COLUMN_MULTIPLIER, m);
    lemma_small_mod((col * c) as nat, m as nat);
    assert(spec_weight_hash(seed, 0, col) == x % m);
    if c0 == 0 {
        lemma_small_mod(x as nat, m as nat);
    } else {
        lemma_mod_sub_multiples_vanish(x, m);
        lemma_small_mod((x - m) as nat, m as nat);
    }
    assert(spec_weight_hash(seed, 0, col) == base + j * c);
    assert(spec_edge_weight(seed, 0, col) == w);
}

} // verus!
