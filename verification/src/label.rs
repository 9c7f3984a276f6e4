//! Labels that name a benchmark graph by its vertex and edge counts,
//! in the form `V<vertices>_E<edges>`.
use vstd::prelude::*;
use crate::decimal::{decimal, is_digit, lemma_decimal_injective, lemma_decimal_reads_back, push_decimal};

verus! {

/// The label of a graph with `vertices` vertices and `edges` undirected edges:
/// `"V"`, the vertex count in decimal, `"_E"`, the edge count in decimal.
pub open spec fn label_text(vertices: nat, edges: nat) -> Seq<char> {
    seq!['V'] + decimal(vertices) + seq!['_', 'E'] + decimal(edges)
}

/// The number of undirected edges of a symmetric matrix that stores
/// `defined_values` entries: each edge is stored once in each direction.
pub open spec fn edge_count(defined_values: nat) -> nat {
    defined_values / 2
}

/// Returns the label of a square symmetric adjacency matrix of order `order`
/// that stores `defined_values` entries: `V<order>_E<defined_values / 2>`.
pub fn label_for_counts(order: usize, defined_values: usize) -> (label: String)
    ensures
        label@ == label_text(order as nat, edge_count(defined_values as nat)),
{
    let mut label = String::new();
    label.push('V');
    push_decimal(&mut label, order);
    label.push('_');
    label.push('E');
    push_decimal(&mut label, defined_values / 2);
    assert(label@ =~= label_text(order as nat, edge_count(defined_values as nat)));
    label
}

/// Each undirected edge is stored once in each direction: `2k` stored entries
/// (or `2k + 1`, with one unpaired entry) count as `k` edges.
pub proof fn lemma_edge_count_halves(k: nat)
    ensures
        edge_count(2 * k) == k,
        edge_count(2 * k + 1) == k,
{
}

/// A label reads back as its counts, whatever they are: it is `'V'`, the
/// decimal vertex count, `'_'`, `'E'`, then the decimal of half the stored
/// entries, and nothing else.
pub proof fn lemma_label_reads_back(order: nat, defined_values: nat)
    ensures
        ({
            let l = label_text(order, edge_count(defined_values));
            let k = decimal(order).len() as int;
            &&& l.len() == k + 3 + decimal(defined_values / 2).len()
            &&& l[0] == 'V'
            &&& l.subrange(1, k + 1) == decimal(order)
            &&& l[k + 1] == '_'
            &&& l[k + 2] == 'E'
            &&& l.subrange(k + 3, l.len() as int) == decimal(defined_values / 2)
        }),
{
    let l = label_text(order, edge_count(defined_values));
    let k = decimal(order).len() as int;
    assert(l.subrange(1, k + 1) =~= decimal(order));
    assert(l.subrange(k + 3, l.len() as int) =~= decimal(defined_values / 2));
}

/// A label names its counts: two labels are equal only when both their vertex
/// counts and their edge counts are equal.
pub proof fn lemma_label_determines_counts(v1: nat, e1: nat, v2: nat, e2: nat)
    requires
        label_text(v1, e1) == label_text(v2, e2),
    ensures
        v1 == v2,
        e1 == e2,
{
    lemma_decimal_reads_back(v1);
    lemma_decimal_reads_back(v2);
    lemma_decimal_reads_back(e1);
    lemma_decimal_reads_back(e2);
    let l1 = label_text(v1, e1);
    let l2 = label_text(v2, e2);
    let k1 = decimal(v1).len() as int;
    let k2 = decimal(v2).len() as int;
    if k1 < k2 {
        assert(l1[k1 + 1] == '_');
        assert(l2[k1 + 1] == decimal(v2)[k1]);
        assert(is_digit(decimal(v2)[k1]));
        assert(false);
    } else if k2 < k1 {
        assert(l2[k2 + 1] == '_');
        assert(l1[k2 + 1] == decimal(v1)[k2]);
        assert(is_digit(decimal(v1)[k2]));
        assert(false);
    }
    assert(decimal(v1) =~= l1.subrange(1, k1 + 1));
    assert(decimal(v2) =~= l2.subrange(1, k2 + 1));
    lemma_decimal_injective(v1, v2);
    assert(decimal(e1) =~= l1.subrange(k1 + 3, l1.len() as int));
    assert(decimal(e2) =~= l2.subrange(k2 + 3, l2.len() as int));
    lemma_decimal_injective(e1, e2);
}

} // verus!
