//! The adjacency matrix that a graph stands for.

use crate::packing::all_bits;
use vstd::arithmetic::div_mod::{lemma_fundamental_div_mod, lemma_fundamental_div_mod_converse};
use vstd::prelude::*;

verus! {

/// A flattened adjacency matrix: `n` rows of `n` entries each, row after row.
/// The entry in row `i` and column `j` is 1 if there is an edge from vertex
/// `i` to vertex `j`, and 0 if there is none.
#[verifier::ext_equal]
pub struct AdjacencyMatrix {
    /// The number of vertices.
    pub n: nat,
    /// The entries, row after row.
    pub bits: Seq<usize>,
}

/// What an entry of a matrix handed in from outside stands for: 1 is an
/// edge, anything else is none.
pub open spec fn edge_bit(v: usize) -> usize {
    if v == 1 {
        1
    } else {
        0
    }
}

impl AdjacencyMatrix {
    /// The entry in row `i` and column `j`.
    pub open spec fn entry(self, i: int, j: int) -> usize {
        self.bits[i * self.n + j]
    }

    /// There are `n` times `n` entries.
    pub open spec fn is_square(self) -> bool {
        self.bits.len() == self.n * self.n
    }

    /// The matrix is square and each entry is 0 or 1.
    pub open spec fn wf(self) -> bool {
        &&& self.is_square()
        &&& all_bits(self.bits)
    }

    /// Each edge has its reverse.
    pub open spec fn is_symmetric(self) -> bool {
        forall|i: int, j: int|
            0 <= i < self.n && 0 <= j < self.n ==> #[trigger] self.entry(i, j) == self.entry(j, i)
    }

    /// No vertex has an edge to itself.
    pub open spec fn is_loop_free(self) -> bool {
        forall|i: int| 0 <= i < self.n ==> #[trigger] self.entry(i, i) == 0
    }

    /// What an undirected graph without self-loops has for a matrix: square,
    /// of 0 and 1, symmetric, with a zero diagonal.
    pub open spec fn is_undirected(self) -> bool {
        &&& self.wf()
        &&& self.is_symmetric()
        &&& self.is_loop_free()
    }

    /// The matrix is that of a valid graph of the kind given: of any
    /// directed graph, or of an undirected graph without self-loops.
    pub open spec fn is_graph(self, directed: bool) -> bool {
        if directed {
            self.wf()
        } else {
            self.is_undirected()
        }
    }
}

/// Row `i` and column `j` of an `n` by `n` matrix lie at index `i * n + j`,
/// which is within the matrix and gives `i` and `j` back.
pub proof fn lemma_cell_index(n: nat, i: int, j: int)
    requires
        0 <= i < n,
        0 <= j < n,
    ensures
        0 <= i * n + j < n * n,
        (i * n + j) / (n as int) == i,
        (i * n + j) % (n as int) == j,
{
    assert(i * n + j < n * n) by (nonlinear_arith)
        requires
            0 <= i < n,
            0 <= j < n,
    ;
    assert(0 <= i * n) by (nonlinear_arith)
        requires
            0 <= i,
            0 <= n,
    ;
    lemma_fundamental_div_mod_converse(i * n + j, n as int, i, j);
}

/// Index `k` of an `n` by `n` matrix lies in row `k / n` and column `k % n`.
pub proof fn lemma_index_cell(n: nat, k: int)
    requires
        0 <= k < n * n,
    ensures
        0 <= k / (n as int) < n,
        0 <= k % (n as int) < n,
        (k / (n as int)) * n + k % (n as int) == k,
{
    assert(n > 0) by (nonlinear_arith)
        requires
            0 <= k < n * n,
    ;
    lemma_fundamental_div_mod(k, n as int);
    let q = k / (n as int);
    let r = k % (n as int);
    assert(q * n == n * q) by (nonlinear_arith);
    assert(0 <= q < n) by (nonlinear_arith)
        requires
            0 <= r < n,
            0 <= k < n * n,
            k == n * q + r,
    ;
}

} // verus!
