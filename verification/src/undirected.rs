//! Undirected graphs.

use crate::conversion::GraphConversion;
use crate::error::IOError;
use crate::format::{
    decode_bits, decode_undirected, decode_undirected_strict, lemma_decode_bits,
    lemma_decode_undirected_wf, MAX_ENCODED_SIZE,
};
use crate::packing::BIAS;
use crate::matrix::{lemma_cell_index, AdjacencyMatrix};
use crate::triangle::{expand, lemma_triangle_index_bound, triangle_len};
use crate::utils::{
    check_canonical, fill_bitvector, floor_sqrt, get_size, is_perfect_square,
    lemma_between_squares, square, triangle_size,
};
use crate::write::WriteGraph;
use vstd::prelude::*;
use vstd::string::StringSliceAdditionalSpecFns;

verus! {

/// An undirected graph, held as its flattened adjacency matrix.
#[derive(Debug)]
pub struct Graph {
    /// The adjacency matrix, row after row: the entries at `i * n + j` and at
    /// `j * n + i` are 1 if there is an edge between the vertices `i` and
    /// `j`, and 0 if there is none.
    pub bit_vec: Vec<usize>,
    /// The number of vertices.
    pub n: usize,
}

impl View for Graph {
    type V = AdjacencyMatrix;

    open spec fn view(&self) -> AdjacencyMatrix {
        AdjacencyMatrix { n: self.n as nat, bits: self.bit_vec@ }
    }
}

/// The `n` by `n` matrix that has an edge between two vertices wherever `adj`
/// has one in either direction. An entry of `adj` that is 1 is an edge; any
/// other entry is none.
pub open spec fn symmetrized(adj: Seq<usize>, n: nat) -> Seq<usize> {
    Seq::new(
        n * n,
        |k: int|
            {
                let i = k / (n as int);
                let j = k % (n as int);
                if adj[i * n + j] == 1 || adj[j * n + i] == 1 {
                    1usize
                } else {
                    0usize
                }
            },
    )
}

/// No vertex has an edge to itself in the `n` by `n` matrix `adj`.
pub open spec fn has_no_loop(adj: Seq<usize>, n: nat) -> bool {
    forall|i: int| 0 <= i < n ==> #[trigger] (AdjacencyMatrix { n, bits: adj }).entry(i, i) != 1
}

impl Graph {
    /// The matrix is square, each of its entries is 0 or 1, and each edge has
    /// its reverse. Every graph that this library builds is well-formed. A
    /// graph that was decoded has no self-loops either; one built by
    /// `from_adj` has those that it was given.
    pub open spec fn wf(&self) -> bool {
        &&& self@.wf()
        &&& self@.is_symmetric()
    }

    /// Decodes an undirected graph from its text. Bytes behind the data that
    /// the size calls for, and the bits that complete the last data byte,
    /// are not looked at.
    ///
    /// The errors, in the order in which they are looked for: there is no
    /// size byte (`UnexpectedEndOfInput`); the size byte is 126
    /// (`GraphTooLarge`) or below 63 (`InvalidSizeChar`); the text ends
    /// before the data does (`UnexpectedEndOfInput`); one of the bytes read
    /// for the data is no data byte (`InvalidDataChar`).
    pub fn from_g6(repr: &str) -> (r: Result<Self, IOError>)
        ensures
            (match r {
                Ok(g) => decode_undirected(repr.spec_bytes()) == Ok::<AdjacencyMatrix, IOError>(
                    g@,
                ) && g.wf() && g@.is_loop_free(),
                Err(e) => decode_undirected(repr.spec_bytes()) == Err::<AdjacencyMatrix, IOError>(
                    e,
                ),
            }),
    {
        let bytes: &[u8] = repr.as_bytes();
        let n: usize = match get_size(bytes, 0) {
            Err(e) => {
                return Err(e);
            },
            Ok(n) => n,
        };
        match Self::build_bitvector(bytes, n) {
            Err(e) => Err(e),
            Ok(bit_vec) => {
                proof {
                    lemma_decode_undirected_wf(bytes@);
                }
                Ok(Self { bit_vec, n })
            },
        }
    }

    /// Decodes an undirected graph from its text as `from_g6` does, but
    /// accepts canonical text only: text that is, byte for byte, what
    /// `write_graph` gives for the graph decoded. Text that `from_g6` accepts
    /// and that is not canonical gives `NonCanonicalEncoding`: a size above
    /// 62, bytes behind the data, or a bit set among those that complete the
    /// last byte.
    pub fn from_g6_strict(repr: &str) -> (r: Result<Self, IOError>)
        ensures
            (match r {
                Ok(g) => decode_undirected_strict(repr.spec_bytes()) == Ok::<
                    AdjacencyMatrix,
                    IOError,
                >(g@) && g.wf() && g@.is_loop_free() && g.n <= MAX_ENCODED_SIZE,
                Err(e) => decode_undirected_strict(repr.spec_bytes()) == Err::<
                    AdjacencyMatrix,
                    IOError,
                >(e),
            }),
    {
        let graph: Self = match Self::from_g6(repr) {
            Err(e) => {
                return Err(e);
            },
            Ok(graph) => graph,
        };
        let bytes: &[u8] = repr.as_bytes();
        assert(graph.n <= 192 && graph.n == bytes@[0] - BIAS) by {
            lemma_decode_undirected_wf(bytes@);
        }
        assert(graph.n * (graph.n - 1) <= 192 * 192) by (nonlinear_arith)
            requires
                graph.n <= 192,
        ;
        if check_canonical(bytes, 0, triangle_size(graph.n)) {
            Ok(graph)
        } else {
            Err(IOError::NonCanonicalEncoding)
        }
    }

    /// Builds an undirected graph from a flattened adjacency matrix, which
    /// must hold a square number of entries, else the result is
    /// `InvalidAdjacencyMatrix`. The matrix need not be symmetric: an edge in
    /// either direction is an edge of the graph. An entry that is 1 is an
    /// edge; any other entry is none. An edge from a vertex to itself is
    /// kept.
    pub fn from_adj(adj: &[usize]) -> (r: Result<Self, IOError>)
        ensures
            (match r {
                Ok(g) => is_perfect_square(adj@.len()) && g.n * g.n == adj@.len() && g.bit_vec@
                    == symmetrized(adj@, g.n as nat) && g.wf() && (g@.is_loop_free()
                    <==> has_no_loop(adj@, g.n as nat)),
                Err(e) => e == IOError::InvalidAdjacencyMatrix && !is_perfect_square(adj@.len()),
            }),
            r matches Ok(g) ==> forall|i: int, j: int|
                0 <= i < g.n && 0 <= j < g.n ==> #[trigger] g@.entry(i, j) == (if adj@[i * g.n
                    + j] == 1 || adj@[j * g.n + i] == 1 {
                    1usize
                } else {
                    0usize
                }),
    {
        let n2: usize = adj.len();
        let n: usize = floor_sqrt(n2);
        if n * n != n2 {
            proof {
                lemma_between_squares(n as nat, n2 as nat);
            }
            return Err(IOError::InvalidAdjacencyMatrix);
        }
        assert(square(n as nat) == n2);
        let ghost target = symmetrized(adj@, n as nat);
        let mut bit_vec: Vec<usize> = Vec::new();
        let mut i: usize = 0;
        while i < n
            invariant
                i <= n,
                n * n == n2,
                n2 == adj@.len(),
                target == symmetrized(adj@, n as nat),
                bit_vec@.len() == i * n,
                bit_vec@ == target.take(i * n),
            decreases n - i,
        {
            let mut j: usize = 0;
            while j < n
                invariant
                    j <= n,
                    i < n,
                    n * n == n2,
                    n2 == adj@.len(),
                    target == symmetrized(adj@, n as nat),
                    bit_vec@.len() == i * n + j,
                    bit_vec@ == target.take(i * n + j),
                decreases n - j,
            {
                proof {
                    lemma_cell_index(n as nat, i as int, j as int);
                    lemma_cell_index(n as nat, j as int, i as int);
                    assert(0 <= i * n && 0 <= j * n) by (nonlinear_arith)
                        requires
                            0 <= i,
                            0 <= j,
                            0 <= n,
                    ;
                }
                let bit: usize = if adj[i * n + j] == 1 || adj[j * n + i] == 1 {
                    1
                } else {
                    0
                };
                bit_vec.push(bit);
                assert(bit_vec@ =~= target.take(i * n + j + 1));
                j += 1;
            }
            assert((i + 1) * n == i * n + n) by (nonlinear_arith);
            i += 1;
        }
        assert(bit_vec@ =~= target);
        let graph = Self { bit_vec, n };
        proof {
            lemma_symmetrized(adj@, n as nat);
        }
        Ok(graph)
    }

    /// Unpacks the triangle of an undirected graph with `n` vertices from
    /// the bytes behind the size byte, and expands it to the matrix.
    fn build_bitvector(bytes: &[u8], n: usize) -> (r: Result<Vec<usize>, IOError>)
        requires
            n <= 192,
        ensures
            (match r {
                Ok(bit_vec) => decode_bits(bytes@, 1, triangle_len(n as nat)) matches Ok(tri)
                    && bit_vec@ == expand(tri, n as nat),
                Err(e) => decode_bits(bytes@, 1, triangle_len(n as nat)) == Err::<
                    Seq<usize>,
                    IOError,
                >(e),
            }),
    {
        assert(n * (n - 1) <= n * n <= 192 * 192) by (nonlinear_arith)
            requires
                n <= 192,
        ;
        let bv_len: usize = triangle_size(n);
        match fill_bitvector(bytes, bv_len, 1) {
            Err(e) => Err(e),
            Ok(tri) => {
                proof {
                    lemma_decode_bits(bytes@, 1, triangle_len(n as nat));
                }
                Ok(Self::fill_from_triangle(tri.as_slice(), n))
            },
        }
    }

    /// Expands a triangle to the symmetric matrix of `n` rows with a zero
    /// diagonal: the entry of the triangle for row `i` and column `j`, with
    /// `j < i`, is set both at row `i`, column `j` and at row `j`, column `i`.
    pub fn fill_from_triangle(tri: &[usize], n: usize) -> (bit_vec: Vec<usize>)
        requires
            n * n <= usize::MAX,
            tri@.len() == triangle_len(n as nat),
        ensures
            bit_vec@ == expand(tri@, n as nat),
    {
        let ghost target = expand(tri@, n as nat);
        let total: usize = tri.len();
        let mut bit_vec: Vec<usize> = Vec::new();
        let mut i: usize = 0;
        while i < n
            invariant
                i <= n,
                n * n <= usize::MAX,
                total == triangle_len(n as nat),
                tri@.len() == triangle_len(n as nat),
                target == expand(tri@, n as nat),
                bit_vec@.len() == i * n,
                bit_vec@ == target.take(i * n),
            decreases n - i,
        {
            let mut j: usize = 0;
            while j < n
                invariant
                    j <= n,
                    i < n,
                    n * n <= usize::MAX,
                    total == triangle_len(n as nat),
                    tri@.len() == triangle_len(n as nat),
                    target == expand(tri@, n as nat),
                    bit_vec@.len() == i * n + j,
                    bit_vec@ == target.take(i * n + j),
                decreases n - j,
            {
                proof {
                    lemma_cell_index(n as nat, i as int, j as int);
                }
                let val: usize = if i > j {
                    proof {
                        lemma_triangle_index_bound(n as nat, i as int, j as int);
                        assert(i * (i - 1) <= n * n) by (nonlinear_arith)
                            requires
                                i <= n,
                        ;
                    }
                    tri[triangle_size(i) + j]
                } else if i < j {
                    proof {
                        lemma_triangle_index_bound(n as nat, j as int, i as int);
                        assert(j * (j - 1) <= n * n) by (nonlinear_arith)
                            requires
                                j <= n,
                        ;
                    }
                    tri[triangle_size(j) + i]
                } else {
                    0
                };
                bit_vec.push(val);
                assert(bit_vec@ =~= target.take(i * n + j + 1));
                j += 1;
            }
            assert((i + 1) * n == i * n + n) by (nonlinear_arith);
            i += 1;
        }
        assert(bit_vec@ =~= target);
        bit_vec
    }
}

/// A symmetrized matrix is square, of 0 and 1, and symmetric; it has a
/// self-loop exactly where the matrix it was made from has one.
pub proof fn lemma_symmetrized(adj: Seq<usize>, n: nat)
    requires
        adj.len() == n * n,
    ensures
        (AdjacencyMatrix { n, bits: symmetrized(adj, n) }).wf(),
        (AdjacencyMatrix { n, bits: symmetrized(adj, n) }).is_symmetric(),
        (AdjacencyMatrix { n, bits: symmetrized(adj, n) }).is_loop_free() <==> has_no_loop(adj, n),
        forall|i: int, j: int|
            0 <= i < n && 0 <= j < n ==> #[trigger] (AdjacencyMatrix {
                n,
                bits: symmetrized(adj, n),
            }).entry(i, j) == (if adj[i * n + j] == 1 || adj[j * n + i] == 1 {
                1usize
            } else {
                0usize
            }),
{
    let m = AdjacencyMatrix { n, bits: symmetrized(adj, n) };
    assert forall|i: int, j: int| 0 <= i < n && 0 <= j < n implies #[trigger] m.entry(i, j)
        == if adj[i * n + j] == 1 || adj[j * n + i] == 1 {
        1usize
    } else {
        0usize
    } by {
        lemma_cell_index(n, i, j);
    }
    assert forall|i: int, j: int| 0 <= i < n && 0 <= j < n implies #[trigger] m.entry(i, j)
        == m.entry(j, i) by {
        assert(m.entry(j, i) == if adj[j * n + i] == 1 || adj[i * n + j] == 1 {
            1usize
        } else {
            0usize
        });
    }
    let a = AdjacencyMatrix { n, bits: adj };
    if has_no_loop(adj, n) {
        assert forall|i: int| 0 <= i < n implies #[trigger] m.entry(i, i) == 0 by {
            assert(a.entry(i, i) != 1);
        }
    }
    if m.is_loop_free() {
        assert forall|i: int| 0 <= i < n implies #[trigger] a.entry(i, i) != 1 by {
            assert(m.entry(i, i) == 0);
        }
    }
}

impl GraphConversion for Graph {
    open spec fn matrix(&self) -> AdjacencyMatrix {
        self@
    }

    open spec fn directed(&self) -> bool {
        false
    }

    fn bit_vec(&self) -> (bits: &[usize]) {
        self.bit_vec.as_slice()
    }

    fn size(&self) -> (n: usize) {
        self.n
    }

    fn is_directed(&self) -> (d: bool) {
        false
    }
}

impl WriteGraph for Graph {

}

} // verus!
