//! Directed graphs.

use crate::conversion::GraphConversion;
use crate::error::IOError;
use crate::format::{
    decode_bits, decode_directed, decode_directed_strict, lemma_decode_directed_wf,
    DIGRAPH_HEADER, MAX_ENCODED_SIZE,
};
use crate::packing::BIAS;
use crate::matrix::{edge_bit, AdjacencyMatrix};
use crate::utils::{
    check_canonical, fill_bitvector, floor_sqrt, get_size, is_perfect_square,
    lemma_between_squares, square,
};
use crate::write::WriteGraph;
use vstd::prelude::*;
use vstd::string::StringSliceAdditionalSpecFns;

verus! {

/// A directed graph, held as its flattened adjacency matrix.
#[derive(Debug)]
pub struct DiGraph {
    /// The adjacency matrix, row after row: the entry at `i * n + j` is 1 if
    /// there is an edge from vertex `i` to vertex `j`, and 0 if there is none.
    pub bit_vec: Vec<usize>,
    /// The number of vertices.
    pub n: usize,
}

impl View for DiGraph {
    type V = AdjacencyMatrix;

    open spec fn view(&self) -> AdjacencyMatrix {
        AdjacencyMatrix { n: self.n as nat, bits: self.bit_vec@ }
    }
}

/// The entries of a matrix handed in from outside, each read as an edge or
/// none.
pub open spec fn edge_bits(adj: Seq<usize>) -> Seq<usize> {
    Seq::new(adj.len(), |k: int| edge_bit(adj[k]))
}

impl DiGraph {
    /// The matrix is square and each of its entries is 0 or 1. Every graph
    /// that this library builds is well-formed.
    pub open spec fn wf(&self) -> bool {
        self@.wf()
    }

    /// Decodes a directed graph from its text. Bytes behind the data that
    /// the size calls for, and the bits that complete the last data byte,
    /// are not looked at.
    ///
    /// The errors, in the order in which they are looked for: the text does
    /// not begin with `&` (`InvalidDigraphHeader`); there is no size byte
    /// (`UnexpectedEndOfInput`); the size byte is 126 (`GraphTooLarge`) or
    /// below 63 (`InvalidSizeChar`); the text ends before the data does
    /// (`UnexpectedEndOfInput`); one of the bytes read for the data is no
    /// data byte (`InvalidDataChar`).
    pub fn from_d6(repr: &str) -> (r: Result<Self, IOError>)
        ensures
            (match r {
                Ok(g) => decode_directed(repr.spec_bytes()) == Ok::<AdjacencyMatrix, IOError>(g@)
                    && g.wf(),
                Err(e) => decode_directed(repr.spec_bytes()) == Err::<AdjacencyMatrix, IOError>(e),
            }),
    {
        let bytes: &[u8] = repr.as_bytes();
        match Self::valid_digraph(bytes) {
            Err(e) => {
                return Err(e);
            },
            Ok(_) => {},
        }
        let n: usize = match get_size(bytes, 1) {
            Err(e) => {
                return Err(e);
            },
            Ok(n) => n,
        };
        match Self::build_bitvector(bytes, n) {
            Err(e) => Err(e),
            Ok(bit_vec) => {
                proof {
                    lemma_decode_directed_wf(bytes@);
                }
                Ok(Self { bit_vec, n })
            },
        }
    }

    /// Decodes a directed graph from its text as `from_d6` does, but accepts
    /// canonical text only: text that is, byte for byte, what `write_graph`
    /// gives for the graph decoded. Text that `from_d6` accepts and that is
    /// not canonical gives `NonCanonicalEncoding`: a size above 62, bytes
    /// behind the data, or a bit set among those that complete the last byte.
    pub fn from_d6_strict(repr: &str) -> (r: Result<Self, IOError>)
        ensures
            (match r {
                Ok(g) => decode_directed_strict(repr.spec_bytes()) == Ok::<
                    AdjacencyMatrix,
                    IOError,
                >(g@) && g.wf() && g.n <= MAX_ENCODED_SIZE,
                Err(e) => decode_directed_strict(repr.spec_bytes()) == Err::<
                    AdjacencyMatrix,
                    IOError,
                >(e),
            }),
    {
        let graph: Self = match Self::from_d6(repr) {
            Err(e) => {
                return Err(e);
            },
            Ok(graph) => graph,
        };
        let bytes: &[u8] = repr.as_bytes();
        assert(graph.n <= 192 && graph.n == bytes@[1] - BIAS) by {
            lemma_decode_directed_wf(bytes@);
        }
        assert(graph.n * graph.n <= 192 * 192) by (nonlinear_arith)
            requires
                graph.n <= 192,
        ;
        if check_canonical(bytes, 1, graph.n * graph.n) {
            Ok(graph)
        } else {
            Err(IOError::NonCanonicalEncoding)
        }
    }

    /// Builds a directed graph from a flattened adjacency matrix, which must
    /// hold a square number of entries, else the result is
    /// `InvalidAdjacencyMatrix`. An entry that is 1 is an edge; any other
    /// entry is none.
    pub fn from_adj(adj: &[usize]) -> (r: Result<Self, IOError>)
        ensures
            (match r {
                Ok(g) => is_perfect_square(adj@.len()) && g.n * g.n == adj@.len() && g.bit_vec@
                    == edge_bits(adj@) && g.wf(),
                Err(e) => e == IOError::InvalidAdjacencyMatrix && !is_perfect_square(adj@.len()),
            }),
    {
        let n2: usize = adj.len();
        let n: usize = floor_sqrt(n2);
        if n * n != n2 {
            proof {
                lemma_between_squares(n as nat, n2 as nat);
            }
            return Err(IOError::InvalidAdjacencyMatrix);
        }
        assert(square(n as nat) == n2);
        let mut bit_vec: Vec<usize> = Vec::new();
        let mut k: usize = 0;
        while k < n2
            invariant
                k <= n2,
                n2 == adj@.len(),
                bit_vec@ == edge_bits(adj@).take(k as int),
            decreases n2 - k,
        {
            let bit: usize = if adj[k] == 1 {
                1
            } else {
                0
            };
            bit_vec.push(bit);
            assert(bit_vec@ =~= edge_bits(adj@).take(k + 1));
            k += 1;
        }
        assert(bit_vec@ =~= edge_bits(adj@));
        Ok(Self { bit_vec, n })
    }

    /// Tells whether `repr` begins as the text of a directed graph does,
    /// with `&`; if not, the result is `InvalidDigraphHeader`.
    pub fn valid_digraph(repr: &[u8]) -> (r: Result<bool, IOError>)
        ensures
            r == (if repr@.len() > 0 && repr@[0] == DIGRAPH_HEADER {
                Ok::<bool, IOError>(true)
            } else {
                Err::<bool, IOError>(IOError::InvalidDigraphHeader)
            }),
    {
        if repr.len() > 0 && repr[0] == DIGRAPH_HEADER {
            Ok(true)
        } else {
            Err(IOError::InvalidDigraphHeader)
        }
    }

    /// Unpacks the matrix of a directed graph with `n` vertices from the
    /// bytes behind the header and the size byte.
    fn build_bitvector(bytes: &[u8], n: usize) -> (r: Result<Vec<usize>, IOError>)
        requires
            n <= 192,
        ensures
            (match r {
                Ok(bit_vec) => decode_bits(bytes@, 2, (n * n) as nat) == Ok::<Seq<usize>, IOError>(
                    bit_vec@,
                ),
                Err(e) => decode_bits(bytes@, 2, (n * n) as nat) == Err::<Seq<usize>, IOError>(e),
            }),
    {
        assert(n * n <= 192 * 192) by (nonlinear_arith)
            requires
                n <= 192,
        ;
        let bv_len: usize = n * n;
        fill_bitvector(bytes, bv_len, 2)
    }
}

impl GraphConversion for DiGraph {
    open spec fn matrix(&self) -> AdjacencyMatrix {
        self@
    }

    open spec fn directed(&self) -> bool {
        true
    }

    fn bit_vec(&self) -> (bits: &[usize]) {
        self.bit_vec.as_slice()
    }

    fn size(&self) -> (n: usize) {
        self.n
    }

    fn is_directed(&self) -> (d: bool) {
        true
    }
}

impl WriteGraph for DiGraph {

}

} // verus!
