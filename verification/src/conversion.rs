//! Graphs as text: DOT, adjacency matrix, Pajek NET, and the matrix in one
//! line.

use crate::matrix::{lemma_cell_index, AdjacencyMatrix};
use crate::text::{decimal, push_decimal};
use vstd::prelude::*;
use vstd::string::StringExecFns;

verus! {

/// The texts `piece(k)` for `k` from `lo` up to, and without, `hi`, one after
/// the other.
pub open spec fn concat(piece: spec_fn(int) -> Seq<char>, lo: int, hi: int) -> Seq<char>
    decreases hi - lo,
{
    if hi <= lo {
        Seq::empty()
    } else {
        concat(piece, lo, hi - 1) + piece(hi - 1)
    }
}

/// The DOT statement of the edge from `i` to `j`, if the matrix has it.
pub open spec fn dot_edge(m: AdjacencyMatrix, directed: bool, i: int, j: int) -> Seq<char> {
    if m.entry(i, j) == 1 {
        "\n"@ + decimal(i as nat) + (if directed {
            " -> "@
        } else {
            " -- "@
        }) + decimal(j as nat) + ";"@
    } else {
        Seq::empty()
    }
}

/// The DOT statement, if any, of each column of row `i`.
pub open spec fn dot_edges_of_row(m: AdjacencyMatrix, directed: bool, i: int) -> spec_fn(
    int,
) -> Seq<char> {
    |j: int| dot_edge(m, directed, i, j)
}

/// The DOT statements of the edges of row `i`. Of an undirected graph only
/// the columns from the diagonal on are written, so that each edge stands
/// once.
pub open spec fn dot_row(m: AdjacencyMatrix, directed: bool, i: int) -> Seq<char> {
    concat(
        dot_edges_of_row(m, directed, i),
        if directed {
            0
        } else {
            i
        },
        m.n as int,
    )
}

/// The DOT statements of each row.
pub open spec fn dot_rows(m: AdjacencyMatrix, directed: bool) -> spec_fn(int) -> Seq<char> {
    |i: int| dot_row(m, directed, i)
}

/// The DOT statements of all edges, row after row.
pub open spec fn dot_edges(m: AdjacencyMatrix, directed: bool) -> Seq<char> {
    concat(dot_rows(m, directed), 0, m.n as int)
}

/// The graph in the DOT language, named `graph_` and the number `id` if
/// there is one.
pub open spec fn dot_text(m: AdjacencyMatrix, directed: bool, id: Option<usize>) -> Seq<char> {
    (if directed {
        "digraph "@
    } else {
        "graph "@
    }) + (match id {
        Some(id) => "graph_"@ + decimal(id as nat) + " {"@,
        None => "{"@,
    }) + dot_edges(m, directed) + "\n}"@
}

/// One entry of the matrix, and a space behind it unless it is the last of
/// its row.
pub open spec fn adjmat_cell(m: AdjacencyMatrix, i: int, j: int) -> Seq<char> {
    decimal(m.entry(i, j) as nat) + (if j < m.n - 1 {
        " "@
    } else {
        Seq::empty()
    })
}

/// Each entry of row `i`, as `adjmat_cell` writes it.
pub open spec fn adjmat_cells_of_row(m: AdjacencyMatrix, i: int) -> spec_fn(int) -> Seq<char> {
    |j: int| adjmat_cell(m, i, j)
}

/// Row `i` of the matrix as a line of text.
pub open spec fn adjmat_row(m: AdjacencyMatrix, i: int) -> Seq<char> {
    concat(adjmat_cells_of_row(m, i), 0, m.n as int) + "\n"@
}

/// Each row of the matrix as a line of text.
pub open spec fn adjmat_rows(m: AdjacencyMatrix) -> spec_fn(int) -> Seq<char> {
    |i: int| adjmat_row(m, i)
}

/// The matrix as text: a line for each row, the entries of a row separated
/// by spaces.
pub open spec fn adjmat_text(m: AdjacencyMatrix) -> Seq<char> {
    concat(adjmat_rows(m), 0, m.n as int)
}

/// The Pajek line of vertex `i`: its number, counted from 1, and its label,
/// which is `i` in quotes.
pub open spec fn net_vertex(i: int) -> Seq<char> {
    decimal((i + 1) as nat) + " \""@ + decimal(i as nat) + "\"\n"@
}

/// The Pajek line of each vertex.
pub open spec fn net_vertices() -> spec_fn(int) -> Seq<char> {
    |i: int| net_vertex(i)
}

/// The Pajek line of the arc from `i` to `j`, if the matrix has it, with the
/// vertices counted from 1.
pub open spec fn net_arc(m: AdjacencyMatrix, i: int, j: int) -> Seq<char> {
    if m.entry(i, j) == 1 {
        decimal((i + 1) as nat) + " "@ + decimal((j + 1) as nat) + "\n"@
    } else {
        Seq::empty()
    }
}

/// The Pajek line, if any, of each column of row `i`.
pub open spec fn net_arcs_of_row(m: AdjacencyMatrix, i: int) -> spec_fn(int) -> Seq<char> {
    |j: int| net_arc(m, i, j)
}

/// The Pajek lines of the arcs of each row.
pub open spec fn net_rows(m: AdjacencyMatrix) -> spec_fn(int) -> Seq<char> {
    |i: int| concat(net_arcs_of_row(m, i), 0, m.n as int)
}

/// The graph in the Pajek NET format: the number of vertices, a line for
/// each vertex, and a line for each arc, row after row.
pub open spec fn net_text(m: AdjacencyMatrix) -> Seq<char> {
    "*Vertices "@ + decimal(m.n) + "\n"@ + concat(net_vertices(), 0, m.n as int) + "*Arcs\n"@
        + concat(net_rows(m), 0, m.n as int)
}

/// Each entry of the matrix in decimal.
pub open spec fn flat_cells(bits: Seq<usize>) -> spec_fn(int) -> Seq<char> {
    |k: int| decimal(bits[k] as nat)
}

/// The entries of the matrix, one after the other with nothing between them.
pub open spec fn flat_text(bits: Seq<usize>) -> Seq<char> {
    concat(flat_cells(bits), 0, bits.len() as int)
}

/// A graph that can show its matrix, and with it every text that is written
/// from the matrix.
pub trait GraphConversion {
    /// The matrix that the graph stands for.
    spec fn matrix(&self) -> AdjacencyMatrix;

    /// Whether the graph is directed.
    spec fn directed(&self) -> bool;

    /// Returns the flattened adjacency matrix of the graph.
    fn bit_vec(&self) -> (bits: &[usize])
        ensures
            bits@ == self.matrix().bits,
    ;

    /// Returns the number of vertices of the graph.
    fn size(&self) -> (n: usize)
        ensures
            n == self.matrix().n,
    ;

    /// Returns true if the graph is directed.
    fn is_directed(&self) -> (d: bool)
        ensures
            d == self.directed(),
    ;

    /// Returns the graph in the DOT language: `digraph` or `graph`, the name
    /// `graph_` and `id` if there is an `id`, and between braces a statement
    /// for each edge.
    fn to_dot(&self, id: Option<usize>) -> (dot: String)
        requires
            self.matrix().is_square(),
        ensures
            dot@ == dot_text(self.matrix(), self.directed(), id),
    {
        let n: usize = self.size();
        let bit_vec: &[usize] = self.bit_vec();
        let directed: bool = self.is_directed();
        let mut dot = String::new();
        if directed {
            dot.append("digraph ");
        } else {
            dot.append("graph ");
        }
        match id {
            Some(id) => {
                dot.append("graph_");
                push_decimal(&mut dot, id);
                dot.append(" {");
            },
            None => {
                dot.append("{");
            },
        }
        assert(AdjacencyMatrix { n: n as nat, bits: bit_vec@ } == self.matrix());
        if directed {
            self.to_directed_dot(&mut dot, bit_vec, n);
        } else {
            self.to_undirected_dot(&mut dot, bit_vec, n);
        }
        dot.append("\n}");
        assert(dot@ =~= dot_text(self.matrix(), self.directed(), id));
        dot
    }

    /// Appends a DOT statement for each edge of the undirected graph with the
    /// `n` by `n` matrix `bit_vec`: for each entry that is 1 in a column not
    /// before the diagonal.
    fn to_undirected_dot(&self, dot: &mut String, bit_vec: &[usize], n: usize)
        requires
            bit_vec@.len() == n * n,
        ensures
            final(dot)@ == old(dot)@ + dot_edges(
                (AdjacencyMatrix { n: n as nat, bits: bit_vec@ }),
                false,
            ),
    {
        let ghost m = AdjacencyMatrix { n: n as nat, bits: bit_vec@ };
        let total: usize = bit_vec.len();
        let mut i: usize = 0;
        while i < n
            invariant
                i <= n,
                total == n * n,
                m == (AdjacencyMatrix { n: n as nat, bits: bit_vec@ }),
                bit_vec@.len() == n * n,
                dot@ == old(dot)@ + concat(dot_rows(m, false), 0, i as int),
            decreases n - i,
        {
            let ghost before = dot@;
            let mut j: usize = i;
            while j < n
                invariant
                    i <= j <= n,
                    i < n,
                    total == n * n,
                    m == (AdjacencyMatrix { n: n as nat, bits: bit_vec@ }),
                    bit_vec@.len() == n * n,
                    dot@ == before + concat(dot_edges_of_row(m, false, i as int), i as int, j as int),
                decreases n - j,
            {
                proof {
                    lemma_cell_index(n as nat, i as int, j as int);
                    assert(0 <= i * n) by (nonlinear_arith)
                        requires
                            0 <= i,
                            0 <= n,
                    ;
                }
                let ghost row = dot@;
                if bit_vec[i * n + j] == 1 {
                    dot.append("\n");
                    push_decimal(dot, i);
                    dot.append(" -- ");
                    push_decimal(dot, j);
                    dot.append(";");
                }
                assert(dot@ =~= row + dot_edge(m, false, i as int, j as int));
                j += 1;
            }
            assert(dot@ =~= old(dot)@ + concat(dot_rows(m, false), 0, i + 1));
            i += 1;
        }
    }

    /// Appends a DOT statement for each edge of the directed graph with the
    /// `n` by `n` matrix `bit_vec`: for each entry that is 1.
    fn to_directed_dot(&self, dot: &mut String, bit_vec: &[usize], n: usize)
        requires
            bit_vec@.len() == n * n,
        ensures
            final(dot)@ == old(dot)@ + dot_edges(
                (AdjacencyMatrix { n: n as nat, bits: bit_vec@ }),
                true,
            ),
    {
        let ghost m = AdjacencyMatrix { n: n as nat, bits: bit_vec@ };
        let total: usize = bit_vec.len();
        let mut i: usize = 0;
        while i < n
            invariant
                i <= n,
                total == n * n,
                m == (AdjacencyMatrix { n: n as nat, bits: bit_vec@ }),
                bit_vec@.len() == n * n,
                dot@ == old(dot)@ + concat(dot_rows(m, true), 0, i as int),
            decreases n - i,
        {
            let ghost before = dot@;
            let mut j: usize = 0;
            while j < n
                invariant
                    j <= n,
                    i < n,
                    total == n * n,
                    m == (AdjacencyMatrix { n: n as nat, bits: bit_vec@ }),
                    bit_vec@.len() == n * n,
                    dot@ == before + concat(dot_edges_of_row(m, true, i as int), 0, j as int),
                decreases n - j,
            {
                proof {
                    lemma_cell_index(n as nat, i as int, j as int);
                    assert(0 <= i * n) by (nonlinear_arith)
                        requires
                            0 <= i,
                            0 <= n,
                    ;
                }
                let ghost row = dot@;
                if bit_vec[i * n + j] == 1 {
                    dot.append("\n");
                    push_decimal(dot, i);
                    dot.append(" -> ");
                    push_decimal(dot, j);
                    dot.append(";");
                }
                assert(dot@ =~= row + dot_edge(m, true, i as int, j as int));
                j += 1;
            }
            assert(dot@ =~= old(dot)@ + concat(dot_rows(m, true), 0, i + 1));
            i += 1;
        }
    }

    /// Returns the adjacency matrix as text: a line for each row, the
    /// entries of a row separated by spaces.
    fn to_adjmat(&self) -> (adj: String)
        requires
            self.matrix().is_square(),
        ensures
            adj@ == adjmat_text(self.matrix()),
    {
        let n: usize = self.size();
        let bit_vec: &[usize] = self.bit_vec();
        let ghost m = self.matrix();
        let total: usize = bit_vec.len();
        let mut adj = String::new();
        let mut i: usize = 0;
        while i < n
            invariant
                i <= n,
                total == n * n,
                m.n == n,
                m.bits == bit_vec@,
                bit_vec@.len() == n * n,
                adj@ == concat(adjmat_rows(m), 0, i as int),
            decreases n - i,
        {
            let ghost before = adj@;
            let mut j: usize = 0;
            while j < n
                invariant
                    j <= n,
                    i < n,
                    total == n * n,
                    m.n == n,
                    m.bits == bit_vec@,
                    bit_vec@.len() == n * n,
                    adj@ == before + concat(adjmat_cells_of_row(m, i as int), 0, j as int),
                decreases n - j,
            {
                proof {
                    lemma_cell_index(n as nat, i as int, j as int);
                    assert(0 <= i * n) by (nonlinear_arith)
                        requires
                            0 <= i,
                            0 <= n,
                    ;
                }
                let ghost row = adj@;
                push_decimal(&mut adj, bit_vec[i * n + j]);
                if j < n - 1 {
                    adj.append(" ");
                }
                assert(adj@ =~= row + adjmat_cell(m, i as int, j as int));
                j += 1;
            }
            adj.append("\n");
            assert(adj@ =~= concat(adjmat_rows(m), 0, i + 1));
            i += 1;
        }
        adj
    }

    /// Returns the graph in the Pajek NET format: the number of vertices, a
    /// line for each vertex with its number, counted from 1, and its label,
    /// then a line for each arc.
    fn to_net(&self) -> (net: String)
        requires
            self.matrix().is_square(),
        ensures
            net@ == net_text(self.matrix()),
    {
        let n: usize = self.size();
        let bit_vec: &[usize] = self.bit_vec();
        let ghost m = self.matrix();
        let total: usize = bit_vec.len();
        let mut net = String::new();
        net.append("*Vertices ");
        push_decimal(&mut net, n);
        net.append("\n");
        let ghost head = net@;
        let mut v: usize = 0;
        while v < n
            invariant
                v <= n,
                net@ == head + concat(net_vertices(), 0, v as int),
            decreases n - v,
        {
            let ghost line = net@;
            push_decimal(&mut net, v + 1);
            net.append(" \"");
            push_decimal(&mut net, v);
            net.append("\"\n");
            assert(net@ =~= line + net_vertex(v as int));
            v += 1;
        }
        net.append("*Arcs\n");
        let ghost top = net@;
        let mut i: usize = 0;
        while i < n
            invariant
                i <= n,
                total == n * n,
                m.n == n,
                m.bits == bit_vec@,
                bit_vec@.len() == n * n,
                net@ == top + concat(net_rows(m), 0, i as int),
            decreases n - i,
        {
            let ghost before = net@;
            let mut j: usize = 0;
            while j < n
                invariant
                    j <= n,
                    i < n,
                    total == n * n,
                    m.n == n,
                    m.bits == bit_vec@,
                    bit_vec@.len() == n * n,
                    net@ == before + concat(net_arcs_of_row(m, i as int), 0, j as int),
                decreases n - j,
            {
                proof {
                    lemma_cell_index(n as nat, i as int, j as int);
                    assert(0 <= i * n) by (nonlinear_arith)
                        requires
                            0 <= i,
                            0 <= n,
                    ;
                }
                let ghost row = net@;
                if bit_vec[i * n + j] == 1 {
                    push_decimal(&mut net, i + 1);
                    net.append(" ");
                    push_decimal(&mut net, j + 1);
                    net.append("\n");
                }
                assert(net@ =~= row + net_arc(m, i as int, j as int));
                j += 1;
            }
            assert(net@ =~= top + concat(net_rows(m), 0, i + 1));
            i += 1;
        }
        assert(net@ =~= net_text(m));
        net
    }

    /// Returns the entries of the adjacency matrix, row after row, with
    /// nothing between them.
    fn to_flat(&self) -> (flat: String)
        ensures
            flat@ == flat_text(self.matrix().bits),
    {
        let bit_vec: &[usize] = self.bit_vec();
        let total: usize = bit_vec.len();
        let mut flat = String::new();
        let mut k: usize = 0;
        while k < total
            invariant
                k <= total,
                total == bit_vec@.len(),
                flat@ == concat(flat_cells(bit_vec@), 0, k as int),
            decreases total - k,
        {
            let ghost before = flat@;
            push_decimal(&mut flat, bit_vec[k]);
            assert(flat@ =~= before + decimal(bit_vec@[k as int] as nat));
            k += 1;
        }
        flat
    }
}

} // verus!
