//! The triangle of an undirected graph.
//!
//! An undirected graph without self-loops is known by the part of its matrix
//! below the diagonal. That part is written row after row: the entry of row 1
//! and column 0 first, then those of row 2 and columns 0 and 1, and so on to
//! row `n - 1`.

use crate::matrix::{lemma_cell_index, lemma_index_cell, AdjacencyMatrix};
use crate::packing::all_bits;
use vstd::prelude::*;

verus! {

/// The number of entries below the diagonal of an `n` by `n` matrix, which
/// is also the index in the triangle at which row `n` would begin.
pub open spec fn triangle_len(n: nat) -> nat {
    (n * (n - 1) / 2) as nat
}

/// The entries below the diagonal in the first `rows` rows of the `n` by `n`
/// matrix `bits`, row after row.
pub open spec fn lower_rows(bits: Seq<usize>, n: nat, rows: nat) -> Seq<usize>
    decreases rows,
{
    if rows == 0 {
        Seq::empty()
    } else {
        let i = (rows - 1) as nat;
        lower_rows(bits, n, i) + Seq::new(i, |j: int| bits[i * n + j])
    }
}

/// The triangle of the `n` by `n` matrix `bits`.
pub open spec fn collapse(bits: Seq<usize>, n: nat) -> Seq<usize> {
    lower_rows(bits, n, n)
}

/// Where the triangle holds the entry of row `i` and column `j`, for `j < i`.
pub open spec fn triangle_index(i: int, j: int) -> int {
    triangle_len(i as nat) + j
}

/// The symmetric `n` by `n` matrix with a zero diagonal whose triangle is
/// `tri`.
pub open spec fn expand(tri: Seq<usize>, n: nat) -> Seq<usize> {
    Seq::new(
        n * n,
        |k: int|
            {
                let i = k / (n as int);
                let j = k % (n as int);
                if i > j {
                    tri[triangle_index(i, j)]
                } else if i < j {
                    tri[triangle_index(j, i)]
                } else {
                    0
                }
            },
    )
}

/// Row `n` of the triangle begins `n` entries after row `n - 1` does.
pub proof fn lemma_triangle_len_step(n: nat)
    ensures
        triangle_len(n + 1) == triangle_len(n) + n,
{
    assert((n + 1) * ((n + 1) - 1) == n * (n - 1) + 2 * n) by (nonlinear_arith);
    assert(n * (n - 1) >= 0) by (nonlinear_arith);
}

/// Rows begin in the order of their numbers.
pub proof fn lemma_triangle_len_monotonic(a: nat, b: nat)
    requires
        a <= b,
    ensures
        triangle_len(a) <= triangle_len(b),
    decreases b - a,
{
    if a < b {
        lemma_triangle_len_monotonic(a, (b - 1) as nat);
        lemma_triangle_len_step((b - 1) as nat);
    }
}

/// The entries below the diagonal have indices of their own within the
/// triangle.
pub proof fn lemma_triangle_index_bound(n: nat, i: int, j: int)
    requires
        0 <= j < i < n,
    ensures
        0 <= triangle_index(i, j) < triangle_len(n),
{
    lemma_triangle_len_step(i as nat);
    lemma_triangle_len_monotonic((i + 1) as nat, n);
}

/// How many entries the first rows hold below the diagonal, and where each
/// of them lies.
pub proof fn lemma_lower_rows(bits: Seq<usize>, n: nat, rows: nat)
    ensures
        lower_rows(bits, n, rows).len() == triangle_len(rows),
        forall|i: int, j: int|
            0 <= j < i < rows ==> lower_rows(bits, n, rows)[#[trigger] triangle_index(i, j)]
                == bits[i * n + j],
    decreases rows,
{
    if rows > 0 {
        let r = (rows - 1) as nat;
        lemma_lower_rows(bits, n, r);
        lemma_triangle_len_step(r);
        let prev = lower_rows(bits, n, r);
        let row = Seq::new(r, |j: int| bits[r * n + j]);
        assert(lower_rows(bits, n, rows) == prev + row);
        assert forall|i: int, j: int| 0 <= j < i < rows implies lower_rows(
            bits,
            n,
            rows,
        )[#[trigger] triangle_index(i, j)] == bits[i * n + j] by {
            if i < r {
                lemma_triangle_index_bound(r, i, j);
            } else {
                assert(row[j] == bits[r * n + j]);
            }
        }
    } else {
        assert(triangle_len(0) == 0);
    }
}

/// How many entries the triangle of a matrix has, and where it holds each
/// entry from below the diagonal.
pub proof fn lemma_collapse(bits: Seq<usize>, n: nat)
    ensures
        collapse(bits, n).len() == triangle_len(n),
        forall|i: int, j: int|
            0 <= j < i < n ==> collapse(bits, n)[#[trigger] triangle_index(i, j)] == bits[i * n
                + j],
{
    lemma_lower_rows(bits, n, n);
}

/// The triangle of a matrix of 0 and 1 holds 0 and 1 only.
pub proof fn lemma_collapse_bits(bits: Seq<usize>, n: nat, rows: nat)
    requires
        bits.len() == n * n,
        all_bits(bits),
        rows <= n,
    ensures
        all_bits(lower_rows(bits, n, rows)),
    decreases rows,
{
    if rows > 0 {
        let r = (rows - 1) as nat;
        lemma_collapse_bits(bits, n, r);
        let prev = lower_rows(bits, n, r);
        let row = Seq::new(r, |j: int| bits[r * n + j]);
        assert forall|k: int| 0 <= k < (prev + row).len() implies (prev + row)[k] <= 1 by {
            if k >= prev.len() {
                let j = k - prev.len();
                lemma_cell_index(n, r as int, j);
                assert(row[j] == bits[r * n + j]);
            }
        }
    } else {
        assert(triangle_len(0) == 0);
    }
}

/// What the matrix of a triangle holds in each row and column.
pub proof fn lemma_expand_entry(tri: Seq<usize>, n: nat, i: int, j: int)
    requires
        0 <= i < n,
        0 <= j < n,
    ensures
        0 <= i * n + j < expand(tri, n).len(),
        expand(tri, n).len() == n * n,
        expand(tri, n)[i * n + j] == (if i > j {
            tri[triangle_index(i, j)]
        } else if i < j {
            tri[triangle_index(j, i)]
        } else {
            0
        }),
{
    lemma_cell_index(n, i, j);
}

/// The matrix of a triangle is square and symmetric, its diagonal is zero,
/// and it holds 0 and 1 only if the triangle does.
pub proof fn lemma_expand_undirected(tri: Seq<usize>, n: nat)
    requires
        tri.len() == triangle_len(n),
    ensures
        (AdjacencyMatrix { n, bits: expand(tri, n) }).is_square(),
        (AdjacencyMatrix { n, bits: expand(tri, n) }).is_symmetric(),
        (AdjacencyMatrix { n, bits: expand(tri, n) }).is_loop_free(),
        all_bits(tri) ==> (AdjacencyMatrix { n, bits: expand(tri, n) }).is_undirected(),
{
    let m = AdjacencyMatrix { n, bits: expand(tri, n) };
    assert forall|i: int, j: int| 0 <= i < n && 0 <= j < n implies #[trigger] m.entry(i, j)
        == m.entry(j, i) by {
        lemma_expand_entry(tri, n, i, j);
        lemma_expand_entry(tri, n, j, i);
    }
    assert forall|i: int| 0 <= i < n implies #[trigger] m.entry(i, i) == 0 by {
        lemma_expand_entry(tri, n, i, i);
    }
    if all_bits(tri) {
        assert forall|k: int| 0 <= k < m.bits.len() implies m.bits[k] <= 1 by {
            lemma_index_cell(n, k);
            let i = k / (n as int);
            let j = k % (n as int);
            if i > j {
                lemma_triangle_index_bound(n, i, j);
            } else if i < j {
                lemma_triangle_index_bound(n, j, i);
            }
        }
    }
}

/// The triangle of the matrix of a triangle is that triangle.
pub proof fn lemma_collapse_expand(tri: Seq<usize>, n: nat)
    requires
        tri.len() == triangle_len(n),
    ensures
        collapse(expand(tri, n), n) == tri,
{
    lemma_collapse_expand_rows(tri, n, n);
    assert(tri.take(triangle_len(n) as int) =~= tri);
}

proof fn lemma_collapse_expand_rows(tri: Seq<usize>, n: nat, rows: nat)
    requires
        tri.len() == triangle_len(n),
        rows <= n,
    ensures
        triangle_len(rows) <= tri.len(),
        lower_rows(expand(tri, n), n, rows) == tri.take(triangle_len(rows) as int),
    decreases rows,
{
    lemma_triangle_len_monotonic(rows, n);
    if rows > 0 {
        let r = (rows - 1) as nat;
        lemma_collapse_expand_rows(tri, n, r);
        lemma_triangle_len_step(r);
        let bits = expand(tri, n);
        let row = Seq::new(r, |j: int| bits[r * n + j]);
        assert forall|j: int| 0 <= j < r implies row[j] == tri[triangle_len(r) + j] by {
            lemma_expand_entry(tri, n, r as int, j);
            assert(triangle_index(r as int, j) == triangle_len(r) + j);
        }
        assert(lower_rows(bits, n, rows) =~= tri.take(triangle_len(rows) as int));
    } else {
        assert(triangle_len(0) == 0);
        assert(lower_rows(expand(tri, n), n, rows) =~= tri.take(triangle_len(rows) as int));
    }
}

/// The matrix of the triangle of a symmetric matrix with a zero diagonal is
/// that matrix.
pub proof fn lemma_expand_collapse(m: AdjacencyMatrix)
    requires
        m.is_square(),
        m.is_symmetric(),
        m.is_loop_free(),
    ensures
        expand(collapse(m.bits, m.n), m.n) == m.bits,
{
    let n = m.n;
    let tri = collapse(m.bits, n);
    lemma_collapse(m.bits, n);
    assert forall|k: int| 0 <= k < n * n implies expand(tri, n)[k] == m.bits[k] by {
        lemma_index_cell(n, k);
        let i = k / (n as int);
        let j = k % (n as int);
        if i > j {
            assert(tri[triangle_index(i, j)] == m.bits[i * n + j]);
        } else if i < j {
            assert(tri[triangle_index(j, i)] == m.bits[j * n + i]);
            assert(m.entry(i, j) == m.entry(j, i));
        } else {
            assert(m.entry(i, i) == 0);
        }
    }
    assert(expand(tri, n) =~= m.bits);
}

} // verus!
