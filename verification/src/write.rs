//! Writing a graph in the text format.

use crate::conversion::GraphConversion;
use crate::format::{encode, size_byte, DIGRAPH_HEADER, MAX_ENCODED_SIZE};
use crate::matrix::AdjacencyMatrix;
use crate::packing::{
    all_bits, bit_at, lemma_pack_padded, pack, packed_len, padded, sextet, BIAS,
};
use crate::text::{push_char, text_of};
use crate::triangle::lemma_collapse_bits;
use crate::utils::{packed_size, upper_triangle};
use vstd::prelude::*;
use vstd::slice::slice_to_vec;

verus! {

/// A graph that can be written in the text format.
pub trait WriteGraph: GraphConversion {
    /// Writes the graph in the text format: with the header `&` and the whole
    /// matrix if it is directed, with the triangle alone if it is not.
    fn write_graph(&self) -> (repr: String)
        requires
            self.matrix().wf(),
            self.matrix().n <= MAX_ENCODED_SIZE,
        ensures
            repr@ == text_of(encode(self.matrix(), self.directed())),
    {
        let bit_vec: Vec<usize> = slice_to_vec(self.bit_vec());
        write_graph6(bit_vec, self.size(), self.is_directed())
    }
}

/// Appends the header of a directed graph, `&`, if the graph is directed.
pub fn write_header(repr: &mut String, is_directed: bool)
    ensures
        final(repr)@ == (if is_directed {
            old(repr)@.push(DIGRAPH_HEADER as char)
        } else {
            old(repr)@
        }),
{
    if is_directed {
        push_char(repr, DIGRAPH_HEADER as char);
    }
}

/// Appends the size byte of a graph with `size` vertices.
pub fn write_size(repr: &mut String, size: usize)
    requires
        size <= MAX_ENCODED_SIZE,
    ensures
        final(repr)@ == old(repr)@.push(size_byte(size as nat) as char),
{
    let size_char: u8 = size as u8 + BIAS;
    push_char(repr, size_char as char);
}

/// Completes the last group of six with zero bits.
pub fn pad_bitvector(bit_vec: &mut Vec<usize>)
    ensures
        final(bit_vec)@ == padded(old(bit_vec)@),
{
    let len: usize = bit_vec.len();
    let rest: usize = len % 6;
    if rest != 0 {
        let missing: usize = 6 - rest;
        let mut k: usize = 0;
        while k < missing
            invariant
                k <= missing,
                missing == 6 - rest,
                rest == len % 6,
                rest != 0,
                len == old(bit_vec)@.len(),
                bit_vec@.len() == len + k,
                forall|i: int| 0 <= i < len + k ==> bit_vec@[i] == bit_at(old(bit_vec)@, i),
            decreases missing - k,
        {
            bit_vec.push(0);
            k += 1;
        }
    }
    assert(bit_vec@ =~= padded(old(bit_vec)@));
}

/// Entry `i + k` of `bit_vec`, and 0 beyond its end.
fn bit_or_zero(bit_vec: &[usize], i: usize, k: usize) -> (bit: usize)
    requires
        i <= bit_vec@.len(),
    ensures
        bit == bit_at(bit_vec@, i + k),
{
    if k < bit_vec.len() - i {
        bit_vec[i + k]
    } else {
        0
    }
}

/// Appends the characters that carry the groups of six bits of `bit_vec`,
/// the most significant bit of each group first. A last group of fewer than
/// six bits is taken with zero bits behind it.
pub fn parse_bitvector(bit_vec: &[usize], repr: &mut String)
    requires
        all_bits(bit_vec@),
    ensures
        final(repr)@ == old(repr)@ + text_of(pack(bit_vec@)),
{
    let len: usize = bit_vec.len();
    let groups: usize = packed_size(len);
    let mut c: usize = 0;
    while c < groups
        invariant
            c <= groups,
            len == bit_vec@.len(),
            groups == packed_len(len as nat),
            all_bits(bit_vec@),
            repr@ == old(repr)@ + text_of(pack(bit_vec@)).take(c as int),
        decreases groups - c,
    {
        let at: usize = 6 * c;
        let sum: usize = 32 * bit_or_zero(bit_vec, at, 0) + 16 * bit_or_zero(bit_vec, at, 1) + 8
            * bit_or_zero(bit_vec, at, 2) + 4 * bit_or_zero(bit_vec, at, 3) + 2 * bit_or_zero(
            bit_vec,
            at,
            4,
        ) + bit_or_zero(bit_vec, at, 5);
        assert(sum == sextet(bit_vec@, c as int));
        let byte: u8 = sum as u8 + BIAS;
        push_char(repr, byte as char);
        assert(repr@ =~= old(repr)@ + text_of(pack(bit_vec@)).take(c + 1));
        c += 1;
    }
    assert(text_of(pack(bit_vec@)).take(groups as int) =~= text_of(pack(bit_vec@)));
}

/// Writes the graph with the `n` by `n` matrix `bit_vec` in the text format:
/// the header `&` if it is directed, the size byte, and the bytes that carry
/// the whole matrix if it is directed, the triangle alone if it is not.
pub fn write_graph6(bit_vec: Vec<usize>, n: usize, is_directed: bool) -> (repr: String)
    requires
        n <= MAX_ENCODED_SIZE,
        bit_vec@.len() == n * n,
        all_bits(bit_vec@),
    ensures
        repr@ == text_of(
            encode((AdjacencyMatrix { n: n as nat, bits: bit_vec@ }), is_directed),
        ),
{
    let ghost m = AdjacencyMatrix { n: n as nat, bits: bit_vec@ };
    let mut repr = String::new();
    let mut bit_vec: Vec<usize> = if is_directed {
        bit_vec
    } else {
        proof {
            lemma_collapse_bits(bit_vec@, n as nat, n as nat);
        }
        upper_triangle(bit_vec.as_slice(), n)
    };
    let ghost bits = bit_vec@;
    write_header(&mut repr, is_directed);
    write_size(&mut repr, n);
    pad_bitvector(&mut bit_vec);
    proof {
        lemma_pack_padded(bits);
    }
    parse_bitvector(bit_vec.as_slice(), &mut repr);
    assert(repr@ =~= text_of(encode(m, is_directed)));
    repr
}

} // verus!
