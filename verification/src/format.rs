//! The text format, as a relation between byte strings and matrices.
//!
//! An undirected graph is written as its size byte followed by the bytes that
//! carry its triangle. A directed graph is written as `&`, its size byte, and
//! the bytes that carry its whole matrix. The size byte of a graph with `n`
//! vertices is `n + 63`; only graphs of up to 62 vertices can be written.
//!
//! Decoding is lenient: it reads the bytes that the size calls for and leaves
//! the rest of the string alone, as it does the bits that complete the last
//! byte. Strict decoding accepts a string only if it is canonical, that is,
//! if it is what encoding writes.

use crate::error::IOError;
use crate::matrix::AdjacencyMatrix;
use crate::packing::{
    all_bits, all_data_bytes, lemma_pack_data_bytes, lemma_pack_unpack, lemma_unpack_bits,
    lemma_unpack_pack, pack, packed_len, unpack, zero_padded, BIAS,
};
use crate::triangle::{
    collapse, expand, lemma_collapse, lemma_collapse_bits, lemma_collapse_expand,
    lemma_expand_collapse, lemma_expand_undirected, triangle_len,
};
use crate::text::{all_ascii, lemma_bytes_of_text, lemma_text_of_bytes, text_of};
use vstd::prelude::*;
use vstd::utf8::encode_utf8;

verus! {

/// The byte `&`, with which the encoding of a directed graph begins.
pub const DIGRAPH_HEADER: u8 = 38;

/// The size byte that announces an extended size header.
pub const EXTENDED_SIZE: u8 = 126;

/// The largest number of vertices that a size byte can state.
pub const MAX_ENCODED_SIZE: usize = 62;

/// The number of vertices that the size byte `b` states.
pub open spec fn decode_size(b: u8) -> Result<usize, IOError> {
    if b == EXTENDED_SIZE {
        Err(IOError::GraphTooLarge)
    } else if b < BIAS {
        Err(IOError::InvalidSizeChar)
    } else {
        Ok((b - BIAS) as usize)
    }
}

/// The size byte of a graph with `n` vertices, for `n` up to
/// `MAX_ENCODED_SIZE`.
pub open spec fn size_byte(n: nat) -> u8 {
    (n + BIAS) as u8
}

/// What `bytes` holds from index `offset` on: nothing, if it is shorter.
pub open spec fn tail(bytes: Seq<u8>, offset: nat) -> Seq<u8> {
    if offset <= bytes.len() {
        bytes.skip(offset as int)
    } else {
        Seq::empty()
    }
}

/// The `len` bits that `bytes` carries from index `offset` on. The bytes that
/// carry them must be there, which is asked first, and must be data bytes.
pub open spec fn decode_bits(bytes: Seq<u8>, offset: nat, len: nat) -> Result<
    Seq<usize>,
    IOError,
> {
    let data = tail(bytes, offset);
    if data.len() < packed_len(len) {
        Err(IOError::UnexpectedEndOfInput)
    } else if !all_data_bytes(data, packed_len(len)) {
        Err(IOError::InvalidDataChar)
    } else {
        Ok(unpack(data, len))
    }
}

/// The encoding of the directed graph with matrix `m`.
pub open spec fn encode_directed(m: AdjacencyMatrix) -> Seq<u8> {
    seq![DIGRAPH_HEADER, size_byte(m.n)] + pack(m.bits)
}

/// The encoding of the undirected graph with matrix `m`.
pub open spec fn encode_undirected(m: AdjacencyMatrix) -> Seq<u8> {
    seq![size_byte(m.n)] + pack(collapse(m.bits, m.n))
}

/// The matrix of the directed graph that `s` encodes, or why there is none.
pub open spec fn decode_directed(s: Seq<u8>) -> Result<AdjacencyMatrix, IOError> {
    if s.len() == 0 || s[0] != DIGRAPH_HEADER {
        Err(IOError::InvalidDigraphHeader)
    } else if s.len() < 2 {
        Err(IOError::UnexpectedEndOfInput)
    } else {
        match decode_size(s[1]) {
            Err(e) => Err(e),
            Ok(n) => match decode_bits(s, 2, (n * n) as nat) {
                Err(e) => Err(e),
                Ok(bits) => Ok(AdjacencyMatrix { n: n as nat, bits }),
            },
        }
    }
}

/// The matrix of the undirected graph that `s` encodes, or why there is none.
pub open spec fn decode_undirected(s: Seq<u8>) -> Result<AdjacencyMatrix, IOError> {
    if s.len() == 0 {
        Err(IOError::UnexpectedEndOfInput)
    } else {
        match decode_size(s[0]) {
            Err(e) => Err(e),
            Ok(n) => match decode_bits(s, 1, triangle_len(n as nat)) {
                Err(e) => Err(e),
                Ok(tri) => Ok(AdjacencyMatrix { n: n as nat, bits: expand(tri, n as nat) }),
            },
        }
    }
}

/// `s` is the size byte of a graph that can be written, behind `header` bytes, then
/// exactly the bytes that carry `len` bits, all of them data bytes, with
/// zero bits to complete the last of them.
pub open spec fn is_canonical(s: Seq<u8>, header: nat, len: nat) -> bool {
    &&& s.len() == header + 1 + packed_len(len)
    &&& BIAS <= s[header as int] <= BIAS + MAX_ENCODED_SIZE
    &&& all_data_bytes(tail(s, header + 1), packed_len(len))
    &&& zero_padded(tail(s, header + 1), len)
}

/// `s` is what encoding writes for some directed graph.
pub open spec fn is_canonical_directed(s: Seq<u8>) -> bool {
    &&& s.len() >= 2
    &&& s[0] == DIGRAPH_HEADER
    &&& is_canonical(s, 1, ((s[1] - BIAS) * (s[1] - BIAS)) as nat)
}

/// `s` is what encoding writes for some undirected graph.
pub open spec fn is_canonical_undirected(s: Seq<u8>) -> bool {
    &&& s.len() >= 1
    &&& is_canonical(s, 0, triangle_len((s[0] - BIAS) as nat))
}

/// Strict decoding of a directed graph: as `decode_directed`, but a string
/// that decodes without being canonical is refused.
pub open spec fn decode_directed_strict(s: Seq<u8>) -> Result<AdjacencyMatrix, IOError> {
    match decode_directed(s) {
        Err(e) => Err(e),
        Ok(m) => if is_canonical_directed(s) {
            Ok(m)
        } else {
            Err(IOError::NonCanonicalEncoding)
        },
    }
}

/// Strict decoding of an undirected graph: as `decode_undirected`, but a
/// string that decodes without being canonical is refused.
pub open spec fn decode_undirected_strict(s: Seq<u8>) -> Result<AdjacencyMatrix, IOError> {
    match decode_undirected(s) {
        Err(e) => Err(e),
        Ok(m) => if is_canonical_undirected(s) {
            Ok(m)
        } else {
            Err(IOError::NonCanonicalEncoding)
        },
    }
}

/// `s` begins with `&`, as the text of a directed graph does.
pub open spec fn has_digraph_header(s: Seq<u8>) -> bool {
    s.len() > 0 && s[0] == DIGRAPH_HEADER
}

/// The encoding of the graph with matrix `m`, directed or not.
pub open spec fn encode(m: AdjacencyMatrix, directed: bool) -> Seq<u8> {
    if directed {
        encode_directed(m)
    } else {
        encode_undirected(m)
    }
}

/// The matrix of the graph that `s` encodes, directed if `s` begins with `&`
/// and undirected if not, or why there is none.
pub open spec fn decode(s: Seq<u8>) -> Result<AdjacencyMatrix, IOError> {
    if has_digraph_header(s) {
        decode_directed(s)
    } else {
        decode_undirected(s)
    }
}

/// Strict decoding of a graph of either kind: as `decode`, but a string that
/// decodes without being canonical is refused.
pub open spec fn decode_strict(s: Seq<u8>) -> Result<AdjacencyMatrix, IOError> {
    if has_digraph_header(s) {
        decode_directed_strict(s)
    } else {
        decode_undirected_strict(s)
    }
}

/// Bits that were decoded are as many as were asked for, and each is 0 or 1.
pub proof fn lemma_decode_bits(bytes: Seq<u8>, offset: nat, len: nat)
    ensures
        decode_bits(bytes, offset, len) matches Ok(bits) ==> bits.len() == len && all_bits(bits),
{
    lemma_unpack_bits(tail(bytes, offset), len);
}

/// A directed graph that was decoded has a square matrix of 0 and 1.
pub proof fn lemma_decode_directed_wf(s: Seq<u8>)
    ensures
        decode_directed(s) matches Ok(m) ==> m.wf() && m.n <= 192,
{
    if decode_directed(s) is Ok {
        let n = decode_size(s[1])->Ok_0;
        lemma_decode_bits(s, 2, (n * n) as nat);
    }
}

/// An undirected graph that was decoded has a square and symmetric matrix of
/// 0 and 1 with a zero diagonal.
pub proof fn lemma_decode_undirected_wf(s: Seq<u8>)
    ensures
        decode_undirected(s) matches Ok(m) ==> m.is_undirected() && m.n <= 192,
{
    if decode_undirected(s) is Ok {
        let n = decode_size(s[0])->Ok_0 as nat;
        lemma_decode_bits(s, 1, triangle_len(n));
        let tri = decode_bits(s, 1, triangle_len(n))->Ok_0;
        lemma_expand_undirected(tri, n);
    }
}

/// Behind any prefix, the bytes packed from bits decode to those bits, and
/// they are data bytes with zero bits to complete the last of them.
pub proof fn lemma_decode_packed(prefix: Seq<u8>, bits: Seq<usize>)
    requires
        all_bits(bits),
    ensures
        tail(prefix + pack(bits), prefix.len()) == pack(bits),
        decode_bits(prefix + pack(bits), prefix.len(), bits.len()) == Ok::<Seq<usize>, IOError>(
            bits,
        ),
        all_data_bytes(pack(bits), packed_len(bits.len())),
        zero_padded(pack(bits), bits.len()),
        pack(bits).len() == packed_len(bits.len()),
{
    lemma_pack_data_bytes(bits);
    lemma_unpack_pack(bits);
    assert(tail(prefix + pack(bits), prefix.len()) =~= pack(bits));
}

/// Bytes that are exactly the data bytes of `len` bits, with zero bits to
/// complete the last of them, are what packing writes for the bits that they
/// decode to.
pub proof fn lemma_pack_decoded(s: Seq<u8>, offset: nat, len: nat)
    requires
        s.len() == offset + packed_len(len),
        all_data_bytes(tail(s, offset), packed_len(len)),
        zero_padded(tail(s, offset), len),
    ensures
        decode_bits(s, offset, len) == Ok::<Seq<usize>, IOError>(unpack(tail(s, offset), len)),
        pack(unpack(tail(s, offset), len)) == tail(s, offset),
        s == s.take(offset as int) + tail(s, offset),
{
    lemma_pack_unpack(tail(s, offset), len);
    assert(s =~= s.take(offset as int) + tail(s, offset));
}

/// Decoding the encoding of a directed graph of at most 62 vertices gives
/// its matrix back, entry for entry, and the encoding is canonical.
pub proof fn lemma_directed_round_trip(m: AdjacencyMatrix)
    requires
        m.wf(),
        m.n <= MAX_ENCODED_SIZE,
    ensures
        decode_directed(encode_directed(m)) == Ok::<AdjacencyMatrix, IOError>(m),
        is_canonical_directed(encode_directed(m)),
        decode_directed_strict(encode_directed(m)) == Ok::<AdjacencyMatrix, IOError>(m),
{
    let s = encode_directed(m);
    let prefix = seq![DIGRAPH_HEADER, size_byte(m.n)];
    lemma_decode_packed(prefix, m.bits);
    assert(s[0] == DIGRAPH_HEADER && s[1] == m.n + BIAS);
    assert(decode_size(s[1]) == Ok::<usize, IOError>(m.n as usize));
    assert(((s[1] - BIAS) * (s[1] - BIAS)) as nat == m.bits.len());
    assert(decode_directed(s)->Ok_0 =~= m);
}

/// Decoding the encoding of an undirected graph of at most 62 vertices and
/// without self-loops gives its matrix back, entry for entry, and the
/// encoding is canonical.
pub proof fn lemma_undirected_round_trip(m: AdjacencyMatrix)
    requires
        m.is_undirected(),
        m.n <= MAX_ENCODED_SIZE,
    ensures
        decode_undirected(encode_undirected(m)) == Ok::<AdjacencyMatrix, IOError>(m),
        is_canonical_undirected(encode_undirected(m)),
        decode_undirected_strict(encode_undirected(m)) == Ok::<AdjacencyMatrix, IOError>(m),
{
    let s = encode_undirected(m);
    let tri = collapse(m.bits, m.n);
    let prefix = seq![size_byte(m.n)];
    assert(tri.len() == triangle_len(m.n) && all_bits(tri)) by {
        lemma_collapse(m.bits, m.n);
        lemma_collapse_bits(m.bits, m.n, m.n);
    }
    lemma_decode_packed(prefix, tri);
    lemma_expand_collapse(m);
    assert(s[0] == m.n + BIAS);
    assert(decode_size(s[0]) == Ok::<usize, IOError>(m.n as usize));
    assert(decode_undirected(s)->Ok_0 =~= m);
}

/// Encoding what a canonical string of a directed graph decodes to gives
/// that string back, byte for byte.
pub proof fn lemma_directed_canonical_round_trip(s: Seq<u8>)
    requires
        is_canonical_directed(s),
    ensures
        decode_directed(s) is Ok,
        decode_directed(s)->Ok_0.n <= MAX_ENCODED_SIZE,
        encode_directed(decode_directed(s)->Ok_0) == s,
{
    let n = (s[1] - BIAS) as nat;
    assert(decode_size(s[1]) == Ok::<usize, IOError>(n as usize));
    assert((n as usize) * (n as usize) == n * n);
    lemma_pack_decoded(s, 2, n * n);
    let m = decode_directed(s)->Ok_0;
    assert(s.take(2) =~= seq![DIGRAPH_HEADER, size_byte(n)]);
    assert(encode_directed(m) =~= s);
}

/// Encoding what a canonical string of an undirected graph decodes to gives
/// that string back, byte for byte.
pub proof fn lemma_undirected_canonical_round_trip(s: Seq<u8>)
    requires
        is_canonical_undirected(s),
    ensures
        decode_undirected(s) is Ok,
        decode_undirected(s)->Ok_0.n <= MAX_ENCODED_SIZE,
        encode_undirected(decode_undirected(s)->Ok_0) == s,
{
    let n = (s[0] - BIAS) as nat;
    assert(decode_size(s[0]) == Ok::<usize, IOError>(n as usize));
    lemma_pack_decoded(s, 1, triangle_len(n));
    let tri = unpack(tail(s, 1), triangle_len(n));
    lemma_collapse_expand(tri, n);
    let m = decode_undirected(s)->Ok_0;
    assert(m.n == n && m.bits == expand(tri, n));
    assert(s.take(1) =~= seq![size_byte(n)]);
    assert(encode_undirected(m) =~= s);
}

/// The bytes of a canonical string are all below 128.
pub proof fn lemma_canonical_ascii(s: Seq<u8>, header: nat, len: nat)
    requires
        is_canonical(s, header, len),
        forall|i: int| 0 <= i < header ==> s[i] < 128,
    ensures
        all_ascii(s),
{
    let data = tail(s, header + 1);
    assert forall|i: int| 0 <= i < s.len() implies s[i] < 128 by {
        if i > header {
            assert(s[i] == data[i - header - 1]);
        }
    }
}

/// What is written for a directed graph of at most 62 vertices is text that
/// decodes to that graph, strictly too: if `text` holds the characters of
/// the encoding of `m`, its bytes decode to `m`.
pub proof fn lemma_directed_text_round_trip(m: AdjacencyMatrix, text: Seq<char>)
    requires
        m.wf(),
        m.n <= MAX_ENCODED_SIZE,
        text == text_of(encode_directed(m)),
    ensures
        encode_utf8(text) == encode_directed(m),
        decode_directed(encode_utf8(text)) == Ok::<AdjacencyMatrix, IOError>(m),
        decode_directed_strict(encode_utf8(text)) == Ok::<AdjacencyMatrix, IOError>(m),
{
    lemma_directed_round_trip(m);
    lemma_canonical_ascii(encode_directed(m), 1, m.bits.len());
    lemma_text_of_bytes(encode_directed(m));
}

/// What is written for an undirected graph of at most 62 vertices and
/// without self-loops is text that decodes to that graph, strictly too.
pub proof fn lemma_undirected_text_round_trip(m: AdjacencyMatrix, text: Seq<char>)
    requires
        m.is_undirected(),
        m.n <= MAX_ENCODED_SIZE,
        text == text_of(encode_undirected(m)),
    ensures
        encode_utf8(text) == encode_undirected(m),
        decode_undirected(encode_utf8(text)) == Ok::<AdjacencyMatrix, IOError>(m),
        decode_undirected_strict(encode_utf8(text)) == Ok::<AdjacencyMatrix, IOError>(m),
{
    lemma_undirected_round_trip(m);
    lemma_canonical_ascii(encode_undirected(m), 0, triangle_len(m.n));
    lemma_text_of_bytes(encode_undirected(m));
}

/// Text that strict decoding accepts as a directed graph is, character for
/// character, what is written for the graph that it decodes to.
pub proof fn lemma_directed_strict_text(text: Seq<char>)
    requires
        decode_directed_strict(encode_utf8(text)) is Ok,
    ensures
        decode_directed_strict(encode_utf8(text)) == decode_directed(encode_utf8(text)),
        decode_directed(encode_utf8(text))->Ok_0.wf(),
        decode_directed(encode_utf8(text))->Ok_0.n <= MAX_ENCODED_SIZE,
        text_of(encode_directed(decode_directed(encode_utf8(text))->Ok_0)) == text,
{
    let s = encode_utf8(text);
    lemma_directed_canonical_round_trip(s);
    lemma_decode_directed_wf(s);
    lemma_canonical_ascii(s, 1, ((s[1] - BIAS) * (s[1] - BIAS)) as nat);
    lemma_bytes_of_text(text);
}

/// Text that strict decoding accepts as an undirected graph is, character
/// for character, what is written for the graph that it decodes to.
pub proof fn lemma_undirected_strict_text(text: Seq<char>)
    requires
        decode_undirected_strict(encode_utf8(text)) is Ok,
    ensures
        decode_undirected_strict(encode_utf8(text)) == decode_undirected(encode_utf8(text)),
        decode_undirected(encode_utf8(text))->Ok_0.is_undirected(),
        decode_undirected(encode_utf8(text))->Ok_0.n <= MAX_ENCODED_SIZE,
        text_of(encode_undirected(decode_undirected(encode_utf8(text))->Ok_0)) == text,
{
    let s = encode_utf8(text);
    lemma_undirected_canonical_round_trip(s);
    lemma_decode_undirected_wf(s);
    lemma_canonical_ascii(s, 0, triangle_len((s[0] - BIAS) as nat));
    lemma_bytes_of_text(text);
}

/// Round trip of a graph: decoding what is written for a valid graph of at
/// most 62 vertices gives the graph back, its kind as well as its matrix,
/// entry for entry. What is written is canonical, and `text`, which holds
/// its characters, is written as its bytes.
pub proof fn lemma_round_trip(m: AdjacencyMatrix, directed: bool, text: Seq<char>)
    requires
        m.is_graph(directed),
        m.n <= MAX_ENCODED_SIZE,
        text == text_of(encode(m, directed)),
    ensures
        encode_utf8(text) == encode(m, directed),
        has_digraph_header(encode(m, directed)) == directed,
        decode(encode(m, directed)) == Ok::<AdjacencyMatrix, IOError>(m),
        decode_strict(encode(m, directed)) == Ok::<AdjacencyMatrix, IOError>(m),
{
    if directed {
        lemma_directed_text_round_trip(m, text);
    } else {
        lemma_undirected_text_round_trip(m, text);
    }
}

/// Round trip of canonical text: text that strict decoding accepts is,
/// character for character, what is written for the graph that it decodes
/// to, and that graph is valid.
pub proof fn lemma_canonical_round_trip(text: Seq<char>)
    requires
        decode_strict(encode_utf8(text)) is Ok,
    ensures
        decode_strict(encode_utf8(text)) == decode(encode_utf8(text)),
        decode(encode_utf8(text))->Ok_0.is_graph(has_digraph_header(encode_utf8(text))),
        decode(encode_utf8(text))->Ok_0.n <= MAX_ENCODED_SIZE,
        encode(decode(encode_utf8(text))->Ok_0, has_digraph_header(encode_utf8(text)))
            == encode_utf8(text),
        text_of(encode(decode(encode_utf8(text))->Ok_0, has_digraph_header(encode_utf8(text))))
            == text,
{
    if has_digraph_header(encode_utf8(text)) {
        lemma_directed_strict_text(text);
        lemma_directed_canonical_round_trip(encode_utf8(text));
    } else {
        lemma_undirected_strict_text(text);
        lemma_undirected_canonical_round_trip(encode_utf8(text));
    }
}

} // verus!
