//! Reading the size byte, the data bytes and the triangle.

use crate::error::IOError;
use crate::format::{
    decode_bits, decode_size, is_canonical, tail, EXTENDED_SIZE, MAX_ENCODED_SIZE,
};
use crate::matrix::lemma_cell_index;
use crate::packing::{
    all_data_bytes, carried_bit, packed_len, sextet_bit, unpack, zero_padded, BIAS, SEXTET_MAX,
};
use crate::triangle::{collapse, lemma_collapse, lower_rows, triangle_len};
use vstd::prelude::*;

verus! {

/// The bit at position `k` of a six-bit value is what shifting and masking
/// give.
proof fn lemma_shift_mask(v: u8, k: u8)
    requires
        v < 64,
        k < 6,
    ensures
        (v >> ((5 - k) as u8)) & 1 == sextet_bit(v as int, k as int),
{
    assert((v >> 5u8) & 1 == (v / 32) % 2) by (bit_vector);
    assert((v >> 4u8) & 1 == (v / 16) % 2) by (bit_vector);
    assert((v >> 3u8) & 1 == (v / 8) % 2) by (bit_vector);
    assert((v >> 2u8) & 1 == (v / 4) % 2) by (bit_vector);
    assert((v >> 1u8) & 1 == (v / 2) % 2) by (bit_vector);
    assert((v >> 0u8) & 1 == v % 2) by (bit_vector);
}

/// The number of bytes that carry `size` bits.
pub fn packed_size(size: usize) -> (need: usize)
    ensures
        need == packed_len(size as nat),
{
    let rest: usize = size % 6;
    if rest == 0 {
        size / 6
    } else {
        size / 6 + 1
    }
}

/// The number of entries below the diagonal of a matrix of `n` rows.
pub fn triangle_size(n: usize) -> (len: usize)
    requires
        n * (n - 1) <= usize::MAX,
    ensures
        len == triangle_len(n as nat),
{
    if n == 0 {
        0
    } else {
        assert(0 <= n * (n - 1)) by (nonlinear_arith)
            requires
                n >= 1,
        ;
        n * (n - 1) / 2
    }
}

/// Unpacks the `size` bits that `bytes` carries from index `offset` on, six
/// to a byte and the most significant first.
///
/// Bytes behind those that carry the bits are not looked at, nor are the bits
/// that complete the last byte. If `bytes` ends too early the result is
/// `UnexpectedEndOfInput`; else, if one of the bytes read is no data byte,
/// it is `InvalidDataChar`.
pub fn fill_bitvector(bytes: &[u8], size: usize, offset: usize) -> (r: Result<Vec<usize>, IOError>)
    ensures
        (match r {
            Ok(bit_vec) => decode_bits(bytes@, offset as nat, size as nat) == Ok::<
                Seq<usize>,
                IOError,
            >(bit_vec@),
            Err(e) => decode_bits(bytes@, offset as nat, size as nat) == Err::<Seq<usize>, IOError>(
                e,
            ),
        }),
{
    let need: usize = packed_size(size);
    let available: usize = if offset <= bytes.len() {
        bytes.len() - offset
    } else {
        0
    };
    if available < need {
        return Err(IOError::UnexpectedEndOfInput);
    }
    let ghost data = tail(bytes@, offset as nat);
    let mut bit_vec: Vec<usize> = Vec::new();
    let mut k: usize = 0;
    while k < need
        invariant
            need == packed_len(size as nat),
            k <= need,
            need <= available,
            bytes@.len() <= usize::MAX,
            need > 0 ==> offset <= bytes@.len() && available == bytes@.len() - offset,
            data == tail(bytes@, offset as nat),
            all_data_bytes(data, k as nat),
            bit_vec@.len() == if 6 * k <= size {
                6 * k
            } else {
                size as int
            },
            bit_vec@ == unpack(data, bit_vec@.len()),
        decreases need - k,
    {
        let b: u8 = bytes[offset + k];
        assert(b == data[k as int]);
        if b < BIAS || b > BIAS + SEXTET_MAX {
            return Err(IOError::InvalidDataChar);
        }
        let v: u8 = b - BIAS;
        let mut i: u8 = 0;
        while i < 6 && bit_vec.len() < size
            invariant
                i <= 6,
                v < 64,
                k < need,
                k < data.len(),
                need == packed_len(size as nat),
                v == data[k as int] - BIAS,
                bit_vec@.len() == if 6 * k + i <= size {
                    6 * k + i
                } else {
                    size as int
                },
                bit_vec@.len() < size ==> bit_vec@.len() == 6 * k + i,
                bit_vec@ == unpack(data, bit_vec@.len()),
            decreases 6 - i,
        {
            let bit: u8 = (v >> (5 - i)) & 1;
            proof {
                lemma_shift_mask(v, i);
                reveal(carried_bit);
                assert(bit == carried_bit(data, 6 * k + i));
            }
            bit_vec.push(bit as usize);
            assert(bit_vec@ =~= unpack(data, bit_vec@.len()));
            i += 1;
        }
        k += 1;
    }
    assert(bit_vec@.len() == size);
    Ok(bit_vec)
}

/// Tells whether `bytes` is canonical for `size` bits behind `header` bytes:
/// a size byte of at most 62 vertices at index `header`, then exactly the
/// bytes that carry `size` bits, each of them a data byte, with zero bits to
/// complete the last of them.
pub fn check_canonical(bytes: &[u8], header: usize, size: usize) -> (canonical: bool)
    ensures
        canonical == is_canonical(bytes@, header as nat, size as nat),
{
    let need: usize = packed_size(size);
    let len: usize = bytes.len();
    if header >= len || len - header - 1 != need {
        return false;
    }
    let size_char: u8 = bytes[header];
    if size_char < BIAS || size_char - BIAS > MAX_ENCODED_SIZE as u8 {
        return false;
    }
    let ghost data = tail(bytes@, (header + 1) as nat);
    let mut k: usize = 0;
    while k < need
        invariant
            k <= need,
            len == bytes@.len(),
            len == header + 1 + need,
            data == tail(bytes@, (header + 1) as nat),
            all_data_bytes(data, k as nat),
        decreases need - k,
    {
        let b: u8 = bytes[header + 1 + k];
        assert(b == data[k as int]);
        if b < BIAS || b > BIAS + SEXTET_MAX {
            return false;
        }
        k += 1;
    }
    let rest: usize = size % 6;
    if rest != 0 {
        assert(size == 6 * (need - 1) + rest);
        let last_byte: u8 = bytes[header + need];
        assert(last_byte == data[need - 1]);
        let last: u8 = last_byte - BIAS;
        let mut p: u8 = rest as u8;
        while p < 6
            invariant
                rest <= p <= 6,
                rest == size % 6,
                rest != 0,
                last < 64,
                need == packed_len(size as nat),
                size == 6 * (need - 1) + rest,
                data.len() == need,
                data == tail(bytes@, (header + 1) as nat),
                last == data[need - 1] - BIAS,
                forall|i: int| size <= i < 6 * (need - 1) + p ==> #[trigger] carried_bit(data, i) == 0,
            decreases 6 - p,
        {
            let bit: u8 = (last >> (5 - p)) & 1;
            proof {
                lemma_shift_mask(last, p);
                reveal(carried_bit);
                assert(bit == carried_bit(data, 6 * (need - 1) + p));
            }
            if bit != 0 {
                assert(!zero_padded(data, size as nat));
                return false;
            }
            p += 1;
        }
    }
    true
}

/// Reads the number of vertices from the size byte at index `pos` of `bytes`.
///
/// The byte 126 is `GraphTooLarge`, a byte below 63 is `InvalidSizeChar`, and
/// any other byte states its value minus 63. If `bytes` has no byte at `pos`
/// the result is `UnexpectedEndOfInput`.
pub fn get_size(bytes: &[u8], pos: usize) -> (r: Result<usize, IOError>)
    ensures
        r == (if pos < bytes@.len() {
            decode_size(bytes@[pos as int])
        } else {
            Err(IOError::UnexpectedEndOfInput)
        }),
{
    if pos >= bytes.len() {
        return Err(IOError::UnexpectedEndOfInput);
    }
    let size: u8 = bytes[pos];
    if size == EXTENDED_SIZE {
        Err(IOError::GraphTooLarge)
    } else if size < BIAS {
        Err(IOError::InvalidSizeChar)
    } else {
        Ok((size - BIAS) as usize)
    }
}

/// The square of `n`.
pub open spec fn square(n: nat) -> nat {
    n * n
}

/// `v` is the square of some number.
pub open spec fn is_perfect_square(v: nat) -> bool {
    exists|n: nat| #[trigger] square(n) == v
}

/// A number that lies strictly between the square of `r` and the square of
/// `r + 1`, which is `r * r + 2 * r + 1`, is no square.
pub proof fn lemma_between_squares(r: nat, v: nat)
    requires
        r * r < v < r * r + 2 * r + 1,
    ensures
        !is_perfect_square(v),
{
    assert forall|n: nat| #[trigger] square(n) != v by {
        if n <= r {
            assert(n * n <= r * r) by (nonlinear_arith)
                requires
                    n <= r,
            ;
        } else {
            assert(n * n >= r * r + 2 * r + 1) by (nonlinear_arith)
                requires
                    n >= r + 1,
            ;
        }
    }
}

/// The largest number whose square is at most `v`: the square of the next
/// number, which is `r * r + 2 * r + 1`, is above `v`.
pub fn floor_sqrt(v: usize) -> (r: usize)
    ensures
        r * r <= v < r * r + 2 * r + 1,
{
    let target: u128 = v as u128;
    let mut lo: u128 = 0;
    let mut hi: u128 = 0x1_0000_0000;
    assert(target < hi * hi) by (nonlinear_arith)
        requires
            target <= 0xffff_ffff_ffff_ffff,
            hi == 0x1_0000_0000,
    ;
    while hi - lo > 1
        invariant
            lo < hi <= 0x1_0000_0000,
            lo * lo <= target < hi * hi,
            target == v,
        decreases hi - lo,
    {
        let mid: u128 = lo + (hi - lo) / 2;
        assert(mid * mid <= 0x1_0000_0000 * 0x1_0000_0000) by (nonlinear_arith)
            requires
                mid <= 0x1_0000_0000,
        ;
        if mid * mid <= target {
            lo = mid;
        } else {
            hi = mid;
        }
    }
    assert(lo <= lo * lo) by (nonlinear_arith);
    assert(hi * hi == lo * lo + 2 * lo + 1) by (nonlinear_arith)
        requires
            hi == lo + 1,
    ;
    lo as usize
}

/// Collapses an `n` by `n` matrix to its triangle: the entries below the
/// diagonal, row after row.
pub fn upper_triangle(bit_vec: &[usize], n: usize) -> (tri: Vec<usize>)
    requires
        bit_vec@.len() == n * n,
    ensures
        tri@ == collapse(bit_vec@, n as nat),
        tri@.len() == triangle_len(n as nat),
{
    let mut tri: Vec<usize> = Vec::new();
    let mut i: usize = 0;
    let total: usize = bit_vec.len();
    while i < n
        invariant
            i <= n,
            bit_vec@.len() == n * n,
            n * n == total,
            tri@ == lower_rows(bit_vec@, n as nat, i as nat),
        decreases n - i,
    {
        let mut j: usize = 0;
        while j < i
            invariant
                j <= i,
                i < n,
                bit_vec@.len() == n * n,
                n * n == total,
                tri@ == lower_rows(bit_vec@, n as nat, i as nat) + Seq::new(
                    j as nat,
                    |c: int| bit_vec@[i * n + c],
                ),
            decreases i - j,
        {
            proof {
                lemma_cell_index(n as nat, i as int, j as int);
                assert(0 <= i * n) by (nonlinear_arith)
                    requires
                        0 <= i,
                        0 <= n,
                ;
            }
            let idx: usize = i * n + j;
            tri.push(bit_vec[idx]);
            assert(tri@ =~= lower_rows(bit_vec@, n as nat, i as nat) + Seq::new(
                (j + 1) as nat,
                |c: int| bit_vec@[i * n + c],
            ));
            j += 1;
        }
        i += 1;
    }
    proof {
        lemma_collapse(bit_vec@, n as nat);
    }
    tri
}

} // verus!
