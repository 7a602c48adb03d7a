//! Six-bit groups: how a sequence of bits is carried by printable bytes.
//!
//! Every data byte of an encoded graph carries six bits, most significant
//! first, as the byte's value minus [`BIAS`]. A bit sequence whose length is
//! no multiple of six is completed with zero bits, which are no part of the
//! sequence and are dropped again when the bytes are unpacked.

use vstd::prelude::*;

verus! {

/// What is added to a six-bit value to give the printable byte that carries it.
pub const BIAS: u8 = 63;

/// The largest six-bit value.
pub const SEXTET_MAX: u8 = 63;

/// Every entry of `bits` is 0 or 1.
pub open spec fn all_bits(bits: Seq<usize>) -> bool {
    forall|i: int| 0 <= i < bits.len() ==> bits[i] <= 1
}

/// The bytes that can carry six bits: `BIAS` up to `BIAS + SEXTET_MAX`.
pub open spec fn is_data_byte(b: u8) -> bool {
    BIAS <= b <= BIAS + SEXTET_MAX
}

/// The first `count` bytes of `data` can all carry six bits.
pub open spec fn all_data_bytes(data: Seq<u8>, count: nat) -> bool {
    forall|k: int| 0 <= k < count ==> is_data_byte(#[trigger] data[k])
}

/// The bit at position `k` of the six-bit value `v`, position 0 being the
/// most significant, of value 32, and position 5 the least, of value 1.
pub open spec fn sextet_bit(v: int, k: int) -> usize {
    let shifted = if k == 0 {
        v / 32
    } else if k == 1 {
        v / 16
    } else if k == 2 {
        v / 8
    } else if k == 3 {
        v / 4
    } else if k == 4 {
        v / 2
    } else {
        v
    };
    (shifted % 2) as usize
}

/// The bit that the bytes `data` carry at index `i` of the bit stream: bit
/// `i % 6` of byte `i / 6`.
///
/// The definition is opaque, to keep it out of proofs that do not compute
/// bits; `reveal(carried_bit)` where the bits of given bytes are wanted.
#[verifier::opaque]
pub open spec fn carried_bit(data: Seq<u8>, i: int) -> usize {
    sextet_bit(data[i / 6] - BIAS, i % 6)
}

/// The number of bytes that carry `len` bits.
pub open spec fn packed_len(len: nat) -> nat {
    (len + 5) / 6
}

/// The first `len` bits that the bytes `data` carry.
pub open spec fn unpack(data: Seq<u8>, len: nat) -> Seq<usize> {
    Seq::new(len, |i: int| carried_bit(data, i))
}

/// The bits that `data` carries beyond the first `len`, up to the end of the
/// byte that holds the last of them, are all zero.
pub open spec fn zero_padded(data: Seq<u8>, len: nat) -> bool {
    forall|i: int| len <= i < 6 * packed_len(len) ==> #[trigger] carried_bit(data, i) == 0
}

/// Entry `i` of `bits`, and 0 beyond its end: the padding.
pub open spec fn bit_at(bits: Seq<usize>, i: int) -> int {
    if 0 <= i < bits.len() {
        bits[i] as int
    } else {
        0
    }
}

/// The value of the six-bit group number `c` of `bits`.
pub open spec fn sextet(bits: Seq<usize>, c: int) -> int {
    32 * bit_at(bits, 6 * c) + 16 * bit_at(bits, 6 * c + 1) + 8 * bit_at(bits, 6 * c + 2) + 4
        * bit_at(bits, 6 * c + 3) + 2 * bit_at(bits, 6 * c + 4) + bit_at(bits, 6 * c + 5)
}

/// The bytes that carry `bits`, the last group completed with zero bits.
pub open spec fn pack(bits: Seq<usize>) -> Seq<u8> {
    Seq::new(packed_len(bits.len()), |c: int| (sextet(bits, c) + BIAS) as u8)
}

/// `bits` followed by as many zero bits as bring its length to a multiple of six.
pub open spec fn padded(bits: Seq<usize>) -> Seq<usize> {
    Seq::new(6 * packed_len(bits.len()), |i: int| bit_at(bits, i) as usize)
}

/// Unpacking gives as many bits as were asked for, each of them 0 or 1.
pub proof fn lemma_unpack_bits(data: Seq<u8>, len: nat)
    ensures
        unpack(data, len).len() == len,
        all_bits(unpack(data, len)),
{
    reveal(carried_bit);
}

/// A six-bit value is the sum of its bits, each at its place value.
pub proof fn lemma_sextet_bits(v: int)
    requires
        0 <= v < 64,
    ensures
        v == 32 * sextet_bit(v, 0) + 16 * sextet_bit(v, 1) + 8 * sextet_bit(v, 2) + 4 * sextet_bit(
            v,
            3,
        ) + 2 * sextet_bit(v, 4) + sextet_bit(v, 5),
        forall|k: int| 0 <= k < 6 ==> #[trigger] sextet_bit(v, k) <= 1,
{
}

/// The bits of a sum of six bits at their place values are those bits.
pub proof fn lemma_bits_of_sum(b0: int, b1: int, b2: int, b3: int, b4: int, b5: int)
    requires
        0 <= b0 <= 1,
        0 <= b1 <= 1,
        0 <= b2 <= 1,
        0 <= b3 <= 1,
        0 <= b4 <= 1,
        0 <= b5 <= 1,
    ensures
        ({
            let v = 32 * b0 + 16 * b1 + 8 * b2 + 4 * b3 + 2 * b4 + b5;
            &&& 0 <= v < 64
            &&& sextet_bit(v, 0) == b0
            &&& sextet_bit(v, 1) == b1
            &&& sextet_bit(v, 2) == b2
            &&& sextet_bit(v, 3) == b3
            &&& sextet_bit(v, 4) == b4
            &&& sextet_bit(v, 5) == b5
        }),
{
}

/// Every group of a bit sequence has a six-bit value, so every packed byte is
/// a data byte.
pub proof fn lemma_pack_data_bytes(bits: Seq<usize>)
    requires
        all_bits(bits),
    ensures
        pack(bits).len() == packed_len(bits.len()),
        forall|c: int| 0 <= c < packed_len(bits.len()) ==> 0 <= #[trigger] sextet(bits, c) <= SEXTET_MAX,
        forall|c: int|
            0 <= c < packed_len(bits.len()) ==> (#[trigger] pack(bits)[c]) == sextet(bits, c) + BIAS,
        all_data_bytes(pack(bits), packed_len(bits.len())),
{
}

/// Unpacking what was packed gives the bits back, whatever their number.
pub proof fn lemma_unpack_pack(bits: Seq<usize>)
    requires
        all_bits(bits),
    ensures
        unpack(pack(bits), bits.len()) == bits,
        zero_padded(pack(bits), bits.len()),
{
    lemma_pack_data_bytes(bits);
    let data = pack(bits);
    assert forall|i: int| 0 <= i < 6 * packed_len(bits.len()) implies #[trigger] carried_bit(
        data,
        i,
    ) == bit_at(bits, i) by {
        reveal(carried_bit);
        let c = i / 6;
        assert(data[c] == sextet(bits, c) + BIAS);
        lemma_bits_of_sum(
            bit_at(bits, 6 * c),
            bit_at(bits, 6 * c + 1),
            bit_at(bits, 6 * c + 2),
            bit_at(bits, 6 * c + 3),
            bit_at(bits, 6 * c + 4),
            bit_at(bits, 6 * c + 5),
        );
    }
    assert(unpack(data, bits.len()) =~= bits);
}

/// Packing what was unpacked gives the bytes back exactly when all of them
/// are data bytes and the bits beyond the sequence are zero.
pub proof fn lemma_pack_unpack(data: Seq<u8>, len: nat)
    requires
        data.len() == packed_len(len),
    ensures
        pack(unpack(data, len)) == data <==> all_data_bytes(data, packed_len(len)) && zero_padded(
            data,
            len,
        ),
{
    let bits = unpack(data, len);
    if all_data_bytes(data, packed_len(len)) && zero_padded(data, len) {
        assert forall|c: int| 0 <= c < packed_len(len) implies (sextet(bits, c) + BIAS) as u8
            == data[c] by {
            reveal(carried_bit);
            let v = data[c] - BIAS;
            lemma_sextet_bits(v);
            assert(bit_at(bits, 6 * c) == carried_bit(data, 6 * c));
            assert(bit_at(bits, 6 * c + 1) == carried_bit(data, 6 * c + 1));
            assert(bit_at(bits, 6 * c + 2) == carried_bit(data, 6 * c + 2));
            assert(bit_at(bits, 6 * c + 3) == carried_bit(data, 6 * c + 3));
            assert(bit_at(bits, 6 * c + 4) == carried_bit(data, 6 * c + 4));
            assert(bit_at(bits, 6 * c + 5) == carried_bit(data, 6 * c + 5));
        }
        assert(pack(bits) =~= data);
    }
    if pack(bits) == data {
        assert forall|i: int| 0 <= i < len implies (#[trigger] bits[i]) <= 1 by {
            reveal(carried_bit);
            assert(bits[i] == carried_bit(data, i));
        }
        lemma_pack_data_bytes(bits);
        lemma_unpack_pack(bits);
    }
}

/// The zero bits that complete the last group change nothing of what is
/// packed.
pub proof fn lemma_pack_padded(bits: Seq<usize>)
    ensures
        padded(bits).len() == 6 * packed_len(bits.len()),
        all_bits(bits) ==> all_bits(padded(bits)),
        pack(padded(bits)) == pack(bits),
{
    let p = padded(bits);
    assert forall|c: int| 0 <= c < packed_len(bits.len()) implies sextet(p, c) == sextet(
        bits,
        c,
    ) by {
        assert(bit_at(p, 6 * c) == bit_at(bits, 6 * c));
        assert(bit_at(p, 6 * c + 1) == bit_at(bits, 6 * c + 1));
        assert(bit_at(p, 6 * c + 2) == bit_at(bits, 6 * c + 2));
        assert(bit_at(p, 6 * c + 3) == bit_at(bits, 6 * c + 3));
        assert(bit_at(p, 6 * c + 4) == bit_at(bits, 6 * c + 4));
        assert(bit_at(p, 6 * c + 5) == bit_at(bits, 6 * c + 5));
    }
    assert(pack(p) =~= pack(bits));
}

} // verus!
