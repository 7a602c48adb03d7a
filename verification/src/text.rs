//! Building text: single characters, bytes shown as characters, and numbers
//! in decimal.

use vstd::prelude::*;
use vstd::utf8::{
    encode_utf8, encode_utf8_decode_utf8, is_ascii_chars, is_ascii_chars_encode_utf8,
};

verus! {

/// The characters that stand for the bytes `bytes`, each byte taken as the
/// code of its character.
pub open spec fn text_of(bytes: Seq<u8>) -> Seq<char> {
    Seq::new(bytes.len(), |i: int| bytes[i] as char)
}

/// Each of `bytes` is below 128, and so the code of a character that is
/// written as that one byte.
pub open spec fn all_ascii(bytes: Seq<u8>) -> bool {
    forall|i: int| 0 <= i < bytes.len() ==> bytes[i] < 128
}

/// The text of bytes below 128 is written as those bytes.
pub proof fn lemma_text_of_bytes(bytes: Seq<u8>)
    requires
        all_ascii(bytes),
    ensures
        encode_utf8(text_of(bytes)) == bytes,
{
    let text = text_of(bytes);
    assert(is_ascii_chars(text));
    is_ascii_chars_encode_utf8(text);
    assert forall|i: int| 0 <= i < bytes.len() implies encode_utf8(text)[i] == bytes[i] by {
        assert(text[i] as u8 == encode_utf8(text)[i]);
    }
    assert(encode_utf8(text) =~= bytes);
}

/// Text that is written as bytes below 128 is the text of those bytes.
pub proof fn lemma_bytes_of_text(text: Seq<char>)
    requires
        all_ascii(encode_utf8(text)),
    ensures
        text_of(encode_utf8(text)) == text,
{
    let bytes = encode_utf8(text);
    lemma_text_of_bytes(bytes);
    encode_utf8_decode_utf8(text);
    encode_utf8_decode_utf8(text_of(bytes));
}

/// The character of the decimal digit `d`.
pub open spec fn digit(d: nat) -> char {
    (('0' as u8 + d) as u8) as char
}

/// The number `v` written in decimal, without leading zeros.
pub open spec fn decimal(v: nat) -> Seq<char>
    decreases v,
{
    if v < 10 {
        seq![digit(v)]
    } else {
        decimal(v / 10).push(digit(v % 10))
    }
}

/// Appends the character `c` to `s`.
///
/// This is `String::push` of the standard library, of which it is taken on
/// trust that the string afterwards holds the characters it held before,
/// followed by `c`.
#[verifier::external_body]
pub(crate) fn push_char(s: &mut String, c: char)
    ensures
        final(s)@ == old(s)@.push(c),
{
    s.push(c)
}

/// Appends the number `v`, written in decimal, to `s`.
pub fn push_decimal(s: &mut String, v: usize)
    ensures
        final(s)@ == old(s)@ + decimal(v as nat),
    decreases v,
{
    if v >= 10 {
        push_decimal(s, v / 10);
    }
    let d: u8 = (v % 10) as u8;
    push_char(s, ('0' as u8 + d) as char);
    assert(s@ =~= old(s)@ + decimal(v as nat));
}

} // verus!
