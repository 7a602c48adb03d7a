//! Errors reported by the codec.

use vstd::prelude::*;

verus! {

/// The ways in which decoding a string or building a graph can fail.
#[derive(Debug, Clone, Copy, PartialEq, Eq, Structural)]
pub enum IOError {
    /// Directed parsing was asked for, but the string does not start with `&`.
    InvalidDigraphHeader,
    /// The size byte is below the smallest valid size character.
    InvalidSizeChar,
    /// The size byte is the marker of the extended size header, which is not supported.
    GraphTooLarge,
    /// The flattened adjacency matrix does not hold a square number of entries.
    InvalidAdjacencyMatrix,
    /// Strict decoding met an encoding that the encoder would not have produced.
    NonCanonicalEncoding,
    /// The string ends before the bytes that its size byte calls for.
    UnexpectedEndOfInput,
    /// A data byte lies outside the printable range that carries six bits.
    InvalidDataChar,
}

} // verus!
