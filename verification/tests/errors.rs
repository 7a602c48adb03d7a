use graph6_rs::utils::{fill_bitvector, get_size};
use graph6_rs::{DiGraph, Graph, IOError};

#[test]
fn size_byte_bounds() {
    assert_eq!(get_size(&[126], 0), Err(IOError::GraphTooLarge));
    assert_eq!(get_size(&[62], 0), Err(IOError::InvalidSizeChar));
    assert_eq!(get_size(&[0], 0), Err(IOError::InvalidSizeChar));
    assert_eq!(get_size(&[63], 0), Ok(0));
    assert_eq!(get_size(&[125], 0), Ok(62));
    assert_eq!(get_size(&[64], 0), Ok(1));
    assert_eq!(get_size(&[127], 0), Ok(64));
    assert_eq!(get_size(&[255], 0), Ok(192));
}

#[test]
fn size_byte_that_is_not_there() {
    assert_eq!(get_size(&[], 0), Err(IOError::UnexpectedEndOfInput));
    assert_eq!(get_size(b"AG", 2), Err(IOError::UnexpectedEndOfInput));
    assert_eq!(get_size(b"AG", usize::MAX), Err(IOError::UnexpectedEndOfInput));
    assert_eq!(get_size(b"AG", 1), Ok(8));
}

#[test]
fn missing_header() {
    assert_eq!(
        DiGraph::from_d6("AG").unwrap_err(),
        IOError::InvalidDigraphHeader
    );
    assert_eq!(
        DiGraph::from_d6("").unwrap_err(),
        IOError::InvalidDigraphHeader
    );
    assert_eq!(
        DiGraph::from_d6_strict("A_").unwrap_err(),
        IOError::InvalidDigraphHeader
    );
    assert_eq!(
        DiGraph::valid_digraph(b""),
        Err(IOError::InvalidDigraphHeader)
    );
    assert_eq!(
        DiGraph::valid_digraph(b"A&"),
        Err(IOError::InvalidDigraphHeader)
    );
    assert_eq!(DiGraph::valid_digraph(b"&"), Ok(true));
}

#[test]
fn invalid_size_char() {
    assert_eq!(
        Graph::from_g6(">AG").unwrap_err(),
        IOError::InvalidSizeChar
    );
    assert_eq!(
        Graph::from_g6("&AG").unwrap_err(),
        IOError::InvalidSizeChar
    );
    assert_eq!(
        DiGraph::from_d6("& G").unwrap_err(),
        IOError::InvalidSizeChar
    );
    assert_eq!(
        Graph::from_g6_strict("\n").unwrap_err(),
        IOError::InvalidSizeChar
    );
}

#[test]
fn graph_too_large() {
    assert_eq!(Graph::from_g6("~").unwrap_err(), IOError::GraphTooLarge);
    assert_eq!(
        Graph::from_g6("~??~").unwrap_err(),
        IOError::GraphTooLarge
    );
    assert_eq!(
        DiGraph::from_d6("&~AG").unwrap_err(),
        IOError::GraphTooLarge
    );
    assert_eq!(
        DiGraph::from_d6_strict("&~").unwrap_err(),
        IOError::GraphTooLarge
    );
}

#[test]
fn unexpected_end_of_input() {
    assert_eq!(
        Graph::from_g6("").unwrap_err(),
        IOError::UnexpectedEndOfInput
    );
    assert_eq!(
        Graph::from_g6("A").unwrap_err(),
        IOError::UnexpectedEndOfInput
    );
    assert_eq!(
        Graph::from_g6("F?HC").unwrap_err(),
        IOError::UnexpectedEndOfInput
    );
    assert_eq!(
        DiGraph::from_d6("&").unwrap_err(),
        IOError::UnexpectedEndOfInput
    );
    assert_eq!(
        DiGraph::from_d6("&A").unwrap_err(),
        IOError::UnexpectedEndOfInput
    );
    assert_eq!(
        DiGraph::from_d6("&C]|").unwrap_err(),
        IOError::UnexpectedEndOfInput
    );
    assert_eq!(
        Graph::from_g6_strict("C").unwrap_err(),
        IOError::UnexpectedEndOfInput
    );
}

#[test]
fn end_of_input_is_told_before_a_bad_data_byte() {
    assert_eq!(
        Graph::from_g6("F>").unwrap_err(),
        IOError::UnexpectedEndOfInput
    );
    assert_eq!(
        fill_bitvector(&[10, 63], 18, 0),
        Err(IOError::UnexpectedEndOfInput)
    );
}

#[test]
fn invalid_data_char() {
    assert_eq!(Graph::from_g6("A>").unwrap_err(), IOError::InvalidDataChar);
    assert_eq!(
        Graph::from_g6("A\u{7f}").unwrap_err(),
        IOError::InvalidDataChar
    );
    assert_eq!(
        Graph::from_g6("F?H ?").unwrap_err(),
        IOError::InvalidDataChar
    );
    assert_eq!(
        DiGraph::from_d6("&A\n").unwrap_err(),
        IOError::InvalidDataChar
    );
    assert_eq!(
        DiGraph::from_d6("&C]|\u{e9}").unwrap_err(),
        IOError::InvalidDataChar
    );
    assert_eq!(
        DiGraph::from_d6_strict("&A&").unwrap_err(),
        IOError::InvalidDataChar
    );
    assert_eq!(
        fill_bitvector(&[63, 62], 7, 0),
        Err(IOError::InvalidDataChar)
    );
    assert_eq!(
        fill_bitvector(&[63, 127], 7, 0),
        Err(IOError::InvalidDataChar)
    );
    assert_eq!(fill_bitvector(&[63, 127], 6, 0), Ok(vec![0; 6]));
}

#[test]
fn non_canonical_encoding() {
    assert_eq!(
        Graph::from_g6_strict("A~").unwrap_err(),
        IOError::NonCanonicalEncoding
    );
    assert_eq!(
        Graph::from_g6_strict("A`").unwrap_err(),
        IOError::NonCanonicalEncoding
    );
    assert_eq!(
        Graph::from_g6_strict("A_?").unwrap_err(),
        IOError::NonCanonicalEncoding
    );
    assert_eq!(
        Graph::from_g6_strict("?\n").unwrap_err(),
        IOError::NonCanonicalEncoding
    );
    assert_eq!(
        Graph::from_g6_strict("@?").unwrap_err(),
        IOError::NonCanonicalEncoding
    );
    assert_eq!(
        DiGraph::from_d6_strict("&AL").unwrap_err(),
        IOError::NonCanonicalEncoding
    );
    assert_eq!(
        DiGraph::from_d6_strict("&AH").unwrap_err(),
        IOError::NonCanonicalEncoding
    );
    assert_eq!(
        DiGraph::from_d6_strict("&AG?").unwrap_err(),
        IOError::NonCanonicalEncoding
    );
    assert_eq!(
        DiGraph::from_d6_strict("&B\\p").unwrap_err(),
        IOError::NonCanonicalEncoding
    );
}

#[test]
fn strict_decoding_accepts_what_encoding_writes() {
    let graph = Graph::from_g6_strict("A_").unwrap();
    assert_eq!(graph.bit_vec, vec![0, 1, 1, 0]);
    let graph = DiGraph::from_d6_strict("&AG").unwrap();
    assert_eq!(graph.bit_vec, vec![0, 0, 1, 0]);
    let graph = DiGraph::from_d6_strict("&C]|w").unwrap();
    assert_eq!(graph.n, 4);
    let graph = Graph::from_g6_strict("C~").unwrap();
    assert_eq!(graph.n, 4);
}

#[test]
fn errors_compare_and_copy() {
    let e = IOError::NonCanonicalEncoding;
    let f = e;
    assert_eq!(e, f);
    assert_ne!(e, IOError::UnexpectedEndOfInput);
    assert_ne!(IOError::InvalidDataChar, IOError::InvalidSizeChar);
    assert_eq!(format!("{:?}", IOError::InvalidAdjacencyMatrix), "InvalidAdjacencyMatrix");
}
