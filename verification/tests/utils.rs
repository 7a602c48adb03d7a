use graph6_rs::utils::{fill_bitvector, get_size, upper_triangle};
use graph6_rs::IOError;

#[test]
fn test_size_pos_0() {
    let bytes = b"AG";
    let size = get_size(bytes, 0).unwrap();
    assert_eq!(size, 2);
}

#[test]
fn test_size_pos_1() {
    let bytes = b"&AG";
    let size = get_size(bytes, 1).unwrap();
    assert_eq!(size, 2);
}

#[test]
fn test_size_oversize() {
    let bytes = b"~AG";
    let size = get_size(bytes, 0).unwrap_err();
    assert_eq!(size, IOError::GraphTooLarge);
}

#[test]
fn test_size_invalid_size_char() {
    let bytes = b">AG";
    let size = get_size(bytes, 0).unwrap_err();
    assert_eq!(size, IOError::InvalidSizeChar);
}

#[test]
fn test_bitvector() {
    let bytes = b"Bw";
    let n = 3;
    let bit_vec = fill_bitvector(bytes, n * n, 0).unwrap();
    assert_eq!(bit_vec, vec![0, 0, 0, 0, 1, 1, 1, 1, 1]);
}

#[test]
fn test_bitvector_offset() {
    let bytes = b"Bw";
    let n = 2;
    let bit_vec = fill_bitvector(bytes, n * n, 1).unwrap();
    assert_eq!(bit_vec, vec![1, 1, 1, 0]);
}

#[test]
fn test_upper_triangle_n2() {
    let bit_vec = vec![0, 1, 1, 0];
    let tri = upper_triangle(&bit_vec, 2);
    assert_eq!(tri, vec![1]);
}

#[test]
fn test_upper_triangle_n3() {
    let bit_vec = vec![0, 1, 1, 1, 0, 0, 1, 0, 0];
    let tri = upper_triangle(&bit_vec, 3);
    assert_eq!(tri, vec![1, 1, 0]);
}
