use graph6_rs::write_graph6;

#[test]
fn test_write_undirected_n2() {
    let bit_vec = vec![0, 1, 1, 0];
    let repr = write_graph6(bit_vec, 2, false);
    assert_eq!(repr, "A_");
}

#[test]
fn test_write_directed_n2_mirror() {
    let bit_vec = vec![0, 1, 1, 0];
    let repr = write_graph6(bit_vec, 2, true);
    assert_eq!(repr, "&AW");
}

#[test]
fn test_write_directed_n2_unmirrored() {
    let bit_vec = vec![0, 0, 1, 0];
    let repr = write_graph6(bit_vec, 2, true);
    assert_eq!(repr, "&AG");
}
