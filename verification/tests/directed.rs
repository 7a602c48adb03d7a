use graph6_rs::{DiGraph, GraphConversion, WriteGraph};

#[test]
fn test_header() {
    let repr = b"&AG";
    assert!(DiGraph::valid_digraph(repr).is_ok());
}

#[test]
fn test_invalid_header() {
    let repr = b"AG";
    assert!(DiGraph::valid_digraph(repr).is_err());
}

#[test]
fn directed_test_from_adj() {
    let adj = &[0, 0, 1, 0];
    let graph = DiGraph::from_adj(adj).unwrap();
    assert_eq!(graph.size(), 2);
    assert_eq!(graph.bit_vec(), vec![0, 0, 1, 0]);
    assert_eq!(graph.write_graph(), "&AG");
}

#[test]
fn directed_test_from_nonsquare_adj() {
    let adj = &[0, 0, 1, 0, 1];
    let graph = DiGraph::from_adj(adj);
    assert!(graph.is_err());
}

/// Adjacency matrix:
/// 0 0
/// 1 0
#[test]
fn test_bitvector_n2() {
    let repr = "&AG";
    let graph = DiGraph::from_d6(repr).unwrap();
    assert_eq!(graph.size(), 2);
    assert_eq!(graph.bit_vec(), vec![0, 0, 1, 0]);
}

/// Adjacency matrix:
/// 0 1 1
/// 1 0 1
/// 1 1 0
#[test]
fn test_bitvector_n3() {
    let repr = r"&B\o";
    let graph = DiGraph::from_d6(repr).unwrap();
    assert_eq!(graph.size(), 3);
    assert_eq!(graph.bit_vec(), vec![0, 1, 1, 1, 0, 1, 1, 1, 0]);
}

/// Adjacency matrix:
/// 0 1 1 1
/// 1 0 1 1
/// 1 1 0 1
/// 1 1 1 0
#[test]
fn test_bitvector_n4() {
    let repr = r"&C]|w";
    let graph = DiGraph::from_d6(repr).unwrap();
    assert_eq!(graph.size(), 4);
    assert_eq!(
        graph.bit_vec(),
        vec![0, 1, 1, 1, 1, 0, 1, 1, 1, 1, 0, 1, 1, 1, 1, 0]
    );
}

#[test]
fn test_init_invalid_n2() {
    let repr = "AG";
    let graph = DiGraph::from_d6(repr);
    assert!(graph.is_err());
}

#[test]
fn directed_test_to_adjacency() {
    let repr = r"&C]|w";
    let graph = DiGraph::from_d6(repr).unwrap();
    let adj = graph.to_adjmat();
    assert_eq!(adj, "0 1 1 1\n1 0 1 1\n1 1 0 1\n1 1 1 0\n");
}

#[test]
fn directed_test_to_dot() {
    let repr = r"&AG";
    let graph = DiGraph::from_d6(repr).unwrap();
    let dot = graph.to_dot(None);
    assert_eq!(dot, "digraph {\n1 -> 0;\n}");
}

#[test]
fn test_to_dot_with_id() {
    let repr = r"&AG";
    let graph = DiGraph::from_d6(repr).unwrap();
    let dot = graph.to_dot(Some(1));
    assert_eq!(dot, "digraph graph_1 {\n1 -> 0;\n}");
}

#[test]
fn directed_test_to_net() {
    let repr = r"&AG";
    let graph = DiGraph::from_d6(repr).unwrap();
    let net = graph.to_net();
    assert_eq!(net, "*Vertices 2\n1 \"0\"\n2 \"1\"\n*Arcs\n2 1\n");
}

#[test]
fn directed_test_to_flat() {
    let repr = r"&AG";
    let graph = DiGraph::from_d6(repr).unwrap();
    let flat = graph.to_flat();
    assert_eq!(flat, "0010");
}

#[test]
fn directed_test_write_n2() {
    let repr = r"&AG";
    let graph = DiGraph::from_d6(repr).unwrap();
    let graph6 = graph.write_graph();
    assert_eq!(graph6, repr);
}

#[test]
fn directed_test_write_n3() {
    let repr = r"&B\o";
    let graph = DiGraph::from_d6(repr).unwrap();
    let graph6 = graph.write_graph();
    assert_eq!(graph6, repr);
}

#[test]
fn directed_test_write_n4() {
    let repr = r"&C]|w";
    let graph = DiGraph::from_d6(repr).unwrap();
    let graph6 = graph.write_graph();
    assert_eq!(graph6, repr);
}
