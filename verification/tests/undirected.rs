use graph6_rs::{Graph, GraphConversion, WriteGraph};

#[test]
fn test_graph_n2() {
    let graph = Graph::from_g6("A_").unwrap();
    assert_eq!(graph.size(), 2);
    assert_eq!(graph.bit_vec(), &[0, 1, 1, 0]);
}

#[test]
fn test_graph_n2_empty() {
    let graph = Graph::from_g6("A?").unwrap();
    assert_eq!(graph.size(), 2);
    assert_eq!(graph.bit_vec(), &[0, 0, 0, 0]);
}

#[test]
fn test_graph_n3() {
    let graph = Graph::from_g6("Bw").unwrap();
    assert_eq!(graph.size(), 3);
    assert_eq!(graph.bit_vec(), &[0, 1, 1, 1, 0, 1, 1, 1, 0]);
}

#[test]
fn test_graph_n4() {
    let graph = Graph::from_g6("C~").unwrap();
    assert_eq!(graph.size(), 4);
    assert_eq!(
        graph.bit_vec(),
        &[0, 1, 1, 1, 1, 0, 1, 1, 1, 1, 0, 1, 1, 1, 1, 0]
    );
}

#[test]
fn undirected_test_to_adjacency() {
    let graph = Graph::from_g6("A_").unwrap();
    let adj = graph.to_adjmat();
    assert_eq!(adj, "0 1\n1 0\n");
}

#[test]
fn undirected_test_to_dot() {
    let graph = Graph::from_g6("A_").unwrap();
    let dot = graph.to_dot(None);
    assert_eq!(dot, "graph {\n0 -- 1;\n}");
}

#[test]
fn test_to_dot_with_label() {
    let graph = Graph::from_g6("A_").unwrap();
    let dot = graph.to_dot(Some(1));
    assert_eq!(dot, "graph graph_1 {\n0 -- 1;\n}");
}

#[test]
fn undirected_test_to_net() {
    let repr = r"A_";
    let graph = Graph::from_g6(repr).unwrap();
    let net = graph.to_net();
    assert_eq!(net, "*Vertices 2\n1 \"0\"\n2 \"1\"\n*Arcs\n1 2\n2 1\n");
}

#[test]
fn undirected_test_to_flat() {
    let repr = r"A_";
    let graph = Graph::from_g6(repr).unwrap();
    let flat = graph.to_flat();
    assert_eq!(flat, "0110");
}

#[test]
fn undirected_test_write_n2() {
    let repr = r"A_";
    let graph = Graph::from_g6(repr).unwrap();
    let g6 = graph.write_graph();
    assert_eq!(g6, repr);
}

#[test]
fn undirected_test_write_n3() {
    let repr = r"Bw";
    let graph = Graph::from_g6(repr).unwrap();
    let g6 = graph.write_graph();
    assert_eq!(g6, repr);
}

#[test]
fn undirected_test_write_n4() {
    let repr = r"C~";
    let graph = Graph::from_g6(repr).unwrap();
    let g6 = graph.write_graph();
    assert_eq!(g6, repr);
}

#[test]
fn undirected_test_from_adj() {
    let adj = &[0, 0, 1, 0];
    let graph = Graph::from_adj(adj).unwrap();
    assert_eq!(graph.size(), 2);
    assert_eq!(graph.bit_vec(), &[0, 1, 1, 0]);
    assert_eq!(graph.write_graph(), "A_");
}

#[test]
fn undirected_test_from_nonsquare_adj() {
    let adj = &[0, 0, 1, 0, 1];
    let graph = Graph::from_adj(adj);
    assert!(graph.is_err());
}
