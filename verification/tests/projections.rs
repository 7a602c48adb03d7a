use graph6_rs::{DiGraph, Graph, GraphConversion};

#[test]
fn pajek_net_of_one_arc() {
    let graph = DiGraph::from_d6("&AG").unwrap();
    assert_eq!(
        graph.to_net(),
        "*Vertices 2\n1 \"0\"\n2 \"1\"\n*Arcs\n2 1\n"
    );
}

#[test]
fn pajek_net_of_nothing() {
    let graph = Graph::from_g6("?").unwrap();
    assert_eq!(graph.to_net(), "*Vertices 0\n*Arcs\n");
}

#[test]
fn pajek_net_lists_both_directions_of_an_edge() {
    let graph = Graph::from_g6("Bw").unwrap();
    assert_eq!(
        graph.to_net(),
        "*Vertices 3\n1 \"0\"\n2 \"1\"\n3 \"2\"\n*Arcs\n1 2\n1 3\n2 1\n2 3\n3 1\n3 2\n"
    );
}

#[test]
fn numbers_of_several_digits() {
    let graph = DiGraph::from_d6("&K?????????????????????@??").unwrap();
    assert_eq!(graph.n, 12);
    assert_eq!(graph.to_dot(Some(1234567890)), "digraph graph_1234567890 {\n10 -> 11;\n}");
    let net = graph.to_net();
    assert!(net.starts_with("*Vertices 12\n1 \"0\"\n"));
    assert!(net.contains("\n10 \"9\"\n11 \"10\"\n12 \"11\"\n*Arcs\n"));
    assert!(net.ends_with("*Arcs\n11 12\n"));
}

#[test]
fn dot_of_a_graph_without_edges() {
    let graph = Graph::from_g6("A?").unwrap();
    assert_eq!(graph.to_dot(None), "graph {\n}");
    let graph = DiGraph::from_d6("&?").unwrap();
    assert_eq!(graph.to_dot(Some(0)), "digraph graph_0 {\n}");
}

#[test]
fn dot_writes_each_undirected_edge_once() {
    let graph = Graph::from_g6("Bw").unwrap();
    assert_eq!(graph.to_dot(None), "graph {\n0 -- 1;\n0 -- 2;\n1 -- 2;\n}");
}

#[test]
fn dot_writes_each_direction_of_a_directed_graph() {
    let graph = DiGraph::from_d6("&AW").unwrap();
    assert_eq!(graph.to_dot(None), "digraph {\n0 -> 1;\n1 -> 0;\n}");
}

#[test]
fn dot_writes_a_self_loop() {
    let graph = Graph::from_adj(&[1]).unwrap();
    assert_eq!(graph.to_dot(None), "graph {\n0 -- 0;\n}");
    let graph = DiGraph::from_d6("&@_").unwrap();
    assert_eq!(graph.to_dot(None), "digraph {\n0 -> 0;\n}");
}

#[test]
fn dot_edges_appended_to_text() {
    let graph = DiGraph::from_d6("&AG").unwrap();
    let mut text = String::from("edges:");
    graph.to_directed_dot(&mut text, &[0, 1, 1, 1], 2);
    assert_eq!(text, "edges:\n0 -> 1;\n1 -> 0;\n1 -> 1;");
    let mut text = String::from("edges:");
    graph.to_undirected_dot(&mut text, &[0, 1, 1, 1], 2);
    assert_eq!(text, "edges:\n0 -- 1;\n1 -- 1;");
}

#[test]
fn adjacency_text_of_small_graphs() {
    assert_eq!(Graph::from_g6("?").unwrap().to_adjmat(), "");
    assert_eq!(Graph::from_g6("@").unwrap().to_adjmat(), "0\n");
    assert_eq!(
        DiGraph::from_d6("&BP_").unwrap().to_adjmat(),
        "0 1 0\n0 0 1\n1 0 0\n"
    );
}

#[test]
fn adjacency_text_shows_entries_as_they_are() {
    let graph = DiGraph { bit_vec: vec![0, 12, 3, 0], n: 2 };
    assert_eq!(graph.to_adjmat(), "0 12\n3 0\n");
    assert_eq!(graph.to_flat(), "01230");
}

#[test]
fn flat_text_of_small_graphs() {
    assert_eq!(Graph::from_g6("?").unwrap().to_flat(), "");
    assert_eq!(Graph::from_g6("Bw").unwrap().to_flat(), "011101110");
    assert_eq!(DiGraph::from_d6("&BP_").unwrap().to_flat(), "010001100");
}

#[test]
fn accessors_show_the_fields() {
    let graph = DiGraph::from_d6("&AG").unwrap();
    assert_eq!(graph.size(), graph.n);
    assert_eq!(graph.bit_vec(), graph.bit_vec.as_slice());
    assert!(graph.is_directed());
    let graph = Graph::from_g6("A_").unwrap();
    assert_eq!(graph.size(), graph.n);
    assert_eq!(graph.bit_vec(), graph.bit_vec.as_slice());
    assert!(!graph.is_directed());
}
