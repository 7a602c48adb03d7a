use graph6_rs::utils::check_canonical;
use graph6_rs::{AnyGraph, DiGraph, Graph, GraphConversion, IOError, WriteGraph};

struct Lcg(u64);

impl Lcg {
    fn next(&mut self) -> u64 {
        self.0 = self
            .0
            .wrapping_mul(6364136223846793005)
            .wrapping_add(1442695040888963407);
        self.0 >> 33
    }

    fn below(&mut self, bound: u64) -> u64 {
        self.next() % bound
    }
}

fn some_text(rng: &mut Lcg) -> String {
    let len = rng.below(12) as usize;
    let mut text = String::new();
    if rng.below(3) == 0 {
        text.push('&');
    }
    for k in 0..len {
        let c = if k == 0 {
            match rng.below(8) {
                0 => rng.below(128) as u8,
                _ => 63 + rng.below(8) as u8,
            }
        } else {
            match rng.below(16) {
                0 => rng.below(128) as u8,
                _ => 63 + rng.below(64) as u8,
            }
        };
        text.push(c as char);
    }
    text
}

fn check_graph(matrix: &[usize], n: usize, undirected: bool) {
    assert_eq!(matrix.len(), n * n);
    for i in 0..n {
        for j in 0..n {
            assert!(matrix[i * n + j] <= 1);
            if undirected {
                assert_eq!(matrix[i * n + j], matrix[j * n + i]);
            }
        }
        if undirected {
            assert_eq!(matrix[i * n + i], 0);
        }
    }
}

#[test]
fn decoding_many_texts() {
    let mut rng = Lcg(2024);
    let mut decoded = 0;
    let mut canonical = 0;
    for _ in 0..20000 {
        let text = some_text(&mut rng);
        let lenient = AnyGraph::from_text(&text);
        let strict = AnyGraph::from_text_strict(&text);
        match &lenient {
            Err(e) => {
                assert_ne!(*e, IOError::NonCanonicalEncoding);
                assert_ne!(*e, IOError::InvalidAdjacencyMatrix);
                assert_eq!(strict.as_ref().unwrap_err(), e);
            }
            Ok(graph) => {
                decoded += 1;
                assert_eq!(graph.is_directed(), text.starts_with('&'));
                check_graph(graph.bit_vec(), graph.size(), !graph.is_directed());
                assert!(graph.size() <= 62);
                let written = graph.write_graph();
                match &strict {
                    Ok(same) => {
                        canonical += 1;
                        assert_eq!(same.bit_vec(), graph.bit_vec());
                        assert_eq!(same.size(), graph.size());
                        assert_eq!(written, text);
                    }
                    Err(e) => {
                        assert_eq!(*e, IOError::NonCanonicalEncoding);
                        assert_ne!(written, text);
                    }
                }
                let again = AnyGraph::from_text_strict(&written).unwrap();
                assert_eq!(again.is_directed(), graph.is_directed());
                assert_eq!(again.size(), graph.size());
                assert_eq!(again.bit_vec(), graph.bit_vec());
                assert_eq!(again.write_graph(), written);
            }
        }
        let bytes = text.as_bytes();
        if text.starts_with('&') {
            let one = DiGraph::from_d6(&text);
            assert_eq!(one.is_ok(), lenient.is_ok());
            if let Ok(graph) = one {
                assert_eq!(
                    check_canonical(bytes, 1, graph.n * graph.n),
                    strict.is_ok()
                );
            }
            assert!(Graph::from_g6(&text).is_err());
        } else {
            let one = Graph::from_g6(&text);
            assert_eq!(one.is_ok(), lenient.is_ok());
            if let Ok(graph) = one {
                assert_eq!(
                    check_canonical(bytes, 0, graph.n * graph.n.saturating_sub(1) / 2),
                    strict.is_ok()
                );
            }
            assert_eq!(
                DiGraph::from_d6(&text).unwrap_err(),
                IOError::InvalidDigraphHeader
            );
        }
    }
    assert!(decoded > 1000);
    assert!(canonical > 100);
}

#[test]
fn writing_many_graphs() {
    let mut rng = Lcg(6);
    for _ in 0..300 {
        let n = rng.below(20) as usize;
        let entries: Vec<usize> = (0..n * n).map(|_| rng.below(2) as usize).collect();

        let digraph = DiGraph::from_adj(&entries).unwrap();
        assert_eq!(digraph.n, n);
        assert_eq!(digraph.bit_vec, entries);
        let text = digraph.write_graph();
        assert_eq!(text.len(), 2 + (n * n + 5) / 6);
        assert!(text.bytes().skip(1).all(|b| (63..=126).contains(&b)));
        let back = DiGraph::from_d6_strict(&text).unwrap();
        assert_eq!(back.n, n);
        assert_eq!(back.bit_vec, entries);

        let graph = Graph::from_adj(&entries).unwrap();
        assert_eq!(graph.n, n);
        for i in 0..n {
            for j in 0..n {
                let either = entries[i * n + j] == 1 || entries[j * n + i] == 1;
                assert_eq!(graph.bit_vec[i * n + j], either as usize);
            }
        }
        let text = graph.write_graph();
        assert_eq!(text.len(), 1 + (n * n.saturating_sub(1) / 2 + 5) / 6);
        assert!(text.bytes().all(|b| (63..=126).contains(&b)));
        let back = Graph::from_g6_strict(&text).unwrap();
        assert_eq!(back.n, n);
        for i in 0..n {
            for j in 0..n {
                let expected = if i == j { 0 } else { graph.bit_vec[i * n + j] };
                assert_eq!(back.bit_vec[i * n + j], expected);
            }
        }
    }
}
