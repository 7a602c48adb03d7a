//! Graphs of either kind, told apart by the header of their text.

use crate::conversion::GraphConversion;
use crate::directed::DiGraph;
use crate::error::IOError;
use crate::format::{
    decode, decode_strict, has_digraph_header, DIGRAPH_HEADER, MAX_ENCODED_SIZE,
};
use crate::matrix::AdjacencyMatrix;
use crate::undirected::Graph;
use crate::write::WriteGraph;
use vstd::prelude::*;
use vstd::string::StringSliceAdditionalSpecFns;

verus! {

/// A directed or an undirected graph.
#[derive(Debug)]
pub enum AnyGraph {
    /// A directed graph, whose text begins with `&`.
    Directed(DiGraph),
    /// An undirected graph, whose text begins with its size byte.
    Undirected(Graph),
}

impl View for AnyGraph {
    type V = AdjacencyMatrix;

    open spec fn view(&self) -> AdjacencyMatrix {
        match self {
            AnyGraph::Directed(g) => g@,
            AnyGraph::Undirected(g) => g@,
        }
    }
}

impl AnyGraph {
    /// The graph is well-formed for its kind.
    pub open spec fn wf(&self) -> bool {
        match self {
            AnyGraph::Directed(g) => g.wf(),
            AnyGraph::Undirected(g) => g.wf(),
        }
    }

    /// Decodes a graph from its text: a directed graph, as `DiGraph::from_d6`
    /// does, if the text begins with `&`, and an undirected graph, as
    /// `Graph::from_g6` does, if not.
    pub fn from_text(repr: &str) -> (r: Result<Self, IOError>)
        ensures
            (match r {
                Ok(g) => decode(repr.spec_bytes()) == Ok::<AdjacencyMatrix, IOError>(g@)
                    && g.directed() == has_digraph_header(repr.spec_bytes()) && g.wf()
                    && g@.is_graph(g.directed()),
                Err(e) => decode(repr.spec_bytes()) == Err::<AdjacencyMatrix, IOError>(e),
            }),
    {
        let bytes: &[u8] = repr.as_bytes();
        if bytes.len() > 0 && bytes[0] == DIGRAPH_HEADER {
            match DiGraph::from_d6(repr) {
                Ok(g) => Ok(AnyGraph::Directed(g)),
                Err(e) => Err(e),
            }
        } else {
            match Graph::from_g6(repr) {
                Ok(g) => Ok(AnyGraph::Undirected(g)),
                Err(e) => Err(e),
            }
        }
    }

    /// Decodes a graph from its text as `from_text` does, but accepts
    /// canonical text only, as `DiGraph::from_d6_strict` and
    /// `Graph::from_g6_strict` do.
    pub fn from_text_strict(repr: &str) -> (r: Result<Self, IOError>)
        ensures
            (match r {
                Ok(g) => decode_strict(repr.spec_bytes()) == Ok::<AdjacencyMatrix, IOError>(
                    g@,
                ) && g.directed() == has_digraph_header(repr.spec_bytes()) && g.wf()
                    && g@.is_graph(g.directed()) && g@.n <= MAX_ENCODED_SIZE,
                Err(e) => decode_strict(repr.spec_bytes()) == Err::<AdjacencyMatrix, IOError>(e),
            }),
    {
        let bytes: &[u8] = repr.as_bytes();
        if bytes.len() > 0 && bytes[0] == DIGRAPH_HEADER {
            match DiGraph::from_d6_strict(repr) {
                Ok(g) => Ok(AnyGraph::Directed(g)),
                Err(e) => Err(e),
            }
        } else {
            match Graph::from_g6_strict(repr) {
                Ok(g) => Ok(AnyGraph::Undirected(g)),
                Err(e) => Err(e),
            }
        }
    }
}

impl GraphConversion for AnyGraph {
    open spec fn matrix(&self) -> AdjacencyMatrix {
        self@
    }

    open spec fn directed(&self) -> bool {
        self is Directed
    }

    fn bit_vec(&self) -> (bits: &[usize]) {
        match self {
            AnyGraph::Directed(g) => g.bit_vec.as_slice(),
            AnyGraph::Undirected(g) => g.bit_vec.as_slice(),
        }
    }

    fn size(&self) -> (n: usize) {
        match self {
            AnyGraph::Directed(g) => g.n,
            AnyGraph::Undirected(g) => g.n,
        }
    }

    fn is_directed(&self) -> (d: bool) {
        match self {
            AnyGraph::Directed(_) => true,
            AnyGraph::Undirected(_) => false,
        }
    }
}

impl WriteGraph for AnyGraph {

}

} // verus!
