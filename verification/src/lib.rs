//! Codec for the graph6 and digraph6 text encodings of graphs.
//!
//! A graph of up to 62 vertices is written as one line of printable
//! characters: a size character, then characters that carry six bits of the
//! adjacency matrix each. [`Graph`] and [`DiGraph`] are decoded from such
//! text and written back to it, and can be shown in other text formats.
//!
//! The modules [`packing`], [`triangle`], [`matrix`] and [`format`] state
//! what the text means; their proof functions are the laws of the codec.

pub mod any_graph;
pub mod conversion;
pub mod directed;
pub mod error;
pub mod format;
pub mod matrix;
pub mod packing;
pub mod text;
pub mod triangle;
pub mod undirected;
pub mod utils;
pub mod write;

pub use any_graph::AnyGraph;
pub use conversion::GraphConversion;
pub use directed::DiGraph;
pub use error::IOError;
pub use undirected::Graph;
pub use write::{write_graph6, WriteGraph};
