//! Parsing, validation and serialization for a line-oriented graph notation.
//!
//! The input is a block of text in which every non-blank line declares either
//! a node (one token) or an edge (two or three whitespace-separated tokens).
//! A successful parse fills a [`Graph`] with those entities in input order;
//! serialization turns the graph into a DOT document for an external layout
//! renderer. Token lengths are capped at 10 user-perceived characters
//! (grapheme clusters) and inputs at 50 lines.

pub mod dot;
pub mod graph;
pub mod text;

pub use crate::graph::Edge;
pub use crate::graph::Graph;
pub use crate::graph::GraphSyntaxError;
pub use crate::graph::Node;
pub use crate::text::number_of_lines;
pub use crate::text::true_len;
