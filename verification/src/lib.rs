//! Relationship graphs over the elements of a software bill of materials:
//! building the graph from a list of relationships, finding a shortest chain of
//! relationships between two elements, and labelling each hop of such a chain.
//! Beside it stands the lookup of license identifiers in a license list.

pub mod digraph;
pub mod error;
pub mod graph;
pub mod license_list;
pub mod relationship;
pub mod text;
pub mod walk;
