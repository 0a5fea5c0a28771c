//! Forward-chaining N3 rule reasoning over an in-memory RDF store.

pub mod binding;
pub mod n3_parser;
pub mod prefix_mapper;
pub mod rdf_store;
pub mod reasoning_store;
pub mod rule;
pub mod rule_index;
pub mod semantics;
pub mod text;
