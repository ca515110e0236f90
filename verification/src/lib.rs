//! Query execution over a sharded web graph: link lookups, group
//! aggregations and hop distances, with the collectors that rank, bound and
//! deduplicate candidates on the way.

pub mod ampc;
pub mod collector;
pub mod column;
pub mod distances;
pub mod doc_address;
pub mod document_scorer;
pub mod edge;
pub mod error;
pub mod field_metadata;
pub mod filter;
pub mod hashed;
pub mod hyperloglog;
pub mod inbound_similarity;
pub mod index;
pub mod index_query;
pub mod inverted_index;
pub mod index_schema;
pub mod min_queue;
pub mod node;
pub mod ordered_map;
pub mod query;
pub mod range_query;
pub mod ranking;
pub mod schema;
pub mod score;
pub mod scorers;
pub mod search_server;
pub mod searcher;
pub mod segment_component;
pub mod segment_files;
pub mod segment_reader;
pub mod shortest_path;
pub mod text;
pub mod webgraph;
