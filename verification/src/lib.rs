//! Verified core of a GraphQL federation library.

pub mod ast;
pub mod ast_laws;
pub mod built_in;
pub mod collections;
pub mod compiler;
pub mod connectors;
pub mod error;
pub mod fallible;
pub mod link;
pub mod merge;
pub mod number;
pub mod operation;
pub mod query_graph;
pub mod query_plan;
pub mod schema;
pub mod text;
