//! Query engine and in-memory catalog of a curated image archive: a filter language
//! compiled to parameterised queries, searches and facet aggregation over the catalog,
//! tag replacement, listings, and the decisions behind serving image files.

pub mod catalog;
pub mod error;
pub mod facets;
pub mod files;
pub mod filter;
pub mod laws;
pub mod listing;
pub mod models;
pub mod order;
pub mod sql;
pub mod store;
pub mod tagging;
