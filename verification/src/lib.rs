//! An embedded, single-process, multi-model storage engine.
//!
//! Five first-class primitives — key-value entries, versioned state cells with
//! compare-and-swap, an append-only event log, hierarchical JSON-like
//! documents with path access, and vector collections with similarity
//! search — share one branch-scoped namespace, one write-ahead log and one
//! durability model. Every operation is specified by a functional contract
//! over a mathematical view of the whole engine state.

pub mod common;
pub mod db;
pub mod event;
pub mod json;
pub mod kv;
pub mod laws;
pub mod model;
pub mod numfmt;
pub mod paths;
pub mod schema;
pub mod state;
pub mod table;
pub mod text;
pub mod value;
pub mod wal;
pub mod vector;

pub use common::{DistanceMetric, Durability, StrataError, WalCounters};
pub use db::{BranchData, CellData, Collection, Event, Strata, VectorData, WalRecord};
pub use value::Value;
pub use vector::{CollectionInfo, SearchResult, VectorRecord};
