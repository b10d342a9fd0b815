//! Core logic of a change-data-capture pipeline: it watches a document
//! store's change feed and replicates each change as a row into an
//! append-only analytical table, evolving the destination schema as new
//! fields appear.
//!
//! This crate holds the verified parts: identifier and literal escaping,
//! value encoding, the schema registry, statement construction, and the
//! per-event planning logic. The surrounding process (connections, the
//! change stream, statement execution) lives outside.

pub mod event;
pub mod pipeline;
pub mod schema;
pub mod text;
pub mod value;
