//! Durable-storage access layer of a time-series storage engine.
//!
//! The library manages how immutable sorted data files ("SSTs") and their
//! secondary index files are written, read and deleted against an object
//! store, and gives the external-sort index builder a keyed scratch-file
//! abstraction that can spill per-column runs and purge them afterwards.
//!
//! The object store itself is a pluggable backend; the library carries a
//! verified in-memory backend against which every path computation, delete
//! ordering, cache update and scratch-file rule is specified and proved.
//! Filesystem-backed provisioning lives outside the library, in the
//! surrounding application code.

pub mod bytes;
pub mod location;
pub mod errors;
pub mod store;
pub mod instrument;
pub mod temp_provider;
pub mod access_layer;
