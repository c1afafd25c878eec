//! Timeseries collections: ingest, flush and their on-disk partitions.
pub mod ingest;
pub mod line_protocol;
pub mod normalize;
pub mod paths;
pub mod resolve_ingest;
pub mod rls_gate;
pub mod sort;
pub mod state;
