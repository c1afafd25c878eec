//! Rebuilding a core's engines from the write-ahead log.
pub mod kv;
pub mod timeseries;
pub mod vector;
pub mod all;
pub mod array;
pub mod crdt;
