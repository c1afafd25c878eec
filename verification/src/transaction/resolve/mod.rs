//! Turning what a committing transaction has staged into one record that a
//! replay of the log repeats.
pub mod entry;
pub mod graph;
pub mod kv;
pub mod record;
pub mod vector;
