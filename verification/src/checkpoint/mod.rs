//! Checkpoints: how files and directories are named, written and found again.
pub mod encoding;
pub mod files;
pub mod index_key;
pub mod sparse_vector;
pub mod spatial;
pub mod vector;
