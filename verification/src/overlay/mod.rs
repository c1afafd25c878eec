//! Per-transaction staging overlays and how reads see them.
pub mod staged;
pub mod merge;
pub mod graph_staged;
