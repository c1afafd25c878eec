//! Writes inside a transaction, and how they are taken back.
pub mod chain;
pub mod plan;
pub mod point_delete;
pub mod point_put;
pub mod resolve;
pub mod stage_dispatch;
pub mod stage_insert_select;
pub mod stage_kv;
pub mod stage_timeseries;
pub mod stage_write;
pub mod undo;
