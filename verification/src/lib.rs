//! The data plane of one core: transaction overlays, write-ahead-log replay,
//! checkpoints, snapshots and the write handlers, as decisions over plain values.
pub mod checkpoint;
pub mod codec;
pub mod core_loop;
pub mod error;
pub mod held;
pub mod hex;
pub mod ids;
pub mod join_update;
pub mod maps;
pub mod overlay;
pub mod purge;
pub mod replay;
pub mod row_format;
pub mod snapshot;
pub mod sorting;
pub mod spatial;
pub mod spill;
pub mod text;
pub mod timeseries;
pub mod transaction;
pub mod uring;
pub mod vectors;
pub mod wal;
