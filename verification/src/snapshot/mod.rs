//! Snapshots of a tenant: what they hold, and how they are installed.
pub mod create;
pub mod keys;
pub mod restore;
pub mod segments;
pub mod tenant;
