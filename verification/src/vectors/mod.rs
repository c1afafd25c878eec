//! The vector engine's registry and write handlers.
pub mod registry;
pub mod handlers;
pub mod literal;
pub mod multi;
