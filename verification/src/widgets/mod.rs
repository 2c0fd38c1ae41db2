//! Widgets generated from decorator annotations: their values, their
//! configuration, the built-in widget kinds, their metadata and registry.

pub mod traits;
pub mod implementations;
pub mod metadata;
pub mod registry;
pub mod factory;
