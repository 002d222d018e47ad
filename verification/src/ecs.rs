//! Entities, components, the world that owns them, and queries over it.

pub mod counting;
pub mod entities;
pub mod filter;
pub mod laws;
pub mod model;
pub mod query;
pub mod store;
pub mod types;
pub mod world;
