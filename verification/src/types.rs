//! The engine's plain asset types.

pub mod meshdata;
pub mod texture;
pub mod tlu;
