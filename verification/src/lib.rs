//! An entity-component-system runtime for a frame-driven engine, together
//! with what the engine works out of the assets, the input and the shader
//! descriptions it is given.
//!
//! `ecs` holds the world: entities, the components attached to them, queries
//! over them, and the purge of transient components at the end of a tick.
//! `types` holds shader descriptions, textures and mesh data; `assetman` reads
//! mesh files; `webgl` and `systems` hold what the renderer decides; `input`
//! tracks the keys that are held down; `text` works on characters.

pub mod assetman;
pub mod ecs;
pub mod input;
pub mod systems;
pub mod text;
pub mod types;
pub mod webgl;
