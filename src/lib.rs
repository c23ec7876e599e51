//! Turns the entries of an Everquest archive into a labeled asset graph:
//! textures, materials, meshes, primitives and a scene hierarchy per world.

pub mod archive;
pub mod asset;
pub mod label;
pub mod laws;
pub mod texture;
pub mod unique;
pub mod world;
