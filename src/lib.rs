use vstd::prelude::*;

pub mod actions;
pub mod bricks;
pub mod config;
pub mod export;
pub mod files;
pub mod geometry;
pub mod gitlab;
pub mod gltf;
pub mod harbor;
pub mod models;
pub mod tab;
pub mod text;
pub mod uptime;
pub mod vault;
pub mod vertex;
pub mod yaml;
pub mod yaml_value;

verus! {

} // verus!
