//! Verified core of a 3D engine: scene bookkeeping and reports, hierarchy
//! update planning, physics bookkeeping (body registry, constraint-graph
//! colouring, sweep and prune, spatial hashing), hot-reload debouncing,
//! input state, and the integer parts of rendering and culling.

pub mod text;
pub mod hierarchy;
pub mod coloring;
pub mod scissor;
pub mod culling;
pub mod profiling;
pub mod mesh_topology;
pub mod dev;
pub mod assets;
pub mod debug_overlay;
pub mod entity;
pub mod spatial_hash;
pub mod broad_phase;
pub mod body_registry;
pub mod hot_reload;
pub mod asset_manager;
pub mod scene;
pub mod census;
pub mod input;
pub mod scene_validation;
pub mod galaxy;
