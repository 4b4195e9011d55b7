//! Data-preparation and GPU-memory backbone of a vector map renderer.
//!
//! Two subsystems make up the core: a staged tile-processing pipeline that
//! turns encoded vector-tile bytes into tessellated, optionally extruded,
//! GPU-ready geometry, and a ring-buffer geometry pool that uploads per-tile
//! vertex and index data into two fixed backing buffers, evicting the oldest
//! entries to make room.

pub mod buffer_pool;
pub mod coords;
pub mod extrusion;
pub mod geometry;
pub mod pipeline;
pub mod tile;
pub mod tile_pipelines;
