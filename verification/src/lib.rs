//! Verified core of a sparse voxel renderer.
//!
//! The modules hold the data structures, layouts and algorithms of the
//! renderer; windows, devices and floating point live outside this crate.

pub mod binary_chunk;
pub mod bits;
pub mod bytes;
pub mod cascade;
pub mod convert;
pub mod coord;
pub mod frame;
pub mod gpu_laws;
pub mod gpu_layout;
pub mod half;
pub mod ieee;
pub mod load;
pub mod lru;
pub mod materials;
pub mod merge;
pub mod mesh_cpu;
pub mod mesh_laws;
pub mod mesh_layout;
pub mod mesher;
pub mod obj_laws;
pub mod obj_parser;
pub mod occupancy;
pub mod plane;
pub mod pool;
pub mod probe_slot;
pub mod queue;
pub mod residency;
pub mod scene;
pub mod scene_laws;
pub mod slot_directory;
pub mod sparse;
pub mod state;
pub mod summary_cpu;
pub mod text;
pub mod triangle_scan;
pub mod upload;
pub mod voxel_request;
pub mod voxelizer_cpu;
