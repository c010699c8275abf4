//! The exactly specified parts of a physically based ray tracer: reading
//! scene files into scene descriptions, splitting renders into tiles and
//! work items, the preview's first image, sampler bookkeeping, OBJ mesh
//! indexing and slice partitioning.
pub mod util;
pub mod tiles;
pub mod render;
pub mod sampling;
pub mod geometry;
pub mod scene_parser;
pub mod obj;
