//! A chunked, palette-compressed voxel storage engine with a deduplicated
//! chunk-generation pipeline.
//!
//! Storage is a three-level hierarchy: a [`section::Section`] packs one scalar
//! channel for a fixed cube of voxels at a variable bit width; a
//! [`subchunk::Subchunk`] groups four lazily allocated channel sections over
//! one vertical slab; a [`chunk::Chunk`] stacks subchunks into a full column;
//! and a [`world::World`] maps two-dimensional chunk positions to chunks and
//! tracks which chunks need a downstream rebuild.

pub mod block;
pub mod chunk;
pub mod generator;
pub mod interaction;
pub mod pipeline;
pub mod position;
pub mod section;
pub mod subchunk;
pub mod world;
