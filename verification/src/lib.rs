//! Chunked voxel terrain around a moving observer.
//!
//! The library covers the parts of a streaming voxel world that carry
//! its correctness arguments: the block registry and the face-culling
//! surface extraction ([`block`], [`chunk`]), the density-driven
//! terrain layering ([`generation`]), and the dependency-aware chunk
//! lifecycle scheduler ([`world`]). Geometry is produced in integer
//! sixteenth-of-a-cell units; sampling the continuous density field,
//! running workers and rendering are left to the surrounding
//! application.
#![verifier::loop_isolation(false)]

pub mod block;
pub mod chunk;
pub mod generation;
pub mod util;
pub mod world;
