//! Core of a streaming terrain engine: a bounded, spatially indexed working
//! set of terrain chunks that follows a moving viewpoint.
//!
//! The library covers the pure logic of the engine: chunk-grid indexing, the
//! fixed-capacity slot pool with least-recently-used eviction, the streaming
//! controller that keeps the resident window centred on the viewpoint, frustum
//! plane extraction from a view-projection transform, and the conservative
//! visibility test used to cull draws. GPU work (generation dispatches and
//! draw calls) is described by plain request values that the host executes.

pub mod cache;
pub mod coord;
pub mod frustum;
pub mod presets;
pub mod terrain;
