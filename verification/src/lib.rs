//! Core of a chunked tilemap engine: windowed chunk spawn/despawn around a
//! moving viewpoint, a double-buffered multi-reader event queue, per-topology
//! placement geometry, and dirty-tracked mesh synchronization.
//!
//! The library is pure: it works on explicit data structures (coordinate to
//! chunk map, event queue, version counters). A host loop performs the actual
//! rendering and entity bookkeeping from the values these functions return.

pub mod event;
pub mod geometry;
pub mod system;
pub mod tilemap;
