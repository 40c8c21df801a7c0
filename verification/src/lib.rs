//! An in-memory, queryable rendering index for a fixed map (lanes,
//! intersections, turns, buildings, parcels, extra shapes, bus stops, areas)
//! overlaid with per-tick dynamic agents.
//!
//! The library builds a spatial index over the bounding boxes of every static
//! drawable, computes deterministic placement offsets for turn icons, caches
//! dynamic agent drawables per road segment for one simulation tick at a
//! time, and merges static and dynamic candidates into one globally ordered
//! draw sequence with early-abort streaming to a caller-supplied consumer.

pub mod cache;
pub mod dispatch;
pub mod drawable;
pub mod drawmap;
pub mod geometry;
pub mod ids;
pub mod model;
pub mod sorting;
pub mod spatial;
pub mod traits;
