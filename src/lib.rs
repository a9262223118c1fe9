//! A bidirectional spatial index: every tracked entity has a location, every
//! grid cell records which entity occupies each of its layers, and the two
//! directions are kept in agreement by every operation.

pub use entity_table::Entity;

pub mod geometry;
pub mod layers;
pub mod laws;
pub mod outside;
pub mod table;

pub use geometry::{Coord, Size};
pub use layers::{Layer, Layers, Location};
pub use table::{EntityHasNoCoord, SpatialSerialize, SpatialTable, UpdateError, UpdateLayerError};
