//! Simulation kernel of a turn-based dungeon crawler: an entity-component
//! world, a layered occupancy grid, field of view with memory, and the
//! scheduling of non-player characters.

pub mod behaviour;
pub mod components;
pub mod entity;
pub mod game;
pub mod geometry;
pub mod spatial;
pub mod terrain;
pub mod visibility;
pub mod world;

pub use behaviour::{Agent, Agents, BehaviourContext, NpcAction};
pub use components::{Components, HitPoints, NpcType, Tile};
pub use entity::Allocator;
pub use entity_table::Entity;
pub use game::{EntityToRender, GameState};
pub use geometry::{CardinalDirection, Extent, Point};
pub use spatial::{Layer, Layers, Location, SpatialTable, UpdateError, UpdateLayerError};
pub use terrain::TerrainTile;
pub use visibility::{CellVisibility, VisibilityAlgorithm, VisibilityGrid};
pub use world::{Populate, World};
