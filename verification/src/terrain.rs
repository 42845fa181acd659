//! What a terrain generator hands to the world: one tile per cell.

use vstd::prelude::*;
use crate::components::NpcType;

verus! {

/// What a cell of freshly generated terrain holds. Every cell has a floor;
/// a wall, a non-player character or the player stands on it.
#[derive(Clone, Copy, Debug, PartialEq, Eq, Structural)]
pub enum TerrainTile {
    Player,
    Floor,
    Wall,
    Npc(NpcType),
}

/// Whether `terrain` has a player at index `at` and none between there and
/// `end`.
pub open spec fn is_last_player(terrain: Seq<TerrainTile>, at: int, end: int) -> bool {
    &&& 0 <= at < end <= terrain.len()
    &&& terrain[at] == TerrainTile::Player
    &&& forall|j: int| at < j < end ==> terrain[j] != TerrainTile::Player
}

/// Whether `terrain` has its one player at index `at`.
pub open spec fn is_only_player(terrain: Seq<TerrainTile>, at: int) -> bool {
    &&& 0 <= at < terrain.len()
    &&& terrain[at] == TerrainTile::Player
    &&& forall|j: int| 0 <= j < terrain.len() && j != at ==> terrain[j] != TerrainTile::Player
}

/// The number of entities that the first `upto` tiles of `terrain` stand
/// for: a floor for each, and one more where the tile is no bare floor.
pub open spec fn entities_of(terrain: Seq<TerrainTile>, upto: nat) -> nat
    decreases upto,
{
    if upto == 0 {
        0
    } else {
        entities_of(terrain, (upto - 1) as nat) + (if terrain[upto - 1] == TerrainTile::Floor {
            1nat
        } else {
            2nat
        })
    }
}

/// Whether `terrain` has a player before index `end`.
pub open spec fn has_player(terrain: Seq<TerrainTile>, end: int) -> bool {
    exists|at: int| 0 <= at < end && at < terrain.len() && terrain[at] == TerrainTile::Player
}

} // verus!
