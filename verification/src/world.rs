//! The world: every entity's attributes and placement, and the rules by which
//! characters move, fight and die.

use vstd::prelude::*;
use entity_table::Entity;
use crate::components::{Components, ComponentsView, HitPoints, NpcType, Tile, PLAYER_MAX_HIT_POINTS};
use crate::entity::{
    all_live, entity_id, entity_index, is_live, lemma_order_drop, lemma_order_empty,
    lemma_order_put, slot_value, Allocator,
};
use crate::behaviour::{Agent, Agents, NpcAction};
use crate::geometry::{lemma_coord_of_index, lemma_index_in_range, CardinalDirection, Extent, Point};
use crate::terrain::{entities_of, has_player, is_last_player, TerrainTile};
use crate::spatial::{
    lemma_placed_wf, lemma_removed_wf, Layer, Location, SpatialTable, SpatialView, UpdateLayerError,
};

verus! {

/// Opacity of a cell that blocks sight.
pub const OPAQUE: u8 = 255;

/// Opacity of a cell that lets sight through.
pub const TRANSPARENT: u8 = 0;

/// The whole state of a world, as plain maps.
pub ghost struct WorldView {
    /// The live entities: slot to serial number.
    pub live: Map<int, int>,
    /// How many entities were ever created.
    pub issued: int,
    /// How many slots were ever used.
    pub span: int,
    pub components: ComponentsView,
    pub spatial: SpatialView,
}

impl WorldView {
    /// A world with a grid of the given size and nothing in it.
    pub open spec fn empty(size: Extent) -> WorldView {
        WorldView {
            live: Map::empty(),
            issued: 0,
            span: 0,
            components: ComponentsView::empty(),
            spatial: SpatialView::empty(size),
        }
    }

    pub open spec fn size(self) -> Extent {
        self.spatial.size
    }

    pub open spec fn tile_of(self, entity: Entity) -> Option<Tile> {
        slot_value(self.components.tiles, entity)
    }

    pub open spec fn npc_type_of(self, entity: Entity) -> Option<NpcType> {
        slot_value(self.components.npc_types, entity)
    }

    pub open spec fn hit_points_of(self, entity: Entity) -> Option<HitPoints> {
        slot_value(self.components.hit_points, entity)
    }

    pub open spec fn location_of(self, entity: Entity) -> Option<Location> {
        self.spatial.location_of(entity)
    }

    /// The cell `entity` is at, if any.
    pub open spec fn coord_of(self, entity: Entity) -> Option<Point> {
        match self.location_of(entity) {
            Some(location) => Some(location.coord),
            None => None,
        }
    }

    /// The occupant of a layer of a cell; nobody outside the grid.
    pub open spec fn occupant(self, coord: Point, layer: Layer) -> Option<Entity> {
        self.spatial.occupant(coord, layer)
    }

    /// Whether `entity` stands on the character layer of some cell.
    pub open spec fn is_living_character(self, entity: Entity) -> bool {
        self.location_of(entity) matches Some(location) && location.layer == Some(Layer::Character)
    }

    /// Whether `entity` is a non-player character.
    pub open spec fn is_npc(self, entity: Entity) -> bool {
        self.npc_type_of(entity) is Some
    }

    /// Whether a cell is in the grid and holds no feature.
    pub open spec fn is_open(self, coord: Point) -> bool {
        self.size().contains(coord) && self.occupant(coord, Layer::Feature) is None
    }

    /// Whether a cell holds a non-player character on its character layer.
    pub open spec fn holds_npc(self, coord: Point) -> bool {
        self.occupant(coord, Layer::Character) matches Some(entity) && self.is_npc(entity)
    }

    /// How much a cell dims sight: a feature blocks it, anything else does not.
    pub open spec fn opacity_at(self, coord: Point) -> u8 {
        if self.occupant(coord, Layer::Feature) is Some {
            OPAQUE
        } else {
            TRANSPARENT
        }
    }

    /// Whether `entity` has the tile of a living character.
    pub open spec fn has_character_tile(self, entity: Entity) -> bool {
        self.tile_of(entity) matches Some(tile) && tile.is_character()
    }

    /// Every entity on the character layer has the tile of a living character.
    pub open spec fn characters_have_tiles(self) -> bool {
        forall|coord: Point|
            (#[trigger] self.occupant(coord, Layer::Character)) is Some ==> self.has_character_tile(
                self.occupant(coord, Layer::Character)->0,
            )
    }

    /// The invariant of a world. Every live entity has a serial number below
    /// the count of those issued, and a tile. Every entry of every table
    /// belongs to a live entity. At most one entity occupies each layer of
    /// each cell, and the placement of entities agrees with the occupancy of
    /// cells.
    pub open spec fn wf(self) -> bool {
        &&& 0 <= self.issued
        &&& forall|i: int| #[trigger] self.live.contains_key(i) ==> 0 <= i < self.span
        &&& forall|i: int| #[trigger] self.live.contains_key(i) ==> 0 <= self.live[i] < self.issued
        &&& forall|i: int| #[trigger] self.live.contains_key(i) ==> self.components.tiles.contains_key(i)
        &&& all_live(self.components.tiles, self.live)
        &&& all_live(self.components.npc_types, self.live)
        &&& all_live(self.components.hit_points, self.live)
        &&& all_live(self.spatial.locations, self.live)
        &&& self.components.wf()
        &&& self.spatial.wf()
        &&& self.characters_have_tiles()
    }

    /// The row-major index of the cell at which the entity in `slot` is
    /// recorded.
    pub open spec fn cell_of_slot(self, slot: int) -> int {
        self.size().index_of(self.spatial.locations[slot].1.coord)
    }

    /// Whether the entity in `slot` stands on the character layer of a cell
    /// whose terrain tile names a character.
    pub open spec fn is_terrain_character(self, terrain: Seq<TerrainTile>, slot: int) -> bool {
        &&& self.spatial.locations.contains_key(slot)
        &&& self.spatial.locations[slot].1.layer == Some(Layer::Character)
        &&& 0 <= self.cell_of_slot(slot) < terrain.len()
        &&& terrain[self.cell_of_slot(slot)] is Npc || terrain[self.cell_of_slot(slot)] is Player
    }

    /// Whether `order` lists entities that are somewhere, in the order of
    /// their cells, row by row.
    pub open spec fn in_cell_order(self, order: Seq<int>) -> bool {
        &&& forall|p: int| 0 <= p < order.len() ==> self.spatial.locations.contains_key(#[trigger] order[p])
        &&& forall|a: int, b: int|
            0 <= a < b < order.len() ==> self.cell_of_slot(#[trigger] order[a]) < self.cell_of_slot(
                #[trigger] order[b],
            )
    }

    /// Whether `entity` is a non-player character of the given kind at full
    /// health.
    pub open spec fn is_fresh_npc(self, entity: Entity, npc_type: NpcType) -> bool {
        &&& self.tile_of(entity) == Some(Tile::Npc(npc_type))
        &&& self.npc_type_of(entity) == Some(npc_type)
        &&& self.hit_points_of(entity) == Some(
            HitPoints { current: npc_type.spec_max_hit_points(), max: npc_type.spec_max_hit_points() },
        )
    }

    /// Whether `entity` is a player at full health.
    pub open spec fn is_fresh_player(self, entity: Entity) -> bool {
        &&& self.tile_of(entity) == Some(Tile::Player)
        &&& self.npc_type_of(entity) is None
        &&& self.hit_points_of(entity) == Some(
            HitPoints { current: PLAYER_MAX_HIT_POINTS, max: PLAYER_MAX_HIT_POINTS },
        )
    }

    /// Whether no layer of a cell is occupied.
    pub open spec fn cell_is_empty(self, coord: Point) -> bool {
        forall|layer: Layer| (#[trigger] self.occupant(coord, layer)) is None
    }

    /// Whether `entity` has the given tile and nothing else: no kind and no
    /// hit points.
    pub open spec fn is_bare(self, entity: Entity, tile: Tile) -> bool {
        &&& self.tile_of(entity) == Some(tile)
        &&& self.npc_type_of(entity) is None
        &&& self.hit_points_of(entity) is None
    }

    /// Whether every live entity occupies a layer of some cell.
    pub open spec fn all_placed(self) -> bool {
        forall|i: int| #[trigger]
            self.live.contains_key(i) ==> self.spatial.locations.contains_key(i)
                && self.spatial.locations[i].1.layer is Some
    }

    /// Whether no entity was ever removed: the live entities fill the slots
    /// below the count of those issued.
    pub open spec fn none_removed(self) -> bool {
        &&& self.span == self.issued
        &&& forall|i: int| #[trigger] self.live.contains_key(i) <==> 0 <= i < self.issued
    }

    /// Whether a cell holds what a terrain tile stands for, newly made: a
    /// floor in any case, under a wall, a non-player character or the player
    /// where the tile names one, and no corpse. Floors and walls have a tile
    /// and nothing else.
    pub open spec fn cell_holds(self, coord: Point, terrain: TerrainTile) -> bool {
        let floor = self.occupant(coord, Layer::Floor);
        let feature = self.occupant(coord, Layer::Feature);
        let character = self.occupant(coord, Layer::Character);
        &&& floor is Some
        &&& self.is_bare(floor->0, Tile::Floor)
        &&& self.occupant(coord, Layer::Corpse) is None
        &&& match terrain {
            TerrainTile::Floor => feature is None && character is None,
            TerrainTile::Wall => {
                &&& feature is Some
                &&& self.is_bare(feature->0, Tile::Wall)
                &&& character is None
            },
            TerrainTile::Npc(npc_type) => {
                &&& feature is None
                &&& character is Some
                &&& self.is_fresh_npc(character->0, npc_type)
            },
            TerrainTile::Player => {
                &&& feature is None
                &&& character is Some
                &&& self.is_fresh_player(character->0)
            },
        }
    }

    /// This world after the new entity `entity` is put on a layer of a cell
    /// with a tile.
    pub open spec fn with_spawned(self, entity: Entity, coord: Point, layer: Layer, tile: Tile) -> WorldView {
        WorldView {
            live: self.live.insert(entity_index(entity), entity_id(entity)),
            issued: self.issued + 1,
            span: if entity_index(entity) < self.span {
                self.span
            } else {
                self.span + 1
            },
            components: self.components.with_tile(entity, tile),
            spatial: self.spatial.placed(entity, Location { coord, layer: Some(layer) }),
        }
    }

    /// This world with the kind and the hit points of `entity` set.
    pub open spec fn with_stats(self, entity: Entity, npc_type: Option<NpcType>, hit_points: HitPoints) -> WorldView {
        let components = self.components.with_hit_points(entity, hit_points);
        WorldView {
            components: match npc_type {
                Some(npc_type) => components.with_npc_type(entity, npc_type),
                None => components,
            },
            ..self
        }
    }

    /// Whether a new entity can be put on a layer of a cell: the cell is in
    /// the grid, the layer is free there, and the allocator has a serial
    /// number left.
    pub open spec fn can_spawn(self, coord: Point, layer: Layer) -> bool {
        &&& self.issued < u32::MAX
        &&& self.size().contains(coord)
        &&& self.occupant(coord, layer) is None
    }

    /// This world after the living character `entity` dies. A corpse already
    /// in its cell is removed from the world; the character moves to the
    /// corpse layer of the cell, and its tile becomes that of its corpse.
    pub open spec fn died(self, entity: Entity) -> WorldView {
        let coord = self.location_of(entity)->0.coord;
        let cleared = match self.occupant(coord, Layer::Corpse) {
            Some(old_corpse) => self.without_entity(old_corpse),
            None => self,
        };
        WorldView {
            spatial: cleared.spatial.placed(entity, Location { coord, layer: Some(Layer::Corpse) }),
            components: match self.tile_of(entity) {
                Some(tile) => match tile.spec_corpse() {
                    Some(corpse) => cleared.components.with_tile(entity, corpse),
                    None => cleared.components,
                },
                None => cleared.components,
            },
            ..cleared
        }
    }

    /// This world after `victim` takes a bump attack. A living character
    /// with hit points loses one, and dies when none is left. Anyone else
    /// is not harmed: an entity without hit points, a corpse, an entity
    /// that is nowhere.
    pub open spec fn attacked(self, victim: Entity) -> WorldView {
        match self.hit_points_of(victim) {
            Some(hit_points) if self.is_living_character(victim) => {
                let hurt = WorldView {
                    components: self.components.with_hit_points(victim, hit_points.after_hits(1)),
                    ..self
                };
                if hit_points.after_hits(1).is_spent() {
                    hurt.died(victim)
                } else {
                    hurt
                }
            },
            _ => self,
        }
    }

    /// This world after `entity` tries to step in `direction`. Only a living
    /// character moves. A step off the grid does nothing, and neither does
    /// a step onto a feature, whoever stands there. A step onto another
    /// living character is an attack on it if exactly one of the two is a
    /// non-player character, and nothing otherwise. Any other step moves
    /// the character.
    pub open spec fn moved(self, entity: Entity, direction: CardinalDirection) -> WorldView {
        match self.location_of(entity) {
            Some(Location { coord, layer: Some(Layer::Character) }) => {
                let to = coord.stepped(direction);
                if !self.size().contains(to) {
                    self
                } else if self.occupant(to, Layer::Feature) is Some {
                    self
                } else {
                    match self.occupant(to, Layer::Character) {
                        Some(other) => if self.is_npc(entity) != self.is_npc(other) {
                            self.attacked(other)
                        } else {
                            self
                        },
                        None => WorldView {
                            spatial: self.spatial.placed(
                                entity,
                                Location { coord: to, layer: Some(Layer::Character) },
                            ),
                            ..self
                        },
                    }
                }
            },
            _ => self,
        }
    }

    /// Whether `hero` is the only living character that is no non-player
    /// character.
    pub open spec fn sole_hero(self, hero: Entity) -> bool {
        forall|coord: Point|
            (#[trigger] self.occupant(coord, Layer::Character)) is Some && !self.is_npc(
                self.occupant(coord, Layer::Character)->0,
            ) ==> entity_index(self.occupant(coord, Layer::Character)->0) == entity_index(hero)
                && entity_id(self.occupant(coord, Layer::Character)->0) == entity_id(hero)
    }

    /// This world without `entity`: a live entity loses its attributes, its
    /// placement and its slot. A handle that is not live changes nothing.
    pub open spec fn without_entity(self, entity: Entity) -> WorldView {
        if is_live(self.live, entity) {
            WorldView {
                live: self.live.remove(entity_index(entity)),
                components: self.components.without(entity),
                spatial: self.spatial.removed(entity),
                ..self
            }
        } else {
            self
        }
    }
}

/// What populating a world yields besides the world: the player, and an agent
/// for each non-player character.
pub struct Populate {
    pub player_entity: Entity,
    pub ai_state: Agents,
}

/// A world: the entity allocator, the attribute tables and the occupancy
/// index.
pub struct World {
    entity_allocator: Allocator,
    components: Components,
    spatial_table: SpatialTable,
}

impl View for World {
    type V = WorldView;

    closed spec fn view(&self) -> WorldView {
        WorldView {
            live: self.entity_allocator@.live,
            issued: self.entity_allocator@.issued,
            span: self.entity_allocator@.span,
            components: self.components@,
            spatial: self.spatial_table@,
        }
    }
}

impl World {
    /// An empty world with a grid of the given size.
    pub fn new(size: Extent) -> (r: World)
        requires
            size.valid(),
        ensures
            r@ == WorldView::empty(size),
            r@.wf(),
    {
        let world = World {
            entity_allocator: Allocator::new(),
            components: Components::new(),
            spatial_table: SpatialTable::new(size),
        };
        proof {
            assert(world@.components.tile_order.no_duplicates());
            assert forall|i: int| #[trigger] world@.components.tile_order.contains(i) <==> world@.components.tiles.contains_key(i) by {
                if world@.components.tile_order.contains(i) {
                    let k = choose|k: int| 0 <= k < world@.components.tile_order.len() && world@.components.tile_order[k] == i;
                }
            }
        }
        world
    }

    /// The size of the grid.
    pub fn size(&self) -> (r: Extent)
        ensures
            r == self@.size(),
    {
        self.spatial_table.grid_size()
    }

    /// The attribute tables.
    pub fn components(&self) -> (r: &Components)
        ensures
            r@ == self@.components,
    {
        &self.components
    }

    /// The occupancy index.
    pub fn spatial_table(&self) -> (r: &SpatialTable)
        ensures
            r@ == self@.spatial,
    {
        &self.spatial_table
    }

    /// Whether a non-player character may enter a cell, other characters
    /// aside: the cell is in the grid and holds no feature.
    pub fn can_npc_enter_ignoring_other_npcs(&self, coord: Point) -> (r: bool)
        ensures
            r == self@.is_open(coord),
    {
        match self.spatial_table.layers_at(coord) {
            Some(layers) => layers.feature.is_none(),
            None => false,
        }
    }

    /// Whether a non-player character may enter a cell: the cell is in the
    /// grid and holds neither a feature nor another non-player character.
    pub fn can_npc_enter(&self, coord: Point) -> (r: bool)
        ensures
            r == (self@.is_open(coord) && !self@.holds_npc(coord)),
    {
        match self.spatial_table.layers_at(coord) {
            Some(layers) => {
                let contains_npc = match layers.character {
                    Some(entity) => self.components.npc_type(entity).is_some(),
                    None => false,
                };
                let contains_feature = layers.feature.is_some();
                !(contains_npc || contains_feature)
            },
            None => false,
        }
    }

    /// Whether a non-player character can see through a cell: the cell is in
    /// the grid and holds no feature.
    pub fn can_npc_see_through_cell(&self, coord: Point) -> (r: bool)
        ensures
            r == self@.is_open(coord),
    {
        match self.spatial_table.layers_at(coord) {
            Some(layers) => layers.feature.is_none(),
            None => false,
        }
    }

    /// The cell `entity` is at, if any.
    pub fn entity_coord(&self, entity: Entity) -> (r: Option<Point>)
        ensures
            r == self@.coord_of(entity),
    {
        self.spatial_table.coord_of(entity)
    }

    /// Whether `entity` stands on the character layer, which is where the
    /// living are.
    pub fn is_living_character(&self, entity: Entity) -> (r: bool)
        ensures
            r == self@.is_living_character(entity),
    {
        match self.spatial_table.layer_of(entity) {
            Some(Layer::Character) => true,
            _ => false,
        }
    }

    /// How much a cell dims sight: 255 where a feature stands, 0 elsewhere
    /// and outside the grid.
    pub fn opacity_at(&self, coord: Point) -> (r: u8)
        ensures
            r == self@.opacity_at(coord),
    {
        if self.spatial_table.layers_at_checked(coord).feature.is_some() {
            OPAQUE
        } else {
            TRANSPARENT
        }
    }

    /// Creates an entity with a tile on a free layer of a cell.
    fn spawn(&mut self, coord: Point, layer: Layer, tile: Tile) -> (entity: Entity)
        requires
            old(self)@.wf(),
            old(self)@.can_spawn(coord, layer),
            layer == Layer::Character ==> tile.is_character(),
        ensures
            entity_id(entity) == old(self)@.issued,
            !old(self)@.live.contains_key(entity_index(entity)),
            final(self)@ == old(self)@.with_spawned(entity, coord, layer, tile),
            final(self)@.wf(),
    {
        let entity = self.entity_allocator.allocate();
        let location = Location { coord, layer: Some(layer) };
        proof {
            lemma_with_spawned_wf(old(self)@, entity, coord, layer, tile);
        }
        let placed = self.spatial_table.update(entity, location);
        assert(placed is Ok);
        self.components.set_tile(entity, tile);
        entity
    }

    /// Lays a floor in a cell.
    pub fn spawn_floor(&mut self, coord: Point) -> (entity: Entity)
        requires
            old(self)@.wf(),
            old(self)@.can_spawn(coord, Layer::Floor),
        ensures
            entity_id(entity) == old(self)@.issued,
            !old(self)@.live.contains_key(entity_index(entity)),
            final(self)@ == old(self)@.with_spawned(entity, coord, Layer::Floor, Tile::Floor),
            final(self)@.wf(),
    {
        self.spawn(coord, Layer::Floor, Tile::Floor)
    }

    /// Builds a wall in a cell, as its feature.
    pub fn spawn_wall(&mut self, coord: Point) -> (entity: Entity)
        requires
            old(self)@.wf(),
            old(self)@.can_spawn(coord, Layer::Feature),
        ensures
            entity_id(entity) == old(self)@.issued,
            !old(self)@.live.contains_key(entity_index(entity)),
            final(self)@ == old(self)@.with_spawned(entity, coord, Layer::Feature, Tile::Wall),
            final(self)@.wf(),
    {
        self.spawn(coord, Layer::Feature, Tile::Wall)
    }

    /// Puts a non-player character of the given kind in a cell, at full
    /// health: 2 hit points for an orc, 6 for a troll.
    pub fn spawn_npc(&mut self, coord: Point, npc_type: NpcType) -> (entity: Entity)
        requires
            old(self)@.wf(),
            old(self)@.can_spawn(coord, Layer::Character),
        ensures
            entity_id(entity) == old(self)@.issued,
            !old(self)@.live.contains_key(entity_index(entity)),
            final(self)@ == old(self)@.with_spawned(
                entity,
                coord,
                Layer::Character,
                Tile::Npc(npc_type),
            ).with_stats(
                entity,
                Some(npc_type),
                HitPoints { current: npc_type.spec_max_hit_points(), max: npc_type.spec_max_hit_points() },
            ),
            final(self)@.wf(),
    {
        let entity = self.spawn(coord, Layer::Character, Tile::Npc(npc_type));
        self.components.set_npc_type(entity, npc_type);
        self.components.set_hit_points(entity, HitPoints::new_full(npc_type.max_hit_points()));
        proof {
            lemma_with_stats_wf(
                old(self)@.with_spawned(entity, coord, Layer::Character, Tile::Npc(npc_type)),
                entity,
                Some(npc_type),
                HitPoints { current: npc_type.spec_max_hit_points(), max: npc_type.spec_max_hit_points() },
            );
        }
        entity
    }

    /// Puts the player in a cell, with 20 hit points.
    pub fn spawn_player(&mut self, coord: Point) -> (entity: Entity)
        requires
            old(self)@.wf(),
            old(self)@.can_spawn(coord, Layer::Character),
        ensures
            entity_id(entity) == old(self)@.issued,
            !old(self)@.live.contains_key(entity_index(entity)),
            final(self)@ == old(self)@.with_spawned(entity, coord, Layer::Character, Tile::Player).with_stats(
                entity,
                None,
                HitPoints { current: PLAYER_MAX_HIT_POINTS, max: PLAYER_MAX_HIT_POINTS },
            ),
            final(self)@.wf(),
    {
        let entity = self.spawn(coord, Layer::Character, Tile::Player);
        self.components.set_hit_points(entity, HitPoints::new_full(PLAYER_MAX_HIT_POINTS));
        proof {
            lemma_with_stats_wf(
                old(self)@.with_spawned(entity, coord, Layer::Character, Tile::Player),
                entity,
                None,
                HitPoints { current: PLAYER_MAX_HIT_POINTS, max: PLAYER_MAX_HIT_POINTS },
            );
        }
        entity
    }

    /// The living character `entity` dies. A corpse already in its cell is
    /// removed from the world, so that a cell never holds two; the character
    /// moves to the corpse layer of its cell, and its tile becomes that of
    /// its corpse.
    pub fn character_die(&mut self, entity: Entity)
        requires
            old(self)@.wf(),
            old(self)@.is_living_character(entity),
        ensures
            final(self)@ == old(self)@.died(entity),
            final(self)@.wf(),
    {
        proof {
            lemma_died_wf(old(self)@, entity);
        }
        let first = self.spatial_table.update_layer(entity, Layer::Corpse);
        if let Err(UpdateLayerError::OccupiedBy(old_corpse)) = first {
            proof {
                assert(old(self)@.spatial.occupant(old(self)@.location_of(entity)->0.coord, Layer::Corpse) == Some(old_corpse));
            }
            self.remove_entity(old_corpse);
            let second = self.spatial_table.update_layer(entity, Layer::Corpse);
            assert(second is Ok);
        }
        if let Some(tile) = self.components.tile(entity) {
            if let Some(corpse) = tile.corpse() {
                self.components.set_tile(entity, corpse);
            }
        }
    }

    /// `victim` takes a bump attack. It costs a living character one hit
    /// point, down to none; with none left it dies. A victim without hit
    /// points is not harmed, and neither is one that is no living character.
    pub fn character_bump_attack(&mut self, victim: Entity)
        requires
            old(self)@.wf(),
        ensures
            final(self)@ == old(self)@.attacked(victim),
            final(self)@.wf(),
    {
        if !self.is_living_character(victim) {
            return ;
        }
        if let Some(hit_points) = self.components.hit_points(victim) {
            let left = hit_points.hit();
            self.components.set_hit_points(victim, left);
            proof {
                assert(old(self)@.spatial.locations.contains_key(entity_index(victim)));
                lemma_with_stats_wf(old(self)@, victim, None, left);
            }
            if left.current == 0 {
                self.character_die(victim);
            }
        }
    }

    /// `entity` tries to step in `direction`. Only a living character moves.
    /// A step off the grid does nothing, and neither does a step onto a
    /// feature, whoever stands there. A step onto another living character
    /// attacks it if exactly one of the two is a non-player character, and
    /// does nothing otherwise. Any other step moves the character to the next
    /// cell.
    pub fn maybe_move_character(&mut self, entity: Entity, direction: CardinalDirection)
        requires
            old(self)@.wf(),
        ensures
            final(self)@ == old(self)@.moved(entity, direction),
            final(self)@.wf(),
    {
        let from = match self.spatial_table.location_of(entity) {
            Some(Location { coord, layer: Some(Layer::Character) }) => coord,
            _ => {
                return ;
            },
        };
        proof {
            assert(self@.spatial.locations.contains_key(entity_index(entity)));
            assert(self@.size().contains(from));
        }
        let to = match from.step(direction) {
            Some(to) => to,
            None => {
                return ;
            },
        };
        if !to.is_valid(self.spatial_table.grid_size()) {
            return ;
        }
        let layers = self.spatial_table.layers_at_checked(to);
        assert(layers.slot(Layer::Character) == self@.occupant(to, Layer::Character));
        assert(layers.slot(Layer::Feature) == self@.occupant(to, Layer::Feature));
        if layers.feature.is_some() {
            return ;
        }
        if let Some(other) = layers.character {
            let entity_is_npc = self.components.npc_type(entity).is_some();
            let other_is_npc = self.components.npc_type(other).is_some();
            if entity_is_npc != other_is_npc {
                self.character_bump_attack(other);
            }
        } else {
            proof {
                lemma_placed_wf(
                    self@.spatial,
                    entity,
                    Location { coord: to, layer: Some(Layer::Character) },
                );
                lemma_relocated_wf(self@, entity, to);
            }
            let moved = self.spatial_table.update_coord(entity, to);
            assert(moved is Ok);
        }
    }

    /// Fills an empty world from generated terrain, which has one tile for
    /// each cell, row by row. Every cell gets a floor; a wall, a non-player
    /// character or the player is put on it where the tile names one. Each
    /// non-player character gets an agent. The terrain must hold a player;
    /// where it holds several, the last is returned.
    pub fn populate(&mut self, terrain: &Vec<TerrainTile>) -> (r: Populate)
        requires
            old(self)@ == WorldView::empty(old(self)@.size()),
            old(self)@.wf(),
            terrain@.len() == old(self)@.size().cells(),
            has_player(terrain@, terrain@.len() as int),
        ensures
            final(self)@.wf(),
            final(self)@.size() == old(self)@.size(),
            forall|k: int|
                0 <= k < terrain@.len() ==> final(self)@.cell_holds(
                    #[trigger] old(self)@.size().coord_of(k),
                    terrain@[k],
                ),
            forall|p: int|
                is_last_player(terrain@, p, terrain@.len() as int) ==> final(self)@.occupant(
                    #[trigger] old(self)@.size().coord_of(p),
                    Layer::Character,
                ) == Some(r.player_entity),
            r.ai_state@.wf(),
            all_live(r.ai_state@.slots, final(self)@.live),
            forall|i: int| #[trigger]
                r.ai_state@.slots.contains_key(i) ==> final(self)@.components.npc_types.contains_key(i),
            forall|k: int|
                0 <= k < terrain@.len() && terrain@[k] is Npc ==> r.ai_state@.agent_of(
                    final(self)@.occupant(#[trigger] old(self)@.size().coord_of(k), Layer::Character)->0,
                ) == Some(Agent { last_action: NpcAction::Wait }),
            final(self)@.in_cell_order(r.ai_state@.order),
            final(self)@.all_placed(),
            final(self)@.none_removed(),
            final(self)@.issued == entities_of(terrain@, terrain@.len()),
            forall|i: int| #[trigger]
                final(self)@.components.npc_types.contains_key(i) ==> r.ai_state@.slots.contains_key(i),
            forall|i: int| #[trigger]
                final(self)@.components.npc_types.contains_key(i) ==> final(self)@.is_terrain_character(
                    terrain@,
                    i,
                ) && terrain@[final(self)@.cell_of_slot(i)] is Npc,
            forall|i: int| #[trigger]
                final(self)@.components.hit_points.contains_key(i) ==> final(self)@.is_terrain_character(
                    terrain@,
                    i,
                ),
    {
        let size = self.spatial_table.grid_size();
        let count = size.count();
        let mut player: Option<Entity> = None;
        let mut ai_state = Agents::new();
        let mut k: usize = 0;
        proof {
            assert forall|j: int| 0 <= j < count implies self@.cell_is_empty(#[trigger] size.coord_of(j)) by {
                assert forall|layer: Layer| (#[trigger] self@.occupant(size.coord_of(j), layer)) is None by {}
            }
            lemma_order_empty::<Agent>();
        }
        while k < count
            invariant
                self@.wf(),
                self@.size() == size,
                size.valid(),
                count == size.cells(),
                count == terrain@.len(),
                k <= count,
                0 <= self@.issued <= 2 * k,
                self@.issued == entities_of(terrain@, k as nat),
                self@.all_placed(),
                self@.none_removed(),
                forall|j: int| 0 <= j < k ==> self@.cell_holds(#[trigger] size.coord_of(j), terrain@[j]),
                forall|j: int| k <= j < count ==> self@.cell_is_empty(#[trigger] size.coord_of(j)),
                player is Some <==> has_player(terrain@, k as int),
                forall|p: int|
                    is_last_player(terrain@, p, k as int) ==> self@.occupant(
                        #[trigger] size.coord_of(p),
                        Layer::Character,
                    ) == player,
                ai_state@.wf(),
                all_live(ai_state@.slots, self@.live),
                self@.in_cell_order(ai_state@.order),
                forall|p: int|
                    0 <= p < ai_state@.order.len() ==> self@.cell_of_slot(#[trigger] ai_state@.order[p]) < k,
                forall|i: int| #[trigger]
                    ai_state@.slots.contains_key(i) ==> self@.components.npc_types.contains_key(i),
                forall|j: int|
                    0 <= j < k && terrain@[j] is Npc ==> ai_state@.agent_of(
                        self@.occupant(#[trigger] size.coord_of(j), Layer::Character)->0,
                    ) == Some(Agent { last_action: NpcAction::Wait }),
            decreases count - k,
        {
            let coord = size.coord_at(k);
            let tile = terrain[k];
            let ghost before = self@;
            let ghost agents_before = ai_state@;
            proof {
                assert(before.cell_is_empty(size.coord_of(k as int)));
                assert(before.occupant(coord, Layer::Floor) is None);
                assert(before.occupant(coord, Layer::Feature) is None);
                assert(before.occupant(coord, Layer::Character) is None);
                assert(before.occupant(coord, Layer::Corpse) is None);
            }
            match tile {
                TerrainTile::Floor => {
                    let floor = self.spawn_floor(coord);
                    proof {
                        lemma_spawn_frame(before, floor, coord, Layer::Floor, Tile::Floor);
                    }
                },
                TerrainTile::Npc(npc_type) => {
                    let npc = self.spawn_npc(coord, npc_type);
                    let ghost between = self@;
                    proof {
                        lemma_spawn_frame(before, npc, coord, Layer::Character, Tile::Npc(npc_type));
                    }
                    let floor = self.spawn_floor(coord);
                    proof {
                        lemma_spawn_frame(between, floor, coord, Layer::Floor, Tile::Floor);
                        lemma_order_put(agents_before.order, agents_before.slots, entity_index(npc), (entity_id(npc), Agent { last_action: NpcAction::Wait }));
                        assert(grown_at(before, between, coord));
                        lemma_grown_twice(before, between, self@, coord);
                    }
                    ai_state.insert(npc, Agent::new());
                },
                TerrainTile::Player => {
                    let floor = self.spawn_floor(coord);
                    let ghost between = self@;
                    proof {
                        lemma_spawn_frame(before, floor, coord, Layer::Floor, Tile::Floor);
                    }
                    let hero = self.spawn_player(coord);
                    proof {
                        lemma_spawn_frame(between, hero, coord, Layer::Character, Tile::Player);
                        assert(grown_at(between, self@, coord));
                        lemma_grown_twice(before, between, self@, coord);
                    }
                    player = Some(hero);
                },
                TerrainTile::Wall => {
                    let floor = self.spawn_floor(coord);
                    let ghost between = self@;
                    proof {
                        lemma_spawn_frame(before, floor, coord, Layer::Floor, Tile::Floor);
                    }
                    let wall = self.spawn_wall(coord);
                    proof {
                        lemma_spawn_frame(between, wall, coord, Layer::Feature, Tile::Wall);
                        lemma_grown_twice(before, between, self@, coord);
                    }
                },
            }
            proof {
                let after = self@;
                assert(grown_at(before, after, coord));
                assert(after.cell_holds(coord, tile));
                lemma_coord_of_index(size, k as int);
                assert(after.all_placed()) by {
                    assert forall|i: int| #[trigger] after.live.contains_key(i) implies after.spatial.locations.contains_key(
                        i,
                    ) && after.spatial.locations[i].1.layer is Some by {
                        if before.live.contains_key(i) {
                            assert(before.spatial.locations.contains_key(i));
                        }
                    }
                }
                assert(after.issued == entities_of(terrain@, (k + 1) as nat));
                assert forall|p: int| 0 <= p < ai_state@.order.len() implies after.spatial.locations.contains_key(
                    #[trigger] ai_state@.order[p],
                ) && after.cell_of_slot(ai_state@.order[p]) < k + 1 by {
                    if p < agents_before.order.len() {
                        let slot = agents_before.order[p];
                        assert(ai_state@.order[p] == slot);
                        assert(agents_before.order.contains(slot));
                        assert(agents_before.slots.contains_key(slot));
                        assert(before.live.contains_key(slot));
                        assert(before.spatial.locations.contains_key(slot));
                    } else {
                        let character = after.occupant(coord, Layer::Character)->0;
                        assert(after.spatial.location_of(character) is Some);
                    }
                }
                assert forall|a: int, b: int| 0 <= a < b < ai_state@.order.len() implies after.cell_of_slot(
                    #[trigger] ai_state@.order[a],
                ) < after.cell_of_slot(#[trigger] ai_state@.order[b]) by {
                    let first = agents_before.order[a];
                    assert(ai_state@.order[a] == first);
                    assert(agents_before.order.contains(first));
                    assert(agents_before.slots.contains_key(first));
                    assert(before.live.contains_key(first));
                    assert(before.cell_of_slot(first) < k);
                    if b < agents_before.order.len() {
                        let second = agents_before.order[b];
                        assert(ai_state@.order[b] == second);
                        assert(agents_before.order.contains(second));
                        assert(agents_before.slots.contains_key(second));
                        assert(before.live.contains_key(second));
                    } else {
                        let character = after.occupant(coord, Layer::Character)->0;
                        assert(after.spatial.location_of(character) is Some);
                    }
                }
                assert forall|j: int| 0 <= j < k implies after.cell_holds(#[trigger] size.coord_of(j), terrain@[j]) by {
                    lemma_coord_of_index(size, j);
                    lemma_coord_of_index(size, k as int);
                    let at = size.coord_of(j);
                    assert(at != coord);
                    assert(before.cell_holds(at, terrain@[j]));
                    lemma_cell_kept(before, after, at, terrain@[j]);
                }
                assert forall|j: int| k + 1 <= j < count implies after.cell_is_empty(#[trigger] size.coord_of(j)) by {
                    lemma_coord_of_index(size, j);
                    lemma_coord_of_index(size, k as int);
                    let at = size.coord_of(j);
                    assert(at != coord);
                    assert(before.cell_is_empty(at));
                    assert forall|layer: Layer| (#[trigger] after.occupant(at, layer)) is None by {
                        assert(before.occupant(at, layer) is None);
                    }
                }
                assert forall|p: int| is_last_player(terrain@, p, k as int + 1) implies after.occupant(
                    #[trigger] size.coord_of(p),
                    Layer::Character,
                ) == player by {
                    if p < k {
                        assert(is_last_player(terrain@, p, k as int));
                        lemma_coord_of_index(size, p);
                        lemma_coord_of_index(size, k as int);
                        assert(size.coord_of(p) != coord);
                    }
                }
                if has_player(terrain@, k as int + 1) {
                    let at = choose|at: int| 0 <= at < k as int + 1 && at < terrain@.len() && terrain@[at] == TerrainTile::Player;
                    if at < k {
                        assert(has_player(terrain@, k as int));
                    }
                }
                if has_player(terrain@, k as int) {
                    let at = choose|at: int| 0 <= at < k as int && at < terrain@.len() && terrain@[at] == TerrainTile::Player;
                    assert(has_player(terrain@, k as int + 1));
                }
                if tile == TerrainTile::Player {
                    assert(terrain@[k as int] == TerrainTile::Player);
                    assert(has_player(terrain@, k as int + 1));
                }
                assert forall|j: int|
                    0 <= j < k + 1 && terrain@[j] is Npc implies ai_state@.agent_of(
                    after.occupant(#[trigger] size.coord_of(j), Layer::Character)->0,
                ) == Some(Agent { last_action: NpcAction::Wait }) by {
                    if j < k {
                        lemma_coord_of_index(size, j);
                        lemma_coord_of_index(size, k as int);
                        let at = size.coord_of(j);
                        assert(at != coord);
                        assert(before.cell_holds(at, terrain@[j]));
                        let other = before.occupant(at, Layer::Character)->0;
                        assert(after.occupant(at, Layer::Character) == Some(other));
                        assert(before.spatial.location_of(other) is Some);
                        assert(before.spatial.locations.contains_key(entity_index(other)));
                        assert(before.live.contains_key(entity_index(other)));
                    }
                }
            }
            k = k + 1;
        }
        proof {
            let after = self@;
            assert forall|i: int| #[trigger] after.components.hit_points.contains_key(i) implies after.is_terrain_character(
                terrain@,
                i,
            ) by {
                lemma_stats_are_of_characters(after, terrain@, i);
            }
            assert forall|i: int| #[trigger] after.components.npc_types.contains_key(i) implies after.is_terrain_character(
                terrain@,
                i,
            ) && terrain@[after.cell_of_slot(i)] is Npc && ai_state@.slots.contains_key(i) by {
                lemma_stats_are_of_characters(after, terrain@, i);
                let cell = after.cell_of_slot(i);
                let coord = after.spatial.locations[i].1.coord;
                lemma_index_in_range(size, coord);
                assert(size.coord_of(cell) == coord);
                assert(after.cell_holds(size.coord_of(cell), terrain@[cell]));
                assert(ai_state@.agent_of(after.occupant(size.coord_of(cell), Layer::Character)->0) is Some);
            }
        }
        Populate { player_entity: player.unwrap(), ai_state }
    }

    /// Removes `entity` from the world: from every attribute table, from the
    /// occupancy index, and from the allocator, which may reuse its slot. A
    /// handle that is not live changes nothing.
    pub fn remove_entity(&mut self, entity: Entity)
        requires
            old(self)@.wf(),
        ensures
            final(self)@ == old(self)@.without_entity(entity),
            final(self)@.wf(),
    {
        if self.components.tile(entity).is_none() {
            proof {
                let slot = entity_index(entity);
                assert(self@.live.contains_key(slot) ==> self@.components.tiles.contains_key(slot));
            }
            return ;
        }
        proof {
            let slot = entity_index(entity);
            assert(self@.components.tiles.contains_key(slot));
            lemma_without_entity_wf(self@, entity);
        }
        self.components.remove_entity(entity);
        self.spatial_table.remove(entity);
        self.entity_allocator.free(entity);
    }
}

/// Putting a new entity on a free layer keeps a world well formed.
pub proof fn lemma_with_spawned_wf(world: WorldView, entity: Entity, coord: Point, layer: Layer, tile: Tile)
    requires
        world.wf(),
        world.size().contains(coord),
        world.occupant(coord, layer) is None,
        !world.live.contains_key(entity_index(entity)),
        0 <= entity_index(entity) <= world.span,
        entity_id(entity) == world.issued,
        layer == Layer::Character ==> tile.is_character(),
    ensures
        world.with_spawned(entity, coord, layer, tile).wf(),
        world.spatial.admits(entity),
        world.spatial.location_of(entity) is None,
        world.spatial.update_outcome(entity, Location { coord, layer: Some(layer) }) is Ok,
        world.spatial.updated(entity, Location { coord, layer: Some(layer) }) == world.spatial.placed(
            entity,
            Location { coord, layer: Some(layer) },
        ),
{
    let after = world.with_spawned(entity, coord, layer, tile);
    let slot = entity_index(entity);
    let location = Location { coord, layer: Some(layer) };
    assert(!world.spatial.locations.contains_key(slot));
    assert(!world.components.tiles.contains_key(slot));
    lemma_placed_wf(world.spatial, entity, location);
    lemma_order_put(world.components.tile_order, world.components.tiles, slot, (entity_id(entity), tile));
    assert forall|at: Point|
        (#[trigger] after.occupant(at, Layer::Character)) is Some implies after.has_character_tile(
        after.occupant(at, Layer::Character)->0,
    ) by {
        let other = after.occupant(at, Layer::Character)->0;
        if at == coord && layer == Layer::Character {
        } else {
            assert(world.occupant(at, Layer::Character) == Some(other));
            assert(world.spatial.location_of(other) is Some);
            assert(world.spatial.locations.contains_key(entity_index(other)));
        }
    }
}

/// Giving a live entity a kind and hit points keeps a world well formed.
pub proof fn lemma_with_stats_wf(world: WorldView, entity: Entity, npc_type: Option<NpcType>, hit_points: HitPoints)
    requires
        world.wf(),
        is_live(world.live, entity),
    ensures
        world.with_stats(entity, npc_type, hit_points).wf(),
{
    let after = world.with_stats(entity, npc_type, hit_points);
    assert(after.spatial == world.spatial);
    assert(after.components.tiles == world.components.tiles);
    assert forall|at: Point|
        (#[trigger] after.occupant(at, Layer::Character)) is Some implies after.has_character_tile(
        after.occupant(at, Layer::Character)->0,
    ) by {
        assert(world.occupant(at, Layer::Character) is Some);
    }
    assert(all_live(after.components.hit_points, after.live));
    assert(all_live(after.components.npc_types, after.live));
}

/// Whether `after` differs from `before` only by new entities and by what
/// stands in the cell `coord`.
spec fn grown_at(before: WorldView, after: WorldView, coord: Point) -> bool {
    &&& after.size() == before.size()
    &&& forall|at: Point, layer: Layer|
        at != coord ==> #[trigger] after.occupant(at, layer) == before.occupant(at, layer)
    &&& forall|i: int| #[trigger]
        before.live.contains_key(i) ==> {
            &&& after.live.contains_key(i) && after.live[i] == before.live[i]
            &&& after.components.tiles.contains_key(i) && after.components.tiles[i] == before.components.tiles[i]
            &&& after.components.npc_types.contains_key(i) == before.components.npc_types.contains_key(i)
            &&& after.components.npc_types.contains_key(i) ==> after.components.npc_types[i] == before.components.npc_types[i]
            &&& after.components.hit_points.contains_key(i) == before.components.hit_points.contains_key(i)
            &&& after.components.hit_points.contains_key(i) ==> after.components.hit_points[i] == before.components.hit_points[i]
            &&& after.spatial.locations.contains_key(i) == before.spatial.locations.contains_key(i)
            &&& after.spatial.locations.contains_key(i) ==> after.spatial.locations[i] == before.spatial.locations[i]
        }
    &&& forall|i: int| #[trigger]
        after.live.contains_key(i) && !before.live.contains_key(i) ==> {
            &&& after.spatial.locations.contains_key(i)
            &&& after.spatial.locations[i].1.coord == coord
            &&& after.spatial.locations[i].1.layer is Some
        }
}

/// In a world filled from terrain, whoever has a kind or hit points stands
/// on the character layer of a cell whose tile names a character; whoever
/// has a kind, on one whose tile names a non-player character.
proof fn lemma_stats_are_of_characters(world: WorldView, terrain: Seq<TerrainTile>, slot: int)
    requires
        world.wf(),
        world.all_placed(),
        terrain.len() == world.size().cells(),
        forall|k: int|
            0 <= k < terrain.len() ==> world.cell_holds(#[trigger] world.size().coord_of(k), terrain[k]),
        world.components.npc_types.contains_key(slot) || world.components.hit_points.contains_key(slot),
    ensures
        world.is_terrain_character(terrain, slot),
        world.components.npc_types.contains_key(slot) ==> terrain[world.cell_of_slot(slot)] is Npc,
        world.occupant(world.spatial.locations[slot].1.coord, Layer::Character) is Some,
        entity_index(world.occupant(world.spatial.locations[slot].1.coord, Layer::Character)->0) == slot,
{
    let size = world.size();
    assert(world.live.contains_key(slot));
    assert(world.spatial.locations.contains_key(slot));
    let location = world.spatial.locations[slot].1;
    let coord = location.coord;
    let layer = location.layer->0;
    lemma_index_in_range(size, coord);
    let cell = size.index_of(coord);
    assert(world.cell_holds(size.coord_of(cell), terrain[cell]));
    let holder = world.occupant(coord, layer)->0;
    assert(entity_index(holder) == slot && entity_id(holder) == world.spatial.locations[slot].0);
    assert(world.live[slot] == world.spatial.locations[slot].0);
    if world.components.npc_types.contains_key(slot) {
        assert(world.npc_type_of(holder) is Some);
    }
    if world.components.hit_points.contains_key(slot) {
        assert(world.hit_points_of(holder) is Some);
    }
}

/// Growing twice in one cell is growing in that cell.
proof fn lemma_grown_twice(first: WorldView, second: WorldView, third: WorldView, coord: Point)
    requires
        grown_at(first, second, coord),
        grown_at(second, third, coord),
    ensures
        grown_at(first, third, coord),
{
    assert forall|at: Point, layer: Layer| at != coord implies #[trigger] third.occupant(at, layer)
        == first.occupant(at, layer) by {
        assert(second.occupant(at, layer) == first.occupant(at, layer));
    }
    assert forall|i: int| #[trigger] first.live.contains_key(i) implies ({
        &&& third.live.contains_key(i) && third.live[i] == first.live[i]
        &&& third.components.tiles.contains_key(i) && third.components.tiles[i]
            == first.components.tiles[i]
        &&& third.components.npc_types.contains_key(i) == first.components.npc_types.contains_key(i)
        &&& third.components.npc_types.contains_key(i) ==> third.components.npc_types[i]
            == first.components.npc_types[i]
        &&& third.components.hit_points.contains_key(i) == first.components.hit_points.contains_key(
            i,
        )
        &&& third.components.hit_points.contains_key(i) ==> third.components.hit_points[i]
            == first.components.hit_points[i]
        &&& third.spatial.locations.contains_key(i) == first.spatial.locations.contains_key(i)
        &&& third.spatial.locations.contains_key(i) ==> third.spatial.locations[i]
            == first.spatial.locations[i]
    }) by {
        assert(second.live.contains_key(i));
    }
    assert forall|i: int| #[trigger] third.live.contains_key(i) && !first.live.contains_key(i) implies ({
        &&& third.spatial.locations.contains_key(i)
        &&& third.spatial.locations[i].1.coord == coord
        &&& third.spatial.locations[i].1.layer is Some
    }) by {
        if second.live.contains_key(i) {
            assert(second.spatial.locations.contains_key(i));
        }
    }
}

/// A cell that holds what a terrain tile stands for still does after the
/// world has grown elsewhere.
proof fn lemma_cell_kept(before: WorldView, after: WorldView, at: Point, terrain: TerrainTile)
    requires
        before.wf(),
        before.cell_holds(at, terrain),
        exists|coord: Point| coord != at && grown_at(before, after, coord),
    ensures
        after.cell_holds(at, terrain),
{
    let coord = choose|coord: Point| coord != at && grown_at(before, after, coord);
    assert(after.occupant(at, Layer::Floor) == before.occupant(at, Layer::Floor));
    assert(after.occupant(at, Layer::Feature) == before.occupant(at, Layer::Feature));
    assert(after.occupant(at, Layer::Character) == before.occupant(at, Layer::Character));
    assert(after.occupant(at, Layer::Corpse) == before.occupant(at, Layer::Corpse));
    let floor = before.occupant(at, Layer::Floor)->0;
    assert(before.spatial.location_of(floor) is Some);
    assert(before.spatial.locations.contains_key(entity_index(floor)));
    assert(before.live.contains_key(entity_index(floor)));
    if before.occupant(at, Layer::Feature) is Some {
        let feature = before.occupant(at, Layer::Feature)->0;
        assert(before.spatial.location_of(feature) is Some);
        assert(before.spatial.locations.contains_key(entity_index(feature)));
        assert(before.live.contains_key(entity_index(feature)));
    }
    if before.occupant(at, Layer::Character) is Some {
        let character = before.occupant(at, Layer::Character)->0;
        assert(before.spatial.location_of(character) is Some);
        assert(before.spatial.locations.contains_key(entity_index(character)));
        assert(before.live.contains_key(entity_index(character)));
    }
}

/// What changes when a new entity is put on a free layer of a cell: that
/// layer of that cell, and the attributes of the new entity.
proof fn lemma_spawn_frame(world: WorldView, entity: Entity, coord: Point, layer: Layer, tile: Tile)
    requires
        world.wf(),
        world.size().contains(coord),
        world.occupant(coord, layer) is None,
        !world.live.contains_key(entity_index(entity)),
    ensures
        ({
            let after = world.with_spawned(entity, coord, layer, tile);
            &&& grown_at(world, after, coord)
            &&& after.occupant(coord, layer) == Some(entity)
            &&& after.tile_of(entity) == Some(tile)
            &&& after.npc_type_of(entity) is None
            &&& after.hit_points_of(entity) is None
            &&& forall|other: Layer| other != layer ==> #[trigger] after.occupant(coord, other) == world.occupant(coord, other)
            &&& forall|npc_type: Option<NpcType>, hit_points: HitPoints| #[trigger] grown_at(world, after.with_stats(entity, npc_type, hit_points), coord)
        }),
{
    let after = world.with_spawned(entity, coord, layer, tile);
    let slot = entity_index(entity);
    assert(!world.spatial.locations.contains_key(slot));
    assert(!world.components.tiles.contains_key(slot));
    assert(!world.components.npc_types.contains_key(slot));
    assert(!world.components.hit_points.contains_key(slot));
    assert(world.spatial.location_of(entity) is None);
}

/// Moving a living character to a cell whose character layer is free keeps a
/// world well formed.
pub proof fn lemma_relocated_wf(world: WorldView, entity: Entity, to: Point)
    requires
        world.wf(),
        world.is_living_character(entity),
        world.size().contains(to),
        world.occupant(to, Layer::Character) is None,
    ensures
        (WorldView {
            spatial: world.spatial.placed(entity, Location { coord: to, layer: Some(Layer::Character) }),
            ..world
        }).wf(),
{
    let target = Location { coord: to, layer: Some(Layer::Character) };
    let after = WorldView { spatial: world.spatial.placed(entity, target), ..world };
    let from = world.location_of(entity)->0.coord;
    assert(world.spatial.locations.contains_key(entity_index(entity)));
    assert(world.occupant(from, Layer::Character) is Some);
    lemma_placed_wf(world.spatial, entity, target);
    assert forall|at: Point|
        (#[trigger] after.occupant(at, Layer::Character)) is Some implies after.has_character_tile(
        after.occupant(at, Layer::Character)->0,
    ) by {
        if at == to {
        } else {
            assert(world.occupant(at, Layer::Character) is Some);
        }
    }
}

/// A step towards a cell that holds a feature, such as a wall, changes
/// nothing: the one who steps stays where it is, and whoever stands behind
/// the feature is not harmed.
pub proof fn lemma_feature_blocks(world: WorldView, entity: Entity, direction: CardinalDirection)
    requires
        world.location_of(entity) is Some,
        world.occupant(world.location_of(entity)->0.coord.stepped(direction), Layer::Feature) is Some,
    ensures
        world.moved(entity, direction) == world,
        world.moved(entity, direction).location_of(entity) == world.location_of(entity),
{
}

/// A handle that is not live finds nothing: no tile, no kind, no hit points
/// and no place.
pub proof fn lemma_stale_handle_finds_nothing(world: WorldView, handle: Entity)
    requires
        world.wf(),
        !is_live(world.live, handle),
    ensures
        world.tile_of(handle) is None,
        world.npc_type_of(handle) is None,
        world.hit_points_of(handle) is None,
        world.location_of(handle) is None,
        !world.is_living_character(handle),
{
    let slot = entity_index(handle);
    assert(world.components.tiles.contains_key(slot) ==> world.live.contains_key(slot));
    assert(world.components.npc_types.contains_key(slot) ==> world.live.contains_key(slot));
    assert(world.components.hit_points.contains_key(slot) ==> world.live.contains_key(slot));
    assert(world.spatial.locations.contains_key(slot) ==> world.live.contains_key(slot));
}

/// An entity that is removed stays gone when a new entity is created, even
/// one that takes its slot: the new handle has another serial number, and
/// the old one is not live.
pub proof fn lemma_removed_stays_gone(
    world: WorldView,
    gone: Entity,
    entity: Entity,
    coord: Point,
    layer: Layer,
    tile: Tile,
)
    requires
        world.wf(),
        is_live(world.live, gone),
        entity_id(entity) == world.without_entity(gone).issued,
    ensures
        entity_id(entity) != entity_id(gone),
        entity != gone,
        !is_live(world.without_entity(gone).live, gone),
        !is_live(world.without_entity(gone).with_spawned(entity, coord, layer, tile).live, gone),
{
    assert(world.live.contains_key(entity_index(gone)));
}

/// A step by anyone leaves the hero of a world somewhere in it, and leaves it
/// the only living character that is no non-player character. The hero can
/// lose its place only as a corpse under a dying character, and then it
/// would not be the only one who fights non-player characters.
pub proof fn lemma_moved_keeps_hero(world: WorldView, hero: Entity, entity: Entity, direction: CardinalDirection)
    requires
        world.wf(),
        world.location_of(hero) is Some,
        world.sole_hero(hero),
    ensures
        world.moved(entity, direction).location_of(hero) is Some,
        world.moved(entity, direction).sole_hero(hero),
        world.moved(entity, direction).size() == world.size(),
{
    let after = world.moved(entity, direction);
    let hero_slot = entity_index(hero);
    assert(world.spatial.locations.contains_key(hero_slot));
    if world.location_of(entity) matches Some(Location { coord, layer: Some(Layer::Character) }) {
        let from = world.location_of(entity)->0.coord;
        let to = from.stepped(direction);
        assert(world.spatial.locations.contains_key(entity_index(entity)));
        assert(world.occupant(from, Layer::Character) is Some);
        if world.size().contains(to) {
            if world.occupant(to, Layer::Character) is Some {
                let other = world.occupant(to, Layer::Character)->0;
                assert(world.location_of(other) == Some(Location { coord: to, layer: Some(Layer::Character) }));
                assert(world.spatial.locations.contains_key(entity_index(other)));
                if world.is_npc(entity) != world.is_npc(other) {
                    if world.hit_points_of(other) is Some {
                        let left = world.hit_points_of(other)->0.after_hits(1);
                        let hurt = WorldView {
                            components: world.components.with_hit_points(other, left),
                            ..world
                        };
                        lemma_with_stats_wf(world, other, None, left);
                        assert(hurt == world.with_stats(other, None, left));
                        assert(hurt.spatial == world.spatial);
                        assert(hurt.components.npc_types == world.components.npc_types);
                        assert forall|coord: Point|
                            (#[trigger] hurt.occupant(coord, Layer::Character)) is Some && !hurt.is_npc(
                                hurt.occupant(coord, Layer::Character)->0,
                            ) implies entity_index(hurt.occupant(coord, Layer::Character)->0) == entity_index(hero)
                                && entity_id(hurt.occupant(coord, Layer::Character)->0) == entity_id(hero) by {
                            assert(world.occupant(coord, Layer::Character) is Some);
                        }
                        if left.is_spent() {
                            assert(world.is_npc(entity) || world.is_npc(other));
                            assert(!world.is_npc(entity) ==> entity_index(entity) == hero_slot && entity_id(entity) == entity_id(hero));
                            assert(!world.is_npc(other) ==> entity_index(other) == hero_slot && entity_id(other) == entity_id(hero));
                            assert(world.location_of(hero)->0.layer == Some(Layer::Character));
                            lemma_died_keeps_hero(hurt, hero, other);
                        }
                    }
                }
            } else if world.occupant(to, Layer::Feature) is None {
                let target = Location { coord: to, layer: Some(Layer::Character) };
                lemma_placed_wf(world.spatial, entity, target);
                assert forall|coord: Point|
                    (#[trigger] after.occupant(coord, Layer::Character)) is Some && !after.is_npc(
                        after.occupant(coord, Layer::Character)->0,
                    ) implies entity_index(after.occupant(coord, Layer::Character)->0) == entity_index(hero)
                        && entity_id(after.occupant(coord, Layer::Character)->0) == entity_id(hero) by {
                    if coord == to {
                    } else {
                        assert(world.occupant(coord, Layer::Character) is Some);
                    }
                }
            }
        }
    }
}

/// The death of a living character leaves a hero who lives somewhere in the
/// world, and leaves it the only living character that is no non-player
/// character.
pub proof fn lemma_died_keeps_hero(world: WorldView, hero: Entity, entity: Entity)
    requires
        world.wf(),
        world.is_living_character(entity),
        world.is_living_character(hero),
        world.sole_hero(hero),
    ensures
        world.died(entity).location_of(hero) is Some,
        world.died(entity).sole_hero(hero),
        world.died(entity).size() == world.size(),
{
    let after = world.died(entity);
    let coord = world.location_of(entity)->0.coord;
    let target = Location { coord, layer: Some(Layer::Corpse) };
    lemma_died_wf(world, entity);
    assert(world.spatial.locations.contains_key(entity_index(hero)));
    assert(world.spatial.locations.contains_key(entity_index(entity)));
    let cleared = match world.occupant(coord, Layer::Corpse) {
        Some(old_corpse) => world.without_entity(old_corpse),
        None => world,
    };
    if world.occupant(coord, Layer::Corpse) is Some {
        let old_corpse = world.occupant(coord, Layer::Corpse)->0;
        assert(world.location_of(old_corpse) == Some(target));
        assert(world.spatial.locations.contains_key(entity_index(old_corpse)));
        assert(entity_index(old_corpse) != entity_index(hero));
        assert(is_live(world.live, old_corpse));
    }
    assert(cleared.location_of(hero) == world.location_of(hero));
    assert(cleared.wf());
    assert(cleared.spatial.locations.contains_key(entity_index(entity)));
    assert(cleared.occupant(coord, Layer::Corpse) is None);
    lemma_placed_wf(cleared.spatial, entity, target);
    assert forall|at: Point|
        (#[trigger] after.occupant(at, Layer::Character)) is Some && !after.is_npc(
            after.occupant(at, Layer::Character)->0,
        ) implies entity_index(after.occupant(at, Layer::Character)->0) == entity_index(hero)
            && entity_id(after.occupant(at, Layer::Character)->0) == entity_id(hero) by {
        let one = after.occupant(at, Layer::Character)->0;
        assert(cleared.occupant(at, Layer::Character) == Some(one));
        assert(world.occupant(at, Layer::Character) == Some(one));
        assert(world.location_of(one) is Some);
        assert(world.spatial.locations.contains_key(entity_index(one)));
        if world.occupant(coord, Layer::Corpse) is Some {
            let old_corpse = world.occupant(coord, Layer::Corpse)->0;
            assert(entity_index(old_corpse) != entity_index(one));
        }
        assert(after.is_npc(one) == world.is_npc(one));
    }
}

/// The death of a living character keeps a world well formed, leaves the
/// character as the only corpse of its cell with the tile of its corpse, and
/// leaves nothing of a corpse that was there before.
pub proof fn lemma_died_wf(world: WorldView, entity: Entity)
    requires
        world.wf(),
        world.is_living_character(entity),
    ensures
        world.died(entity).wf(),
        world.died(entity).location_of(entity) == Some(
            Location { coord: world.location_of(entity)->0.coord, layer: Some(Layer::Corpse) },
        ),
        world.died(entity).occupant(world.location_of(entity)->0.coord, Layer::Corpse) == Some(entity),
        world.died(entity).occupant(world.location_of(entity)->0.coord, Layer::Character) is None,
        world.died(entity).tile_of(entity) == world.tile_of(entity)->0.spec_corpse(),
        world.died(entity).tile_of(entity) is Some,
        world.occupant(world.location_of(entity)->0.coord, Layer::Corpse) matches Some(old_corpse) ==> {
            &&& !is_live(world.died(entity).live, old_corpse)
            &&& world.died(entity).tile_of(old_corpse) is None
            &&& world.died(entity).npc_type_of(old_corpse) is None
            &&& world.died(entity).hit_points_of(old_corpse) is None
            &&& world.died(entity).location_of(old_corpse) is None
            &&& world.without_entity(old_corpse).wf()
            &&& world.without_entity(old_corpse).location_of(entity) == world.location_of(entity)
            &&& world.without_entity(old_corpse).spatial.update_layer_result(entity, Layer::Corpse) is Ok
        },
        world.occupant(world.location_of(entity)->0.coord, Layer::Corpse) is None
            ==> world.spatial.update_layer_result(entity, Layer::Corpse) is Ok,
{
    let slot = entity_index(entity);
    let coord = world.location_of(entity)->0.coord;
    let target = Location { coord, layer: Some(Layer::Corpse) };
    assert(world.spatial.locations.contains_key(slot));
    assert(world.size().contains(coord));
    assert(world.occupant(coord, Layer::Character) is Some);
    assert(world.has_character_tile(world.occupant(coord, Layer::Character)->0));
    assert(world.has_character_tile(entity));
    let cleared = match world.occupant(coord, Layer::Corpse) {
        Some(old_corpse) => world.without_entity(old_corpse),
        None => world,
    };
    if world.occupant(coord, Layer::Corpse) is Some {
        let old_corpse = world.occupant(coord, Layer::Corpse)->0;
        assert(world.location_of(old_corpse) == Some(target));
        assert(world.spatial.locations.contains_key(entity_index(old_corpse)));
        assert(is_live(world.live, old_corpse));
        assert(entity_index(old_corpse) != slot);
        lemma_without_entity_wf(world, old_corpse);
        assert(cleared.location_of(entity) == world.location_of(entity));
        assert(cleared.occupant(coord, Layer::Corpse) is None);
    }
    assert(cleared.wf());
    assert(cleared.spatial.locations.contains_key(slot));
    assert(cleared.occupant(coord, Layer::Corpse) is None);
    lemma_placed_wf(cleared.spatial, entity, target);
    let after = world.died(entity);
    let corpse = world.tile_of(entity)->0.spec_corpse()->0;
    assert(after.components == cleared.components.with_tile(entity, corpse));
    assert(cleared.components.tiles.contains_key(slot));
    lemma_order_put(cleared.components.tile_order, cleared.components.tiles, slot, (entity_id(entity), corpse));
    assert(cleared.components.tile_order.contains(slot));
    assert forall|at: Point|
        (#[trigger] after.occupant(at, Layer::Character)) is Some implies after.has_character_tile(
        after.occupant(at, Layer::Character)->0,
    ) by {
        let other = after.occupant(at, Layer::Character)->0;
        assert(cleared.occupant(at, Layer::Character) == Some(other));
        assert(cleared.has_character_tile(other));
        assert(at != coord);
        assert(cleared.spatial.location_of(other) is Some);
        assert(entity_index(other) != slot);
    }
    assert(all_live(after.components.tiles, after.live));
    assert(all_live(after.spatial.locations, after.live));
}

/// Removing an entity keeps a world well formed.
pub proof fn lemma_without_entity_wf(world: WorldView, entity: Entity)
    requires
        world.wf(),
    ensures
        world.without_entity(entity).wf(),
{
    if is_live(world.live, entity) {
        let after = world.without_entity(entity);
        let slot = entity_index(entity);
        lemma_removed_wf(world.spatial, entity);
        lemma_order_drop(world.components.tile_order, world.components.tiles, slot);
        assert forall|coord: Point|
            (#[trigger] after.occupant(coord, Layer::Character)) is Some implies after.has_character_tile(
            after.occupant(coord, Layer::Character)->0,
        ) by {
            let other = after.occupant(coord, Layer::Character)->0;
            assert(world.occupant(coord, Layer::Character) == Some(other));
            assert(after.spatial.location_of(other) is Some);
        }
    }
}

} // verus!
