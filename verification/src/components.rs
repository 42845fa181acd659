//! The attributes an entity can carry, and one table per attribute.
//!
//! The tables are `entity_table::ComponentTable`s. What a table holds, and
//! the order in which it is walked, are named per attribute: `tile_slots` and
//! `tile_order`, and so on.

use vstd::prelude::*;
use entity_table::{ComponentTable, Entity};
use crate::entity::{
    entity_index, order_drop, order_lists, order_put, slot_drop, slot_put, slot_value, table_entries,
    table_get, table_insert, table_remove, Component, Slots,
};

verus! {

/// Remaining and full health of a character.
#[derive(Clone, Copy, Debug, PartialEq, Eq, Structural)]
pub struct HitPoints {
    pub current: u32,
    pub max: u32,
}

/// The kinds of non-player character.
#[derive(Clone, Copy, Debug, PartialEq, Eq, Structural)]
pub enum NpcType {
    Orc,
    Troll,
}

/// What an entity looks like, which is also what kind of thing it is.
#[derive(Clone, Copy, Debug, PartialEq, Eq, Structural)]
pub enum Tile {
    Floor,
    Npc(NpcType),
    NpcCorpse(NpcType),
    Player,
    PlayerCorpse,
    Wall,
}

/// Damage dealt by one bump attack.
pub const BUMP_DAMAGE: u32 = 1;

/// Full health of the player.
pub const PLAYER_MAX_HIT_POINTS: u32 = 20;

impl HitPoints {
    /// Full health out of `max`.
    pub fn new_full(max: u32) -> (r: HitPoints)
        ensures
            r == (HitPoints { current: max, max }),
    {
        HitPoints { current: max, max }
    }

    /// These hit points after `hits` bump attacks: one point less per attack,
    /// and never below zero.
    pub open spec fn after_hits(self, hits: nat) -> HitPoints {
        HitPoints {
            current: if self.current >= hits * BUMP_DAMAGE {
                (self.current - hits * BUMP_DAMAGE) as u32
            } else {
                0
            },
            max: self.max,
        }
    }

    /// Whether nothing is left.
    pub open spec fn is_spent(self) -> bool {
        self.current == 0
    }

    /// Takes one bump attack.
    pub fn hit(self) -> (r: HitPoints)
        ensures
            r == self.after_hits(1),
    {
        HitPoints { current: self.current.saturating_sub(BUMP_DAMAGE), max: self.max }
    }
}

impl NpcType {
    /// Lower-case name of the kind.
    pub fn name(self) -> (r: &'static str)
        ensures
            r@ == (match self {
                NpcType::Orc => "orc"@,
                NpcType::Troll => "troll"@,
            }),
    {
        match self {
            NpcType::Orc => "orc",
            NpcType::Troll => "troll",
        }
    }

    /// Full health of a character of this kind.
    pub open spec fn spec_max_hit_points(self) -> u32 {
        match self {
            NpcType::Orc => 2,
            NpcType::Troll => 6,
        }
    }

    /// Full health of a character of this kind.
    pub fn max_hit_points(self) -> (r: u32)
        ensures
            r == self.spec_max_hit_points(),
    {
        match self {
            NpcType::Orc => 2,
            NpcType::Troll => 6,
        }
    }
}

impl Tile {
    /// Whether this is the tile of a living character.
    pub open spec fn is_character(self) -> bool {
        self is Player || self is Npc
    }

    /// What a character with this tile leaves behind when it dies; `None` for
    /// a tile that is no living character.
    pub open spec fn spec_corpse(self) -> Option<Tile> {
        match self {
            Tile::Player => Some(Tile::PlayerCorpse),
            Tile::Npc(npc_type) => Some(Tile::NpcCorpse(npc_type)),
            _ => None,
        }
    }

    /// What a character with this tile leaves behind when it dies; `None` for
    /// a tile that is no living character.
    pub fn corpse(self) -> (r: Option<Tile>)
        ensures
            r == self.spec_corpse(),
    {
        match self {
            Tile::Player => Some(Tile::PlayerCorpse),
            Tile::Npc(npc_type) => Some(Tile::NpcCorpse(npc_type)),
            _ => None,
        }
    }
}

/// What the tile table holds.
pub uninterp spec fn tile_slots(table: ComponentTable<Tile>) -> Map<int, (int, Tile)>;

/// The slots of the tile table in the order in which it is walked.
pub uninterp spec fn tile_order(table: ComponentTable<Tile>) -> Seq<int>;

/// What the table of character kinds holds.
pub uninterp spec fn npc_type_slots(table: ComponentTable<NpcType>) -> Map<int, (int, NpcType)>;

/// What the table of hit points holds.
pub uninterp spec fn hit_point_slots(table: ComponentTable<HitPoints>) -> Map<int, (int, HitPoints)>;

/// The slots of the table of character kinds in the order in which it is
/// walked.
pub uninterp spec fn npc_type_order(table: ComponentTable<NpcType>) -> Seq<int>;

/// The slots of the table of hit points in the order in which it is walked.
pub uninterp spec fn hit_point_order(table: ComponentTable<HitPoints>) -> Seq<int>;

/// `ComponentTable::default`: an empty table.
#[verifier::external_body]
fn tile_table_new() -> (table: ComponentTable<Tile>)
    ensures
        tile_slots(table) == (Map::<int, (int, Tile)>::empty()),
        tile_order(table) == (Seq::<int>::empty()),
{
    ComponentTable::default()
}

/// `ComponentTable::default`: an empty table.
#[verifier::external_body]
fn npc_type_table_new() -> (table: ComponentTable<NpcType>)
    ensures
        npc_type_slots(table) == (Map::<int, (int, NpcType)>::empty()),
        npc_type_order(table) == (Seq::<int>::empty()),
{
    ComponentTable::default()
}

/// `ComponentTable::default`: an empty table.
#[verifier::external_body]
fn hit_point_table_new() -> (table: ComponentTable<HitPoints>)
    ensures
        hit_point_slots(table) == (Map::<int, (int, HitPoints)>::empty()),
        hit_point_order(table) == (Seq::<int>::empty()),
{
    ComponentTable::default()
}

impl Component for Tile {
    open spec fn slots(table: ComponentTable<Tile>) -> Slots<Tile> {
        tile_slots(table)
    }

    open spec fn order(table: ComponentTable<Tile>) -> Seq<int> {
        tile_order(table)
    }
}

impl Component for NpcType {
    open spec fn slots(table: ComponentTable<NpcType>) -> Slots<NpcType> {
        npc_type_slots(table)
    }

    open spec fn order(table: ComponentTable<NpcType>) -> Seq<int> {
        npc_type_order(table)
    }
}

impl Component for HitPoints {
    open spec fn slots(table: ComponentTable<HitPoints>) -> Slots<HitPoints> {
        hit_point_slots(table)
    }

    open spec fn order(table: ComponentTable<HitPoints>) -> Seq<int> {
        hit_point_order(table)
    }
}

/// What the three tables hold, as plain maps.
pub ghost struct ComponentsView {
    pub tiles: Slots<Tile>,
    pub tile_order: Seq<int>,
    pub npc_types: Slots<NpcType>,
    pub hit_points: Slots<HitPoints>,
}

impl ComponentsView {
    /// No entity has any attribute.
    pub open spec fn empty() -> ComponentsView {
        ComponentsView {
            tiles: Map::empty(),
            tile_order: Seq::empty(),
            npc_types: Map::empty(),
            hit_points: Map::empty(),
        }
    }

    /// The walk of the tile table visits each of its entries once.
    pub open spec fn wf(self) -> bool {
        order_lists(self.tile_order, self.tiles)
    }

    pub open spec fn with_tile(self, entity: Entity, tile: Tile) -> ComponentsView {
        ComponentsView {
            tiles: slot_put(self.tiles, entity, tile),
            tile_order: order_put(self.tile_order, entity_index(entity)),
            ..self
        }
    }

    pub open spec fn with_npc_type(self, entity: Entity, npc_type: NpcType) -> ComponentsView {
        ComponentsView { npc_types: slot_put(self.npc_types, entity, npc_type), ..self }
    }

    pub open spec fn with_hit_points(self, entity: Entity, hit_points: HitPoints) -> ComponentsView {
        ComponentsView { hit_points: slot_put(self.hit_points, entity, hit_points), ..self }
    }

    /// Every table with the slot of `entity` emptied.
    pub open spec fn without(self, entity: Entity) -> ComponentsView {
        ComponentsView {
            tiles: slot_drop(self.tiles, entity),
            tile_order: order_drop(self.tile_order, entity_index(entity)),
            npc_types: slot_drop(self.npc_types, entity),
            hit_points: slot_drop(self.hit_points, entity),
        }
    }
}

/// One table per attribute.
pub struct Components {
    hit_points: ComponentTable<HitPoints>,
    npc_type: ComponentTable<NpcType>,
    tile: ComponentTable<Tile>,
}

impl View for Components {
    type V = ComponentsView;

    closed spec fn view(&self) -> ComponentsView {
        ComponentsView {
            tiles: tile_slots(self.tile),
            tile_order: tile_order(self.tile),
            npc_types: npc_type_slots(self.npc_type),
            hit_points: hit_point_slots(self.hit_points),
        }
    }
}

impl Components {
    /// Three empty tables.
    pub fn new() -> (r: Components)
        ensures
            r@ == ComponentsView::empty(),
    {
        Components {
            hit_points: hit_point_table_new(),
            npc_type: npc_type_table_new(),
            tile: tile_table_new(),
        }
    }

    /// The tile of `entity`, if it has one.
    pub fn tile(&self, entity: Entity) -> (r: Option<Tile>)
        ensures
            r == slot_value(self@.tiles, entity),
    {
        table_get(&self.tile, entity)
    }

    /// The kind of `entity`, if it is a non-player character.
    pub fn npc_type(&self, entity: Entity) -> (r: Option<NpcType>)
        ensures
            r == slot_value(self@.npc_types, entity),
    {
        table_get(&self.npc_type, entity)
    }

    /// The hit points of `entity`, if it has any.
    pub fn hit_points(&self, entity: Entity) -> (r: Option<HitPoints>)
        ensures
            r == slot_value(self@.hit_points, entity),
    {
        table_get(&self.hit_points, entity)
    }

    /// Gives `entity` a tile, in place of the one it had.
    pub fn set_tile(&mut self, entity: Entity, tile: Tile)
        ensures
            final(self)@ == old(self)@.with_tile(entity, tile),
    {
        table_insert(&mut self.tile, entity, tile);
    }

    /// Gives `entity` a kind, in place of the one it had.
    pub fn set_npc_type(&mut self, entity: Entity, npc_type: NpcType)
        ensures
            final(self)@ == old(self)@.with_npc_type(entity, npc_type),
    {
        table_insert(&mut self.npc_type, entity, npc_type);
    }

    /// Gives `entity` hit points, in place of those it had.
    pub fn set_hit_points(&mut self, entity: Entity, hit_points: HitPoints)
        ensures
            final(self)@ == old(self)@.with_hit_points(entity, hit_points),
    {
        table_insert(&mut self.hit_points, entity, hit_points);
    }

    /// Empties the slot of `entity` in every table.
    pub fn remove_entity(&mut self, entity: Entity)
        ensures
            final(self)@ == old(self)@.without(entity),
    {
        table_remove(&mut self.hit_points, entity);
        table_remove(&mut self.npc_type, entity);
        table_remove(&mut self.tile, entity);
    }

    /// Every entity that has a tile, with its tile, in the order of the tile
    /// table.
    pub fn tiles(&self) -> (entries: Vec<(Entity, Tile)>)
        ensures
            entries@.len() == self@.tile_order.len(),
            forall|k: int|
                0 <= k < entries@.len() ==> {
                    &&& entity_index(#[trigger] entries@[k].0) == self@.tile_order[k]
                    &&& slot_value(self@.tiles, entries@[k].0) == Some(entries@[k].1)
                },
    {
        table_entries(&self.tile)
    }
}

/// A non-player character at full health has hit points left after fewer bump
/// attacks than its kind has hit points, and none after that many: two for
/// an orc, six for a troll.
pub proof fn lemma_npc_falls(npc_type: NpcType, hits: nat)
    ensures
        full_health(npc_type).after_hits(hits).is_spent() <==> hits >= npc_type.spec_max_hit_points(),
        NpcType::Orc.spec_max_hit_points() == 2,
        NpcType::Troll.spec_max_hit_points() == 6,
{
}

/// The hit points of a non-player character at full health.
pub open spec fn full_health(npc_type: NpcType) -> HitPoints {
    HitPoints { current: npc_type.spec_max_hit_points(), max: npc_type.spec_max_hit_points() }
}

/// One bump attack after another takes one point each until none is left.
pub proof fn lemma_hits_accumulate(hit_points: HitPoints, hits: nat)
    ensures
        hit_points.after_hits(hits).after_hits(1) == hit_points.after_hits(hits + 1),
        hit_points.after_hits(0) == hit_points,
        hit_points.after_hits(hits).current <= hit_points.current,
        hit_points.after_hits(hits).is_spent() <==> hits >= hit_points.current,
{
}

} // verus!
