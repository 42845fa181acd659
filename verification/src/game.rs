//! The game: a world, its player, the agents of the other characters, and
//! what the player has seen. It runs the turns.

use vstd::prelude::*;
use entity_table::Entity;
use crate::behaviour::{decision, Agent, Agents, AgentsView, BehaviourContext, NpcAction};
use crate::components::Tile;
use crate::entity::{all_live, entity_id, entity_index, lemma_order_drop, slot_value};
use crate::geometry::{lemma_coord_of_index, lemma_index_in_range, CardinalDirection, Extent, Point};
use crate::spatial::{Layer, Location};
use crate::terrain::{entities_of, has_player, is_last_player, is_only_player, TerrainTile};
use crate::visibility::{
    is_seen, raw_context, CellVisibility, VisibilityAlgorithm, VisibilityGrid, MAX_SIGHT_DIMENSION,
    VISION_DISTANCE_SQUARED,
};
use crate::world::{lemma_moved_keeps_hero, Populate, World, WorldView};

verus! {

/// What the renderer needs to draw one entity: its tile, where it is, and
/// what the player knows of the cell it is in.
#[derive(Clone, Copy, Debug, PartialEq, Eq)]
pub struct EntityToRender {
    pub tile: Tile,
    pub location: Location,
    pub visibility: CellVisibility,
}

/// Whether a world is well formed, and `hero` is somewhere in it and is the
/// only living character that is no non-player character.
#[verifier::opaque]
pub open spec fn hero_holds(world: WorldView, hero: Entity) -> bool {
    &&& world.wf()
    &&& world.location_of(hero) is Some
    &&& world.sole_hero(hero)
}

/// Whether `holders` are the entities that have an agent, in walking order.
pub open spec fn lists_holders(agents: AgentsView, holders: Seq<Entity>) -> bool {
    &&& holders.len() == agents.order.len()
    &&& forall|k: int|
        0 <= k < holders.len() ==> entity_index(#[trigger] holders[k]) == agents.order[k]
            && agents.agent_of(holders[k]) is Some
}

/// The agents that are left when, of the first `upto` holders, those whose
/// character no longer lives have lost theirs.
pub open spec fn pruned(agents: AgentsView, world: WorldView, holders: Seq<Entity>, upto: nat) -> AgentsView
    decreases upto,
{
    if upto == 0 {
        agents
    } else {
        let before = pruned(agents, world, holders, (upto - 1) as nat);
        if world.is_living_character(holders[upto - 1]) {
            before
        } else {
            before.without(holders[upto - 1])
        }
    }
}

/// The world after `actor` has decided and its decision has been applied.
#[verifier::opaque]
pub open spec fn acted(world: WorldView, context: BehaviourContext, actor: Entity) -> WorldView {
    match decision(world, context, actor) {
        NpcAction::Wait => world,
        NpcAction::Move(direction) => world.moved(actor, direction),
    }
}

/// The world after the first `upto` of `actors` have taken their turns, one
/// after the other.
pub open spec fn after_npc_turns(world: WorldView, context: BehaviourContext, actors: Seq<Entity>, upto: nat) -> WorldView
    decreases upto,
{
    if upto == 0 {
        world
    } else {
        acted(after_npc_turns(world, context, actors, (upto - 1) as nat), context, actors[upto - 1])
    }
}

/// Whether `world1` and `agents1` are what the turn of the non-player
/// characters makes of `world0` and `agents0`: the agents of those who no
/// longer live are dropped, and the others act in walking order, each on the
/// world the one before left, by the distances of `context`. Each agent
/// remembers what it decided.
pub open spec fn npc_turns_taken(
    world0: WorldView,
    agents0: AgentsView,
    context: BehaviourContext,
    holders: Seq<Entity>,
    actors: Seq<Entity>,
    world1: WorldView,
    agents1: AgentsView,
) -> bool {
    let kept = pruned(agents0, world0, holders, holders.len());
    &&& lists_holders(agents0, holders)
    &&& lists_holders(kept, actors)
    &&& world1 == after_npc_turns(world0, context, actors, actors.len())
    &&& agents1.order == kept.order
    &&& agents1.slots.dom() == kept.slots.dom()
    &&& forall|k: int|
        0 <= k < actors.len() ==> agents1.agent_of(#[trigger] actors[k]) == Some(
            Agent {
                last_action: decision(
                    after_npc_turns(world0, context, actors, k as nat),
                    context,
                    actors[k],
                ),
            },
        )
}

/// What is drawn of the first `upto` entities of the tile table: for each
/// that is somewhere, its tile, its location, and what is known of its cell.
pub open spec fn rendered(world: WorldView, grid: VisibilityGrid, upto: nat) -> Seq<EntityToRender>
    decreases upto,
{
    if upto == 0 {
        Seq::empty()
    } else {
        let before = rendered(world, grid, (upto - 1) as nat);
        let slot = world.components.tile_order[upto - 1];
        let (id, tile) = world.components.tiles[slot];
        if world.spatial.locations.contains_key(slot) && world.spatial.locations[slot].0 == id {
            let location = world.spatial.locations[slot].1;
            before.push(EntityToRender { tile, location, visibility: grid.at(location.coord) })
        } else {
            before
        }
    }
}

/// The state of a game.
pub struct GameState {
    ai_state: Agents,
    behaviour_context: BehaviourContext,
    player_entity: Entity,
    shadowcast_context: shadowcast::Context<u8>,
    visibility_grid: VisibilityGrid,
    world: World,
}

impl GameState {
    /// The world.
    pub closed spec fn world_view(self) -> WorldView {
        self.world@
    }

    /// The player.
    pub closed spec fn player(self) -> Entity {
        self.player_entity
    }

    /// The agents of the non-player characters.
    pub closed spec fn agents(self) -> AgentsView {
        self.ai_state@
    }

    /// What the player knows of each cell.
    pub closed spec fn visibility(self) -> VisibilityGrid {
        self.visibility_grid
    }

    /// The distances to the player as they were last measured.
    pub closed spec fn context(self) -> BehaviourContext {
        self.behaviour_context
    }

    /// The two grids that the game keeps beside the world are as large as
    /// the world, which is small enough for sight to be computed in it.
    pub closed spec fn grids_fit(self) -> bool {
        &&& self.behaviour_context.wf()
        &&& self.behaviour_context.size() == self.world@.size()
        &&& self.visibility_grid.wf()
        &&& self.visibility_grid.size() == self.world@.size()
        &&& self.world@.size().width <= MAX_SIGHT_DIMENSION
        &&& self.world@.size().height <= MAX_SIGHT_DIMENSION
    }

    /// The cell from which the player looks.
    pub open spec fn eye(self) -> Point {
        self.world_view().coord_of(self.player())->0
    }

    /// Whether the player sees a cell of the world under an algorithm.
    pub open spec fn sees(self, algorithm: VisibilityAlgorithm, coord: Point) -> bool {
        self.world_view().size().contains(coord) && is_seen(
            self.world_view(),
            self.eye(),
            algorithm,
            coord,
        )
    }

    /// The invariant of a game: the world is well formed, the player is
    /// somewhere in it, alive or dead, and is the only character that may
    /// fight the non-player characters.
    pub open spec fn wf(self) -> bool {
        &&& self.world_view().wf()
        &&& self.world_view().location_of(self.player()) is Some
        &&& self.world_view().sole_hero(self.player())
        &&& self.agents().wf()
        &&& self.grids_fit()
    }

    /// A new game in a world of the given size, filled from generated
    /// terrain that has one tile for each cell, row by row, and one player.
    /// The player has looked around once.
    pub fn new(size: Extent, terrain: &Vec<TerrainTile>, initial_visibility_algorithm: VisibilityAlgorithm) -> (r:
        GameState)
        requires
            size.valid(),
            size.width <= MAX_SIGHT_DIMENSION,
            size.height <= MAX_SIGHT_DIMENSION,
            terrain@.len() == size.cells(),
            exists|at: int| is_only_player(terrain@, at),
        ensures
            r.wf(),
            r.world_view().size() == size,
            forall|k: int|
                0 <= k < terrain@.len() ==> r.world_view().cell_holds(#[trigger] size.coord_of(k), terrain@[k]),
            forall|at: int|
                is_only_player(terrain@, at) ==> r.world_view().occupant(
                    #[trigger] size.coord_of(at),
                    Layer::Character,
                ) == Some(r.player()),
            forall|k: int|
                0 <= k < terrain@.len() && terrain@[k] is Npc ==> r.agents().agent_of(
                    r.world_view().occupant(#[trigger] size.coord_of(k), Layer::Character)->0,
                ) == Some(Agent { last_action: NpcAction::Wait }),
            all_live(r.agents().slots, r.world_view().live),
            forall|i: int| #[trigger]
                r.agents().slots.contains_key(i) <==> r.world_view().components.npc_types.contains_key(i),
            r.world_view().in_cell_order(r.agents().order),
            r.world_view().all_placed(),
            r.world_view().none_removed(),
            r.world_view().issued == entities_of(terrain@, terrain@.len()),
            forall|coord: Point|
                r.visibility().at(coord) == CellVisibility::Never.refreshed(
                    r.sees(initial_visibility_algorithm, coord),
                ),
            r.visibility().at(r.eye()) == CellVisibility::Currently,
    {
        let mut world = World::new(size);
        let ghost at = choose|at: int| is_only_player(terrain@, at);
        proof {
            assert(has_player(terrain@, terrain@.len() as int));
            assert(is_last_player(terrain@, at, terrain@.len() as int));
        }
        let Populate { player_entity, ai_state } = world.populate(terrain);
        let behaviour_context = BehaviourContext::new(size);
        let shadowcast_context = raw_context();
        let visibility_grid = VisibilityGrid::new(size);
        let mut game_state = GameState {
            ai_state,
            behaviour_context,
            player_entity,
            shadowcast_context,
            visibility_grid,
            world,
        };
        proof {
            let view = game_state.world@;
            lemma_coord_of_index(size, at);
            let home = size.coord_of(at);
            assert(view.cell_holds(home, terrain@[at]));
            assert(view.occupant(home, Layer::Character) == Some(player_entity));
            assert(view.location_of(player_entity) is Some);
            assert forall|coord: Point|
                (#[trigger] view.occupant(coord, Layer::Character)) is Some && !view.is_npc(
                    view.occupant(coord, Layer::Character)->0,
                ) implies entity_index(view.occupant(coord, Layer::Character)->0) == entity_index(
                player_entity,
            ) && entity_id(view.occupant(coord, Layer::Character)->0) == entity_id(player_entity) by {
                lemma_index_in_range(size, coord);
                let k = size.index_of(coord);
                assert(view.cell_holds(size.coord_of(k), terrain@[k]));
                assert(k == at);
            }
        }
        game_state.update_visibility(initial_visibility_algorithm);
        game_state
    }

    /// The turn of one non-player character: its agent decides, by the
    /// distances measured last, and the decision is applied.
    fn npc_turn(&mut self, entity: Entity, remembered: Agent)
        requires
            hero_holds(old(self).world@, old(self).player_entity),
            old(self).behaviour_context.wf(),
        ensures
            final(self).world@ == acted(old(self).world@, old(self).behaviour_context, entity),
            hero_holds(final(self).world@, old(self).player_entity),
            final(self).world@.size() == old(self).world@.size(),
            final(self).ai_state@ == old(self).ai_state@.with_agent(
                entity,
                Agent {
                    last_action: decision(old(self).world@, old(self).behaviour_context, entity),
                },
            ),
            final(self).behaviour_context == old(self).behaviour_context,
            final(self).player_entity == old(self).player_entity,
            final(self).visibility_grid == old(self).visibility_grid,
    {
        reveal(hero_holds);
        reveal(acted);
        let mut agent = remembered;
        let npc_action = agent.act(entity, &self.world, &self.behaviour_context);
        self.ai_state.insert(entity, agent);
        match npc_action {
            NpcAction::Wait => (),
            NpcAction::Move(direction) => {
                proof {
                    lemma_moved_keeps_hero(self.world@, self.player_entity, entity, direction);
                }
                self.world.maybe_move_character(entity, direction)
            },
        }
    }

    /// Drops the agents of the characters that no longer live.
    fn prune_agents(&mut self) -> (holders: Ghost<Seq<Entity>>)
        requires
            old(self).ai_state@.wf(),
        ensures
            lists_holders(old(self).ai_state@, holders@),
            final(self).ai_state@ == pruned(
                old(self).ai_state@,
                old(self).world@,
                holders@,
                holders@.len(),
            ),
            final(self).ai_state@.wf(),
            final(self).world@ == old(self).world@,
            final(self).behaviour_context == old(self).behaviour_context,
            final(self).player_entity == old(self).player_entity,
            final(self).visibility_grid == old(self).visibility_grid,
    {
        let ghost world0 = self.world@;
        let ghost agents0 = self.ai_state@;
        let listed = self.ai_state.entries();
        let ghost holders = listed@.map_values(|entry: (Entity, Agent)| entry.0);
        let mut k: usize = 0;
        while k < listed.len()
            invariant
                k <= listed@.len(),
                holders == listed@.map_values(|entry: (Entity, Agent)| entry.0),
                self.world@ == world0,
                self.behaviour_context == old(self).behaviour_context,
                self.player_entity == old(self).player_entity,
                self.visibility_grid == old(self).visibility_grid,
                self.ai_state@.wf(),
                self.ai_state@ == pruned(agents0, world0, holders, k as nat),
            decreases listed@.len() - k,
        {
            let (entity, _) = listed[k];
            assert(holders[k as int] == entity);
            if !self.world.is_living_character(entity) {
                proof {
                    lemma_order_drop(self.ai_state@.order, self.ai_state@.slots, entity_index(entity));
                }
                self.ai_state.remove(entity);
            }
            k = k + 1;
        }
        Ghost(holders)
    }

    /// Lets each agent act, in walking order.
    fn act_all(&mut self) -> (actors: Ghost<Seq<Entity>>)
        requires
            hero_holds(old(self).world@, old(self).player_entity),
            old(self).behaviour_context.wf(),
            old(self).ai_state@.wf(),
        ensures
            lists_holders(old(self).ai_state@, actors@),
            final(self).world@ == after_npc_turns(
                old(self).world@,
                old(self).behaviour_context,
                actors@,
                actors@.len(),
            ),
            hero_holds(final(self).world@, old(self).player_entity),
            final(self).world@.size() == old(self).world@.size(),
            final(self).ai_state@.order == old(self).ai_state@.order,
            final(self).ai_state@.slots.dom() == old(self).ai_state@.slots.dom(),
            final(self).ai_state@.wf(),
            forall|j: int|
                0 <= j < actors@.len() ==> final(self).ai_state@.agent_of(#[trigger] actors@[j]) == Some(
                    Agent {
                        last_action: decision(
                            after_npc_turns(
                                old(self).world@,
                                old(self).behaviour_context,
                                actors@,
                                j as nat,
                            ),
                            old(self).behaviour_context,
                            actors@[j],
                        ),
                    },
                ),
            final(self).behaviour_context == old(self).behaviour_context,
            final(self).player_entity == old(self).player_entity,
            final(self).visibility_grid == old(self).visibility_grid,
    {
        let ghost world0 = self.world@;
        let ghost kept = self.ai_state@;
        let ghost context = self.behaviour_context;
        let acting = self.ai_state.entries();
        let ghost actors = acting@.map_values(|entry: (Entity, Agent)| entry.0);
        let mut k: usize = 0;
        while k < acting.len()
            invariant
                k <= acting@.len(),
                actors == acting@.map_values(|entry: (Entity, Agent)| entry.0),
                lists_holders(kept, actors),
                kept.order.no_duplicates(),
                self.behaviour_context == context,
                context.wf(),
                self.player_entity == old(self).player_entity,
                self.visibility_grid == old(self).visibility_grid,
                self.world@ == after_npc_turns(world0, context, actors, k as nat),
                hero_holds(self.world@, self.player_entity),
                self.world@.size() == world0.size(),
                self.ai_state@.order == kept.order,
                self.ai_state@.slots.dom() == kept.slots.dom(),
                forall|j: int|
                    0 <= j < k ==> self.ai_state@.agent_of(#[trigger] actors[j]) == Some(
                        Agent {
                            last_action: decision(
                                after_npc_turns(world0, context, actors, j as nat),
                                context,
                                actors[j],
                            ),
                        },
                    ),
            decreases acting@.len() - k,
        {
            let (entity, remembered) = acting[k];
            let ghost before = self.ai_state@;
            proof {
                assert(actors[k as int] == entity);
                assert(entity_index(actors[k as int]) == kept.order[k as int]);
                assert(kept.agent_of(actors[k as int]) is Some);
                assert(kept.slots.contains_key(entity_index(entity)));
                assert(before.slots.dom().contains(entity_index(entity)));
                assert(kept.order.contains(entity_index(entity)));
            }
            self.npc_turn(entity, remembered);
            proof {
                assert(self.ai_state@.slots.dom() =~= before.slots.dom());
                assert forall|j: int| 0 <= j < k implies self.ai_state@.agent_of(#[trigger] actors[j])
                    == before.agent_of(actors[j]) by {
                    assert(entity_index(actors[j]) == kept.order[j]);
                    assert(kept.order[j] != kept.order[k as int]);
                }
            }
            k = k + 1;
        }
        proof {
            assert forall|i: int| #[trigger] self.ai_state@.order.contains(i) <==> self.ai_state@.slots.contains_key(i) by {
                assert(kept.slots.dom().contains(i) == kept.slots.contains_key(i));
                assert(self.ai_state@.slots.dom().contains(i) == self.ai_state@.slots.contains_key(i));
            }
        }
        Ghost(actors)
    }

    /// The turn of the non-player characters. The distances to the player
    /// are measured anew. The agents of characters that no longer live are
    /// dropped. Then each remaining agent, in walking order, decides and its
    /// decision is applied at once, so that each acts on the world the one
    /// before left.
    fn ai_turn(&mut self)
        requires
            old(self).wf(),
        ensures
            final(self).wf(),
            final(self).player() == old(self).player(),
            final(self).visibility() == old(self).visibility(),
            final(self).context().is_distance_field(
                old(self).world_view(),
                old(self).world_view().coord_of(old(self).player()),
            ),
            exists|holders: Seq<Entity>, actors: Seq<Entity>|
                npc_turns_taken(
                    old(self).world_view(),
                    old(self).agents(),
                    final(self).context(),
                    holders,
                    actors,
                    final(self).world_view(),
                    final(self).agents(),
                ),
    {
        self.behaviour_context.update(self.player_entity, &self.world);
        let holders = self.prune_agents();
        proof {
            reveal(hero_holds);
        }
        let actors = self.act_all();
        proof {
            assert(npc_turns_taken(
                old(self).world@,
                old(self).ai_state@,
                self.behaviour_context,
                holders@,
                actors@,
                self.world@,
                self.ai_state@,
            ));
        }
    }

    /// The player tries to step in `direction`, which may be an attack, and
    /// then the non-player characters take their turn.
    pub fn maybe_move_player(&mut self, direction: CardinalDirection)
        requires
            old(self).wf(),
        ensures
            final(self).wf(),
            final(self).player() == old(self).player(),
            final(self).visibility() == old(self).visibility(),
            final(self).context().is_distance_field(
                old(self).world_view().moved(old(self).player(), direction),
                old(self).world_view().moved(old(self).player(), direction).coord_of(old(self).player()),
            ),
            exists|holders: Seq<Entity>, actors: Seq<Entity>|
                npc_turns_taken(
                    old(self).world_view().moved(old(self).player(), direction),
                    old(self).agents(),
                    final(self).context(),
                    holders,
                    actors,
                    final(self).world_view(),
                    final(self).agents(),
                ),
    {
        proof {
            lemma_moved_keeps_hero(self.world@, self.player_entity, self.player_entity, direction);
        }
        self.world.maybe_move_character(self.player_entity, direction);
        self.ai_turn();
    }

    /// The player lets its turn pass, and the non-player characters take
    /// theirs.
    pub fn wait_player(&mut self)
        requires
            old(self).wf(),
        ensures
            final(self).wf(),
            final(self).player() == old(self).player(),
            final(self).visibility() == old(self).visibility(),
            final(self).context().is_distance_field(
                old(self).world_view(),
                old(self).world_view().coord_of(old(self).player()),
            ),
            exists|holders: Seq<Entity>, actors: Seq<Entity>|
                npc_turns_taken(
                    old(self).world_view(),
                    old(self).agents(),
                    final(self).context(),
                    holders,
                    actors,
                    final(self).world_view(),
                    final(self).agents(),
                ),
    {
        self.ai_turn();
    }

    /// Whether the player stands on the character layer, which the dead
    /// leave.
    pub fn is_player_alive(&self) -> (r: bool)
        ensures
            r == self.world_view().is_living_character(self.player()),
    {
        self.world.is_living_character(self.player_entity)
    }

    /// The agents of the non-player characters.
    pub fn ai_state(&self) -> (r: &Agents)
        ensures
            r@ == self.agents(),
    {
        &self.ai_state
    }

    /// The distances to the player as they were last measured.
    pub fn behaviour_context(&self) -> (r: &BehaviourContext)
        ensures
            *r == self.context(),
    {
        &self.behaviour_context
    }

    /// The player.
    pub fn player_entity(&self) -> (r: Entity)
        ensures
            r == self.player(),
    {
        self.player_entity
    }

    /// The world.
    pub fn world(&self) -> (r: &World)
        ensures
            r@ == self.world_view(),
    {
        &self.world
    }

    /// What the player knows of a cell.
    pub fn cell_visibility(&self, coord: Point) -> (r: CellVisibility)
        requires
            self.wf(),
        ensures
            r == self.visibility().at(coord),
    {
        self.visibility_grid.cell_visibility(coord)
    }

    /// Brings what the player knows up to date with what it sees from where
    /// it is. Under `Omniscient` it sees every cell; under `Shadowcast`, the
    /// cells that the shadowcast over the world's features reports within
    /// the sight radius. A cell it sees is in sight, a cell that was in
    /// sight and is not seen is remembered, and nothing is forgotten.
    pub fn update_visibility(&mut self, visibility_algorithm: VisibilityAlgorithm)
        requires
            old(self).wf(),
        ensures
            final(self).wf(),
            final(self).world_view() == old(self).world_view(),
            final(self).player() == old(self).player(),
            final(self).agents() == old(self).agents(),
            final(self).context() == old(self).context(),
            forall|coord: Point|
                final(self).visibility().at(coord) == old(self).visibility().at(coord).refreshed(
                    old(self).sees(visibility_algorithm, coord),
                ),
            forall|coord: Point|
                old(self).visibility().at(coord) != CellVisibility::Never
                    ==> final(self).visibility().at(coord) != CellVisibility::Never,
            forall|coord: Point|
                visibility_algorithm == VisibilityAlgorithm::Shadowcast
                    && final(self).visibility().at(coord) == CellVisibility::Currently
                    ==> coord.distance_squared(old(self).eye()) <= VISION_DISTANCE_SQUARED,
            forall|coord: Point|
                visibility_algorithm == VisibilityAlgorithm::Omniscient
                    && old(self).world_view().size().contains(coord)
                    ==> final(self).visibility().at(coord) == CellVisibility::Currently,
            final(self).visibility().at(old(self).eye()) == CellVisibility::Currently,
    {
        if let Some(player_coord) = self.world.entity_coord(self.player_entity) {
            self.visibility_grid.update(
                player_coord,
                &self.world,
                &mut self.shadowcast_context,
                visibility_algorithm,
            );
        }
    }

    /// Every entity that has a tile and is somewhere, with its tile, its
    /// location and what the player knows of its cell, in the order of the
    /// tile table.
    pub fn entities_to_render(&self) -> (r: Vec<EntityToRender>)
        requires
            self.wf(),
        ensures
            r@ == rendered(self.world_view(), self.visibility(), self.world_view().components.tile_order.len()),
    {
        let entries = self.world.components().tiles();
        let mut out: Vec<EntityToRender> = Vec::new();
        let mut k: usize = 0;
        while k < entries.len()
            invariant
                k <= entries@.len(),
                self.wf(),
                entries@.len() == self.world@.components.tile_order.len(),
                forall|j: int|
                    0 <= j < entries@.len() ==> {
                        &&& entity_index(#[trigger] entries@[j].0) == self.world@.components.tile_order[j]
                        &&& slot_value(self.world@.components.tiles, entries@[j].0) == Some(entries@[j].1)
                    },
                out@ == rendered(self.world@, self.visibility_grid, k as nat),
            decreases entries@.len() - k,
        {
            let (entity, tile) = entries[k];
            assert(entity_index(entries@[k as int].0) == self.world@.components.tile_order[k as int]);
            if let Some(location) = self.world.spatial_table().location_of(entity) {
                let visibility = self.visibility_grid.cell_visibility(location.coord);
                out.push(EntityToRender { tile, location, visibility });
            }
            k = k + 1;
        }
        out
    }
}

} // verus!
