//! Non-player characters: what each decides to do in its turn.

use vstd::prelude::*;
use entity_table::{ComponentTable, Entity};
use crate::entity::{
    entity_index, order_drop, order_lists, order_put, slot_drop, slot_put, slot_value, table_entries,
    table_insert, table_remove, Component, Slots,
};
use crate::geometry::{lemma_index_in_range, CardinalDirection, Extent, Point};
use crate::world::{World, WorldView};

verus! {

/// What a non-player character does in its turn.
#[derive(Clone, Copy, Debug, PartialEq, Eq, Structural)]
pub enum NpcAction {
    Wait,
    Move(CardinalDirection),
}

/// The state that a non-player character keeps between turns: what it
/// decided last.
#[derive(Clone, Copy, Debug, PartialEq, Eq, Structural)]
pub struct Agent {
    pub last_action: NpcAction,
}

impl Agent {
    /// An agent that has not acted yet.
    pub fn new() -> (r: Agent)
        ensures
            r == (Agent { last_action: NpcAction::Wait }),
    {
        Agent { last_action: NpcAction::Wait }
    }

    /// Decides what the non-player character `entity` does in its turn, and
    /// remembers it. A character that stands somewhere steps towards the
    /// player as the distances in `context` say; one that is nowhere waits.
    /// The world is left as it is: the caller applies the decision.
    pub fn act(&mut self, entity: Entity, world: &World, context: &BehaviourContext) -> (r: NpcAction)
        requires
            context.wf(),
        ensures
            r == decision(world@, *context, entity),
            final(self).last_action == r,
    {
        let action = match world.entity_coord(entity) {
            Some(from) => context.decide(from),
            None => NpcAction::Wait,
        };
        self.last_action = action;
        action
    }
}

/// What the table of agents holds.
pub uninterp spec fn agent_slots(table: ComponentTable<Agent>) -> Map<int, (int, Agent)>;

/// The slots of the table of agents in the order in which it is walked.
pub uninterp spec fn agent_order(table: ComponentTable<Agent>) -> Seq<int>;

/// `ComponentTable::default`: an empty table.
#[verifier::external_body]
fn agent_table_new() -> (table: ComponentTable<Agent>)
    ensures
        agent_slots(table) == (Map::<int, (int, Agent)>::empty()),
        agent_order(table) == (Seq::<int>::empty()),
{
    ComponentTable::default()
}

impl Component for Agent {
    open spec fn slots(table: ComponentTable<Agent>) -> Slots<Agent> {
        agent_slots(table)
    }

    open spec fn order(table: ComponentTable<Agent>) -> Seq<int> {
        agent_order(table)
    }
}

/// What a table of agents holds, and the order in which it is walked.
pub ghost struct AgentsView {
    pub slots: Slots<Agent>,
    pub order: Seq<int>,
}

impl AgentsView {
    pub open spec fn empty() -> AgentsView {
        AgentsView { slots: Map::empty(), order: Seq::empty() }
    }

    /// The walk visits each agent once.
    pub open spec fn wf(self) -> bool {
        order_lists(self.order, self.slots)
    }

    pub open spec fn with_agent(self, entity: Entity, agent: Agent) -> AgentsView {
        AgentsView {
            slots: slot_put(self.slots, entity, agent),
            order: order_put(self.order, entity_index(entity)),
        }
    }

    pub open spec fn without(self, entity: Entity) -> AgentsView {
        AgentsView {
            slots: slot_drop(self.slots, entity),
            order: order_drop(self.order, entity_index(entity)),
        }
    }

    pub open spec fn agent_of(self, entity: Entity) -> Option<Agent> {
        slot_value(self.slots, entity)
    }
}

/// The agents of the non-player characters, one per character.
pub struct Agents {
    table: ComponentTable<Agent>,
}

impl View for Agents {
    type V = AgentsView;

    closed spec fn view(&self) -> AgentsView {
        AgentsView { slots: agent_slots(self.table), order: agent_order(self.table) }
    }
}

impl Agents {
    /// No agents.
    pub fn new() -> (r: Agents)
        ensures
            r@ == AgentsView::empty(),
    {
        Agents { table: agent_table_new() }
    }

    /// Gives `entity` an agent, in place of the one it had.
    pub fn insert(&mut self, entity: Entity, agent: Agent)
        ensures
            final(self)@ == old(self)@.with_agent(entity, agent),
    {
        table_insert(&mut self.table, entity, agent);
    }

    /// Takes the agent in the slot of `entity` away.
    pub fn remove(&mut self, entity: Entity)
        ensures
            final(self)@ == old(self)@.without(entity),
    {
        table_remove(&mut self.table, entity);
    }

    /// Every entity that has an agent, with its agent, in walking order.
    pub fn entries(&self) -> (entries: Vec<(Entity, Agent)>)
        ensures
            entries@.len() == self@.order.len(),
            forall|k: int|
                0 <= k < entries@.len() ==> {
                    &&& entity_index(#[trigger] entries@[k].0) == self@.order[k]
                    &&& self@.agent_of(entries@[k].0) == Some(entries@[k].1)
                },
    {
        table_entries(&self.table)
    }
}

/// A best choice so far, with its distance as a natural number.
pub open spec fn spec_best(best: (Option<u32>, NpcAction)) -> (Option<nat>, NpcAction) {
    (
        match best.0 {
            Some(steps) => Some(steps as nat),
            None => None,
        },
        best.1,
    )
}

/// The mark of a cell that the search from the player has not reached.
pub const UNREACHED: u32 = 0xffff_ffff;

/// The distance that a vector of marks records for a cell of a grid.
pub open spec fn recorded(size: Extent, marks: Seq<u32>, coord: Point) -> Option<nat> {
    if size.contains(coord) && marks[size.index_of(coord)] != UNREACHED {
        Some(marks[size.index_of(coord)] as nat)
    } else {
        None
    }
}

/// Whether a non-player character may stand on a cell of a grid of the given
/// size: the cell is in the grid and in the world, and holds no feature.
pub open spec fn passable(size: Extent, world: WorldView, coord: Point) -> bool {
    size.contains(coord) && world.is_open(coord)
}

/// The state of a breadth-first search from `source`. The cells reached so
/// far are those of `queue`, in the order in which they were reached; those
/// before `head` have had all their neighbours looked at, and the one at
/// `head` those in the directions of `done`.
pub open spec fn searching(
    size: Extent,
    world: WorldView,
    source: Point,
    marks: Seq<u32>,
    queue: Seq<Point>,
    head: int,
    done: Set<CardinalDirection>,
) -> bool {
    &&& size.valid()
    &&& marks.len() == size.cells()
    &&& 0 <= head <= queue.len()
    &&& queue.len() >= 1
    &&& queue[0] == source
    &&& recorded(size, marks, source) == Some(0nat)
    &&& forall|i: int|
        0 <= i < queue.len() ==> size.contains(#[trigger] queue[i]) && recorded(
            size,
            marks,
            queue[i],
        ) is Some && recorded(size, marks, queue[i])->0 <= i
    &&& forall|i: int, j: int| 0 <= i < j < queue.len() ==> queue[i] != queue[j]
    &&& forall|coord: Point|
        (#[trigger] recorded(size, marks, coord)) is Some ==> queue.contains(coord)
    &&& forall|i: int, j: int|
        0 <= i <= j < queue.len() ==> recorded(size, marks, queue[i])->0 <= recorded(
            size,
            marks,
            queue[j],
        )->0
    &&& head < queue.len() ==> recorded(size, marks, queue[queue.len() - 1])->0 <= recorded(
        size,
        marks,
        queue[head],
    )->0 + 1
    &&& forall|i: int|
        0 < i < queue.len() ==> reached_from_neighbour(size, world, marks, #[trigger] queue[i])
    &&& forall|i: int, direction: CardinalDirection|
        0 <= i < head ==> #[trigger] looked_at(size, world, marks, queue[i], direction)
    &&& forall|direction: CardinalDirection|
        done.contains(direction) ==> head < queue.len() && looked_at(
            size,
            world,
            marks,
            queue[head],
            direction,
        )
}

/// Whether a cell away from the source carries a positive distance, can be
/// stood on, and has a neighbour that is one step nearer.
pub open spec fn reached_from_neighbour(size: Extent, world: WorldView, marks: Seq<u32>, coord: Point) -> bool {
    &&& recorded(size, marks, coord) is Some
    &&& recorded(size, marks, coord)->0 > 0
    &&& passable(size, world, coord)
    &&& exists|direction: CardinalDirection|
        recorded(size, marks, #[trigger] coord.stepped(direction)) == Some(
            (recorded(size, marks, coord)->0 - 1) as nat,
        )
}

/// Whether the neighbour of a reached cell in a direction, if it can be
/// stood on, is reached too and at most one step farther.
pub open spec fn looked_at(
    size: Extent,
    world: WorldView,
    marks: Seq<u32>,
    coord: Point,
    direction: CardinalDirection,
) -> bool {
    passable(size, world, coord.stepped(direction)) ==> {
        &&& recorded(size, marks, coord.stepped(direction)) is Some
        &&& recorded(size, marks, coord.stepped(direction))->0 <= recorded(size, marks, coord)->0 + 1
    }
}

/// The distance of each cell from the player, for the non-player characters
/// to walk down. It is measured in steps over cells that hold no feature.
pub struct BehaviourContext {
    size: Extent,
    distances: Vec<u32>,
}

impl BehaviourContext {
    /// The size of the grid.
    pub closed spec fn size(self) -> Extent {
        self.size
    }

    /// There is one mark for each cell.
    pub closed spec fn wf(self) -> bool {
        self.size.valid() && self.distances@.len() == self.size.cells()
    }

    /// The number of steps from a cell to the player, where the cell can be
    /// reached.
    pub closed spec fn distance(self, coord: Point) -> Option<nat> {
        recorded(self.size, self.distances@, coord)
    }

    /// The distance of the neighbour of a cell in a direction.
    pub open spec fn neighbour_distance(self, coord: Point, direction: CardinalDirection) -> Option<nat> {
        if coord.can_step(direction) {
            self.distance(coord.stepped(direction))
        } else {
            None
        }
    }

    /// Whether the distances are those of the shortest walks to `source` over
    /// cells of the grid that hold no feature in `world`. The source is the
    /// one cell at distance zero. A cell at a positive distance holds no
    /// feature and has a neighbour one step nearer. And a neighbour that
    /// holds no feature, of a cell that has a distance, has one too, at most
    /// one step farther. With no source in the grid no cell has a distance.
    pub open spec fn is_distance_field(self, world: WorldView, source: Option<Point>) -> bool {
        &&& forall|coord: Point| (#[trigger] self.distance(coord)) is Some ==> self.size().contains(coord)
        &&& match source {
            Some(source) if self.size().contains(source) => {
                &&& self.distance(source) == Some(0nat)
                &&& forall|coord: Point| #[trigger] self.distance(coord) == Some(0nat) ==> coord == source
                &&& forall|coord: Point|
                    (#[trigger] self.distance(coord)) is Some && coord != source ==> {
                        &&& self.distance(coord)->0 > 0
                        &&& passable(self.size(), world, coord)
                        &&& exists|direction: CardinalDirection| #[trigger]
                            self.is_nearer(coord, direction)
                    }
                &&& forall|coord: Point, direction: CardinalDirection|
                    self.distance(coord) is Some ==> #[trigger] self.is_near(world, coord, direction)
            },
            _ => forall|coord: Point| (#[trigger] self.distance(coord)) is None,
        }
    }

    /// Whether the neighbour of a cell in a direction is one step nearer to
    /// the source than the cell.
    pub open spec fn is_nearer(self, coord: Point, direction: CardinalDirection) -> bool {
        self.distance(coord.stepped(direction)) == Some((self.distance(coord)->0 - 1) as nat)
    }

    /// Whether the neighbour of a cell in a direction, if it holds no
    /// feature, has a distance, at most one step more than the cell.
    pub open spec fn is_near(self, world: WorldView, coord: Point, direction: CardinalDirection) -> bool {
        passable(self.size(), world, coord.stepped(direction)) ==> {
            &&& self.distance(coord.stepped(direction)) is Some
            &&& self.distance(coord.stepped(direction))->0 <= self.distance(coord)->0 + 1
        }
    }

    /// What a non-player character at `from` does. It looks north, east,
    /// south and west, in this order, and steps to the neighbour whose
    /// distance to the player is smallest, if that is smaller than the
    /// distance of its own cell; of equal neighbours it takes the first.
    /// Where no neighbour is nearer it waits.
    pub open spec fn choice(self, from: Point) -> NpcAction {
        let north = self.better(from, (self.distance(from), NpcAction::Wait), CardinalDirection::North);
        let east = self.better(from, north, CardinalDirection::East);
        let south = self.better(from, east, CardinalDirection::South);
        let west = self.better(from, south, CardinalDirection::West);
        west.1
    }

    /// The better of the best choice so far and a step in `direction`.
    pub open spec fn better(
        self,
        from: Point,
        best: (Option<nat>, NpcAction),
        direction: CardinalDirection,
    ) -> (Option<nat>, NpcAction) {
        match self.neighbour_distance(from, direction) {
            Some(distance) if best.0 is None || distance < best.0->0 => (
                Some(distance),
                NpcAction::Move(direction),
            ),
            _ => best,
        }
    }

    /// A context for a grid of the given size, in which no cell has a
    /// distance yet.
    pub fn new(size: Extent) -> (r: BehaviourContext)
        requires
            size.valid(),
        ensures
            r.wf(),
            r.size() == size,
            forall|coord: Point| r.distance(coord) is None,
    {
        let count = size.count();
        let mut distances: Vec<u32> = Vec::new();
        let mut k: usize = 0;
        while k < count
            invariant
                k <= count,
                distances@.len() == k,
                forall|j: int| 0 <= j < k ==> distances@[j] == UNREACHED,
            decreases count - k,
        {
            distances.push(UNREACHED);
            k = k + 1;
        }
        let context = BehaviourContext { size, distances };
        proof {
            assert forall|coord: Point| context.distance(coord) is None by {
                if size.contains(coord) {
                    lemma_index_in_range(size, coord);
                }
            }
        }
        context
    }

    /// The number of steps from a cell to the player, where the cell can be
    /// reached.
    pub fn distance_at(&self, coord: Point) -> (r: Option<u32>)
        requires
            self.wf(),
        ensures
            r is Some == self.distance(coord) is Some,
            r matches Some(steps) ==> self.distance(coord) == Some(steps as nat),
    {
        match self.size.index(coord) {
            Some(index) => {
                let mark: u32 = self.distances[index];
                if mark == UNREACHED {
                    None
                } else {
                    Some(mark)
                }
            },
            None => None,
        }
    }

    /// The better of the best choice so far and a step in `direction`.
    fn consider(&self, from: Point, best: (Option<u32>, NpcAction), direction: CardinalDirection) -> (r: (
        Option<u32>,
        NpcAction,
    ))
        requires
            self.wf(),
        ensures
            spec_best(r) == self.better(from, spec_best(best), direction),
    {
        let to = match from.step(direction) {
            Some(to) => to,
            None => {
                return best;
            },
        };
        match self.distance_at(to) {
            Some(steps) => {
                let nearer = match best.0 {
                    Some(least) => steps < least,
                    None => true,
                };
                if nearer {
                    (Some(steps), NpcAction::Move(direction))
                } else {
                    best
                }
            },
            None => best,
        }
    }

    /// What a non-player character at `from` does: it steps to the
    /// neighbouring cell that is nearest to the player, if that is nearer
    /// than its own, and waits otherwise.
    pub fn decide(&self, from: Point) -> (r: NpcAction)
        requires
            self.wf(),
        ensures
            r == self.choice(from),
    {
        let start = (self.distance_at(from), NpcAction::Wait);
        let north = self.consider(from, start, CardinalDirection::North);
        let east = self.consider(from, north, CardinalDirection::East);
        let south = self.consider(from, east, CardinalDirection::South);
        let west = self.consider(from, south, CardinalDirection::West);
        west.1
    }

    /// Forgets every distance.
    fn clear(&mut self)
        requires
            old(self).wf(),
        ensures
            final(self).wf(),
            final(self).size() == old(self).size(),
            forall|j: int| 0 <= j < final(self).distances@.len() ==> final(self).distances@[j] == UNREACHED,
            forall|coord: Point| final(self).distance(coord) is None,
    {
        let count = self.distances.len();
        let mut k: usize = 0;
        while k < count
            invariant
                k <= count,
                self.size == old(self).size,
                self.distances@.len() == count,
                forall|j: int| 0 <= j < k ==> self.distances@[j] == UNREACHED,
            decreases count - k,
        {
            self.distances.set(k, UNREACHED);
            k = k + 1;
        }
        proof {
            assert forall|coord: Point| self.distance(coord) is None by {
                if self.size.contains(coord) {
                    lemma_index_in_range(self.size, coord);
                }
            }
        }
    }

    /// Measures anew the distance of every cell from the cell of `player` in
    /// `world`, by a breadth-first search over the cells of the grid that
    /// hold no feature. Where the player is nowhere, or outside the grid, no
    /// cell has a distance.
    pub fn update(&mut self, player: Entity, world: &World)
        requires
            old(self).wf(),
        ensures
            final(self).wf(),
            final(self).size() == old(self).size(),
            final(self).is_distance_field(world@, world@.coord_of(player)),
    {
        self.clear();
        let source = match world.entity_coord(player) {
            Some(source) => source,
            None => {
                return ;
            },
        };
        let source_index = match self.size.index(source) {
            Some(index) => index,
            None => {
                return ;
            },
        };
        let size = self.size;
        let ghost view = world@;
        self.distances.set(source_index, 0);
        let mut queue: Vec<Point> = Vec::new();
        queue.push(source);
        let mut head: usize = 0;
        proof {
            lemma_index_in_range(size, source);
            let marks = self.distances@;
            assert forall|coord: Point| coord != source implies recorded(size, marks, coord) is None by {
                if size.contains(coord) {
                    lemma_index_in_range(size, coord);
                }
            }
            assert forall|coord: Point| (#[trigger] recorded(size, marks, coord)) is Some implies queue@.contains(
                coord,
            ) by {
                assert(queue@[0] == source);
            }
        }
        while head < queue.len()
            invariant
                self.size == size,
                size == old(self).size,
                view == world@,
                searching(size, view, source, self.distances@, queue@, head as int, Set::empty()),
            decreases size.cells() - head,
        {
            proof {
                lemma_queue_bounded(size, queue@);
            }
            let ghost none = Set::<CardinalDirection>::empty();
            visit(size, world, &mut self.distances, &mut queue, head, CardinalDirection::North, Ghost(source), Ghost(none));
            let ghost one = none.insert(CardinalDirection::North);
            visit(size, world, &mut self.distances, &mut queue, head, CardinalDirection::East, Ghost(source), Ghost(one));
            let ghost two = one.insert(CardinalDirection::East);
            visit(size, world, &mut self.distances, &mut queue, head, CardinalDirection::South, Ghost(source), Ghost(two));
            let ghost three = two.insert(CardinalDirection::South);
            visit(size, world, &mut self.distances, &mut queue, head, CardinalDirection::West, Ghost(source), Ghost(three));
            proof {
                let all = three.insert(CardinalDirection::West);
                lemma_head_done(size, view, source, self.distances@, queue@, head as int, all);
            }
            head = head + 1;
        }
        proof {
            let marks = self.distances@;
            lemma_search_over(size, view, source, marks, queue@);
            assert forall|coord: Point| (#[trigger] self.distance(coord)) is Some && coord != source implies {
                &&& self.distance(coord)->0 > 0
                &&& passable(self.size(), view, coord)
                &&& exists|direction: CardinalDirection| #[trigger] self.is_nearer(coord, direction)
            } by {
                assert(reached_from_neighbour(size, view, marks, coord));
                let direction = choose|direction: CardinalDirection|
                    recorded(size, marks, #[trigger] coord.stepped(direction)) == Some(
                        (recorded(size, marks, coord)->0 - 1) as nat,
                    );
                assert(self.is_nearer(coord, direction));
            }
            assert forall|coord: Point, direction: CardinalDirection|
                self.distance(coord) is Some implies #[trigger] self.is_near(view, coord, direction) by {
                assert(looked_at(size, view, marks, coord, direction));
            }
            assert(world@.coord_of(player) == Some(source));
        }
    }
}

/// What the non-player character `entity` decides in a world, given the
/// distances to the player.
pub open spec fn decision(world: WorldView, context: BehaviourContext, entity: Entity) -> NpcAction {
    match world.coord_of(entity) {
        Some(from) => context.choice(from),
        None => NpcAction::Wait,
    }
}

/// A character that steps, steps to a neighbour that has a distance, nearer
/// to the player than its own cell and no farther than any other neighbour.
/// A character that waits has no neighbour nearer than its own cell.
pub proof fn lemma_choice_is_nearest(context: BehaviourContext, from: Point)
    ensures
        match context.choice(from) {
            NpcAction::Move(direction) => {
                &&& context.neighbour_distance(from, direction) is Some
                &&& context.distance(from) is Some ==> context.neighbour_distance(from, direction)->0
                    < context.distance(from)->0
                &&& forall|other: CardinalDirection|
                    (#[trigger] context.neighbour_distance(from, other)) is Some
                        ==> context.neighbour_distance(from, direction)->0
                        <= context.neighbour_distance(from, other)->0
            },
            NpcAction::Wait => forall|other: CardinalDirection|
                (#[trigger] context.neighbour_distance(from, other)) is Some ==> context.distance(
                    from,
                ) is Some && context.distance(from)->0 <= context.neighbour_distance(from, other)->0,
        },
{
    let start = (context.distance(from), NpcAction::Wait);
    let north = context.better(from, start, CardinalDirection::North);
    let east = context.better(from, north, CardinalDirection::East);
    let south = context.better(from, east, CardinalDirection::South);
    let west = context.better(from, south, CardinalDirection::West);
    assert forall|other: CardinalDirection|
        (#[trigger] context.neighbour_distance(from, other)) is Some implies west.0 is Some && west.0->0
        <= context.neighbour_distance(from, other)->0 by {
        match other {
            CardinalDirection::North => {},
            CardinalDirection::East => {},
            CardinalDirection::South => {},
            CardinalDirection::West => {},
        }
    }
}

/// Whether `walk` leads from its first cell to its last by single steps, over
/// cells of the grid that hold no feature; the last cell may hold one.
pub open spec fn is_walk(size: Extent, world: WorldView, walk: Seq<Point>) -> bool {
    &&& walk.len() >= 1
    &&& forall|i: int|
        0 <= i < walk.len() - 1 ==> passable(size, world, #[trigger] walk[i]) && exists|
            direction: CardinalDirection,
        |
            walk[i].stepped(direction) == walk[i + 1]
}

/// No walk to the source is shorter than the distance: the first cell of any
/// walk that ends at the source has a distance, and it is at most the number
/// of steps of the walk.
pub proof fn lemma_no_shorter_walk(context: BehaviourContext, world: WorldView, source: Point, walk: Seq<Point>)
    requires
        context.wf(),
        context.size().contains(source),
        context.is_distance_field(world, Some(source)),
        is_walk(context.size(), world, walk),
        walk.last() == source,
    ensures
        context.distance(walk[0]) is Some,
        context.distance(walk[0])->0 <= walk.len() - 1,
    decreases walk.len(),
{
    if walk.len() > 1 {
        let rest = walk.subrange(1, walk.len() as int);
        assert forall|i: int| 0 <= i < rest.len() - 1 implies passable(
            context.size(),
            world,
            #[trigger] rest[i],
        ) && exists|direction: CardinalDirection| rest[i].stepped(direction) == rest[i + 1] by {
            assert(rest[i] == walk[i + 1]);
            assert(rest[i + 1] == walk[i + 2]);
            assert(passable(context.size(), world, walk[i + 1]));
        }
        assert(rest.last() == walk.last());
        lemma_no_shorter_walk(context, world, source, rest);
        assert(rest[0] == walk[1]);
        assert(passable(context.size(), world, walk[0]));
        let direction = choose|direction: CardinalDirection| walk[0].stepped(direction) == walk[1];
        lemma_step_back(walk[0], direction);
        let back = opposite_of(direction);
        assert(walk[1].stepped(back) == walk[0]);
        assert(context.is_near(world, walk[1], back));
    }
}

/// The distance of a cell is the length of a walk to the source: a cell at
/// distance `steps` starts a walk of that many steps that ends at the
/// source.
pub proof fn lemma_walk_exists(context: BehaviourContext, world: WorldView, source: Point, from: Point, steps: nat) -> (walk:
    Seq<Point>)
    requires
        context.wf(),
        context.size().contains(source),
        context.is_distance_field(world, Some(source)),
        context.distance(from) == Some(steps),
    ensures
        is_walk(context.size(), world, walk),
        walk[0] == from,
        walk.last() == source,
        walk.len() == steps + 1,
    decreases steps,
{
    if from == source {
        seq![from]
    } else {
        let direction = choose|direction: CardinalDirection| #[trigger]
            context.is_nearer(from, direction);
        let next = from.stepped(direction);
        let rest = lemma_walk_exists(context, world, source, next, (steps - 1) as nat);
        let walk = seq![from] + rest;
        assert forall|i: int| 0 <= i < walk.len() - 1 implies passable(
            context.size(),
            world,
            #[trigger] walk[i],
        ) && exists|step: CardinalDirection| walk[i].stepped(step) == walk[i + 1] by {
            if i == 0 {
                assert(walk[1] == rest[0]);
                assert(walk[0].stepped(direction) == walk[1]);
            } else {
                assert(walk[i] == rest[i - 1]);
                assert(walk[i + 1] == rest[i]);
                assert(passable(context.size(), world, rest[i - 1]));
            }
        }
        assert(walk.last() == rest.last());
        walk
    }
}

/// Once the neighbours of the head in all four directions have been looked
/// at, the search stands at the next cell of the queue.
proof fn lemma_head_done(
    size: Extent,
    world: WorldView,
    source: Point,
    marks: Seq<u32>,
    queue: Seq<Point>,
    head: int,
    done: Set<CardinalDirection>,
)
    requires
        searching(size, world, source, marks, queue, head, done),
        head < queue.len(),
        forall|direction: CardinalDirection| done.contains(direction),
    ensures
        searching(size, world, source, marks, queue, head + 1, Set::empty()),
{
    assert forall|i: int, direction: CardinalDirection| 0 <= i < head + 1 implies #[trigger] looked_at(
        size,
        world,
        marks,
        queue[i],
        direction,
    ) by {
        if i == head {
            assert(done.contains(direction));
        }
    }
    if head + 1 < queue.len() {
        assert(recorded(size, marks, queue[head])->0 <= recorded(size, marks, queue[head + 1])->0);
    }
}

/// When the queue is used up, the marks are the distances to the source.
proof fn lemma_search_over(
    size: Extent,
    world: WorldView,
    source: Point,
    marks: Seq<u32>,
    queue: Seq<Point>,
)
    requires
        searching(size, world, source, marks, queue, queue.len() as int, Set::empty()),
    ensures
        size.contains(source),
        recorded(size, marks, source) == Some(0nat),
        forall|coord: Point| #[trigger] recorded(size, marks, coord) == Some(0nat) ==> coord == source,
        forall|coord: Point|
            (#[trigger] recorded(size, marks, coord)) is Some && coord != source
                ==> reached_from_neighbour(size, world, marks, coord),
        forall|coord: Point, direction: CardinalDirection|
            recorded(size, marks, coord) is Some ==> #[trigger] looked_at(
                size,
                world,
                marks,
                coord,
                direction,
            ),
{
    assert forall|coord: Point|
        (#[trigger] recorded(size, marks, coord)) is Some && coord != source implies reached_from_neighbour(
        size,
        world,
        marks,
        coord,
    ) by {
        assert(queue.contains(coord));
        let i = choose|i: int| 0 <= i < queue.len() && queue[i] == coord;
        assert(reached_from_neighbour(size, world, marks, queue[i]));
    }
    assert forall|coord: Point| #[trigger] recorded(size, marks, coord) == Some(0nat) implies coord
        == source by {
        if coord != source {
            assert(reached_from_neighbour(size, world, marks, coord));
        }
    }
    assert forall|coord: Point, direction: CardinalDirection|
        recorded(size, marks, coord) is Some implies #[trigger] looked_at(
        size,
        world,
        marks,
        coord,
        direction,
    ) by {
        assert(queue.contains(coord));
        let i = choose|i: int| 0 <= i < queue.len() && queue[i] == coord;
        assert(looked_at(size, world, marks, queue[i], direction));
    }
}

/// Looks at the neighbour, in one direction, of the cell at the head of the
/// queue. A neighbour that can be stood on and is not reached yet is reached
/// now, one step farther than the head, and joins the queue.
fn visit(
    size: Extent,
    world: &World,
    marks: &mut Vec<u32>,
    queue: &mut Vec<Point>,
    head: usize,
    direction: CardinalDirection,
    Ghost(source): Ghost<Point>,
    Ghost(done): Ghost<Set<CardinalDirection>>,
)
    requires
        searching(size, world@, source, old(marks)@, old(queue)@, head as int, done),
        head < old(queue)@.len(),
    ensures
        searching(
            size,
            world@,
            source,
            final(marks)@,
            final(queue)@,
            head as int,
            done.insert(direction),
        ),
        head < final(queue)@.len(),
{
    let ghost marks0 = marks@;
    let ghost queue0 = queue@;
    let ghost view = world@;
    let from = queue[head];
    proof {
        lemma_index_in_range(size, from);
        lemma_queue_bounded(size, queue0);
    }
    let from_index = match size.index(from) {
        Some(index) => index,
        None => {
            return ;
        },
    };
    let near: u32 = marks[from_index];
    assert(recorded(size, marks0, from) == Some(near as nat));
    assert(near <= head);
    let to = match from.step(direction) {
        Some(to) => to,
        None => {
            return ;
        },
    };
    assert(to == from.stepped(direction));
    let to_index = match size.index(to) {
        Some(index) => index,
        None => {
            return ;
        },
    };
    proof {
        lemma_index_in_range(size, to);
    }
    if marks[to_index] == UNREACHED && world.can_npc_enter_ignoring_other_npcs(to) {
        marks.set(to_index, near + 1);
        queue.push(to);
        proof {
            lemma_reached(size, view, source, marks0, queue0, head as int, done, direction, near);
        }
    } else {
        proof {
            lemma_passed_by(size, view, source, marks0, queue0, head as int, done, direction);
        }
    }
}

/// The search goes on when a neighbour of the head that can be stood on and
/// was not reached is marked one step farther than the head and joins the
/// queue.
proof fn lemma_reached(
    size: Extent,
    view: WorldView,
    source: Point,
    marks0: Seq<u32>,
    queue0: Seq<Point>,
    head: int,
    done: Set<CardinalDirection>,
    direction: CardinalDirection,
    near: u32,
)
    requires
        searching(size, view, source, marks0, queue0, head, done),
        head < queue0.len(),
        recorded(size, marks0, queue0[head]) == Some(near as nat),
        near < UNREACHED - 1,
        passable(size, view, queue0[head].stepped(direction)),
        recorded(size, marks0, queue0[head].stepped(direction)) is None,
    ensures
        searching(
            size,
            view,
            source,
            marks0.update(
                size.index_of(queue0[head].stepped(direction)),
                (near + 1) as u32,
            ),
            queue0.push(queue0[head].stepped(direction)),
            head,
            done.insert(direction),
        ),
{
    let from = queue0[head];
    let to = from.stepped(direction);
    let marks1 = marks0.update(size.index_of(to), (near + 1) as u32);
    let queue1 = queue0.push(to);
    lemma_index_in_range(size, from);
    lemma_index_in_range(size, to);
    let last = queue0.len() as int;
    assert(recorded(size, marks0, to) is None);
    assert(recorded(size, marks1, to) == Some((near + 1) as nat));
    assert forall|coord: Point| coord != to implies recorded(size, marks1, coord) == recorded(
        size,
        marks0,
        coord,
    ) by {
        if size.contains(coord) {
            lemma_index_in_range(size, coord);
        }
    }
    assert forall|i: int| 0 <= i < last implies queue1[i] == queue0[i] && queue0[i] != to by {
        assert(recorded(size, marks0, queue0[i]) is Some);
    }
    assert(queue1[last] == to);
    assert forall|i: int| 0 <= i < queue1.len() implies size.contains(#[trigger] queue1[i])
        && recorded(size, marks1, queue1[i]) is Some && recorded(size, marks1, queue1[i])->0
        <= i by {
        if i < last {
            assert(queue1[i] == queue0[i]);
        }
    }
    assert forall|coord: Point| (#[trigger] recorded(size, marks1, coord)) is Some implies queue1.contains(
        coord,
    ) by {
        if coord == to {
            assert(queue1[last] == coord);
        } else {
            assert(recorded(size, marks0, coord) is Some);
            assert(queue0.contains(coord));
            let i = choose|i: int| 0 <= i < queue0.len() && queue0[i] == coord;
            assert(queue1[i] == coord);
        }
    }
    assert forall|i: int, j: int| 0 <= i <= j < queue1.len() implies recorded(
        size,
        marks1,
        queue1[i],
    )->0 <= recorded(size, marks1, queue1[j])->0 by {
        if j < last {
            assert(queue1[i] == queue0[i] && queue1[j] == queue0[j]);
        } else if i < last {
            assert(queue1[i] == queue0[i]);
            assert(recorded(size, marks0, queue0[i])->0 <= recorded(
                size,
                marks0,
                queue0[last - 1],
            )->0);
        }
    }
    lemma_step_back(from, direction);
    assert forall|i: int| 0 < i < queue1.len() implies reached_from_neighbour(
        size,
        view,
        marks1,
        #[trigger] queue1[i],
    ) by {
        if i < last {
            let coord = queue0[i];
            assert(queue1[i] == coord);
            assert(reached_from_neighbour(size, view, marks0, coord));
            let back = choose|back: CardinalDirection|
                recorded(size, marks0, #[trigger] coord.stepped(back)) == Some(
                    (recorded(size, marks0, coord)->0 - 1) as nat,
                );
            assert(coord.stepped(back) != to);
            assert(recorded(size, marks1, coord.stepped(back)) == Some(
                (recorded(size, marks1, coord)->0 - 1) as nat,
            ));
        } else {
            let back = opposite_of(direction);
            assert(to.stepped(back) == from);
            assert(recorded(size, marks1, to.stepped(back)) == Some(near as nat));
        }
    }
    assert forall|i: int, other: CardinalDirection| 0 <= i < head implies #[trigger] looked_at(
        size,
        view,
        marks1,
        queue1[i],
        other,
    ) by {
        assert(queue1[i] == queue0[i]);
        assert(looked_at(size, view, marks0, queue0[i], other));
        let next = queue0[i].stepped(other);
        if passable(size, view, next) {
            assert(recorded(size, marks0, next) is Some);
            assert(next != to);
        }
    }
    assert forall|other: CardinalDirection| done.insert(direction).contains(other) implies looked_at(
        size,
        view,
        marks1,
        queue1[head as int],
        other,
    ) by {
        assert(queue1[head as int] == from);
        if other == direction {
        } else {
            assert(done.contains(other));
            assert(looked_at(size, view, marks0, from, other));
            let next = from.stepped(other);
            if passable(size, view, next) {
                assert(recorded(size, marks0, next) is Some);
                assert(next != to);
            }
        }
    }
    assert(queue1[0] == source);
    assert(source != to);
}

/// The search goes on when a neighbour of the head is passed by because it
/// cannot be stood on or is reached already.
proof fn lemma_passed_by(
    size: Extent,
    view: WorldView,
    source: Point,
    marks0: Seq<u32>,
    queue0: Seq<Point>,
    head: int,
    done: Set<CardinalDirection>,
    direction: CardinalDirection,
)
    requires
        searching(size, view, source, marks0, queue0, head, done),
        head < queue0.len(),
        !passable(size, view, queue0[head].stepped(direction)) || recorded(
            size,
            marks0,
            queue0[head].stepped(direction),
        ) is Some,
    ensures
        searching(size, view, source, marks0, queue0, head, done.insert(direction)),
{
    let to = queue0[head].stepped(direction);
    assert forall|other: CardinalDirection| done.insert(direction).contains(other) implies looked_at(
        size,
        view,
        marks0,
        queue0[head as int],
        other,
    ) by {
        if other == direction {
            if passable(size, view, to) {
                assert(recorded(size, marks0, to) is Some);
                assert(queue0.contains(to));
                let j = choose|j: int| 0 <= j < queue0.len() && queue0[j] == to;
                assert(recorded(size, marks0, queue0[j])->0 <= recorded(
                    size,
                    marks0,
                    queue0[queue0.len() - 1],
                )->0);
            }
        }
    }
}

/// Distinct cells of a grid are no more than the grid has.
proof fn lemma_queue_bounded(size: Extent, queue: Seq<Point>)
    requires
        size.valid(),
        forall|i: int| 0 <= i < queue.len() ==> size.contains(#[trigger] queue[i]),
        forall|i: int, j: int| 0 <= i < j < queue.len() ==> queue[i] != queue[j],
    ensures
        queue.len() <= size.cells(),
{
    let indices = Seq::new(queue.len(), |i: int| size.index_of(queue[i]));
    assert forall|i: int, j: int| 0 <= i < indices.len() && 0 <= j < indices.len() && i != j implies indices[i]
        != indices[j] by {
        lemma_index_in_range(size, queue[i]);
        lemma_index_in_range(size, queue[j]);
    }
    indices.unique_seq_to_set();
    vstd::set_lib::lemma_int_range(0, size.cells() as int);
    assert forall|v: int| indices.to_set().contains(v) implies vstd::set_lib::set_int_range(
        0,
        size.cells() as int,
    ).contains(v) by {
        let i = choose|i: int| 0 <= i < indices.len() && indices[i] == v;
        lemma_index_in_range(size, queue[i]);
    }
    vstd::set_lib::lemma_len_subset(
        indices.to_set(),
        vstd::set_lib::set_int_range(0, size.cells() as int),
    );
}

/// A step and the step back lead to where one was.
proof fn lemma_step_back(coord: Point, direction: CardinalDirection)
    requires
        coord.can_step(direction),
    ensures
        coord.stepped(direction).can_step(opposite_of(direction)),
        coord.stepped(direction).stepped(opposite_of(direction)) == coord,
        coord.stepped(direction) != coord,
{
}

/// The direction pointing the other way.
pub open spec fn opposite_of(direction: CardinalDirection) -> CardinalDirection {
    match direction {
        CardinalDirection::North => CardinalDirection::South,
        CardinalDirection::East => CardinalDirection::West,
        CardinalDirection::South => CardinalDirection::North,
        CardinalDirection::West => CardinalDirection::East,
    }
}

} // verus!
