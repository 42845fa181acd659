use roguelike::{
    Agent, BehaviourContext, CardinalDirection, Entity, Extent, NpcAction, NpcType, Point,
    Populate, TerrainTile, World,
};

fn map_of(rows: &[&str]) -> (World, Populate, BehaviourContext) {
    let height = rows.len() as u32;
    let width = rows[0].len() as u32;
    let mut tiles = Vec::new();
    for row in rows {
        for symbol in row.chars() {
            tiles.push(match symbol {
                '.' => TerrainTile::Floor,
                '#' => TerrainTile::Wall,
                '@' => TerrainTile::Player,
                'o' => TerrainTile::Npc(NpcType::Orc),
                'T' => TerrainTile::Npc(NpcType::Troll),
                other => panic!("unknown terrain symbol {:?}", other),
            });
        }
    }
    let size = Extent::new(width, height).unwrap();
    let mut world = World::new(size);
    let populate = world.populate(&tiles);
    let mut context = BehaviourContext::new(size);
    context.update(populate.player_entity, &world);
    (world, populate, context)
}

fn npc_at(world: &World, x: i32, y: i32) -> Entity {
    world.spatial_table().layers_at_checked(Point::new(x, y)).character.unwrap()
}

#[test]
fn new_agent_has_waited() {
    assert_eq!(Agent::new().last_action, NpcAction::Wait);
}

#[test]
fn new_context_knows_no_distance() {
    let context = BehaviourContext::new(Extent::new(3, 3).unwrap());
    for y in 0..3 {
        for x in 0..3 {
            assert_eq!(context.distance_at(Point::new(x, y)), None);
        }
    }
}

#[test]
fn distances_on_open_floor_are_manhattan() {
    let (_, _, context) = map_of(&["....", ".@..", "...."]);
    for y in 0..3i32 {
        for x in 0..4i32 {
            let expected = ((x - 1).abs() + (y - 1).abs()) as u32;
            assert_eq!(context.distance_at(Point::new(x, y)), Some(expected));
        }
    }
    assert_eq!(context.distance_at(Point::new(4, 0)), None);
    assert_eq!(context.distance_at(Point::new(0, -1)), None);
}

#[test]
fn distances_go_around_walls() {
    let (_, _, context) = map_of(&["@#...", ".#.#.", "...#."]);
    assert_eq!(context.distance_at(Point::new(0, 0)), Some(0));
    assert_eq!(context.distance_at(Point::new(1, 0)), None);
    assert_eq!(context.distance_at(Point::new(0, 2)), Some(2));
    assert_eq!(context.distance_at(Point::new(2, 2)), Some(4));
    assert_eq!(context.distance_at(Point::new(2, 0)), Some(6));
    assert_eq!(context.distance_at(Point::new(4, 0)), Some(8));
    assert_eq!(context.distance_at(Point::new(4, 2)), Some(10));
    assert_eq!(context.distance_at(Point::new(3, 1)), None);
}

#[test]
fn distances_ignore_other_characters() {
    let (_, _, context) = map_of(&["@oT."]);
    assert_eq!(context.distance_at(Point::new(1, 0)), Some(1));
    assert_eq!(context.distance_at(Point::new(2, 0)), Some(2));
    assert_eq!(context.distance_at(Point::new(3, 0)), Some(3));
}

#[test]
fn walled_in_cells_have_no_distance() {
    let (_, _, context) = map_of(&["@#.", "##.", "..."]);
    assert_eq!(context.distance_at(Point::new(0, 0)), Some(0));
    assert_eq!(context.distance_at(Point::new(2, 0)), None);
    assert_eq!(context.distance_at(Point::new(0, 2)), None);
    assert_eq!(context.distance_at(Point::new(2, 2)), None);
}

#[test]
fn update_forgets_old_distances() {
    let (mut world, populate, mut context) = map_of(&["@...."]);
    assert_eq!(context.distance_at(Point::new(4, 0)), Some(4));
    world.maybe_move_character(populate.player_entity, CardinalDirection::East);
    world.maybe_move_character(populate.player_entity, CardinalDirection::East);
    context.update(populate.player_entity, &world);
    assert_eq!(context.distance_at(Point::new(0, 0)), Some(2));
    assert_eq!(context.distance_at(Point::new(2, 0)), Some(0));
    assert_eq!(context.distance_at(Point::new(4, 0)), Some(2));
}

#[test]
fn npc_walks_east_towards_a_player_three_cells_east() {
    let (world, _, context) = map_of(&[".....", "o..@.", "....."]);
    let orc = npc_at(&world, 0, 1);
    let mut agent = Agent::new();
    let action = agent.act(orc, &world, &context);
    assert_eq!(action, NpcAction::Move(CardinalDirection::East));
    assert_eq!(agent.last_action, NpcAction::Move(CardinalDirection::East));
    assert_eq!(context.decide(Point::new(0, 1)), NpcAction::Move(CardinalDirection::East));
}

#[test]
fn npc_walks_in_each_direction() {
    let (_, _, context) = map_of(&["...", ".@.", "..."]);
    assert_eq!(context.decide(Point::new(1, 2)), NpcAction::Move(CardinalDirection::North));
    assert_eq!(context.decide(Point::new(0, 1)), NpcAction::Move(CardinalDirection::East));
    assert_eq!(context.decide(Point::new(1, 0)), NpcAction::Move(CardinalDirection::South));
    assert_eq!(context.decide(Point::new(2, 1)), NpcAction::Move(CardinalDirection::West));
}

#[test]
fn ties_go_to_the_first_direction() {
    let (_, _, context) = map_of(&["...", ".@.", "..."]);
    assert_eq!(context.decide(Point::new(0, 2)), NpcAction::Move(CardinalDirection::North));
    assert_eq!(context.decide(Point::new(2, 2)), NpcAction::Move(CardinalDirection::North));
    assert_eq!(context.decide(Point::new(0, 0)), NpcAction::Move(CardinalDirection::East));
    assert_eq!(context.decide(Point::new(2, 0)), NpcAction::Move(CardinalDirection::South));
}

#[test]
fn npc_with_no_way_to_the_player_waits() {
    let (world, _, context) = map_of(&["@#o"]);
    let orc = npc_at(&world, 2, 0);
    let mut agent = Agent::new();
    assert_eq!(agent.act(orc, &world, &context), NpcAction::Wait);
    assert_eq!(agent.last_action, NpcAction::Wait);
}

#[test]
fn nobody_steps_away_from_the_player() {
    let (_, _, context) = map_of(&["@.."]);
    assert_eq!(context.decide(Point::new(0, 0)), NpcAction::Wait);
}

#[test]
fn npc_that_is_nowhere_waits() {
    let (mut world, _, context) = map_of(&["@o"]);
    let orc = npc_at(&world, 1, 0);
    world.remove_entity(orc);
    let mut agent = Agent { last_action: NpcAction::Move(CardinalDirection::West) };
    assert_eq!(agent.act(orc, &world, &context), NpcAction::Wait);
    assert_eq!(agent.last_action, NpcAction::Wait);
}

#[test]
fn npc_takes_the_way_round_a_wall() {
    let (_, _, context) = map_of(&["o#@", "..."]);
    assert_eq!(context.decide(Point::new(0, 0)), NpcAction::Move(CardinalDirection::South));
    assert_eq!(context.decide(Point::new(0, 1)), NpcAction::Move(CardinalDirection::East));
    assert_eq!(context.decide(Point::new(1, 1)), NpcAction::Move(CardinalDirection::East));
    assert_eq!(context.decide(Point::new(2, 1)), NpcAction::Move(CardinalDirection::North));
}
