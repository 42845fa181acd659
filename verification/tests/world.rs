use roguelike::{
    CardinalDirection, Entity, Extent, HitPoints, Layer, Location, NpcType, Point, Populate,
    TerrainTile, Tile, World,
};

fn terrain_of(rows: &[&str]) -> (Extent, Vec<TerrainTile>) {
    let height = rows.len() as u32;
    let width = rows[0].len() as u32;
    let mut tiles = Vec::new();
    for row in rows {
        for symbol in row.chars() {
            tiles.push(match symbol {
                '.' => TerrainTile::Floor,
                '#' => TerrainTile::Wall,
                '@' => TerrainTile::Player,
                'o' => TerrainTile::Npc(NpcType::Orc),
                'T' => TerrainTile::Npc(NpcType::Troll),
                other => panic!("unknown terrain symbol {:?}", other),
            });
        }
    }
    (Extent::new(width, height).unwrap(), tiles)
}

fn world_of(rows: &[&str]) -> (World, Populate) {
    let (size, tiles) = terrain_of(rows);
    let mut world = World::new(size);
    let populate = world.populate(&tiles);
    (world, populate)
}

fn character_at(world: &World, x: i32, y: i32) -> Option<Entity> {
    world.spatial_table().layers_at_checked(Point::new(x, y)).character
}

fn corpse_at(world: &World, x: i32, y: i32) -> Option<Entity> {
    world.spatial_table().layers_at_checked(Point::new(x, y)).corpse
}

fn hit_points_of(world: &World, entity: Entity) -> Option<u32> {
    world.components().hit_points(entity).map(|hit_points| hit_points.current)
}

#[test]
fn npc_type_names() {
    assert_eq!(NpcType::Orc.name(), "orc");
    assert_eq!(NpcType::Troll.name(), "troll");
}

#[test]
fn npc_type_full_health() {
    assert_eq!(NpcType::Orc.max_hit_points(), 2);
    assert_eq!(NpcType::Troll.max_hit_points(), 6);
}

#[test]
fn hit_points_start_full() {
    assert_eq!(HitPoints::new_full(6), HitPoints { current: 6, max: 6 });
}

#[test]
fn hit_points_lose_one_per_hit_and_stop_at_zero() {
    let full = HitPoints::new_full(2);
    let once = full.hit();
    let twice = once.hit();
    let thrice = twice.hit();
    assert_eq!(once, HitPoints { current: 1, max: 2 });
    assert_eq!(twice, HitPoints { current: 0, max: 2 });
    assert_eq!(thrice, HitPoints { current: 0, max: 2 });
}

#[test]
fn corpse_of_each_tile() {
    assert_eq!(Tile::Player.corpse(), Some(Tile::PlayerCorpse));
    assert_eq!(Tile::Npc(NpcType::Orc).corpse(), Some(Tile::NpcCorpse(NpcType::Orc)));
    assert_eq!(Tile::Npc(NpcType::Troll).corpse(), Some(Tile::NpcCorpse(NpcType::Troll)));
    assert_eq!(Tile::Floor.corpse(), None);
    assert_eq!(Tile::Wall.corpse(), None);
    assert_eq!(Tile::PlayerCorpse.corpse(), None);
    assert_eq!(Tile::NpcCorpse(NpcType::Orc).corpse(), None);
}

#[test]
fn new_world_is_empty() {
    let world = World::new(Extent::new(3, 2).unwrap());
    assert_eq!(world.size(), Extent::new(3, 2).unwrap());
    assert_eq!(character_at(&world, 1, 1), None);
    assert_eq!(world.components().tiles().len(), 0);
    assert_eq!(world.opacity_at(Point::new(1, 1)), 0);
}

#[test]
fn populate_lays_a_floor_under_everything() {
    let (world, _) = world_of(&["@#", "oT", ".."]);
    for y in 0..3 {
        for x in 0..2 {
            let layers = world.spatial_table().layers_at(Point::new(x, y)).unwrap();
            let floor = layers.floor.unwrap();
            assert_eq!(world.components().tile(floor), Some(Tile::Floor));
            assert_eq!(layers.corpse, None);
        }
    }
    assert_eq!(world.components().tiles().len(), 6 + 4);
}

#[test]
fn populate_spawns_what_the_terrain_names() {
    let (world, populate) = world_of(&["@#", "oT", ".."]);
    let player = character_at(&world, 0, 0).unwrap();
    assert_eq!(player, populate.player_entity);
    assert_eq!(world.components().tile(player), Some(Tile::Player));
    assert_eq!(world.components().npc_type(player), None);
    assert_eq!(
        world.components().hit_points(player),
        Some(HitPoints { current: 20, max: 20 })
    );
    let wall = world.spatial_table().layers_at_checked(Point::new(1, 0)).feature.unwrap();
    assert_eq!(world.components().tile(wall), Some(Tile::Wall));
    assert_eq!(character_at(&world, 1, 0), None);
    let orc = character_at(&world, 0, 1).unwrap();
    assert_eq!(world.components().tile(orc), Some(Tile::Npc(NpcType::Orc)));
    assert_eq!(world.components().npc_type(orc), Some(NpcType::Orc));
    assert_eq!(world.components().hit_points(orc), Some(HitPoints { current: 2, max: 2 }));
    let troll = character_at(&world, 1, 1).unwrap();
    assert_eq!(world.components().tile(troll), Some(Tile::Npc(NpcType::Troll)));
    assert_eq!(world.components().npc_type(troll), Some(NpcType::Troll));
    assert_eq!(world.components().hit_points(troll), Some(HitPoints { current: 6, max: 6 }));
    let bare = world.spatial_table().layers_at_checked(Point::new(0, 2));
    assert_eq!(bare.character, None);
    assert_eq!(bare.feature, None);
}

#[test]
fn populate_gives_each_npc_an_agent() {
    let (world, populate) = world_of(&["@#", "oT", ".."]);
    let orc = character_at(&world, 0, 1).unwrap();
    let troll = character_at(&world, 1, 1).unwrap();
    let holders: Vec<Entity> = populate.ai_state.entries().iter().map(|entry| entry.0).collect();
    assert_eq!(holders, vec![orc, troll]);
}

#[test]
fn populate_returns_the_last_player() {
    let (world, populate) = world_of(&["@.@"]);
    assert_eq!(Some(populate.player_entity), character_at(&world, 2, 0));
    assert_ne!(Some(populate.player_entity), character_at(&world, 0, 0));
}

#[test]
fn entity_queries() {
    let (world, populate) = world_of(&["@o"]);
    let orc = character_at(&world, 1, 0).unwrap();
    assert_eq!(world.entity_coord(populate.player_entity), Some(Point::new(0, 0)));
    assert_eq!(world.entity_coord(orc), Some(Point::new(1, 0)));
    assert!(world.is_living_character(populate.player_entity));
    assert!(world.is_living_character(orc));
    let floor = world.spatial_table().layers_at_checked(Point::new(0, 0)).floor.unwrap();
    assert!(!world.is_living_character(floor));
    assert_eq!(
        world.spatial_table().location_of(floor),
        Some(Location { coord: Point::new(0, 0), layer: Some(Layer::Floor) })
    );
}

#[test]
fn where_npcs_may_go_and_see() {
    let (world, _) = world_of(&["@#o."]);
    assert!(world.can_npc_enter(Point::new(0, 0)));
    assert!(world.can_npc_enter_ignoring_other_npcs(Point::new(0, 0)));
    assert!(!world.can_npc_enter(Point::new(1, 0)));
    assert!(!world.can_npc_enter_ignoring_other_npcs(Point::new(1, 0)));
    assert!(!world.can_npc_see_through_cell(Point::new(1, 0)));
    assert!(!world.can_npc_enter(Point::new(2, 0)));
    assert!(world.can_npc_enter_ignoring_other_npcs(Point::new(2, 0)));
    assert!(world.can_npc_see_through_cell(Point::new(2, 0)));
    assert!(world.can_npc_enter(Point::new(3, 0)));
    assert!(!world.can_npc_enter(Point::new(4, 0)));
    assert!(!world.can_npc_enter_ignoring_other_npcs(Point::new(-1, 0)));
    assert!(!world.can_npc_see_through_cell(Point::new(0, 1)));
}

#[test]
fn opacity_is_all_or_nothing() {
    let (world, _) = world_of(&["@#o."]);
    assert_eq!(world.opacity_at(Point::new(0, 0)), 0);
    assert_eq!(world.opacity_at(Point::new(1, 0)), 255);
    assert_eq!(world.opacity_at(Point::new(2, 0)), 0);
    assert_eq!(world.opacity_at(Point::new(9, 9)), 0);
}

#[test]
fn move_onto_open_floor() {
    let (mut world, populate) = world_of(&["@.", ".."]);
    let player = populate.player_entity;
    world.maybe_move_character(player, CardinalDirection::East);
    assert_eq!(world.entity_coord(player), Some(Point::new(1, 0)));
    assert_eq!(character_at(&world, 0, 0), None);
    assert_eq!(character_at(&world, 1, 0), Some(player));
    world.maybe_move_character(player, CardinalDirection::South);
    assert_eq!(world.entity_coord(player), Some(Point::new(1, 1)));
    world.maybe_move_character(player, CardinalDirection::West);
    assert_eq!(world.entity_coord(player), Some(Point::new(0, 1)));
    world.maybe_move_character(player, CardinalDirection::North);
    assert_eq!(world.entity_coord(player), Some(Point::new(0, 0)));
}

#[test]
fn move_off_the_grid_does_nothing() {
    let (mut world, populate) = world_of(&["@"]);
    let player = populate.player_entity;
    for direction in [
        CardinalDirection::North,
        CardinalDirection::East,
        CardinalDirection::South,
        CardinalDirection::West,
    ] {
        world.maybe_move_character(player, direction);
        assert_eq!(world.entity_coord(player), Some(Point::new(0, 0)));
    }
}

#[test]
fn move_into_a_wall_does_nothing() {
    let (mut world, populate) = world_of(&["@#"]);
    let player = populate.player_entity;
    world.maybe_move_character(player, CardinalDirection::East);
    assert_eq!(
        world.spatial_table().location_of(player),
        Some(Location { coord: Point::new(0, 0), layer: Some(Layer::Character) })
    );
    assert_eq!(character_at(&world, 1, 0), None);
}

#[test]
fn npcs_do_not_fight_each_other() {
    let (mut world, _) = world_of(&["oT@"]);
    let orc = character_at(&world, 0, 0).unwrap();
    let troll = character_at(&world, 1, 0).unwrap();
    world.maybe_move_character(orc, CardinalDirection::East);
    assert_eq!(world.entity_coord(orc), Some(Point::new(0, 0)));
    assert_eq!(hit_points_of(&world, troll), Some(6));
    assert_eq!(hit_points_of(&world, orc), Some(2));
}

#[test]
fn npc_bumps_the_player() {
    let (mut world, populate) = world_of(&["o@"]);
    let orc = character_at(&world, 0, 0).unwrap();
    world.maybe_move_character(orc, CardinalDirection::East);
    assert_eq!(world.entity_coord(orc), Some(Point::new(0, 0)));
    assert_eq!(hit_points_of(&world, populate.player_entity), Some(19));
}

#[test]
fn orc_dies_after_exactly_two_attacks() {
    let (mut world, populate) = world_of(&["@o"]);
    let player = populate.player_entity;
    let orc = character_at(&world, 1, 0).unwrap();
    world.maybe_move_character(player, CardinalDirection::East);
    assert_eq!(hit_points_of(&world, orc), Some(1));
    assert!(world.is_living_character(orc));
    assert_eq!(world.components().tile(orc), Some(Tile::Npc(NpcType::Orc)));
    assert_eq!(world.entity_coord(player), Some(Point::new(0, 0)));
    world.maybe_move_character(player, CardinalDirection::East);
    assert_eq!(hit_points_of(&world, orc), Some(0));
    assert!(!world.is_living_character(orc));
    assert_eq!(world.components().tile(orc), Some(Tile::NpcCorpse(NpcType::Orc)));
    assert_eq!(character_at(&world, 1, 0), None);
    assert_eq!(corpse_at(&world, 1, 0), Some(orc));
    assert_eq!(world.entity_coord(player), Some(Point::new(0, 0)));
}

#[test]
fn troll_dies_after_exactly_six_attacks() {
    let (mut world, _) = world_of(&["@T"]);
    let troll = character_at(&world, 1, 0).unwrap();
    for left in [5, 4, 3, 2, 1] {
        world.character_bump_attack(troll);
        assert_eq!(hit_points_of(&world, troll), Some(left));
        assert!(world.is_living_character(troll));
    }
    world.character_bump_attack(troll);
    assert_eq!(hit_points_of(&world, troll), Some(0));
    assert!(!world.is_living_character(troll));
    assert_eq!(world.components().tile(troll), Some(Tile::NpcCorpse(NpcType::Troll)));
}

#[test]
fn player_dies_into_a_player_corpse() {
    let (mut world, populate) = world_of(&["@"]);
    let player = populate.player_entity;
    world.character_die(player);
    assert!(!world.is_living_character(player));
    assert_eq!(world.components().tile(player), Some(Tile::PlayerCorpse));
    assert_eq!(
        world.spatial_table().location_of(player),
        Some(Location { coord: Point::new(0, 0), layer: Some(Layer::Corpse) })
    );
}

#[test]
fn the_dead_do_not_move() {
    let (mut world, populate) = world_of(&["@."]);
    let player = populate.player_entity;
    world.character_die(player);
    world.maybe_move_character(player, CardinalDirection::East);
    assert_eq!(world.entity_coord(player), Some(Point::new(0, 0)));
}

#[test]
fn a_new_corpse_replaces_the_old_one() {
    let (mut world, populate) = world_of(&["@oo"]);
    let player = populate.player_entity;
    let first = character_at(&world, 1, 0).unwrap();
    let second = character_at(&world, 2, 0).unwrap();
    world.character_die(first);
    assert_eq!(corpse_at(&world, 1, 0), Some(first));
    world.maybe_move_character(second, CardinalDirection::West);
    assert_eq!(character_at(&world, 1, 0), Some(second));
    world.maybe_move_character(player, CardinalDirection::East);
    world.maybe_move_character(player, CardinalDirection::East);
    assert_eq!(character_at(&world, 1, 0), None);
    assert_eq!(corpse_at(&world, 1, 0), Some(second));
    assert_eq!(world.components().tile(second), Some(Tile::NpcCorpse(NpcType::Orc)));
    assert_eq!(world.components().tile(first), None);
    assert_eq!(world.components().npc_type(first), None);
    assert_eq!(world.components().hit_points(first), None);
    assert_eq!(world.spatial_table().location_of(first), None);
    assert_eq!(world.entity_coord(first), None);
}

#[test]
fn walking_over_a_corpse() {
    let (mut world, populate) = world_of(&["@o"]);
    let player = populate.player_entity;
    let orc = character_at(&world, 1, 0).unwrap();
    world.character_die(orc);
    world.maybe_move_character(player, CardinalDirection::East);
    assert_eq!(world.entity_coord(player), Some(Point::new(1, 0)));
    assert_eq!(corpse_at(&world, 1, 0), Some(orc));
    assert_eq!(character_at(&world, 1, 0), Some(player));
}

#[test]
fn remove_entity_purges_everything() {
    let (mut world, _) = world_of(&["@o"]);
    let orc = character_at(&world, 1, 0).unwrap();
    let before = world.components().tiles().len();
    world.remove_entity(orc);
    assert_eq!(world.components().tile(orc), None);
    assert_eq!(world.components().npc_type(orc), None);
    assert_eq!(world.components().hit_points(orc), None);
    assert_eq!(world.entity_coord(orc), None);
    assert_eq!(character_at(&world, 1, 0), None);
    assert_eq!(world.components().tiles().len(), before - 1);
    world.remove_entity(orc);
    assert_eq!(world.components().tiles().len(), before - 1);
}

#[test]
fn a_stale_handle_does_not_alias_a_new_entity() {
    let (mut world, _) = world_of(&["@o"]);
    let orc = character_at(&world, 1, 0).unwrap();
    world.remove_entity(orc);
    let troll = world.spawn_npc(Point::new(1, 0), NpcType::Troll);
    assert_ne!(orc, troll);
    assert_eq!(world.components().tile(troll), Some(Tile::Npc(NpcType::Troll)));
    assert_eq!(world.components().tile(orc), None);
    assert_eq!(world.entity_coord(orc), None);
    assert!(!world.is_living_character(orc));
    world.remove_entity(orc);
    world.maybe_move_character(orc, CardinalDirection::West);
    assert_eq!(world.components().tile(troll), Some(Tile::Npc(NpcType::Troll)));
    assert_eq!(world.entity_coord(troll), Some(Point::new(1, 0)));
    assert_eq!(hit_points_of(&world, troll), Some(6));
}

#[test]
fn spawning_by_hand() {
    let mut world = World::new(Extent::new(2, 1).unwrap());
    let floor = world.spawn_floor(Point::new(0, 0));
    let wall = world.spawn_wall(Point::new(0, 0));
    let player = world.spawn_player(Point::new(1, 0));
    assert_eq!(world.components().tile(floor), Some(Tile::Floor));
    assert_eq!(world.components().tile(wall), Some(Tile::Wall));
    assert_eq!(world.components().tile(player), Some(Tile::Player));
    assert_eq!(world.opacity_at(Point::new(0, 0)), 255);
    assert_eq!(
        world.spatial_table().location_of(wall),
        Some(Location { coord: Point::new(0, 0), layer: Some(Layer::Feature) })
    );
    let order: Vec<Entity> = world.components().tiles().iter().map(|entry| entry.0).collect();
    assert_eq!(order, vec![floor, wall, player]);
}

#[test]
fn a_feature_shields_whoever_stands_in_it() {
    let mut world = World::new(Extent::new(2, 1).unwrap());
    world.spawn_floor(Point::new(0, 0));
    world.spawn_floor(Point::new(1, 0));
    let player = world.spawn_player(Point::new(0, 0));
    world.spawn_wall(Point::new(1, 0));
    let orc = world.spawn_npc(Point::new(1, 0), NpcType::Orc);
    world.maybe_move_character(player, CardinalDirection::East);
    assert_eq!(hit_points_of(&world, orc), Some(2));
    assert!(world.is_living_character(orc));
    assert_eq!(world.components().tile(orc), Some(Tile::Npc(NpcType::Orc)));
    assert_eq!(world.entity_coord(player), Some(Point::new(0, 0)));
    world.maybe_move_character(player, CardinalDirection::East);
    assert_eq!(hit_points_of(&world, orc), Some(2));
    assert_eq!(character_at(&world, 1, 0), Some(orc));
}

#[test]
fn an_attack_on_a_corpse_changes_nothing() {
    let (mut world, _) = world_of(&["@o"]);
    let orc = character_at(&world, 1, 0).unwrap();
    world.character_bump_attack(orc);
    world.character_bump_attack(orc);
    assert_eq!(world.components().hit_points(orc), Some(HitPoints { current: 0, max: 2 }));
    assert_eq!(corpse_at(&world, 1, 0), Some(orc));
    world.character_bump_attack(orc);
    assert_eq!(world.components().hit_points(orc), Some(HitPoints { current: 0, max: 2 }));
    assert_eq!(world.components().tile(orc), Some(Tile::NpcCorpse(NpcType::Orc)));
    assert_eq!(
        world.spatial_table().location_of(orc),
        Some(Location { coord: Point::new(1, 0), layer: Some(Layer::Corpse) })
    );
    assert_eq!(character_at(&world, 1, 0), None);
}

#[test]
fn an_attack_on_what_has_no_hit_points_is_skipped() {
    let (mut world, _) = world_of(&["@#"]);
    let floor = world.spatial_table().layers_at_checked(Point::new(0, 0)).floor.unwrap();
    let wall = world.spatial_table().layers_at_checked(Point::new(1, 0)).feature.unwrap();
    let before = world.components().tiles();
    world.character_bump_attack(floor);
    world.character_bump_attack(wall);
    assert_eq!(world.components().tiles(), before);
    assert_eq!(world.components().hit_points(floor), None);
    assert_eq!(world.components().hit_points(wall), None);
    assert_eq!(world.components().tile(wall), Some(Tile::Wall));
    assert_eq!(
        world.spatial_table().location_of(wall),
        Some(Location { coord: Point::new(1, 0), layer: Some(Layer::Feature) })
    );
}

#[test]
fn an_attack_on_a_removed_entity_is_skipped() {
    let (mut world, populate) = world_of(&["@o"]);
    let orc = character_at(&world, 1, 0).unwrap();
    world.remove_entity(orc);
    let before = world.components().tiles();
    world.character_bump_attack(orc);
    assert_eq!(world.components().tiles(), before);
    assert_eq!(world.components().hit_points(orc), None);
    assert_eq!(hit_points_of(&world, populate.player_entity), Some(20));
}

#[test]
fn populate_makes_one_entity_per_floor_and_one_per_thing_on_it() {
    let (world, populate) = world_of(&["@#.", "oT.", "..#"]);
    let tiles = world.components().tiles();
    assert_eq!(tiles.len(), 9 + 5);
    let mut kinds = 0;
    let mut with_hit_points = 0;
    for (entity, tile) in tiles {
        assert!(world.spatial_table().layer_of(entity).is_some());
        let has_kind = world.components().npc_type(entity).is_some();
        let has_hit_points = world.components().hit_points(entity).is_some();
        assert_eq!(has_kind, matches!(tile, Tile::Npc(_)));
        assert_eq!(has_hit_points, matches!(tile, Tile::Npc(_) | Tile::Player));
        if has_kind {
            kinds += 1;
        }
        if has_hit_points {
            with_hit_points += 1;
        }
    }
    assert_eq!(kinds, 2);
    assert_eq!(with_hit_points, 3);
    assert_eq!(populate.ai_state.entries().len(), 2);
    for (holder, _) in populate.ai_state.entries() {
        assert!(world.components().npc_type(holder).is_some());
        assert!(world.is_living_character(holder));
    }
}
