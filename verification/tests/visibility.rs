use roguelike::{
    CellVisibility, Extent, NpcType, Point, TerrainTile, VisibilityAlgorithm, VisibilityGrid,
    World,
};

fn lit_world(rows: &[&str]) -> World {
    let height = rows.len() as u32;
    let width = rows[0].len() as u32;
    let mut tiles = Vec::new();
    for row in rows {
        for symbol in row.chars() {
            tiles.push(match symbol {
                '.' => TerrainTile::Floor,
                '#' => TerrainTile::Wall,
                '@' => TerrainTile::Player,
                'o' => TerrainTile::Npc(NpcType::Orc),
                other => panic!("unknown terrain symbol {:?}", other),
            });
        }
    }
    let mut world = World::new(Extent::new(width, height).unwrap());
    world.populate(&tiles);
    world
}

fn row_of(grid: &VisibilityGrid, width: i32, y: i32) -> String {
    (0..width)
        .map(|x| match grid.cell_visibility(Point::new(x, y)) {
            CellVisibility::Currently => 'C',
            CellVisibility::Previously => 'P',
            CellVisibility::Never => 'N',
        })
        .collect()
}

#[test]
fn new_grid_has_seen_nothing() {
    let grid = VisibilityGrid::new(Extent::new(3, 2).unwrap());
    assert_eq!(row_of(&grid, 3, 0), "NNN");
    assert_eq!(row_of(&grid, 3, 1), "NNN");
    assert_eq!(grid.cell_visibility(Point::new(3, 0)), CellVisibility::Never);
    assert_eq!(grid.cell_visibility(Point::new(-1, -1)), CellVisibility::Never);
}

#[test]
fn open_room_is_seen_whole() {
    let world = lit_world(&[".....", ".....", "..@..", ".....", "....."]);
    let mut grid = VisibilityGrid::new(world.size());
    let mut context = shadowcast::Context::default();
    grid.update(Point::new(2, 2), &world, &mut context, VisibilityAlgorithm::Shadowcast);
    for y in 0..5 {
        assert_eq!(row_of(&grid, 5, y), "CCCCC");
    }
}

#[test]
fn walls_are_seen_and_hide_what_is_behind() {
    let world = lit_world(&["@.#.."]);
    let mut grid = VisibilityGrid::new(world.size());
    let mut context = shadowcast::Context::default();
    grid.update(Point::new(0, 0), &world, &mut context, VisibilityAlgorithm::Shadowcast);
    assert_eq!(row_of(&grid, 5, 0), "CCCNN");
}

#[test]
fn sight_ends_at_the_radius() {
    let world = lit_world(&["@..............."]);
    let mut grid = VisibilityGrid::new(world.size());
    let mut context = shadowcast::Context::default();
    grid.update(Point::new(0, 0), &world, &mut context, VisibilityAlgorithm::Shadowcast);
    assert_eq!(row_of(&grid, 16, 0), "CCCCCCCCCCCNNNNN");
}

#[test]
fn what_was_seen_is_remembered() {
    let world = lit_world(&["@..............."]);
    let mut grid = VisibilityGrid::new(world.size());
    let mut context = shadowcast::Context::default();
    grid.update(Point::new(0, 0), &world, &mut context, VisibilityAlgorithm::Shadowcast);
    grid.update(Point::new(13, 0), &world, &mut context, VisibilityAlgorithm::Shadowcast);
    assert_eq!(row_of(&grid, 16, 0), "PPPCCCCCCCCCCCCC");
    grid.update(Point::new(15, 0), &world, &mut context, VisibilityAlgorithm::Shadowcast);
    assert_eq!(row_of(&grid, 16, 0), "PPPPPCCCCCCCCCCC");
    grid.update(Point::new(0, 0), &world, &mut context, VisibilityAlgorithm::Shadowcast);
    assert_eq!(row_of(&grid, 16, 0), "CCCCCCCCCCCPPPPP");
}

#[test]
fn omniscience_sees_through_walls() {
    let world = lit_world(&["@#..", "##..", "...."]);
    let mut grid = VisibilityGrid::new(world.size());
    let mut context = shadowcast::Context::default();
    grid.update(Point::new(0, 0), &world, &mut context, VisibilityAlgorithm::Shadowcast);
    assert_eq!(row_of(&grid, 4, 0), "CCNN");
    assert_eq!(row_of(&grid, 4, 1), "CCNN");
    assert_eq!(row_of(&grid, 4, 2), "NNNN");
    grid.update(Point::new(0, 0), &world, &mut context, VisibilityAlgorithm::Omniscient);
    for y in 0..3 {
        assert_eq!(row_of(&grid, 4, y), "CCCC");
    }
    grid.update(Point::new(0, 0), &world, &mut context, VisibilityAlgorithm::Shadowcast);
    assert_eq!(row_of(&grid, 4, 0), "CCPP");
    assert_eq!(row_of(&grid, 4, 1), "CCPP");
    assert_eq!(row_of(&grid, 4, 2), "PPPP");
}

#[test]
fn an_eye_outside_the_world_sees_nothing() {
    let world = lit_world(&["@.."]);
    let mut grid = VisibilityGrid::new(world.size());
    let mut context = shadowcast::Context::default();
    grid.update(Point::new(0, 0), &world, &mut context, VisibilityAlgorithm::Shadowcast);
    assert_eq!(row_of(&grid, 3, 0), "CCC");
    grid.update(Point::new(5, 0), &world, &mut context, VisibilityAlgorithm::Shadowcast);
    assert_eq!(row_of(&grid, 3, 0), "PPP");
    grid.update(Point::new(0, -1), &world, &mut context, VisibilityAlgorithm::Shadowcast);
    assert_eq!(row_of(&grid, 3, 0), "PPP");
}

#[test]
fn characters_do_not_block_sight() {
    let world = lit_world(&["@o.."]);
    let mut grid = VisibilityGrid::new(world.size());
    let mut context = shadowcast::Context::default();
    grid.update(Point::new(0, 0), &world, &mut context, VisibilityAlgorithm::Shadowcast);
    assert_eq!(row_of(&grid, 4, 0), "CCCC");
}

#[test]
fn a_corner_hides_the_room_behind_it() {
    let world = lit_world(&[
        "@.#...",
        "..#...",
        "###...",
        "......",
    ]);
    let mut grid = VisibilityGrid::new(world.size());
    let mut context = shadowcast::Context::default();
    grid.update(Point::new(0, 0), &world, &mut context, VisibilityAlgorithm::Shadowcast);
    assert_eq!(row_of(&grid, 6, 0), "CCCNNN");
    assert_eq!(row_of(&grid, 6, 1), "CCCNNN");
    assert_eq!(row_of(&grid, 6, 2), "CCCNNN");
    assert_eq!(row_of(&grid, 6, 3), "NNNNNN");
}

#[test]
fn sight_in_the_longest_corridors() {
    let mut row = String::from("@");
    for _ in 1..8192 {
        row.push('.');
    }
    let world = lit_world(&[row.as_str()]);
    let mut grid = VisibilityGrid::new(world.size());
    let mut context = shadowcast::Context::default();
    grid.update(Point::new(8191, 0), &world, &mut context, VisibilityAlgorithm::Shadowcast);
    assert_eq!(grid.cell_visibility(Point::new(8191, 0)), CellVisibility::Currently);
    assert_eq!(grid.cell_visibility(Point::new(8181, 0)), CellVisibility::Currently);
    assert_eq!(grid.cell_visibility(Point::new(8180, 0)), CellVisibility::Never);
    assert_eq!(grid.cell_visibility(Point::new(0, 0)), CellVisibility::Never);
    let rows: Vec<&str> = (0..8192).map(|y| if y == 0 { "@" } else { "." }).collect();
    let world = lit_world(&rows);
    let mut grid = VisibilityGrid::new(world.size());
    grid.update(Point::new(0, 8191), &world, &mut context, VisibilityAlgorithm::Shadowcast);
    assert_eq!(grid.cell_visibility(Point::new(0, 8181)), CellVisibility::Currently);
    assert_eq!(grid.cell_visibility(Point::new(0, 8180)), CellVisibility::Never);
    grid.update(Point::new(0, 0), &world, &mut context, VisibilityAlgorithm::Shadowcast);
    assert_eq!(grid.cell_visibility(Point::new(0, 10)), CellVisibility::Currently);
    assert_eq!(grid.cell_visibility(Point::new(0, 11)), CellVisibility::Never);
    assert_eq!(grid.cell_visibility(Point::new(0, 8181)), CellVisibility::Previously);
}

#[test]
fn refresh_lights_what_was_reported() {
    let mut grid = VisibilityGrid::new(Extent::new(5, 5).unwrap());
    let mut reported = Vec::new();
    for y in 0..5 {
        for x in 0..5 {
            reported.push(Point::new(x, y));
        }
    }
    grid.refresh(Point::new(2, 2), &reported);
    for y in 0..5 {
        assert_eq!(row_of(&grid, 5, y), "CCCCC");
    }
}

#[test]
fn refresh_keeps_to_the_grid_and_the_radius() {
    let mut grid = VisibilityGrid::new(Extent::new(16, 1).unwrap());
    let reported = vec![
        Point::new(0, 0),
        Point::new(10, 0),
        Point::new(11, 0),
        Point::new(15, 0),
        Point::new(16, 0),
        Point::new(0, 1),
        Point::new(-1, 0),
    ];
    grid.refresh(Point::new(0, 0), &reported);
    assert_eq!(row_of(&grid, 16, 0), "CNNNNNNNNNCNNNNN");
    assert_eq!(grid.cell_visibility(Point::new(16, 0)), CellVisibility::Never);
    assert_eq!(grid.cell_visibility(Point::new(0, 1)), CellVisibility::Never);
}

#[test]
fn refresh_remembers_what_is_no_longer_reported() {
    let mut grid = VisibilityGrid::new(Extent::new(4, 1).unwrap());
    grid.refresh(Point::new(0, 0), &vec![Point::new(0, 0), Point::new(1, 0), Point::new(2, 0)]);
    assert_eq!(row_of(&grid, 4, 0), "CCCN");
    grid.refresh(Point::new(0, 0), &vec![Point::new(2, 0), Point::new(3, 0)]);
    assert_eq!(row_of(&grid, 4, 0), "PPCC");
    grid.refresh(Point::new(0, 0), &vec![]);
    assert_eq!(row_of(&grid, 4, 0), "PPPP");
}

#[test]
fn light_adds_to_what_is_in_sight() {
    let mut grid = VisibilityGrid::new(Extent::new(4, 1).unwrap());
    grid.light(Point::new(0, 0), &vec![Point::new(0, 0)]);
    grid.light(Point::new(0, 0), &vec![Point::new(2, 0), Point::new(2, 0)]);
    assert_eq!(row_of(&grid, 4, 0), "CNCN");
}

#[test]
fn a_wall_scan_as_given_leaves_the_far_side_unseen() {
    let mut grid = VisibilityGrid::new(Extent::new(5, 1).unwrap());
    grid.refresh(Point::new(0, 0), &vec![Point::new(0, 0), Point::new(1, 0), Point::new(2, 0)]);
    assert_eq!(row_of(&grid, 5, 0), "CCCNN");
}
