use roguelike::geometry::MAX_CELLS;
use roguelike::{CardinalDirection, Extent, Point};

#[test]
fn extent_accepts_small_grids() {
    let size = Extent::new(40, 30).unwrap();
    assert_eq!(size.width(), 40);
    assert_eq!(size.height(), 30);
    assert_eq!(size.count(), 1200);
}

#[test]
fn extent_rejects_grids_with_too_many_cells() {
    assert_eq!(Extent::new(MAX_CELLS + 1, 1), None);
    assert_eq!(Extent::new(1, MAX_CELLS + 1), None);
    assert_eq!(Extent::new(65536, 32768), None);
    assert!(Extent::new(MAX_CELLS, 1).is_some());
    assert!(Extent::new(46340, 46340).is_some());
}

#[test]
fn extent_indexes_row_by_row() {
    let size = Extent::new(4, 3).unwrap();
    assert_eq!(size.index(Point::new(0, 0)), Some(0));
    assert_eq!(size.index(Point::new(3, 0)), Some(3));
    assert_eq!(size.index(Point::new(0, 1)), Some(4));
    assert_eq!(size.index(Point::new(3, 2)), Some(11));
    assert_eq!(size.index(Point::new(4, 0)), None);
    assert_eq!(size.index(Point::new(0, 3)), None);
    assert_eq!(size.index(Point::new(-1, 0)), None);
    assert_eq!(size.index(Point::new(0, -1)), None);
}

#[test]
fn extent_index_and_coord_are_inverse() {
    let size = Extent::new(7, 5).unwrap();
    for index in 0..size.count() {
        let coord = size.coord_at(index);
        assert!(coord.is_valid(size));
        assert_eq!(size.index(coord), Some(index));
    }
    assert_eq!(size.coord_at(9), Point::new(2, 1));
}

#[test]
fn coord_validity_is_bounds_check() {
    let size = Extent::new(3, 2).unwrap();
    assert!(Point::new(0, 0).is_valid(size));
    assert!(Point::new(2, 1).is_valid(size));
    assert!(!Point::new(3, 1).is_valid(size));
    assert!(!Point::new(2, 2).is_valid(size));
    assert!(!Point::new(-1, 0).is_valid(size));
    assert!(!Point::new(0, 0).is_valid(Extent::new(0, 5).unwrap()));
}

#[test]
fn directions_are_unit_steps() {
    assert_eq!(CardinalDirection::North.coord(), Point::new(0, -1));
    assert_eq!(CardinalDirection::East.coord(), Point::new(1, 0));
    assert_eq!(CardinalDirection::South.coord(), Point::new(0, 1));
    assert_eq!(CardinalDirection::West.coord(), Point::new(-1, 0));
}

#[test]
fn opposite_directions() {
    assert_eq!(CardinalDirection::North.opposite(), CardinalDirection::South);
    assert_eq!(CardinalDirection::East.opposite(), CardinalDirection::West);
    assert_eq!(CardinalDirection::South.opposite(), CardinalDirection::North);
    assert_eq!(CardinalDirection::West.opposite(), CardinalDirection::East);
}

#[test]
fn step_moves_one_cell() {
    let from = Point::new(5, 7);
    assert_eq!(from.step(CardinalDirection::North), Some(Point::new(5, 6)));
    assert_eq!(from.step(CardinalDirection::East), Some(Point::new(6, 7)));
    assert_eq!(from.step(CardinalDirection::South), Some(Point::new(5, 8)));
    assert_eq!(from.step(CardinalDirection::West), Some(Point::new(4, 7)));
}

#[test]
fn step_refuses_to_leave_the_integers() {
    assert_eq!(Point::new(i32::MAX, 0).step(CardinalDirection::East), None);
    assert_eq!(Point::new(i32::MIN, 0).step(CardinalDirection::West), None);
    assert_eq!(Point::new(0, i32::MIN).step(CardinalDirection::North), None);
    assert_eq!(Point::new(0, i32::MAX).step(CardinalDirection::South), None);
    assert_eq!(
        Point::new(i32::MAX, 0).step(CardinalDirection::West),
        Some(Point::new(i32::MAX - 1, 0))
    );
}
