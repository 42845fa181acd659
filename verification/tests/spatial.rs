use entity_table::EntityAllocator;
use roguelike::{
    Extent, Layer, Layers, Location, Point, SpatialTable, UpdateError, UpdateLayerError,
};

fn at(x: i32, y: i32, layer: Layer) -> Location {
    Location {
        coord: Point::new(x, y),
        layer: Some(layer),
    }
}

fn empty_cell() -> Layers {
    Layers {
        character: None,
        corpse: None,
        feature: None,
        floor: None,
    }
}

#[test]
fn new_table_is_empty() {
    let table = SpatialTable::new(Extent::new(10, 10).unwrap());
    let mut allocator = EntityAllocator::default();
    let entity = allocator.alloc();
    assert_eq!(table.grid_size(), Extent::new(10, 10).unwrap());
    assert_eq!(table.location_of(entity), None);
    assert_eq!(table.coord_of(entity), None);
    assert_eq!(table.layer_of(entity), None);
    assert_eq!(table.layers_at(Point::new(3, 3)), Some(empty_cell()));
}

#[test]
fn update_places_an_entity() {
    let mut table = SpatialTable::new(Extent::new(10, 10).unwrap());
    let mut allocator = EntityAllocator::default();
    let a = allocator.alloc();
    assert_eq!(table.update(a, at(4, 2, Layer::Feature)), Ok(()));
    assert_eq!(table.location_of(a), Some(at(4, 2, Layer::Feature)));
    assert_eq!(table.coord_of(a), Some(Point::new(4, 2)));
    assert_eq!(table.layer_of(a), Some(Layer::Feature));
    assert_eq!(
        table.layers_at(Point::new(4, 2)),
        Some(Layers {
            feature: Some(a),
            ..empty_cell()
        })
    );
}

#[test]
fn update_out_of_bounds_is_refused() {
    let mut table = SpatialTable::new(Extent::new(10, 10).unwrap());
    let mut allocator = EntityAllocator::default();
    let a = allocator.alloc();
    assert_eq!(
        table.update(a, at(-1, 10, Layer::Feature)),
        Err(UpdateError::DestinationOutOfBounds)
    );
    assert_eq!(
        table.update(a, at(10, 0, Layer::Feature)),
        Err(UpdateError::DestinationOutOfBounds)
    );
    assert_eq!(
        table.update(
            a,
            Location {
                coord: Point::new(0, 10),
                layer: None
            }
        ),
        Err(UpdateError::DestinationOutOfBounds)
    );
    assert_eq!(table.location_of(a), None);
}

#[test]
fn update_onto_another_entity_is_refused() {
    let mut table = SpatialTable::new(Extent::new(10, 10).unwrap());
    let mut allocator = EntityAllocator::default();
    let a = allocator.alloc();
    let b = allocator.alloc();
    assert_eq!(table.update(a, at(6, 7, Layer::Feature)), Ok(()));
    assert_eq!(
        table.update(b, at(6, 7, Layer::Feature)),
        Err(UpdateError::OccupiedBy(a))
    );
    assert_eq!(table.location_of(b), None);
    assert_eq!(table.location_of(a), Some(at(6, 7, Layer::Feature)));
}

#[test]
fn update_to_where_an_entity_already_is_changes_nothing() {
    let mut table = SpatialTable::new(Extent::new(10, 10).unwrap());
    let mut allocator = EntityAllocator::default();
    let a = allocator.alloc();
    assert_eq!(table.update(a, at(1, 1, Layer::Character)), Ok(()));
    assert_eq!(table.update(a, at(1, 1, Layer::Character)), Ok(()));
    assert_eq!(table.location_of(a), Some(at(1, 1, Layer::Character)));
    assert_eq!(
        table.layers_at(Point::new(1, 1)),
        Some(Layers {
            character: Some(a),
            ..empty_cell()
        })
    );
}

#[test]
fn update_vacates_the_old_slot() {
    let mut table = SpatialTable::new(Extent::new(10, 10).unwrap());
    let mut allocator = EntityAllocator::default();
    let a = allocator.alloc();
    assert_eq!(table.update(a, at(1, 1, Layer::Character)), Ok(()));
    assert_eq!(table.update(a, at(2, 5, Layer::Corpse)), Ok(()));
    assert_eq!(table.layers_at(Point::new(1, 1)), Some(empty_cell()));
    assert_eq!(
        table.layers_at(Point::new(2, 5)),
        Some(Layers {
            corpse: Some(a),
            ..empty_cell()
        })
    );
}

#[test]
fn layers_share_a_cell() {
    let mut table = SpatialTable::new(Extent::new(10, 10).unwrap());
    let mut allocator = EntityAllocator::default();
    let a = allocator.alloc();
    let c = allocator.alloc();
    assert_eq!(table.update(a, at(6, 7, Layer::Feature)), Ok(()));
    assert_eq!(table.update(c, at(6, 7, Layer::Character)), Ok(()));
    assert_eq!(
        table.layers_at_checked(Point::new(6, 7)),
        Layers {
            feature: Some(a),
            character: Some(c),
            ..empty_cell()
        }
    );
}

#[test]
fn update_coord_moves_within_the_layer() {
    let mut table = SpatialTable::new(Extent::new(10, 10).unwrap());
    let mut allocator = EntityAllocator::default();
    let a = allocator.alloc();
    let b = allocator.alloc();
    assert_eq!(table.update(a, at(4, 2, Layer::Feature)), Ok(()));
    assert_eq!(table.update_coord(a, Point::new(6, 7)), Ok(()));
    assert_eq!(table.location_of(a), Some(at(6, 7, Layer::Feature)));
    assert_eq!(table.layers_at(Point::new(4, 2)), Some(empty_cell()));
    assert_eq!(table.update(b, at(6, 8, Layer::Feature)), Ok(()));
    assert_eq!(
        table.update_coord(b, Point::new(6, 7)),
        Err(UpdateError::OccupiedBy(a))
    );
    assert_eq!(table.coord_of(b), Some(Point::new(6, 8)));
    assert_eq!(
        table.update_coord(b, Point::new(6, 10)),
        Err(UpdateError::DestinationOutOfBounds)
    );
    assert_eq!(table.update_coord(b, Point::new(6, 8)), Ok(()));
    assert_eq!(table.coord_of(b), Some(Point::new(6, 8)));
}

#[test]
fn update_coord_of_an_unplaced_entity_gives_it_no_layer() {
    let mut table = SpatialTable::new(Extent::new(10, 10).unwrap());
    let mut allocator = EntityAllocator::default();
    let a = allocator.alloc();
    assert_eq!(table.update_coord(a, Point::new(3, 3)), Ok(()));
    assert_eq!(
        table.location_of(a),
        Some(Location {
            coord: Point::new(3, 3),
            layer: None
        })
    );
    assert_eq!(table.layers_at(Point::new(3, 3)), Some(empty_cell()));
}

#[test]
fn update_layer_moves_within_the_cell() {
    let mut table = SpatialTable::new(Extent::new(10, 10).unwrap());
    let mut allocator = EntityAllocator::default();
    let a = allocator.alloc();
    let b = allocator.alloc();
    let c = allocator.alloc();
    assert_eq!(table.update(a, at(6, 7, Layer::Feature)), Ok(()));
    assert_eq!(table.update(c, at(6, 7, Layer::Character)), Ok(()));
    assert_eq!(table.update(b, at(6, 8, Layer::Feature)), Ok(()));
    assert_eq!(table.update_layer(a, Layer::Feature), Ok(()));
    assert_eq!(
        table.update_layer(a, Layer::Character),
        Err(UpdateLayerError::OccupiedBy(c))
    );
    assert_eq!(table.update_layer(b, Layer::Character), Ok(()));
    assert_eq!(
        table.layers_at_checked(Point::new(6, 8)),
        Layers {
            character: Some(b),
            ..empty_cell()
        }
    );
    assert_eq!(table.layer_of(b), Some(Layer::Character));
}

#[test]
fn update_layer_of_an_unplaced_entity_is_refused() {
    let mut table = SpatialTable::new(Extent::new(10, 10).unwrap());
    let mut allocator = EntityAllocator::default();
    let a = allocator.alloc();
    assert_eq!(
        table.update_layer(a, Layer::Corpse),
        Err(UpdateLayerError::EntityHasNoCoord)
    );
}

#[test]
fn remove_forgets_an_entity() {
    let mut table = SpatialTable::new(Extent::new(10, 10).unwrap());
    let mut allocator = EntityAllocator::default();
    let a = allocator.alloc();
    let c = allocator.alloc();
    assert_eq!(table.update(a, at(6, 7, Layer::Feature)), Ok(()));
    assert_eq!(table.update(c, at(6, 7, Layer::Character)), Ok(()));
    table.remove(a);
    assert_eq!(table.location_of(a), None);
    assert_eq!(
        table.layers_at_checked(Point::new(6, 7)),
        Layers {
            character: Some(c),
            ..empty_cell()
        }
    );
    table.remove(a);
    assert_eq!(table.location_of(c), Some(at(6, 7, Layer::Character)));
}

#[test]
fn layers_at_outside_the_grid() {
    let table = SpatialTable::new(Extent::new(4, 4).unwrap());
    assert_eq!(table.layers_at(Point::new(4, 0)), None);
    assert_eq!(table.layers_at(Point::new(0, -1)), None);
    assert_eq!(table.layers_at_checked(Point::new(4, 0)), empty_cell());
    assert_eq!(table.layers_at_checked(Point::new(-3, 9)), empty_cell());
}

#[test]
fn layer_depths() {
    assert_eq!(Layer::Floor.depth(), 0);
    assert_eq!(Layer::Feature.depth(), 1);
    assert_eq!(Layer::Character.depth(), 2);
    assert_eq!(Layer::Corpse.depth(), 2);
}

#[test]
fn layers_get_reads_each_slot() {
    let mut allocator = EntityAllocator::default();
    let a = allocator.alloc();
    let b = allocator.alloc();
    let c = allocator.alloc();
    let d = allocator.alloc();
    let layers = Layers {
        character: Some(a),
        corpse: Some(b),
        feature: Some(c),
        floor: Some(d),
    };
    assert_eq!(layers.get(Layer::Character), Some(a));
    assert_eq!(layers.get(Layer::Corpse), Some(b));
    assert_eq!(layers.get(Layer::Feature), Some(c));
    assert_eq!(layers.get(Layer::Floor), Some(d));
}
