use roguelike::{Allocator, Components, Tile};

#[test]
fn handles_are_all_different() {
    let mut allocator = Allocator::new();
    let a = allocator.allocate();
    let b = allocator.allocate();
    let c = allocator.allocate();
    assert_ne!(a, b);
    assert_ne!(a, c);
    assert_ne!(b, c);
}

#[test]
fn serial_numbers_count_up_and_new_slots_follow() {
    let mut allocator = Allocator::new();
    let a = allocator.allocate();
    let b = allocator.allocate();
    assert_eq!(format!("{:?}", a), "Entity { id: 0, index: 0 }");
    assert_eq!(format!("{:?}", b), "Entity { id: 1, index: 1 }");
}

#[test]
fn a_freed_slot_is_issued_again_under_a_new_serial_number() {
    let mut allocator = Allocator::new();
    let a = allocator.allocate();
    let b = allocator.allocate();
    let c = allocator.allocate();
    allocator.free(b);
    let d = allocator.allocate();
    let e = allocator.allocate();
    assert_eq!(format!("{:?}", d), "Entity { id: 3, index: 1 }");
    assert_eq!(format!("{:?}", e), "Entity { id: 4, index: 3 }");
    assert_ne!(b, d);
    assert_ne!(a, d);
    assert_ne!(c, d);
}

#[test]
fn freeing_twice_frees_once() {
    let mut allocator = Allocator::new();
    let a = allocator.allocate();
    allocator.free(a);
    allocator.free(a);
    let b = allocator.allocate();
    let c = allocator.allocate();
    assert_eq!(format!("{:?}", b), "Entity { id: 1, index: 0 }");
    assert_eq!(format!("{:?}", c), "Entity { id: 2, index: 1 }");
}

#[test]
fn freeing_a_stale_handle_leaves_the_new_holder_alive() {
    let mut allocator = Allocator::new();
    let old = allocator.allocate();
    allocator.free(old);
    let new = allocator.allocate();
    allocator.free(old);
    let next = allocator.allocate();
    assert_eq!(format!("{:?}", new), "Entity { id: 1, index: 0 }");
    assert_eq!(format!("{:?}", next), "Entity { id: 2, index: 1 }");
}

#[test]
fn a_stale_handle_fails_lookups() {
    let mut allocator = Allocator::new();
    let mut components = Components::new();
    let old = allocator.allocate();
    components.set_tile(old, Tile::Wall);
    components.remove_entity(old);
    allocator.free(old);
    let new = allocator.allocate();
    components.set_tile(new, Tile::Floor);
    assert_eq!(components.tile(old), None);
    assert_eq!(components.tile(new), Some(Tile::Floor));
}
