use entity_table::EntityAllocator;
use roguelike::{Agent, Agents, CardinalDirection, Components, Entity, HitPoints, NpcAction, NpcType, Tile};

fn walk_of(components: &Components) -> Vec<(Entity, Tile)> {
    components.tiles()
}

#[test]
fn new_components_are_empty() {
    let mut allocator = EntityAllocator::default();
    let entity = allocator.alloc();
    let components = Components::new();
    assert_eq!(components.tile(entity), None);
    assert_eq!(components.npc_type(entity), None);
    assert_eq!(components.hit_points(entity), None);
    assert_eq!(walk_of(&components), vec![]);
}

#[test]
fn each_table_holds_its_own_attribute() {
    let mut allocator = EntityAllocator::default();
    let a = allocator.alloc();
    let b = allocator.alloc();
    let mut components = Components::new();
    components.set_tile(a, Tile::Player);
    components.set_npc_type(b, NpcType::Troll);
    components.set_hit_points(a, HitPoints { current: 3, max: 9 });
    assert_eq!(components.tile(a), Some(Tile::Player));
    assert_eq!(components.tile(b), None);
    assert_eq!(components.npc_type(a), None);
    assert_eq!(components.npc_type(b), Some(NpcType::Troll));
    assert_eq!(components.hit_points(a), Some(HitPoints { current: 3, max: 9 }));
    assert_eq!(components.hit_points(b), None);
}

#[test]
fn setting_again_overwrites() {
    let mut allocator = EntityAllocator::default();
    let a = allocator.alloc();
    let mut components = Components::new();
    components.set_tile(a, Tile::Npc(NpcType::Orc));
    components.set_tile(a, Tile::NpcCorpse(NpcType::Orc));
    components.set_hit_points(a, HitPoints { current: 2, max: 2 });
    components.set_hit_points(a, HitPoints { current: 1, max: 2 });
    assert_eq!(components.tile(a), Some(Tile::NpcCorpse(NpcType::Orc)));
    assert_eq!(components.hit_points(a), Some(HitPoints { current: 1, max: 2 }));
    assert_eq!(walk_of(&components), vec![(a, Tile::NpcCorpse(NpcType::Orc))]);
}

#[test]
fn tiles_are_walked_in_the_order_they_came() {
    let mut allocator = EntityAllocator::default();
    let a = allocator.alloc();
    let b = allocator.alloc();
    let c = allocator.alloc();
    let mut components = Components::new();
    components.set_tile(b, Tile::Wall);
    components.set_tile(a, Tile::Floor);
    components.set_tile(c, Tile::Player);
    components.set_tile(a, Tile::Wall);
    assert_eq!(
        walk_of(&components),
        vec![(b, Tile::Wall), (a, Tile::Wall), (c, Tile::Player)]
    );
}

#[test]
fn removal_moves_the_last_tile_into_the_gap() {
    let mut allocator = EntityAllocator::default();
    let a = allocator.alloc();
    let b = allocator.alloc();
    let c = allocator.alloc();
    let d = allocator.alloc();
    let mut components = Components::new();
    components.set_tile(a, Tile::Floor);
    components.set_tile(b, Tile::Wall);
    components.set_tile(c, Tile::Player);
    components.set_tile(d, Tile::PlayerCorpse);
    components.remove_entity(b);
    assert_eq!(
        walk_of(&components),
        vec![(a, Tile::Floor), (d, Tile::PlayerCorpse), (c, Tile::Player)]
    );
    components.remove_entity(c);
    assert_eq!(walk_of(&components), vec![(a, Tile::Floor), (d, Tile::PlayerCorpse)]);
    components.remove_entity(c);
    assert_eq!(walk_of(&components), vec![(a, Tile::Floor), (d, Tile::PlayerCorpse)]);
}

#[test]
fn remove_entity_empties_every_table() {
    let mut allocator = EntityAllocator::default();
    let a = allocator.alloc();
    let b = allocator.alloc();
    let mut components = Components::new();
    components.set_tile(a, Tile::Npc(NpcType::Orc));
    components.set_npc_type(a, NpcType::Orc);
    components.set_hit_points(a, HitPoints { current: 2, max: 2 });
    components.set_tile(b, Tile::Player);
    components.remove_entity(a);
    assert_eq!(components.tile(a), None);
    assert_eq!(components.npc_type(a), None);
    assert_eq!(components.hit_points(a), None);
    assert_eq!(components.tile(b), Some(Tile::Player));
}

#[test]
fn a_freed_handle_finds_nothing_in_a_reused_slot() {
    let mut allocator = EntityAllocator::default();
    let old = allocator.alloc();
    let mut components = Components::new();
    components.set_tile(old, Tile::Wall);
    components.remove_entity(old);
    allocator.free(old);
    let new = allocator.alloc();
    assert_ne!(old, new);
    components.set_tile(new, Tile::Floor);
    assert_eq!(components.tile(new), Some(Tile::Floor));
    assert_eq!(components.tile(old), None);
    assert_eq!(walk_of(&components), vec![(new, Tile::Floor)]);
}

#[test]
fn a_new_holder_takes_over_an_entry_left_in_its_slot() {
    let mut allocator = EntityAllocator::default();
    let first = allocator.alloc();
    let old = allocator.alloc();
    let mut components = Components::new();
    components.set_tile(old, Tile::Wall);
    components.set_tile(first, Tile::Floor);
    allocator.free(old);
    let new = allocator.alloc();
    assert_eq!(components.tile(new), None);
    components.set_tile(new, Tile::Player);
    assert_eq!(components.tile(new), Some(Tile::Player));
    assert_eq!(components.tile(old), None);
    assert_eq!(walk_of(&components), vec![(new, Tile::Player), (first, Tile::Floor)]);
}

#[test]
fn agents_are_kept_in_order() {
    let mut allocator = EntityAllocator::default();
    let a = allocator.alloc();
    let b = allocator.alloc();
    let c = allocator.alloc();
    let mut agents = Agents::new();
    assert_eq!(agents.entries(), vec![]);
    agents.insert(a, Agent::new());
    agents.insert(b, Agent::new());
    agents.insert(c, Agent::new());
    let moved = Agent { last_action: NpcAction::Move(CardinalDirection::South) };
    agents.insert(b, moved);
    assert_eq!(
        agents.entries(),
        vec![(a, Agent::new()), (b, moved), (c, Agent::new())]
    );
    agents.remove(a);
    assert_eq!(agents.entries(), vec![(c, Agent::new()), (b, moved)]);
    agents.remove(a);
    agents.remove(b);
    assert_eq!(agents.entries(), vec![(c, Agent::new())]);
}
