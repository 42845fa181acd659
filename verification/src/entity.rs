//! Entity handles and their allocator.
//!
//! Handles, the allocator and the component tables come from the
//! `entity_table` crate. Verified code sees a handle as a pair of numbers: the
//! slot it occupies and the serial number it was issued with. A slot is reused
//! after its entity is freed; the serial number is not, which is what lets a
//! table tell a stale handle from the slot's current owner.

use vstd::prelude::*;

verus! {

#[verifier::external_type_specification]
#[verifier::external_body]
pub struct ExEntity(entity_table::Entity);

#[verifier::external_type_specification]
#[verifier::external_body]
pub struct ExEntityAllocator(entity_table::EntityAllocator);

#[verifier::external_type_specification]
#[verifier::external_body]
#[verifier::reject_recursive_types(T)]
pub struct ExComponentTable<T>(entity_table::ComponentTable<T>);

/// The slot of a handle: the private field `index` of `entity_table::Entity`.
pub uninterp spec fn entity_index(entity: entity_table::Entity) -> int;

/// The serial number of a handle: the private field `id` of
/// `entity_table::Entity`.
pub uninterp spec fn entity_id(entity: entity_table::Entity) -> int;

/// The live entities of an allocator, as a map from slot to the serial number
/// of the entity in it.
pub uninterp spec fn allocator_slots(allocator: entity_table::EntityAllocator) -> Map<int, int>;

/// The number of handles an allocator has issued so far, which is also the
/// serial number of the next one.
pub uninterp spec fn allocator_issued(allocator: entity_table::EntityAllocator) -> int;

/// The number of distinct slots an allocator has handed out so far. Slots are
/// numbered from zero, so every slot it knows is below this.
pub uninterp spec fn allocator_span(allocator: entity_table::EntityAllocator) -> int;

/// What a table keyed by entities holds: for each occupied slot, the serial
/// number of the entity that owns the entry, and the entry.
pub type Slots<T> = Map<int, (int, T)>;

/// Whether `slots` has an entry that belongs to `entity` itself, and not to
/// an earlier holder of its slot.
pub open spec fn slot_holds<T>(slots: Slots<T>, entity: entity_table::Entity) -> bool {
    slots.contains_key(entity_index(entity)) && slots[entity_index(entity)].0 == entity_id(entity)
}

/// The entry of `entity` in `slots`, if it has one.
pub open spec fn slot_value<T>(slots: Slots<T>, entity: entity_table::Entity) -> Option<T> {
    if slot_holds(slots, entity) {
        Some(slots[entity_index(entity)].1)
    } else {
        None
    }
}

/// `slots` after `entity` takes over its slot with `value`.
pub open spec fn slot_put<T>(slots: Slots<T>, entity: entity_table::Entity, value: T) -> Slots<T> {
    slots.insert(entity_index(entity), (entity_id(entity), value))
}

/// `slots` after the slot of `entity` is emptied, whoever held it.
pub open spec fn slot_drop<T>(slots: Slots<T>, entity: entity_table::Entity) -> Slots<T> {
    slots.remove(entity_index(entity))
}

/// Iteration order of a table after an entry for `slot` is stored: an entry
/// already present keeps its place, a new one goes to the end.
pub open spec fn order_put(order: Seq<int>, slot: int) -> Seq<int> {
    if order.contains(slot) {
        order
    } else {
        order.push(slot)
    }
}

/// Iteration order of a table after the entry for `slot` is removed: the last
/// entry moves into the gap.
pub open spec fn order_drop(order: Seq<int>, slot: int) -> Seq<int> {
    if order.contains(slot) {
        order.update(order.index_of(slot), order.last()).drop_last()
    } else {
        order
    }
}

/// A kind of attribute, of which a `ComponentTable` holds one per entity.
pub trait Component: Sized {
    /// What a table of this attribute holds.
    spec fn slots(table: entity_table::ComponentTable<Self>) -> Slots<Self>;

    /// The slots of a table of this attribute in the order in which it is
    /// walked.
    spec fn order(table: entity_table::ComponentTable<Self>) -> Seq<int>;
}

/// `ComponentTable::insert`: the entry in the entity's slot becomes the
/// entity's own, with the given value. An entry already in that slot keeps
/// its place in the walk, whoever owned it; a new entry goes last.
#[verifier::external_body]
pub(crate) fn table_insert<T: Component>(
    table: &mut entity_table::ComponentTable<T>,
    entity: entity_table::Entity,
    value: T,
)
    ensures
        T::slots(*final(table)) == slot_put(T::slots(*old(table)), entity, value),
        T::order(*final(table)) == order_put(T::order(*old(table)), entity_index(entity)),
{
    table.insert(entity, value);
}

/// `ComponentTable::get`: the entity's own entry, if its slot holds one.
#[verifier::external_body]
pub(crate) fn table_get<T: Component + Copy>(
    table: &entity_table::ComponentTable<T>,
    entity: entity_table::Entity,
) -> (value: Option<T>)
    ensures
        value == slot_value(T::slots(*table), entity),
{
    table.get(entity).copied()
}

/// `ComponentTable::remove`: the entity's slot is emptied, whoever owned the
/// entry in it, and the last entry of the walk takes its place.
#[verifier::external_body]
pub(crate) fn table_remove<T: Component>(
    table: &mut entity_table::ComponentTable<T>,
    entity: entity_table::Entity,
)
    ensures
        T::slots(*final(table)) == slot_drop(T::slots(*old(table)), entity),
        T::order(*final(table)) == order_drop(T::order(*old(table)), entity_index(entity)),
{
    table.remove(entity);
}

/// `ComponentTable::iter`: the entries with their owners, in walking order.
#[verifier::external_body]
pub(crate) fn table_entries<T: Component + Copy>(table: &entity_table::ComponentTable<T>) -> (entries: Vec<
    (entity_table::Entity, T),
>)
    ensures
        entries@.len() == T::order(*table).len(),
        forall|k: int|
            0 <= k < entries@.len() ==> {
                &&& entity_index(#[trigger] entries@[k].0) == T::order(*table)[k]
                &&& slot_value(T::slots(*table), entries@[k].0) == Some(entries@[k].1)
            },
{
    table.iter().map(|(entity, value)| (entity, *value)).collect()
}

/// Whether `entity` is live: the allocator's slot for it holds its serial
/// number.
pub open spec fn is_live(slots: Map<int, int>, entity: entity_table::Entity) -> bool {
    slots.contains_key(entity_index(entity)) && slots[entity_index(entity)] == entity_id(entity)
}

/// Whether every entry of `slots` belongs to a live entity.
pub open spec fn all_live<T>(slots: Slots<T>, live: Map<int, int>) -> bool {
    forall|i: int| #[trigger] slots.contains_key(i) ==> live.contains_key(i) && live[i] == slots[i].0
}

/// Whether `order` lists each occupied slot of `slots` exactly once.
pub open spec fn order_lists<T>(order: Seq<int>, slots: Slots<T>) -> bool {
    &&& order.no_duplicates()
    &&& forall|i: int| #[trigger] order.contains(i) <==> slots.contains_key(i)
}

/// `EntityAllocator::default`: an allocator that has issued nothing.
#[verifier::external_body]
fn allocator_new() -> (fresh: entity_table::EntityAllocator)
    ensures
        allocator_slots(fresh) == (Map::<int, int>::empty()),
        allocator_issued(fresh) == 0,
        allocator_span(fresh) == 0,
{
    entity_table::EntityAllocator::default()
}

/// `EntityAllocator::alloc`: issues a handle with the next serial number, in
/// a slot that holds no live entity: a freed slot, or else the next new one.
/// The serial counter is a `u32` and must not be exhausted.
#[verifier::external_body]
fn allocator_alloc(allocator: &mut entity_table::EntityAllocator) -> (entity:
    entity_table::Entity)
    requires
        allocator_issued(*old(allocator)) < u32::MAX,
    ensures
        entity_id(entity) == allocator_issued(*old(allocator)),
        allocator_issued(*final(allocator)) == allocator_issued(*old(allocator)) + 1,
        0 <= entity_index(entity) < allocator_span(*final(allocator)),
        allocator_span(*final(allocator)) == (if entity_index(entity) < allocator_span(
            *old(allocator),
        ) {
            allocator_span(*old(allocator))
        } else {
            allocator_span(*old(allocator)) + 1
        }),
        !allocator_slots(*old(allocator)).contains_key(entity_index(entity)),
        allocator_slots(*final(allocator)) == allocator_slots(*old(allocator)).insert(
            entity_index(entity),
            entity_id(entity),
        ),
{
    allocator.alloc()
}

/// `EntityAllocator::free`: a live entity's slot is emptied; a handle that is
/// not live changes nothing. The allocator indexes its slot table without a
/// bounds check, so the handle's slot must be one it has handed out.
#[verifier::external_body]
fn allocator_free(allocator: &mut entity_table::EntityAllocator, entity:
    entity_table::Entity)
    requires
        0 <= entity_index(entity) < allocator_span(*old(allocator)),
    ensures
        allocator_slots(*final(allocator)) == (if is_live(allocator_slots(*old(allocator)), entity) {
            allocator_slots(*old(allocator)).remove(entity_index(entity))
        } else {
            allocator_slots(*old(allocator))
        }),
        allocator_issued(*final(allocator)) == allocator_issued(*old(allocator)),
        allocator_span(*final(allocator)) == allocator_span(*old(allocator)),
{
    allocator.free(entity)
}

/// What an allocator has handed out.
pub ghost struct AllocatorView {
    /// The live entities: slot to serial number.
    pub live: Map<int, int>,
    /// How many handles were ever issued.
    pub issued: int,
    /// How many slots were ever used.
    pub span: int,
}

impl AllocatorView {
    /// Nothing has been handed out.
    pub open spec fn empty() -> AllocatorView {
        AllocatorView { live: Map::empty(), issued: 0, span: 0 }
    }

    /// Every live entity is in a slot that has been handed out, under a
    /// serial number that has been issued.
    pub open spec fn wf(self) -> bool {
        &&& 0 <= self.issued
        &&& forall|i: int| #[trigger] self.live.contains_key(i) ==> 0 <= i < self.span
        &&& forall|i: int| #[trigger] self.live.contains_key(i) ==> 0 <= self.live[i] < self.issued
    }

    /// Whether the slot of `entity` has been handed out, to it or to another.
    pub open spec fn knows(self, entity: entity_table::Entity) -> bool {
        0 <= entity_index(entity) < self.span
    }

    /// After `entity` is issued.
    pub open spec fn allocated(self, entity: entity_table::Entity) -> AllocatorView {
        AllocatorView {
            live: self.live.insert(entity_index(entity), entity_id(entity)),
            issued: self.issued + 1,
            span: if entity_index(entity) < self.span {
                self.span
            } else {
                self.span + 1
            },
        }
    }

    /// After `entity` is freed: a live entity leaves its slot, and a handle
    /// that is not live changes nothing.
    pub open spec fn freed(self, entity: entity_table::Entity) -> AllocatorView {
        if is_live(self.live, entity) {
            AllocatorView { live: self.live.remove(entity_index(entity)), ..self }
        } else {
            self
        }
    }
}

/// Hands out entity handles and takes them back.
pub struct Allocator {
    inner: entity_table::EntityAllocator,
}

impl View for Allocator {
    type V = AllocatorView;

    closed spec fn view(&self) -> AllocatorView {
        AllocatorView {
            live: allocator_slots(self.inner),
            issued: allocator_issued(self.inner),
            span: allocator_span(self.inner),
        }
    }
}

impl Allocator {
    /// An allocator that has handed out nothing.
    pub fn new() -> (r: Allocator)
        ensures
            r@ == AllocatorView::empty(),
            r@.wf(),
    {
        Allocator { inner: allocator_new() }
    }

    /// Issues a handle. Its serial number is the count of handles issued
    /// before, which is above that of every live entity; its slot is one
    /// that holds no live entity. The serial numbers are 32 bits wide and
    /// must not be used up.
    pub fn allocate(&mut self) -> (entity: entity_table::Entity)
        requires
            old(self)@.wf(),
            old(self)@.issued < u32::MAX,
        ensures
            entity_id(entity) == old(self)@.issued,
            !old(self)@.live.contains_key(entity_index(entity)),
            0 <= entity_index(entity) <= old(self)@.span,
            final(self)@ == old(self)@.allocated(entity),
            final(self)@.wf(),
            is_live(final(self)@.live, entity),
    {
        allocator_alloc(&mut self.inner)
    }

    /// Takes a handle back. A live entity stops being live and its slot may
    /// be issued again; a handle that is not live changes nothing. The slot
    /// of the handle must be one that this allocator has handed out.
    pub fn free(&mut self, entity: entity_table::Entity)
        requires
            old(self)@.wf(),
            old(self)@.knows(entity),
        ensures
            final(self)@ == old(self)@.freed(entity),
            final(self)@.wf(),
            !is_live(final(self)@.live, entity),
    {
        allocator_free(&mut self.inner, entity);
    }
}

/// The walk of an empty table lists each of its entries once.
pub proof fn lemma_order_empty<T>()
    ensures
        order_lists(Seq::<int>::empty(), Map::<int, (int, T)>::empty()),
{
    let order = Seq::<int>::empty();
    assert forall|i: int| #[trigger] order.contains(i) <==> Map::<int, (int, T)>::empty().contains_key(i) by {
        if order.contains(i) {
            let k = choose|k: int| 0 <= k < order.len() && order[k] == i;
        }
    }
}

/// Storing an entry in a walk that lists each entry once leaves a walk that
/// lists each entry once.
pub proof fn lemma_order_put<T>(order: Seq<int>, slots: Map<int, (int, T)>, slot: int, entry: (int, T))
    requires
        order_lists(order, slots),
    ensures
        order_lists(order_put(order, slot), slots.insert(slot, entry)),
{
    let after = order_put(order, slot);
    if !order.contains(slot) {
        assert forall|i: int| #[trigger] after.contains(i) <==> slots.insert(slot, entry).contains_key(i) by {
            if after.contains(i) {
                let k = choose|k: int| 0 <= k < after.len() && after[k] == i;
                if k < order.len() {
                    assert(order[k] == i);
                    assert(order.contains(i));
                }
            }
            if slots.insert(slot, entry).contains_key(i) {
                if i == slot {
                    assert(after[order.len() as int] == slot);
                } else {
                    assert(order.contains(i));
                    let k = choose|k: int| 0 <= k < order.len() && order[k] == i;
                    assert(after[k] == i);
                }
            }
        }
        assert forall|i: int, j: int| 0 <= i < after.len() && 0 <= j < after.len() && i != j implies after[i] != after[j] by {
            if i < order.len() && j < order.len() {
            } else if i < order.len() {
                assert(order[i] == after[i]);
                assert(order.contains(after[i]));
            } else {
                assert(order[j] == after[j]);
                assert(order.contains(after[j]));
            }
        }
    } else {
        assert forall|i: int| #[trigger] after.contains(i) <==> slots.insert(slot, entry).contains_key(i) by {}
    }
}

/// Dropping a slot from a walk that lists each entry once leaves a walk that
/// lists each remaining entry once.
pub proof fn lemma_order_drop<T>(order: Seq<int>, slots: Map<int, (int, T)>, slot: int)
    requires
        order_lists(order, slots),
    ensures
        order_lists(order_drop(order, slot), slots.remove(slot)),
{
    let after = order_drop(order, slot);
    if order.contains(slot) {
        let p = order.index_of(slot);
        let last = order.len() - 1;
        assert(order[p] == slot);
        assert forall|i: int, j: int| 0 <= i < after.len() && 0 <= j < after.len() && i != j implies after[i] != after[j] by {
            let a = if i == p { last } else { i };
            let b = if j == p { last } else { j };
            assert(after[i] == order[a]);
            assert(after[j] == order[b]);
        }
        assert forall|i: int| #[trigger] after.contains(i) <==> slots.remove(slot).contains_key(i) by {
            if after.contains(i) {
                let k = choose|k: int| 0 <= k < after.len() && after[k] == i;
                let a = if k == p { last } else { k };
                assert(order[a] == i);
                assert(order.contains(i));
                assert(a != p || p == last);
                if i == slot {
                    assert(order[a] == order[p]);
                    assert(a == p);
                    assert(k == p && p == last);
                }
            }
            if slots.remove(slot).contains_key(i) {
                assert(order.contains(i));
                let k = choose|k: int| 0 <= k < order.len() && order[k] == i;
                assert(k != p);
                if k == last {
                    assert(after[p] == i);
                } else {
                    assert(after[k] == i);
                }
            }
        }
    } else {
        assert(slots.remove(slot) =~= slots);
    }
}

} // verus!
