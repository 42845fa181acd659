//! The occupancy index: which entity stands where, and on which layer.
//!
//! The index is a `spatial_table::SpatialTable`. It keeps two tables, one
//! from entity to location and one from cell and layer to occupant. The
//! methods here keep them in agreement, and say so in their contracts.

use vstd::prelude::*;
use entity_table::Entity;
use crate::entity::{entity_id, entity_index, slot_value, Slots};
use crate::geometry::{Extent, Point};

verus! {

/// The channels of a cell. Each holds at most one entity.
#[derive(Clone, Copy, Debug, PartialEq, Eq, Structural)]
pub enum Layer {
    Floor,
    Feature,
    Character,
    Corpse,
}

/// The occupant of each layer of one cell.
#[derive(Clone, Copy, Debug, PartialEq, Eq)]
pub struct Layers {
    pub character: Option<Entity>,
    pub corpse: Option<Entity>,
    pub feature: Option<Entity>,
    pub floor: Option<Entity>,
}

/// Where an entity is: a cell, and the layer it occupies there, if any.
#[derive(Clone, Copy, Debug, PartialEq, Eq, Structural)]
pub struct Location {
    pub coord: Point,
    pub layer: Option<Layer>,
}

/// Why a placement was refused.
#[derive(Clone, Copy, Debug, PartialEq, Eq)]
pub enum UpdateError {
    /// The layer of the target cell is taken by this entity.
    OccupiedBy(Entity),
    /// The target cell lies outside the grid.
    DestinationOutOfBounds,
}

/// Why a change of layer was refused.
#[derive(Clone, Copy, Debug, PartialEq, Eq)]
pub enum UpdateLayerError {
    /// The layer is taken, in the entity's cell, by this entity.
    OccupiedBy(Entity),
    /// The entity is nowhere.
    EntityHasNoCoord,
}

impl Layer {
    /// Depth at which a layer is drawn: the floor lowest, features above it,
    /// characters and corpses on top.
    pub open spec fn spec_depth(self) -> i8 {
        match self {
            Layer::Floor => 0,
            Layer::Feature => 1,
            Layer::Character => 2,
            Layer::Corpse => 2,
        }
    }

    /// Depth at which a layer is drawn.
    pub fn depth(self) -> (r: i8)
        ensures
            r == self.spec_depth(),
    {
        match self {
            Layer::Floor => 0,
            Layer::Feature => 1,
            Layer::Character => 2,
            Layer::Corpse => 2,
        }
    }
}

impl Layers {
    /// A cell with nothing in it.
    pub open spec fn empty() -> Layers {
        Layers { character: None, corpse: None, feature: None, floor: None }
    }

    /// The occupant of a layer.
    pub open spec fn slot(self, layer: Layer) -> Option<Entity> {
        match layer {
            Layer::Floor => self.floor,
            Layer::Feature => self.feature,
            Layer::Character => self.character,
            Layer::Corpse => self.corpse,
        }
    }

    /// This cell with one layer changed.
    pub open spec fn with_slot(self, layer: Layer, occupant: Option<Entity>) -> Layers {
        match layer {
            Layer::Floor => Layers { floor: occupant, ..self },
            Layer::Feature => Layers { feature: occupant, ..self },
            Layer::Character => Layers { character: occupant, ..self },
            Layer::Corpse => Layers { corpse: occupant, ..self },
        }
    }

    /// The occupant of a layer.
    pub fn get(&self, layer: Layer) -> (r: Option<Entity>)
        ensures
            r == self.slot(layer),
    {
        match layer {
            Layer::Floor => self.floor,
            Layer::Feature => self.feature,
            Layer::Character => self.character,
            Layer::Corpse => self.corpse,
        }
    }
}

impl Default for Layers {
    fn default() -> (r: Layers)
        ensures
            r == Layers::empty(),
    {
        Layers { character: None, corpse: None, feature: None, floor: None }
    }
}

impl spatial_table::Layers for Layers {
    type Layer = Layer;

    fn select_field_mut(&mut self, layer: Layer) -> (slot: &mut Option<Entity>)
        ensures
            *slot == old(self).slot(layer),
            *final(self) == old(self).with_slot(layer, *final(slot)),
    {
        match layer {
            Layer::Floor => &mut self.floor,
            Layer::Feature => &mut self.feature,
            Layer::Character => &mut self.character,
            Layer::Corpse => &mut self.corpse,
        }
    }
}

/// The occupancy index of a world.
#[verifier::external_body]
pub struct SpatialTable {
    inner: spatial_table::SpatialTable<Layers>,
}

/// The size of the grid an index was made for.
pub uninterp spec fn spatial_extent(table: SpatialTable) -> Extent;

/// The entity-to-location table of an index.
pub uninterp spec fn spatial_locations(table: SpatialTable) -> Map<int, (int, Location)>;

/// The cell-to-occupants table of an index. It has an entry for each cell of
/// the grid.
pub uninterp spec fn spatial_cells(table: SpatialTable) -> Map<Point, Layers>;

/// Both tables of an occupancy index, and the size of its grid.
pub ghost struct SpatialView {
    pub size: Extent,
    pub locations: Slots<Location>,
    pub cells: Map<Point, Layers>,
}

impl SpatialView {
    /// The index of an empty grid.
    pub open spec fn empty(size: Extent) -> SpatialView {
        SpatialView {
            size,
            locations: Map::empty(),
            cells: Map::new(|coord: Point| size.contains(coord), |coord: Point| Layers::empty()),
        }
    }

    /// The location of `entity`, if it has one.
    pub open spec fn location_of(self, entity: Entity) -> Option<Location> {
        slot_value(self.locations, entity)
    }

    /// The occupant of a layer of a cell; nobody outside the grid.
    pub open spec fn occupant(self, coord: Point, layer: Layer) -> Option<Entity> {
        if self.size.contains(coord) {
            self.cells[coord].slot(layer)
        } else {
            None
        }
    }

    /// Whether the slot of `entity` is free or its own: no earlier holder of
    /// the slot is still on record.
    pub open spec fn admits(self, entity: Entity) -> bool {
        self.locations.contains_key(entity_index(entity)) ==> self.locations[entity_index(
            entity,
        )].0 == entity_id(entity)
    }

    /// Every recorded location is a cell of the grid, and whoever is recorded
    /// on a layer there is that layer's occupant.
    pub open spec fn locations_agree(self) -> bool {
        forall|i: int| #[trigger]
            self.locations.contains_key(i) ==> {
                let location = self.locations[i].1;
                &&& self.size.contains(location.coord)
                &&& location.layer matches Some(layer) ==> (self.occupant(
                    location.coord,
                    layer,
                ) matches Some(entity) && entity_index(entity) == i && entity_id(entity)
                    == self.locations[i].0)
            }
    }

    /// Every occupant of a layer of a cell is recorded at that cell and layer.
    pub open spec fn cells_agree(self) -> bool {
        forall|coord: Point, layer: Layer|
            (#[trigger] self.occupant(coord, layer)) matches Some(entity) ==> self.location_of(
                entity,
            ) == Some(Location { coord, layer: Some(layer) })
    }

    /// The two tables describe the same placement.
    pub open spec fn wf(self) -> bool {
        &&& self.size.valid()
        &&& forall|coord: Point| #[trigger] self.cells.contains_key(coord) <==> self.size.contains(coord)
        &&& self.locations_agree()
        &&& self.cells_agree()
    }

    /// This index with the occupant of one layer of one cell changed.
    pub open spec fn with_occupant(self, coord: Point, layer: Layer, occupant: Option<Entity>) -> SpatialView {
        SpatialView { cells: self.cells.insert(coord, self.cells[coord].with_slot(layer, occupant)), ..self }
    }

    /// This index after `entity` is put at `location`: it leaves the layer it
    /// was on, takes the one it is given, and is recorded there.
    pub open spec fn placed(self, entity: Entity, location: Location) -> SpatialView {
        let taken = match location.layer {
            Some(layer) => self.with_occupant(location.coord, layer, Some(entity)),
            None => self,
        };
        let left = match self.location_of(entity) {
            Some(Location { coord, layer: Some(layer) }) => taken.with_occupant(coord, layer, None),
            _ => taken,
        };
        SpatialView {
            locations: self.locations.insert(entity_index(entity), (entity_id(entity), location)),
            ..left
        }
    }

    /// This index after the slot of `entity` is cleared: whoever is recorded
    /// in that slot leaves its layer and the record.
    pub open spec fn removed(self, entity: Entity) -> SpatialView {
        let slot = entity_index(entity);
        let left = if self.locations.contains_key(slot) {
            match self.locations[slot].1 {
                Location { coord, layer: Some(layer) } => self.with_occupant(coord, layer, None),
                _ => self,
            }
        } else {
            self
        };
        SpatialView { locations: self.locations.remove(slot), ..left }
    }

    /// What putting `entity` at `location` answers: the target must be a cell
    /// of the grid and the target layer free.
    pub open spec fn update_result(self, entity: Entity, location: Location) -> Result<(), UpdateError> {
        match location.layer {
            Some(layer) => {
                if !self.size.contains(location.coord) {
                    Err(UpdateError::DestinationOutOfBounds)
                } else {
                    match self.cells[location.coord].slot(layer) {
                        Some(occupant) => Err(UpdateError::OccupiedBy(occupant)),
                        None => Ok(()),
                    }
                }
            },
            None => Ok(()),
        }
    }

    /// Where moving `entity` to the cell `coord` puts it: on the layer it is
    /// on, or on none if it is nowhere yet. `None` where it is already there.
    pub open spec fn coord_target(self, entity: Entity, coord: Point) -> Option<Location> {
        match self.location_of(entity) {
            Some(location) => if location.coord == coord {
                None
            } else {
                Some(Location { coord, layer: location.layer })
            },
            None => Some(Location { coord, layer: None }),
        }
    }

    /// What moving `entity` to the layer `layer` of its cell answers.
    pub open spec fn update_layer_result(self, entity: Entity, layer: Layer) -> Result<(), UpdateLayerError> {
        match self.location_of(entity) {
            None => Err(UpdateLayerError::EntityHasNoCoord),
            Some(location) => if location.layer == Some(layer) {
                Ok(())
            } else {
                match self.cells[location.coord].slot(layer) {
                    Some(occupant) => Err(UpdateLayerError::OccupiedBy(occupant)),
                    None => Ok(()),
                }
            },
        }
    }
}

impl View for SpatialTable {
    type V = SpatialView;

    closed spec fn view(&self) -> SpatialView {
        SpatialView {
            size: spatial_extent(*self),
            locations: spatial_locations(*self),
            cells: spatial_cells(*self),
        }
    }
}

/// `SpatialTable::new`: an index for a grid of the given size, with every
/// cell empty and nobody recorded. The grid allocates one cell per
/// coordinate and counts them in 32 bits.
#[verifier::external_body]
fn raw_new(size: Extent) -> (table: SpatialTable)
    requires
        size.valid(),
    ensures
        spatial_extent(table) == size,
        spatial_locations(table) == SpatialView::empty(size).locations,
        spatial_cells(table) == SpatialView::empty(size).cells,
{
    SpatialTable { inner: spatial_table::SpatialTable::new(coord_2d::Size::new(size.width, size.height)) }
}

/// `SpatialTable::grid_size`.
#[verifier::external_body]
fn raw_grid_size(table: &SpatialTable) -> (size: Extent)
    ensures
        size == spatial_extent(*table),
{
    let size = table.inner.grid_size();
    Extent { width: size.width(), height: size.height() }
}

/// `SpatialTable::layers_at`: the occupants of a cell, or `None` outside the
/// grid.
#[verifier::external_body]
fn raw_layers_at(table: &SpatialTable, coord: Point) -> (layers: Option<Layers>)
    ensures
        layers == (if spatial_extent(*table).contains(coord) {
            Some(spatial_cells(*table)[coord])
        } else {
            None
        }),
{
    table.inner.layers_at(coord_2d::Coord::new(coord.x, coord.y)).copied()
}

/// `SpatialTable::location_of`: the entity's own record, if its slot holds
/// one.
#[verifier::external_body]
fn raw_location_of(table: &SpatialTable, entity: Entity) -> (location: Option<Location>)
    ensures
        location == slot_value(spatial_locations(*table), entity),
{
    table.inner.location_of(entity).map(
        |l| Location { coord: Point { x: l.coord.x, y: l.coord.y }, layer: l.layer },
    )
}

/// `SpatialTable::update`. With a layer, the target cell is looked up and
/// the layer must be free in it, or nothing changes. Then the entity is
/// recorded at the location, and the layer it was recorded on is vacated.
/// The cell it was recorded at is indexed without a bounds check and
/// asserted to hold it, so the tables must agree; and a record left in its
/// slot by an earlier holder would be overwritten with that holder still on
/// its layer, which is ruled out here.
#[verifier::external_body]
fn raw_update(table: &mut SpatialTable, entity: Entity, location: Location) -> (r: Result<
    (),
    UpdateError,
>)
    requires
        old(table)@.wf(),
        old(table)@.admits(entity),
    ensures
        r == old(table)@.update_result(entity, location),
        final(table)@ == (if r is Ok {
            old(table)@.placed(entity, location)
        } else {
            old(table)@
        }),
{
    let to = spatial_table::Location {
        coord: coord_2d::Coord::new(location.coord.x, location.coord.y),
        layer: location.layer,
    };
    match table.inner.update(entity, to) {
        Ok(()) => Ok(()),
        Err(spatial_table::UpdateError::OccupiedBy(occupant)) => Err(UpdateError::OccupiedBy(occupant)),
        Err(spatial_table::UpdateError::DestinationOutOfBounds) => Err(
            UpdateError::DestinationOutOfBounds,
        ),
    }
}

/// `SpatialTable::update_coord`. An entity already at the cell stays as it
/// is. Any other is put at the cell as `update` puts it, on the layer it is
/// on, or on none if it is nowhere yet.
#[verifier::external_body]
fn raw_update_coord(table: &mut SpatialTable, entity: Entity, coord: Point) -> (r: Result<
    (),
    UpdateError,
>)
    requires
        old(table)@.wf(),
        old(table)@.admits(entity),
    ensures
        r == (match old(table)@.coord_target(entity, coord) {
            Some(target) => old(table)@.update_result(entity, target),
            None => Ok(()),
        }),
        final(table)@ == (match old(table)@.coord_target(entity, coord) {
            Some(target) if r is Ok => old(table)@.placed(entity, target),
            _ => old(table)@,
        }),
{
    match table.inner.update_coord(entity, coord_2d::Coord::new(coord.x, coord.y)) {
        Ok(()) => Ok(()),
        Err(spatial_table::UpdateError::OccupiedBy(occupant)) => Err(UpdateError::OccupiedBy(occupant)),
        Err(spatial_table::UpdateError::DestinationOutOfBounds) => Err(
            UpdateError::DestinationOutOfBounds,
        ),
    }
}

/// `SpatialTable::update_layer`. An entity that is nowhere is refused, and
/// one already on the layer stays as it is. For any other the layer must be
/// free in its cell, and it then moves there from the layer it was on. Its
/// cell is looked up and unwrapped, and asserted to hold it, so the tables
/// must agree.
#[verifier::external_body]
fn raw_update_layer(table: &mut SpatialTable, entity: Entity, layer: Layer) -> (r: Result<
    (),
    UpdateLayerError,
>)
    requires
        old(table)@.wf(),
    ensures
        r == old(table)@.update_layer_result(entity, layer),
        final(table)@ == (match old(table)@.location_of(entity) {
            Some(from) if r is Ok && from.layer != Some(layer) => old(table)@.placed(
                entity,
                Location { coord: from.coord, layer: Some(layer) },
            ),
            _ => old(table)@,
        }),
{
    match table.inner.update_layer(entity, layer) {
        Ok(()) => Ok(()),
        Err(spatial_table::UpdateLayerError::OccupiedBy(occupant)) => Err(
            UpdateLayerError::OccupiedBy(occupant),
        ),
        Err(spatial_table::UpdateLayerError::EntityHasNoCoord) => Err(
            UpdateLayerError::EntityHasNoCoord,
        ),
    }
}

/// `SpatialTable::remove`: the record in the entity's slot is dropped,
/// whoever it belongs to, and the layer it names is vacated. The cell it
/// names is indexed without a bounds check, so the tables must agree.
#[verifier::external_body]
fn raw_remove(table: &mut SpatialTable, entity: Entity)
    requires
        old(table)@.wf(),
    ensures
        final(table)@ == old(table)@.removed(entity),
{
    table.inner.remove(entity);
}

impl SpatialView {
    /// What `SpatialTable::update` answers.
    pub open spec fn update_outcome(self, entity: Entity, location: Location) -> Result<(), UpdateError> {
        if self.location_of(entity) == Some(location) {
            Ok(())
        } else if !self.size.contains(location.coord) {
            Err(UpdateError::DestinationOutOfBounds)
        } else {
            self.update_result(entity, location)
        }
    }

    /// The index after `SpatialTable::update`.
    pub open spec fn updated(self, entity: Entity, location: Location) -> SpatialView {
        if self.update_outcome(entity, location) is Ok && self.location_of(entity) != Some(location) {
            self.placed(entity, location)
        } else {
            self
        }
    }

    /// The location that `SpatialTable::update_coord` asks for.
    pub open spec fn coord_location(self, entity: Entity, coord: Point) -> Location {
        match self.location_of(entity) {
            Some(location) => Location { coord, layer: location.layer },
            None => Location { coord, layer: None },
        }
    }

    /// The index after `SpatialTable::update_layer`.
    pub open spec fn layer_updated(self, entity: Entity, layer: Layer) -> SpatialView {
        match self.location_of(entity) {
            Some(from) if self.update_layer_result(entity, layer) is Ok && from.layer != Some(layer) => self.placed(
                entity,
                Location { coord: from.coord, layer: Some(layer) },
            ),
            _ => self,
        }
    }
}

/// Putting an entity on a free layer of a cell of the grid keeps the two
/// tables in agreement.
pub proof fn lemma_placed_wf(view: SpatialView, entity: Entity, location: Location)
    requires
        view.wf(),
        view.admits(entity),
        view.size.contains(location.coord),
        location.layer matches Some(layer) ==> view.cells[location.coord].slot(layer) is None,
    ensures
        view.placed(entity, location).wf(),
        view.placed(entity, location).location_of(entity) == Some(location),
{
    let after = view.placed(entity, location);
    let slot = entity_index(entity);
    assert(view.locations.contains_key(slot) ==> view.location_of(entity) is Some);
    assert forall|coord: Point| #[trigger] after.cells.contains_key(coord) <==> after.size.contains(coord) by {
        assert(view.cells.contains_key(coord) <==> view.size.contains(coord));
        if view.locations.contains_key(slot) {
            assert(view.size.contains(view.locations[slot].1.coord));
        }
    }
    assert forall|coord: Point, layer: Layer|
        (#[trigger] after.occupant(coord, layer)) is Some implies after.location_of(
        after.occupant(coord, layer)->0,
    ) == Some(Location { coord, layer: Some(layer) }) by {
        let other = after.occupant(coord, layer)->0;
        if location.layer == Some(layer) && location.coord == coord {
        } else {
            assert(view.occupant(coord, layer) == Some(other));
        }
    }
    assert forall|i: int| #[trigger] after.locations.contains_key(i) implies ({
        let place = after.locations[i].1;
        &&& after.size.contains(place.coord)
        &&& place.layer matches Some(layer) ==> (after.occupant(place.coord, layer) matches Some(
            other,
        ) && entity_index(other) == i && entity_id(other) == after.locations[i].0)
    }) by {
        if i != slot {
            assert(view.locations.contains_key(i));
            let place = view.locations[i].1;
            if place.layer is Some {
                assert(view.occupant(place.coord, place.layer->0) is Some);
            }
        }
    }
}

/// Clearing a slot keeps the two tables in agreement.
pub proof fn lemma_removed_wf(view: SpatialView, entity: Entity)
    requires
        view.wf(),
    ensures
        view.removed(entity).wf(),
        view.removed(entity).location_of(entity) is None,
{
    let after = view.removed(entity);
    let slot = entity_index(entity);
    assert forall|coord: Point| #[trigger] after.cells.contains_key(coord) <==> after.size.contains(coord) by {
        assert(view.cells.contains_key(coord) <==> view.size.contains(coord));
        if view.locations.contains_key(slot) {
            assert(view.size.contains(view.locations[slot].1.coord));
        }
    }
    assert forall|coord: Point, layer: Layer|
        (#[trigger] after.occupant(coord, layer)) is Some implies after.location_of(
        after.occupant(coord, layer)->0,
    ) == Some(Location { coord, layer: Some(layer) }) by {
        let other = after.occupant(coord, layer)->0;
        assert(view.occupant(coord, layer) == Some(other));
    }
    assert forall|i: int| #[trigger] after.locations.contains_key(i) implies ({
        let place = after.locations[i].1;
        &&& after.size.contains(place.coord)
        &&& place.layer matches Some(layer) ==> (after.occupant(place.coord, layer) matches Some(
            other,
        ) && entity_index(other) == i && entity_id(other) == after.locations[i].0)
    }) by {
        assert(view.locations.contains_key(i));
        let place = view.locations[i].1;
        if place.layer is Some {
            assert(view.occupant(place.coord, place.layer->0) is Some);
        }
    }
}

/// Two entities recorded on the same layer of the same cell are one entity.
pub proof fn lemma_one_occupant(view: SpatialView, a: Entity, b: Entity, coord: Point, layer: Layer)
    requires
        view.wf(),
        view.location_of(a) == Some(Location { coord, layer: Some(layer) }),
        view.location_of(b) == Some(Location { coord, layer: Some(layer) }),
    ensures
        entity_index(a) == entity_index(b),
        entity_id(a) == entity_id(b),
{
    assert(view.locations.contains_key(entity_index(a)));
    assert(view.locations.contains_key(entity_index(b)));
    assert(view.occupant(coord, layer) is Some);
}

impl SpatialTable {
    /// An index for an empty grid of the given size.
    pub fn new(size: Extent) -> (r: SpatialTable)
        requires
            size.valid(),
        ensures
            r@ == SpatialView::empty(size),
            r@.wf(),
    {
        let table = raw_new(size);
        proof {
            let view = SpatialView::empty(size);
            assert(table@ == view);
            assert forall|coord: Point, layer: Layer|
                (#[trigger] view.occupant(coord, layer)) is None by {}
        }
        table
    }

    /// The size of the grid.
    pub fn grid_size(&self) -> (r: Extent)
        ensures
            r == self@.size,
    {
        raw_grid_size(self)
    }

    /// The occupants of a cell, or `None` for a coordinate outside the grid.
    pub fn layers_at(&self, coord: Point) -> (r: Option<Layers>)
        ensures
            r == (if self@.size.contains(coord) {
                Some(self@.cells[coord])
            } else {
                None
            }),
    {
        raw_layers_at(self, coord)
    }

    /// The occupants of a cell; a coordinate outside the grid has none.
    pub fn layers_at_checked(&self, coord: Point) -> (r: Layers)
        ensures
            r == (if self@.size.contains(coord) {
                self@.cells[coord]
            } else {
                Layers::empty()
            }),
            forall|layer: Layer| r.slot(layer) == self@.occupant(coord, layer),
    {
        match raw_layers_at(self, coord) {
            Some(layers) => layers,
            None => Layers::default(),
        }
    }

    /// Where `entity` is, if anywhere.
    pub fn location_of(&self, entity: Entity) -> (r: Option<Location>)
        ensures
            r == self@.location_of(entity),
    {
        raw_location_of(self, entity)
    }

    /// The cell `entity` is at, if any.
    pub fn coord_of(&self, entity: Entity) -> (r: Option<Point>)
        ensures
            r == (match self@.location_of(entity) {
                Some(location) => Some(location.coord),
                None => None,
            }),
    {
        match raw_location_of(self, entity) {
            Some(location) => Some(location.coord),
            None => None,
        }
    }

    /// The layer `entity` occupies, if any.
    pub fn layer_of(&self, entity: Entity) -> (r: Option<Layer>)
        ensures
            r == (match self@.location_of(entity) {
                Some(location) => location.layer,
                None => None,
            }),
    {
        match raw_location_of(self, entity) {
            Some(location) => location.layer,
            None => None,
        }
    }

    /// Puts `entity` at `location`. An entity already there stays. The target
    /// must be a cell of the grid, and the target layer must not be taken by
    /// another entity; then the entity leaves the layer it was on and takes
    /// the target. Otherwise nothing changes.
    pub fn update(&mut self, entity: Entity, location: Location) -> (r: Result<(), UpdateError>)
        requires
            old(self)@.wf(),
            old(self)@.admits(entity),
        ensures
            r == old(self)@.update_outcome(entity, location),
            final(self)@ == old(self)@.updated(entity, location),
            final(self)@.wf(),
            r is Ok ==> final(self)@.location_of(entity) == Some(location),
    {
        let size = raw_grid_size(self);
        let current = raw_location_of(self, entity);
        proof {
            let slot = entity_index(entity);
            assert(current is Some ==> old(self)@.locations.contains_key(slot));
        }
        if current == Some(location) {
            return Ok(());
        }
        if !location.coord.is_valid(size) {
            return Err(UpdateError::DestinationOutOfBounds);
        }
        let r = raw_update(self, entity, location);
        proof {
            if r is Ok {
                lemma_placed_wf(old(self)@, entity, location);
            }
        }
        r
    }

    /// Moves `entity` to the cell `coord`, on the layer it is on; an entity
    /// that is nowhere yet is put there on no layer. The occupancy check is
    /// that of `update`.
    pub fn update_coord(&mut self, entity: Entity, coord: Point) -> (r: Result<(), UpdateError>)
        requires
            old(self)@.wf(),
            old(self)@.admits(entity),
        ensures
            r == old(self)@.update_outcome(entity, old(self)@.coord_location(entity, coord)),
            final(self)@ == old(self)@.updated(entity, old(self)@.coord_location(entity, coord)),
            final(self)@.wf(),
            r is Ok ==> final(self)@.location_of(entity) == Some(
                old(self)@.coord_location(entity, coord),
            ),
    {
        let size = raw_grid_size(self);
        let current = raw_location_of(self, entity);
        proof {
            let slot = entity_index(entity);
            assert(current is Some ==> old(self)@.locations.contains_key(slot));
        }
        if !coord.is_valid(size) {
            return Err(UpdateError::DestinationOutOfBounds);
        }
        let r = raw_update_coord(self, entity, coord);
        proof {
            let target = old(self)@.coord_location(entity, coord);
            if r is Ok && old(self)@.location_of(entity) != Some(target) {
                lemma_placed_wf(old(self)@, entity, target);
            }
        }
        r
    }

    /// Moves `entity` to another layer of the cell it is at. An entity that
    /// is nowhere is refused; so is one whose target layer is taken by
    /// another entity, which the error names.
    pub fn update_layer(&mut self, entity: Entity, layer: Layer) -> (r: Result<(), UpdateLayerError>)
        requires
            old(self)@.wf(),
        ensures
            r == old(self)@.update_layer_result(entity, layer),
            final(self)@ == old(self)@.layer_updated(entity, layer),
            final(self)@.wf(),
            r is Ok ==> final(self)@.location_of(entity) == Some(
                Location { coord: old(self)@.location_of(entity)->0.coord, layer: Some(layer) },
            ),
    {
        proof {
            let slot = entity_index(entity);
            assert(old(self)@.location_of(entity) is Some ==> old(self)@.locations.contains_key(slot));
        }
        let r = raw_update_layer(self, entity, layer);
        proof {
            if r is Ok {
                let from = old(self)@.location_of(entity)->0;
                if from.layer != Some(layer) {
                    lemma_placed_wf(old(self)@, entity, Location { coord: from.coord, layer: Some(layer) });
                }
            }
        }
        r
    }

    /// Forgets where `entity` is and vacates the layer it was on.
    pub fn remove(&mut self, entity: Entity)
        requires
            old(self)@.wf(),
        ensures
            final(self)@ == old(self)@.removed(entity),
            final(self)@.wf(),
            final(self)@.location_of(entity) is None,
    {
        proof {
            let slot = entity_index(entity);
            assert(old(self)@.locations.contains_key(slot) ==> old(self)@.size.contains(
                old(self)@.locations[slot].1.coord,
            ));
            lemma_removed_wf(old(self)@, entity);
        }
        raw_remove(self, entity);
    }
}

} // verus!
