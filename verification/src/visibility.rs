//! Field of view with memory: which cells the player sees now, which it has
//! seen before, and which it has never seen.
//!
//! What is in sight is computed by the recursive shadowcast of the
//! `shadowcast` crate. This module names that result, keeps to the cells that
//! lie in the grid and within the sight radius, and maintains the memory.

use vstd::prelude::*;
use crate::geometry::{lemma_index_in_range, Extent, Point};
use crate::world::{World, WorldView};

verus! {

#[verifier::external_type_specification]
#[verifier::external_body]
#[verifier::reject_recursive_types(V)]
pub struct ExShadowcastContext<V>(shadowcast::Context<V>);

#[verifier::external_type_specification]
#[verifier::external_body]
pub struct ExOutsideCoord(coord_2d::Coord);

#[verifier::external_type_specification]
#[verifier::external_body]
pub struct ExOutsideSize(coord_2d::Size);

/// How far the player sees, squared.
pub const VISION_DISTANCE_SQUARED: u32 = 100;

/// The light that leaves the eye. A cell's opacity is taken from it, and
/// sight ends where nothing is left.
pub const FULL_VISIBILITY: u8 = 255;

/// The largest width and height of a world in which sight is computed. The
/// shadowcast multiplies slopes in signed 32-bit arithmetic; their parts are
/// at most twice a dimension plus one.
pub const MAX_SIGHT_DIMENSION: u32 = 8192;

/// What the player knows of a cell.
#[derive(Clone, Copy, Debug, PartialEq, Eq, Structural)]
pub enum CellVisibility {
    /// In sight now.
    Currently,
    /// Seen before, out of sight now.
    Previously,
    /// Not seen yet.
    Never,
}

/// How sight is computed.
#[derive(Clone, Copy, Debug, PartialEq, Eq, Structural)]
pub enum VisibilityAlgorithm {
    /// Recursive shadowcast from the player's cell.
    Shadowcast,
    /// Everything is in sight.
    Omniscient,
}

/// The way the shadowcast reads a world: its size, and the opacity of each
/// cell.
pub struct WorldOpacity;

impl shadowcast::InputGrid for WorldOpacity {
    type Grid = World;

    type Opacity = u8;

    #[verifier::external_body]
    fn size(&self, world: &World) -> coord_2d::Size {
        let size = world.size();
        coord_2d::Size::new(size.width, size.height)
    }

    #[verifier::external_body]
    fn get_opacity(&self, world: &World, coord: coord_2d::Coord) -> u8 {
        world.opacity_at(Point { x: coord.x, y: coord.y })
    }
}

/// The opacity of every cell of a world.
pub open spec fn opacity_map(world: WorldView) -> Map<Point, u8> {
    Map::new(|coord: Point| world.size().contains(coord), |coord: Point| world.opacity_at(coord))
}

/// The cells that `shadowcast::Context::for_each_visible` reports, in the
/// order in which it reports them, for an eye at `eye` in a grid of the given
/// size and opacities, a circular sight of the given squared radius, and the
/// given light at the eye.
pub uninterp spec fn sight_cells(
    eye: Point,
    size: Extent,
    opacity: Map<Point, u8>,
    distance_squared: u32,
    light: u8,
) -> Seq<Point>;

/// `shadowcast::Context::default`.
#[verifier::external_body]
pub(crate) fn raw_context() -> shadowcast::Context<u8> {
    shadowcast::Context::default()
}

/// `shadowcast::Context::for_each_visible`, with the world read through
/// `WorldOpacity` and a circular sight. The scan starts and ends with empty
/// queues, so what it reports depends on the arguments alone. It reports
/// the eye's own cell first, and after that only cells of the grid that are
/// in range. Its slope arithmetic is in `i32` and unchecked: the eye must be
/// in the grid, and the grid no larger than `MAX_SIGHT_DIMENSION` each way.
#[verifier::external_body]
fn raw_sight(
    context: &mut shadowcast::Context<u8>,
    eye: Point,
    world: &World,
    distance_squared: u32,
    light: u8,
) -> (cells: Vec<Point>)
    requires
        world@.size().contains(eye),
        world@.size().width <= MAX_SIGHT_DIMENSION,
        world@.size().height <= MAX_SIGHT_DIMENSION,
    ensures
        cells@ == sight_cells(eye, world@.size(), opacity_map(world@), distance_squared, light),
        cells@.contains(eye),
        forall|k: int|
            0 <= k < cells@.len() ==> world@.size().contains(#[trigger] cells@[k])
                && cells@[k].distance_squared(eye) <= distance_squared,
{
    let mut cells = Vec::new();
    let circle = shadowcast::vision_distance::Circle::new_squared(distance_squared);
    context.for_each_visible(
        coord_2d::Coord::new(eye.x, eye.y),
        &WorldOpacity,
        world,
        circle,
        light,
        |coord, _, _| cells.push(Point { x: coord.x, y: coord.y }),
    );
    cells
}

/// Whether the shadowcast from `eye` reports the cell `coord` of a world,
/// and the cell lies within the sight radius.
pub open spec fn in_sight(world: WorldView, eye: Point, coord: Point) -> bool {
    &&& world.size().contains(eye)
    &&& sight_cells(
        eye,
        world.size(),
        opacity_map(world),
        VISION_DISTANCE_SQUARED,
        FULL_VISIBILITY,
    ).contains(coord)
    &&& coord.distance_squared(eye) <= VISION_DISTANCE_SQUARED
}

/// Whether a cell counts as seen in an update.
pub open spec fn is_seen(
    world: WorldView,
    eye: Point,
    algorithm: VisibilityAlgorithm,
    coord: Point,
) -> bool {
    match algorithm {
        VisibilityAlgorithm::Omniscient => true,
        VisibilityAlgorithm::Shadowcast => in_sight(world, eye, coord),
    }
}

impl CellVisibility {
    /// What is known of a cell after an update: a cell seen in it is in
    /// sight; one that was in sight and is not seen is remembered; memory and
    /// ignorance stay as they are.
    pub open spec fn refreshed(self, seen: bool) -> CellVisibility {
        if seen {
            CellVisibility::Currently
        } else {
            match self {
                CellVisibility::Currently => CellVisibility::Previously,
                other => other,
            }
        }
    }
}

/// What the player knows of each cell of a grid.
pub struct VisibilityGrid {
    size: Extent,
    cells: Vec<CellVisibility>,
}

impl VisibilityGrid {
    /// The size of the grid.
    pub closed spec fn size(self) -> Extent {
        self.size
    }

    /// The grid has one entry for each cell.
    pub closed spec fn wf(self) -> bool {
        self.size.valid() && self.cells@.len() == self.size.cells()
    }

    /// What is known of a cell. Nothing is known of what lies outside the
    /// grid.
    pub closed spec fn at(self, coord: Point) -> CellVisibility {
        if self.size.contains(coord) {
            self.cells@[self.size.index_of(coord)]
        } else {
            CellVisibility::Never
        }
    }

    /// A grid of which nothing has been seen.
    pub fn new(size: Extent) -> (r: VisibilityGrid)
        requires
            size.valid(),
        ensures
            r.wf(),
            r.size() == size,
            forall|coord: Point| r.at(coord) == CellVisibility::Never,
    {
        let count = size.count();
        let mut cells: Vec<CellVisibility> = Vec::new();
        let mut k: usize = 0;
        while k < count
            invariant
                k <= count,
                cells@.len() == k,
                forall|j: int| 0 <= j < k ==> cells@[j] == CellVisibility::Never,
            decreases count - k,
        {
            cells.push(CellVisibility::Never);
            k = k + 1;
        }
        let grid = VisibilityGrid { size, cells };
        proof {
            assert forall|coord: Point| grid.at(coord) == CellVisibility::Never by {
                if size.contains(coord) {
                    lemma_index_in_range(size, coord);
                }
            }
        }
        grid
    }

    /// What is known of a cell.
    pub fn cell_visibility(&self, coord: Point) -> (r: CellVisibility)
        requires
            self.wf(),
        ensures
            r == self.at(coord),
    {
        match self.size.index(coord) {
            Some(index) => self.cells[index],
            None => CellVisibility::Never,
        }
    }

    /// Turns every cell that is in sight into a remembered one.
    fn dim(&mut self)
        requires
            old(self).wf(),
        ensures
            final(self).wf(),
            final(self).size() == old(self).size(),
            forall|coord: Point| final(self).at(coord) == old(self).at(coord).refreshed(false),
    {
        let count = self.cells.len();
        let mut k: usize = 0;
        while k < count
            invariant
                k <= count,
                self.size == old(self).size,
                self.cells@.len() == count,
                old(self).cells@.len() == count,
                forall|j: int| 0 <= j < k ==> self.cells@[j] == old(self).cells@[j].refreshed(false),
                forall|j: int| k <= j < count ==> self.cells@[j] == old(self).cells@[j],
            decreases count - k,
        {
            if self.cells[k] == CellVisibility::Currently {
                self.cells.set(k, CellVisibility::Previously);
            }
            k = k + 1;
        }
        proof {
            assert forall|coord: Point| self.at(coord) == old(self).at(coord).refreshed(false) by {
                if self.size.contains(coord) {
                    lemma_index_in_range(self.size, coord);
                }
            }
        }
    }

    /// Puts every cell in sight.
    fn light_all(&mut self)
        requires
            old(self).wf(),
        ensures
            final(self).wf(),
            final(self).size() == old(self).size(),
            forall|coord: Point|
                final(self).at(coord) == (if final(self).size().contains(coord) {
                    CellVisibility::Currently
                } else {
                    CellVisibility::Never
                }),
    {
        let count = self.cells.len();
        let mut k: usize = 0;
        while k < count
            invariant
                k <= count,
                self.size == old(self).size,
                self.cells@.len() == count,
                forall|j: int| 0 <= j < k ==> self.cells@[j] == CellVisibility::Currently,
            decreases count - k,
        {
            self.cells.set(k, CellVisibility::Currently);
            k = k + 1;
        }
        proof {
            assert forall|coord: Point|
                self.at(coord) == (if self.size.contains(coord) {
                    CellVisibility::Currently
                } else {
                    CellVisibility::Never
                }) by {
                if self.size.contains(coord) {
                    lemma_index_in_range(self.size, coord);
                }
            }
        }
    }

    /// Puts in sight each of the reported cells that lies in the grid and
    /// within the sight radius of the eye, and leaves every other cell as it
    /// is.
    pub fn light(&mut self, eye: Point, reported: &Vec<Point>)
        requires
            old(self).wf(),
        ensures
            final(self).wf(),
            final(self).size() == old(self).size(),
            forall|coord: Point|
                final(self).at(coord) == (if final(self).size().contains(coord) && reported@.contains(
                    coord,
                ) && coord.distance_squared(eye) <= VISION_DISTANCE_SQUARED {
                    CellVisibility::Currently
                } else {
                    old(self).at(coord)
                }),
    {
        let size = self.size;
        let mut k: usize = 0;
        while k < reported.len()
            invariant
                k <= reported@.len(),
                self.size == size,
                size == old(self).size,
                size.valid(),
                self.cells@.len() == size.cells(),
                old(self).cells@.len() == size.cells(),
                forall|j: int|
                    0 <= j < size.cells() ==> self.cells@[j] == (if exists|i: int|
                        0 <= i < k && size.contains(#[trigger] reported@[i]) && size.index_of(
                            reported@[i],
                        ) == j && reported@[i].distance_squared(eye) <= VISION_DISTANCE_SQUARED {
                        CellVisibility::Currently
                    } else {
                        old(self).cells@[j]
                    }),
            decreases reported@.len() - k,
        {
            let coord = reported[k];
            if let Some(index) = size.index(coord) {
                if within_sight(eye, coord) {
                    self.cells.set(index, CellVisibility::Currently);
                }
            }
            k = k + 1;
        }
        proof {
            assert forall|coord: Point|
                self.at(coord) == (if self.size.contains(coord) && reported@.contains(coord)
                    && coord.distance_squared(eye) <= VISION_DISTANCE_SQUARED {
                    CellVisibility::Currently
                } else {
                    old(self).at(coord)
                }) by {
                if size.contains(coord) {
                    lemma_index_in_range(size, coord);
                    let j = size.index_of(coord);
                    if reported@.contains(coord) && coord.distance_squared(eye)
                        <= VISION_DISTANCE_SQUARED {
                        let i = choose|i: int| 0 <= i < reported@.len() && reported@[i] == coord;
                        assert(size.contains(reported@[i]) && size.index_of(reported@[i]) == j);
                    } else {
                        if exists|i: int|
                            0 <= i < k && size.contains(#[trigger] reported@[i]) && size.index_of(
                                reported@[i],
                            ) == j && reported@[i].distance_squared(eye) <= VISION_DISTANCE_SQUARED {
                            let i = choose|i: int|
                                0 <= i < k && size.contains(#[trigger] reported@[i])
                                    && size.index_of(reported@[i]) == j
                                    && reported@[i].distance_squared(eye)
                                    <= VISION_DISTANCE_SQUARED;
                            lemma_index_in_range(size, reported@[i]);
                            assert(reported@[i] == coord);
                            assert(reported@.contains(coord));
                        }
                    }
                }
            }
        }
    }

    /// Brings the grid up to date with the cells that a scan from `eye` has
    /// reported. A reported cell that lies in the grid and within the sight
    /// radius is in sight. A cell that was in sight and is not among them is
    /// remembered. Every other cell stays as it was.
    pub fn refresh(&mut self, eye: Point, reported: &Vec<Point>)
        requires
            old(self).wf(),
        ensures
            final(self).wf(),
            final(self).size() == old(self).size(),
            forall|coord: Point|
                final(self).at(coord) == old(self).at(coord).refreshed(
                    old(self).size().contains(coord) && reported@.contains(coord)
                        && coord.distance_squared(eye) <= VISION_DISTANCE_SQUARED,
                ),
    {
        self.dim();
        self.light(eye, reported);
    }

    /// Brings the grid up to date with what the player sees from `eye`.
    /// Under `Omniscient` every cell of the grid is seen. Under `Shadowcast`
    /// a cell is seen if the shadowcast over the world's features reports it
    /// and it lies in the grid and within the sight radius; from an eye
    /// outside the world nothing is seen. A cell that is seen is in sight, a
    /// cell that was in sight and is no longer seen is remembered, and every
    /// other cell stays as it was: no cell is ever forgotten.
    pub fn update(
        &mut self,
        eye: Point,
        world: &World,
        shadowcast_context: &mut shadowcast::Context<u8>,
        algorithm: VisibilityAlgorithm,
    )
        requires
            old(self).wf(),
            algorithm == VisibilityAlgorithm::Shadowcast ==> world@.size().width
                <= MAX_SIGHT_DIMENSION && world@.size().height <= MAX_SIGHT_DIMENSION,
        ensures
            final(self).wf(),
            final(self).size() == old(self).size(),
            forall|coord: Point|
                final(self).at(coord) == old(self).at(coord).refreshed(
                    old(self).size().contains(coord) && is_seen(world@, eye, algorithm, coord),
                ),
            forall|coord: Point|
                old(self).at(coord) != CellVisibility::Never ==> final(self).at(coord)
                    != CellVisibility::Never,
            forall|coord: Point|
                algorithm == VisibilityAlgorithm::Shadowcast && final(self).at(coord)
                    == CellVisibility::Currently ==> coord.distance_squared(eye)
                    <= VISION_DISTANCE_SQUARED,
            forall|coord: Point|
                algorithm == VisibilityAlgorithm::Omniscient && final(self).size().contains(coord)
                    ==> final(self).at(coord) == CellVisibility::Currently,
            old(self).size().contains(eye) && world@.size().contains(eye) ==> final(self).at(eye)
                == CellVisibility::Currently,
    {
        match algorithm {
            VisibilityAlgorithm::Omniscient => {
                proof {
                    assert forall|coord: Point| !old(self).size().contains(coord) implies old(self).at(coord) == CellVisibility::Never by {}
                }
                self.light_all();
            },
            VisibilityAlgorithm::Shadowcast => {
                if eye.is_valid(world.size()) {
                    let reported = raw_sight(
                        shadowcast_context,
                        eye,
                        world,
                        VISION_DISTANCE_SQUARED,
                        FULL_VISIBILITY,
                    );
                    self.refresh(eye, &reported);
                } else {
                    self.dim();
                }
            },
        }
    }
}

/// Whether `coord` lies within the sight radius of `eye`.
fn within_sight(eye: Point, coord: Point) -> (r: bool)
    ensures
        r == (coord.distance_squared(eye) <= VISION_DISTANCE_SQUARED),
{
    let dx: i64 = coord.x as i64 - eye.x as i64;
    let dy: i64 = coord.y as i64 - eye.y as i64;
    if dx > 10 || dx < -10 || dy > 10 || dy < -10 {
        assert(dx * dx + dy * dy > 100) by (nonlinear_arith)
            requires
                dx > 10 || dx < -10 || dy > 10 || dy < -10,
        ;
        false
    } else {
        assert(dx * dx <= 100 && dy * dy <= 100 && dx * dx >= 0 && dy * dy >= 0) by (nonlinear_arith)
            requires
                -10 <= dx <= 10,
                -10 <= dy <= 10,
        ;
        dx * dx + dy * dy <= VISION_DISTANCE_SQUARED as i64
    }
}

} // verus!
