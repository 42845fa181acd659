//! Grid geometry: coordinates, grid sizes and the four cardinal directions.

use vstd::prelude::*;

verus! {

/// The largest number of cells a grid may have, and the largest width or
/// height. Coordinates are signed 32-bit integers, and every cell index has
/// to be one.
pub const MAX_CELLS: u32 = 0x7fff_ffff;

/// A position, which may lie outside any particular grid.
#[derive(Clone, Copy, Debug, PartialEq, Eq, Structural)]
pub struct Point {
    pub x: i32,
    pub y: i32,
}

/// The extent of a rectangular grid.
#[derive(Clone, Copy, Debug, PartialEq, Eq, Structural)]
pub struct Extent {
    pub width: u32,
    pub height: u32,
}

/// One of the four directions a character can step in.
#[derive(Clone, Copy, Debug, PartialEq, Eq, Structural)]
pub enum CardinalDirection {
    North,
    East,
    South,
    West,
}

impl CardinalDirection {
    /// Horizontal part of the unit step: east is positive.
    pub open spec fn dx(self) -> int {
        match self {
            CardinalDirection::North => 0,
            CardinalDirection::East => 1,
            CardinalDirection::South => 0,
            CardinalDirection::West => -1,
        }
    }

    /// Vertical part of the unit step: south is positive.
    pub open spec fn dy(self) -> int {
        match self {
            CardinalDirection::North => -1,
            CardinalDirection::East => 0,
            CardinalDirection::South => 1,
            CardinalDirection::West => 0,
        }
    }

    /// The unit step in this direction, as a coordinate offset.
    pub fn coord(self) -> (r: Point)
        ensures
            r.x == self.dx(),
            r.y == self.dy(),
    {
        match self {
            CardinalDirection::North => Point { x: 0, y: -1 },
            CardinalDirection::East => Point { x: 1, y: 0 },
            CardinalDirection::South => Point { x: 0, y: 1 },
            CardinalDirection::West => Point { x: -1, y: 0 },
        }
    }

    /// The direction pointing the other way.
    pub fn opposite(self) -> (r: CardinalDirection)
        ensures
            r.dx() == -self.dx(),
            r.dy() == -self.dy(),
    {
        match self {
            CardinalDirection::North => CardinalDirection::South,
            CardinalDirection::East => CardinalDirection::West,
            CardinalDirection::South => CardinalDirection::North,
            CardinalDirection::West => CardinalDirection::East,
        }
    }
}

impl Point {
    pub fn new(x: i32, y: i32) -> (r: Point)
        ensures
            r.x == x,
            r.y == y,
    {
        Point { x, y }
    }

    /// Whether the cell one step away in `direction` is representable.
    pub open spec fn can_step(self, direction: CardinalDirection) -> bool {
        &&& i32::MIN <= self.x + direction.dx() <= i32::MAX
        &&& i32::MIN <= self.y + direction.dy() <= i32::MAX
    }

    /// The cell one step away in `direction`.
    pub open spec fn stepped(self, direction: CardinalDirection) -> Point {
        Point { x: (self.x + direction.dx()) as i32, y: (self.y + direction.dy()) as i32 }
    }

    /// The cell one step away in `direction`, or `None` where that cell's
    /// coordinates do not fit in 32 bits.
    pub fn step(self, direction: CardinalDirection) -> (r: Option<Point>)
        ensures
            r == (if self.can_step(direction) {
                Some(self.stepped(direction))
            } else {
                None
            }),
    {
        let delta = direction.coord();
        match (self.x.checked_add(delta.x), self.y.checked_add(delta.y)) {
            (Some(x), Some(y)) => Some(Point { x, y }),
            _ => None,
        }
    }

    /// Whether this coordinate names a cell of a grid of the given size.
    pub fn is_valid(self, size: Extent) -> (r: bool)
        ensures
            r == size.contains(self),
    {
        self.x >= 0 && self.y >= 0 && (self.x as u32) < size.width && (self.y as u32) < size.height
    }

    /// Squared Euclidean distance to `other`.
    pub open spec fn distance_squared(self, other: Point) -> int {
        (self.x - other.x) * (self.x - other.x) + (self.y - other.y) * (self.y - other.y)
    }
}

impl Extent {
    /// A size whose cells can all be named by a `Point` and counted in 31 bits.
    pub open spec fn valid(self) -> bool {
        &&& self.width <= MAX_CELLS
        &&& self.height <= MAX_CELLS
        &&& self.width * self.height <= MAX_CELLS
    }

    /// Whether `coord` names a cell of a grid of this size.
    pub open spec fn contains(self, coord: Point) -> bool {
        0 <= coord.x < self.width && 0 <= coord.y < self.height
    }

    /// Number of cells.
    pub open spec fn cells(self) -> nat {
        (self.width * self.height) as nat
    }

    /// Row-major index of a cell.
    #[verifier::opaque]
    pub open spec fn index_of(self, coord: Point) -> int {
        coord.y * self.width + coord.x
    }

    /// The cell at a row-major index.
    #[verifier::opaque]
    pub open spec fn coord_of(self, index: int) -> Point {
        Point { x: (index % self.width as int) as i32, y: (index / self.width as int) as i32 }
    }

    /// Builds a size, or `None` where it has more cells than can be indexed.
    pub fn new(width: u32, height: u32) -> (r: Option<Extent>)
        ensures
            r == (if (Extent { width, height }).valid() {
                Some(Extent { width, height })
            } else {
                None
            }),
    {
        if width > MAX_CELLS || height > MAX_CELLS {
            return None;
        }
        assert(width * height <= 0x7fff_ffff * 0x7fff_ffff) by (nonlinear_arith)
            requires
                width <= 0x7fff_ffff,
                height <= 0x7fff_ffff,
        ;
        let product: u64 = (width as u64) * (height as u64);
        if product > MAX_CELLS as u64 {
            None
        } else {
            Some(Extent { width, height })
        }
    }

    pub fn width(self) -> (r: u32)
        ensures
            r == self.width,
    {
        self.width
    }

    pub fn height(self) -> (r: u32)
        ensures
            r == self.height,
    {
        self.height
    }

    /// Number of cells in a grid of this size.
    pub fn count(self) -> (r: usize)
        requires
            self.valid(),
        ensures
            r == self.cells(),
    {
        (self.width * self.height) as usize
    }

    /// Row-major index of `coord`, or `None` where it lies outside the grid.
    pub fn index(self, coord: Point) -> (r: Option<usize>)
        requires
            self.valid(),
        ensures
            r == (if self.contains(coord) {
                Some(self.index_of(coord) as usize)
            } else {
                None
            }),
            self.contains(coord) ==> 0 <= self.index_of(coord) < self.cells(),
    {
        if coord.is_valid(self) {
            proof {
                lemma_index_in_range(self, coord);
                reveal(Extent::index_of);
            }
            let row: u32 = coord.y as u32;
            let column: u32 = coord.x as u32;
            Some((row * self.width + column) as usize)
        } else {
            None
        }
    }

    /// The cell at row-major index `index`.
    pub fn coord_at(self, index: usize) -> (r: Point)
        requires
            self.valid(),
            index < self.cells(),
        ensures
            r == self.coord_of(index as int),
            self.contains(r),
            self.index_of(r) == index,
    {
        proof {
            lemma_coord_of_index(self, index as int);
            reveal(Extent::coord_of);
        }
        let small: u32 = index as u32;
        Point { x: (small % self.width) as i32, y: (small / self.width) as i32 }
    }
}

/// The row-major index of a cell inside the grid is below the cell count.
pub proof fn lemma_index_in_range(size: Extent, coord: Point)
    requires
        size.contains(coord),
    ensures
        0 <= size.index_of(coord) < size.cells(),
        size.coord_of(size.index_of(coord)) == coord,
{
    reveal(Extent::index_of);
    reveal(Extent::coord_of);
    let w = size.width as int;
    let h = size.height as int;
    let x = coord.x as int;
    let y = coord.y as int;
    assert(y * w + x < h * w) by (nonlinear_arith)
        requires
            0 <= x < w,
            0 <= y < h,
    ;
    assert(0 <= y * w) by (nonlinear_arith)
        requires
            0 <= y,
            0 <= w,
    ;
    assert(h * w == w * h) by (nonlinear_arith);
    assert((y * w + x) / w == y && (y * w + x) % w == x) by (nonlinear_arith)
        requires
            0 <= x < w,
            0 <= y,
    ;
}

/// Every index below the cell count belongs to exactly one cell of the grid.
pub proof fn lemma_coord_of_index(size: Extent, index: int)
    requires
        size.valid(),
        0 <= index < size.cells(),
    ensures
        size.contains(size.coord_of(index)),
        size.index_of(size.coord_of(index)) == index,
{
    reveal(Extent::index_of);
    reveal(Extent::coord_of);
    let w = size.width as int;
    let h = size.height as int;
    assert(w > 0) by (nonlinear_arith)
        requires
            0 <= index < w * h,
            0 <= w,
    ;
    assert(0 <= index % w < w && 0 <= index / w && index == (index / w) * w + index % w) by (nonlinear_arith)
        requires
            0 <= index,
            w > 0,
    ;
    assert(index / w < h) by (nonlinear_arith)
        requires
            0 <= index < w * h,
            w > 0,
            index == (index / w) * w + index % w,
            0 <= index % w,
    ;
}

} // verus!
