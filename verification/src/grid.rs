//! The grid map: a fixed rectangle of cells with a cell side length, a
//! lookup that takes any column and row and reports a wall everywhere
//! outside the rectangle, and the collision probe built on it.

use vstd::prelude::*;
use crate::fixed::floor_div;

verus! {

/// What a grid cell holds.
#[derive(Clone, Copy, PartialEq, Eq, Debug, Structural)]
pub enum Cell {
    Empty,
    Wall,
}

/// Why a grid description was turned down.
#[derive(Clone, Copy, PartialEq, Eq, Debug, Structural)]
pub enum MapError {
    /// The width or the height is zero.
    EmptyGrid,
    /// The width or the height is above [`MAX_DIM`].
    TooLarge,
    /// The cell side length is below one or above [`MAX_CELL_LEN`].
    BadCellLength,
    /// The number of cell codes is not width times height.
    LengthMismatch,
    /// Some cell code is neither 0 nor 1.
    UnknownCode,
}

/// The largest width and the largest height of a grid, in cells.
pub const MAX_DIM: usize = 32768;

/// The largest side length of a cell, in world units.
pub const MAX_CELL_LEN: i32 = 32768;

/// The cell that a cell code stands for: 0 is empty, anything else is read
/// as a wall. Only the codes 0 and 1 are accepted in a map.
pub open spec fn decode(code: u8) -> Cell {
    if code == 0 {
        Cell::Empty
    } else {
        Cell::Wall
    }
}

/// The mathematical grid: its size in cells, the side length of a cell in
/// world units, and the cells row by row.
pub struct GridView {
    pub width: int,
    pub height: int,
    pub cell_len: int,
    pub cells: Seq<Cell>,
}

impl GridView {
    /// The grid has at least one cell, stays within the size limits and holds
    /// exactly one entry per cell.
    pub open spec fn wf(self) -> bool {
        &&& 1 <= self.width <= MAX_DIM
        &&& 1 <= self.height <= MAX_DIM
        &&& 1 <= self.cell_len <= MAX_CELL_LEN
        &&& self.cells.len() == self.width * self.height
    }

    /// Whether column `col`, row `row` lies inside the grid.
    pub open spec fn in_bounds(self, col: int, row: int) -> bool {
        0 <= col < self.width && 0 <= row < self.height
    }

    /// The cell at column `col`, row `row`. Everything outside the grid is a
    /// wall, so the grid is enclosed whatever its contents.
    pub open spec fn cell_at(self, col: int, row: int) -> Cell {
        if self.in_bounds(col, row) {
            self.cells[row * self.width + col]
        } else {
            Cell::Wall
        }
    }

    /// Whether the cell at column `col`, row `row` is a wall.
    pub open spec fn is_wall(self, col: int, row: int) -> bool {
        self.cell_at(col, row) == Cell::Wall
    }

    /// The index, along one axis, of the cell that holds world coordinate
    /// `v`: the floor of `v` divided by the cell side length.
    pub open spec fn cell_of(self, v: int) -> int {
        v / self.cell_len
    }

    /// Whether the world position `(x, y)` lies in a wall.
    pub open spec fn blocked(self, x: int, y: int) -> bool {
        self.is_wall(self.cell_of(x), self.cell_of(y))
    }
}

/// The first reason, if any, for which a grid description is turned down.
pub open spec fn map_error(width: int, height: int, cell_len: int, codes: Seq<u8>) -> Option<
    MapError,
> {
    if width == 0 || height == 0 {
        Some(MapError::EmptyGrid)
    } else if width > MAX_DIM || height > MAX_DIM {
        Some(MapError::TooLarge)
    } else if cell_len < 1 || cell_len > MAX_CELL_LEN {
        Some(MapError::BadCellLength)
    } else if codes.len() != width * height {
        Some(MapError::LengthMismatch)
    } else if exists|i: int| 0 <= i < codes.len() && codes[i] > 1 {
        Some(MapError::UnknownCode)
    } else {
        None
    }
}

/// The grid that an accepted description stands for.
pub open spec fn grid_of(width: int, height: int, cell_len: int, codes: Seq<u8>) -> GridView {
    GridView { width, height, cell_len, cells: Seq::new(codes.len(), |i: int| decode(codes[i])) }
}

/// The product of two grid dimensions stays within 2^30.
pub proof fn lemma_area_bound(width: int, height: int)
    requires
        0 <= width <= MAX_DIM,
        0 <= height <= MAX_DIM,
    ensures
        0 <= width * height <= 0x4000_0000,
{
    assert(0 <= width * height <= 0x4000_0000) by (nonlinear_arith)
        requires
            0 <= width <= 32768,
            0 <= height <= 32768,
    ;
}

/// A row-major index built from an in-bounds column and row lies inside the
/// cell sequence.
pub proof fn lemma_index_in_range(width: int, height: int, col: int, row: int)
    requires
        0 <= col < width,
        0 <= row < height,
    ensures
        0 <= row * width + col < width * height,
{
    assert(0 <= row * width + col < width * height) by (nonlinear_arith)
        requires
            0 <= col < width,
            0 <= row < height,
    ;
}

/// An immutable grid map. It is built once from a flat row-major list of
/// cell codes and never changes afterwards.
pub struct GridMap {
    width: usize,
    height: usize,
    cell_len: i32,
    cells: Vec<Cell>,
}

impl View for GridMap {
    type V = GridView;

    closed spec fn view(&self) -> GridView {
        GridView {
            width: self.width as int,
            height: self.height as int,
            cell_len: self.cell_len as int,
            cells: self.cells@,
        }
    }
}

impl Cell {
    /// Reads a cell code: 0 is an empty cell, 1 is a wall, and no other code
    /// is known.
    pub fn from_code(code: u8) -> (r: Option<Cell>)
        ensures
            code <= 1 ==> r == Some(decode(code)),
            code > 1 ==> r.is_none(),
    {
        if code == 0 {
            Some(Cell::Empty)
        } else if code == 1 {
            Some(Cell::Wall)
        } else {
            None
        }
    }
}

impl GridMap {
    /// Every grid map is well formed.
    #[verifier::type_invariant]
    pub open spec fn well_formed(&self) -> bool {
        self@.wf()
    }

    /// Builds a grid of `width` by `height` cells of side `cell_len` from
    /// `codes`, which lists the cells row by row, 0 for empty and 1 for a
    /// wall. The description is accepted exactly when `map_error` finds no
    /// fault in it, and is otherwise turned down with the first fault.
    pub fn new(width: usize, height: usize, cell_len: i32, codes: &Vec<u8>) -> (r: Result<
        GridMap,
        MapError,
    >)
        ensures
            match r {
                Ok(map) => map_error(width as int, height as int, cell_len as int, codes@).is_none()
                    && map@ == grid_of(width as int, height as int, cell_len as int, codes@)
                    && map@.wf(),
                Err(e) => map_error(width as int, height as int, cell_len as int, codes@) == Some(
                    e,
                ),
            },
    {
        if width == 0 || height == 0 {
            return Err(MapError::EmptyGrid);
        }
        if width > MAX_DIM || height > MAX_DIM {
            return Err(MapError::TooLarge);
        }
        if cell_len < 1 || cell_len > MAX_CELL_LEN {
            return Err(MapError::BadCellLength);
        }
        proof {
            lemma_area_bound(width as int, height as int);
        }
        if codes.len() != width * height {
            return Err(MapError::LengthMismatch);
        }
        let mut cells: Vec<Cell> = Vec::new();
        let mut i: usize = 0;
        while i < codes.len()
            invariant
                i <= codes.len(),
                cells.len() == i,
                1 <= width <= MAX_DIM,
                1 <= height <= MAX_DIM,
                1 <= cell_len <= MAX_CELL_LEN,
                codes.len() == width * height,
                forall|j: int| 0 <= j < i ==> #[trigger] codes@[j] <= 1,
                forall|j: int| 0 <= j < i ==> #[trigger] cells@[j] == decode(codes@[j]),
            decreases codes.len() - i,
        {
            match Cell::from_code(codes[i]) {
                Some(cell) => {
                    cells.push(cell);
                },
                None => {
                    assert(0 <= i < codes@.len() && codes@[i as int] > 1);
                    return Err(MapError::UnknownCode);
                },
            }
            i = i + 1;
        }
        let map = GridMap { width, height, cell_len, cells };
        proof {
            let grid = grid_of(width as int, height as int, cell_len as int, codes@);
            assert(map@.cells =~= grid.cells);
            assert(map@ == grid);
        }
        Ok(map)
    }

    /// The width of the grid in cells.
    pub fn width(&self) -> (r: usize)
        ensures
            r == self@.width,
            self@.wf(),
    {
        proof {
            use_type_invariant(self);
        }
        self.width
    }

    /// The height of the grid in cells.
    pub fn height(&self) -> (r: usize)
        ensures
            r == self@.height,
            self@.wf(),
    {
        proof {
            use_type_invariant(self);
        }
        self.height
    }

    /// The side length of a cell in world units.
    pub fn cell_len(&self) -> (r: i32)
        ensures
            r == self@.cell_len,
            self@.wf(),
    {
        proof {
            use_type_invariant(self);
        }
        self.cell_len
    }

    /// The cell at column `col`, row `row`. Any column and row may be asked
    /// for: outside the grid the answer is a wall.
    pub fn cell_at(&self, col: i64, row: i64) -> (r: Cell)
        ensures
            r == self@.cell_at(col as int, row as int),
            !self@.in_bounds(col as int, row as int) ==> r == Cell::Wall,
    {
        proof {
            use_type_invariant(self);
        }
        if col < 0 || row < 0 || col >= self.width as i64 || row >= self.height as i64 {
            return Cell::Wall;
        }
        proof {
            lemma_index_in_range(self.width as int, self.height as int, col as int, row as int);
            lemma_area_bound(self.width as int, self.height as int);
        }
        let index: usize = row as usize * self.width + col as usize;
        self.cells[index]
    }

    /// The collision probe: whether the world position `(x, y)` lies in a
    /// wall. The position is turned into a cell by floor division with the
    /// cell side length, and the cell is looked up.
    pub fn is_wall_at(&self, x: i32, y: i32) -> (r: bool)
        ensures
            r == self@.blocked(x as int, y as int),
            r == (self@.cell_at(x as int / self@.cell_len, y as int / self@.cell_len)
                == Cell::Wall),
    {
        proof {
            use_type_invariant(self);
        }
        let col: i64 = floor_div(x as i64, self.cell_len as i64);
        let row: i64 = floor_div(y as i64, self.cell_len as i64);
        match self.cell_at(col, row) {
            Cell::Wall => true,
            Cell::Empty => false,
        }
    }
}

} // verus!
