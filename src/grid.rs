use vstd::prelude::*;

verus! {

/// Classification of one arena cell.
#[derive(Debug, Clone, Copy, PartialEq, Eq, Structural)]
pub enum TileType {
    Floor,
    Wall,
}

/// The rows of a tile grid as a sequence of sequences.
pub open spec fn rows_of(grid: &Vec<Vec<TileType>>) -> Seq<Seq<TileType>> {
    grid@.map_values(|row: Vec<TileType>| row@)
}

/// A `height` by `width` rectangle of tiles.
pub open spec fn is_rect(g: Seq<Seq<TileType>>, width: int, height: int) -> bool {
    &&& g.len() == height
    &&& forall|y: int| 0 <= y < height ==> (#[trigger] g[y]).len() == width
}

/// (x, y) names a cell of a `width` by `height` grid.
pub open spec fn in_bounds(width: int, height: int, x: int, y: int) -> bool {
    0 <= x < width && 0 <= y < height
}

/// The cell lies on the outer ring of the grid.
pub open spec fn on_border(width: int, height: int, x: int, y: int) -> bool {
    x == 0 || y == 0 || x == width - 1 || y == height - 1
}

/// Every cell of the outer ring is a wall.
pub open spec fn border_sealed(g: Seq<Seq<TileType>>, width: int, height: int) -> bool {
    forall|x: int, y: int|
        in_bounds(width, height, x, y) && on_border(width, height, x, y)
            ==> #[trigger] g[y][x] == TileType::Wall
}

/// Cell `a`, given as (column, row), comes before cell `b` in row-major order.
pub open spec fn cell_before(a: (usize, usize), b: (usize, usize)) -> bool {
    a.1 < b.1 || (a.1 == b.1 && a.0 < b.0)
}

/// The cells are in strict row-major order, so each occurs once.
pub open spec fn row_major(s: Seq<(usize, usize)>) -> bool {
    forall|i: int, j: int| 0 <= i < j < s.len() ==> cell_before(#[trigger] s[i], #[trigger] s[j])
}

/// The arena: `height` rows of `width` tiles, row-major, (0, 0) at the top-left.
pub struct ArenaGrid {
    pub grid: Vec<Vec<TileType>>,
    pub width: usize,
    pub height: usize,
}

impl ArenaGrid {
    /// The rows of the grid as sequences.
    pub open spec fn cells(&self) -> Seq<Seq<TileType>> {
        rows_of(&self.grid)
    }

    /// Positive dimensions and rows of the stated width.
    pub open spec fn wf(&self) -> bool {
        &&& self.width > 0
        &&& self.height > 0
        &&& is_rect(self.cells(), self.width as int, self.height as int)
    }

    /// The tile at column `x`, row `y`.
    pub open spec fn tile(&self, x: int, y: int) -> TileType {
        self.cells()[y][x]
    }

    /// The tile at column `x`, row `y`.
    pub fn get(&self, x: usize, y: usize) -> (r: TileType)
        requires
            self.wf(),
            x < self.width,
            y < self.height,
        ensures
            r == self.tile(x as int, y as int),
    {
        self.grid[y][x]
    }

    /// Whether the tile at column `x`, row `y` is a wall.
    pub fn is_wall(&self, x: usize, y: usize) -> (r: bool)
        requires
            self.wf(),
            x < self.width,
            y < self.height,
        ensures
            r == (self.tile(x as int, y as int) == TileType::Wall),
    {
        self.grid[y][x] == TileType::Wall
    }
}

/// Sets one cell of a rectangular grid.
pub fn set_tile(grid: &mut Vec<Vec<TileType>>, x: usize, y: usize, t: TileType)
    requires
        y < rows_of(old(grid)).len(),
        x < rows_of(old(grid))[y as int].len(),
    ensures
        rows_of(final(grid)) == rows_of(old(grid)).update(
            y as int,
            rows_of(old(grid))[y as int].update(x as int, t),
        ),
{
    grid[y][x] = t;
    proof {
        assert(rows_of(final(grid)) =~= rows_of(old(grid)).update(
            y as int,
            rows_of(old(grid))[y as int].update(x as int, t),
        ));
    }
}

} // verus!
