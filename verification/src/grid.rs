use vstd::prelude::*;
use vstd::arithmetic::power2::is_pow2;
use crate::SIZE;

verus! {

/// The largest value a cell may hold for the sum of any two cells to fit in
/// an `i32`.
pub const MAX_CELL: i32 = 0x3FFF_FFFF;

/// The playing field: `SIZE` rows of `SIZE` cells, and whether the game has
/// ended. A cell that holds 0 is empty.
#[derive(Debug)]
pub struct Field {
    pub numbers: [[i32; SIZE]; SIZE],
    pub game_over: bool,
}

/// Whether row `y`, column `x` lies on the grid.
pub open spec fn in_grid(y: int, x: int) -> bool {
    0 <= y < SIZE && 0 <= x < SIZE
}

/// Whether `v` is the value of a tile: a power of two, and at least 2.
pub open spec fn is_tile(v: int) -> bool {
    v >= 2 && is_pow2(v)
}

/// A grid of which every cell is empty or holds a tile.
pub open spec fn tiled(g: Seq<Seq<int>>) -> bool {
    forall|y: int, x: int|
        in_grid(y, x) ==> {
            let v = #[trigger] g[y][x];
            v == 0 || is_tile(v)
        }
}

/// The sum of all the cells of a grid.
pub open spec fn total(g: Seq<Seq<int>>) -> int {
    crate::line::sum(Seq::new((SIZE * SIZE) as nat, |n: int| g[n / SIZE as int][n % SIZE as int]))
}

/// Whether two distinct cells touch, by a side or by a corner.
pub open spec fn adjacent(y1: int, x1: int, y2: int, x2: int) -> bool {
    &&& (y1 != y2 || x1 != x2)
    &&& -1 <= y1 - y2 <= 1
    &&& -1 <= x1 - x2 <= 1
}

/// A grid without an empty cell.
pub open spec fn full(g: Seq<Seq<int>>) -> bool {
    forall|y: int, x: int| in_grid(y, x) ==> #[trigger] g[y][x] != 0
}

/// A grid on which some pair of touching cells holds the same value.
pub open spec fn has_equal_pair(g: Seq<Seq<int>>) -> bool {
    exists|y1: int, x1: int, y2: int, x2: int|
        in_grid(y1, x1) && in_grid(y2, x2) && adjacent(y1, x1, y2, x2)
            && #[trigger] g[y1][x1] == #[trigger] g[y2][x2]
}

/// A grid on which no move is left: it is full, and no two touching cells
/// hold the same value.
pub open spec fn stuck(g: Seq<Seq<int>>) -> bool {
    full(g) && !has_equal_pair(g)
}

impl Default for Field {
    /// An empty field of a game that has not ended.
    fn default() -> (field: Field)
        ensures
            forall|y: int, x: int| in_grid(y, x) ==> #[trigger] field.grid()[y][x] == 0,
            !field.game_over,
    {
        Field::new()
    }
}

impl Field {
    /// The cells as a mathematical grid: `grid()[y][x]` is row `y`, column `x`.
    pub open spec fn grid(&self) -> Seq<Seq<int>> {
        Seq::new(SIZE as nat, |y: int| Seq::new(SIZE as nat, |x: int| self.numbers[y][x] as int))
    }

    /// Every cell is at least 0 and at most `MAX_CELL`.
    pub open spec fn in_range(&self) -> bool {
        forall|y: int, x: int| in_grid(y, x) ==> 0 <= #[trigger] self.grid()[y][x] <= MAX_CELL
    }

    /// Every cell is empty or holds a tile.
    pub open spec fn all_tiles(&self) -> bool {
        tiled(self.grid())
    }

    /// The game is over exactly when no move is left.
    pub open spec fn consistent(&self) -> bool {
        self.game_over == stuck(self.grid())
    }

    /// An empty field of a game that has not ended.
    pub fn new() -> (field: Field)
        ensures
            forall|y: int, x: int| in_grid(y, x) ==> #[trigger] field.grid()[y][x] == 0,
            !field.game_over,
            field.in_range(),
            field.all_tiles(),
            field.consistent(),
    {
        let field = Field { numbers: [[0i32; SIZE]; SIZE], game_over: false };
        assert(in_grid(0, 0) && field.grid()[0][0] == 0);
        field
    }

    /// Whether every cell is at least 0 and at most `MAX_CELL`.
    pub fn cells_in_range(&self) -> (ok: bool)
        ensures
            ok == self.in_range(),
    {
        let ghost g = self.grid();
        for i in 0..SIZE
            invariant
                g == self.grid(),
                forall|y: int, x: int| 0 <= y < i && 0 <= x < SIZE ==> 0 <= #[trigger] g[y][x]
                    <= MAX_CELL,
        {
            for j in 0..SIZE
                invariant
                    g == self.grid(),
                    0 <= i < SIZE,
                    forall|y: int, x: int|
                        (0 <= y < i && 0 <= x < SIZE) || (y == i && 0 <= x < j) ==> 0
                            <= #[trigger] g[y][x] <= MAX_CELL,
            {
                let v: i32 = self.numbers[i][j];
                assert(v == g[i as int][j as int]);
                if v < 0 || v > MAX_CELL {
                    assert(in_grid(i as int, j as int));
                    return false;
                }
            }
        }
        true
    }

    /// The value in a cell.
    pub fn get(&self, cell: (usize, usize)) -> (v: i32)
        requires
            in_grid(cell.0 as int, cell.1 as int),
        ensures
            v == self.grid()[cell.0 as int][cell.1 as int],
    {
        self.numbers[cell.0][cell.1]
    }

    /// Puts `v` in a cell and leaves the rest as it is.
    pub fn set(&mut self, cell: (usize, usize), v: i32)
        requires
            in_grid(cell.0 as int, cell.1 as int),
        ensures
            final(self).grid() == old(self).grid().update(
                cell.0 as int,
                old(self).grid()[cell.0 as int].update(cell.1 as int, v as int),
            ),
            final(self).game_over == old(self).game_over,
    {
        self.numbers[cell.0][cell.1] = v;
        assert(self.grid() =~~= old(self).grid().update(
            cell.0 as int,
            old(self).grid()[cell.0 as int].update(cell.1 as int, v as int),
        ));
    }

    /// Whether no move is left on the field.
    pub fn fail(&self) -> (over: bool)
        ensures
            over == stuck(self.grid()),
    {
        let ghost g = self.grid();
        for i in 0..SIZE
            invariant
                g == self.grid(),
                forall|y: int, x: int| 0 <= y < i && 0 <= x < SIZE ==> #[trigger] g[y][x] != 0,
                forall|y1: int, x1: int, y2: int, x2: int|
                    0 <= y1 < i && 0 <= x1 < SIZE && in_grid(y2, x2) && adjacent(y1, x1, y2, x2)
                        ==> #[trigger] g[y1][x1] != #[trigger] g[y2][x2],
        {
            for j in 0..SIZE
                invariant
                    g == self.grid(),
                    0 <= i < SIZE,
                    forall|y: int, x: int|
                        (0 <= y < i && 0 <= x < SIZE) || (y == i && 0 <= x < j)
                            ==> #[trigger] g[y][x] != 0,
                    forall|y1: int, x1: int, y2: int, x2: int|
                        ((0 <= y1 < i && 0 <= x1 < SIZE) || (y1 == i && 0 <= x1 < j))
                            && in_grid(y2, x2) && adjacent(y1, x1, y2, x2)
                            ==> #[trigger] g[y1][x1] != #[trigger] g[y2][x2],
            {
                let here: i32 = self.numbers[i][j];
                assert(here == g[i as int][j as int]);
                if here == 0 {
                    assert(!full(g));
                    return false;
                }
                let i_lo: usize = if i >= 1 { i - 1 } else { 0 };
                let i_hi: usize = if i + 2 <= SIZE { i + 2 } else { SIZE };
                let j_lo: usize = if j >= 1 { j - 1 } else { 0 };
                let j_hi: usize = if j + 2 <= SIZE { j + 2 } else { SIZE };
                for i2 in i_lo..i_hi
                    invariant
                        g == self.grid(),
                        0 <= i < SIZE,
                        0 <= j < SIZE,
                        here == g[i as int][j as int],
                        i_lo == if i >= 1 { i - 1 } else { 0 },
                        i_hi == if i + 2 <= SIZE { i + 2 } else { SIZE as int },
                        j_lo == if j >= 1 { j - 1 } else { 0 },
                        j_hi == if j + 2 <= SIZE { j + 2 } else { SIZE as int },
                        forall|y2: int, x2: int|
                            i_lo <= y2 < i2 && in_grid(y2, x2) && adjacent(i as int, j as int, y2, x2)
                                ==> g[i as int][j as int] != #[trigger] g[y2][x2],
                {
                    for j2 in j_lo..j_hi
                        invariant
                            g == self.grid(),
                            0 <= i < SIZE,
                            0 <= j < SIZE,
                            0 <= i2 < SIZE,
                            i_lo <= i2 < i_hi,
                            here == g[i as int][j as int],
                            i_lo == if i >= 1 { i - 1 } else { 0 },
                            i_hi == if i + 2 <= SIZE { i + 2 } else { SIZE as int },
                            j_lo == if j >= 1 { j - 1 } else { 0 },
                            j_hi == if j + 2 <= SIZE { j + 2 } else { SIZE as int },
                            forall|y2: int, x2: int|
                                (i_lo <= y2 < i2 || (y2 == i2 && j_lo <= x2 < j2)) && in_grid(y2, x2)
                                    && adjacent(i as int, j as int, y2, x2)
                                    ==> g[i as int][j as int] != #[trigger] g[y2][x2],
                    {
                        if (i != i2 || j != j2) && here == self.numbers[i2][j2] {
                            assert(g[i as int][j as int] == g[i2 as int][j2 as int]);
                            assert(adjacent(i as int, j as int, i2 as int, j2 as int));
                            assert(has_equal_pair(g));
                            return false;
                        }
                    }
                }
            }
        }
        assert(full(g));
        assert(!has_equal_pair(g));
        true
    }
}

} // verus!
