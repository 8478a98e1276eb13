use vstd::prelude::*;
use crate::SIZE;
use crate::cells::{cells_new, cells_of, lines_new, lines_of, lines_push, CellList, LineList};
use crate::grid::in_grid;
use crate::push::is_line;

verus! {

/// A push direction: one step along each axis or none, and not none along
/// both.
pub open spec fn is_direction(dx: int, dy: int) -> bool {
    -1 <= dx <= 1 && -1 <= dy <= 1 && (dx != 0 || dy != 0)
}

/// How far `k` steps along `d` lead.
pub open spec fn step(d: int, k: int) -> int {
    if d > 0 {
        k
    } else if d < 0 {
        -k
    } else {
        0
    }
}

/// How many steps along `d` stay on the grid, from coordinate `c`. Along an
/// axis on which the direction does not move, any number does.
pub open spec fn room(d: int, c: int) -> int {
    if d > 0 {
        SIZE - 1 - c
    } else if d < 0 {
        c
    } else {
        SIZE as int
    }
}

/// How many steps in the direction lead from a cell to the grid's edge.
#[verifier::opaque]
pub open spec fn depth(dx: int, dy: int, y: int, x: int) -> int {
    if room(dx, x) <= room(dy, y) {
        room(dx, x)
    } else {
        room(dy, y)
    }
}

/// A cell from which one step in the direction leaves the grid.
pub open spec fn is_edge(dx: int, dy: int, y: int, x: int) -> bool {
    in_grid(y, x) && !in_grid(y + dy, x + dx)
}

/// The edge cell that a cell is pushed toward.
#[verifier::opaque]
pub open spec fn edge_of(dx: int, dy: int, y: int, x: int) -> (int, int) {
    let k = depth(dx, dy, y, x);
    (y + step(dy, k), x + step(dx, k))
}

/// The line that ends in the cell in row `y`, column `x`: that cell first,
/// then the cells behind it, against the direction, as far as the grid goes.
#[verifier::opaque]
pub open spec fn line_cells(dx: int, dy: int, y: int, x: int) -> Seq<(usize, usize)> {
    Seq::new(
        (depth(-dx, -dy, y, x) + 1) as nat,
        |k: int| ((y - step(dy, k)) as usize, (x - step(dx, k)) as usize),
    )
}

/// The lines that end in one of the first `n` cells of the grid, counted row
/// by row, in that order.
pub open spec fn lines_upto(dx: int, dy: int, n: nat) -> Seq<Seq<(usize, usize)>>
    decreases n,
{
    if n == 0 {
        Seq::empty()
    } else {
        let before = lines_upto(dx, dy, (n - 1) as nat);
        let y = (n - 1) / SIZE as int;
        let x = (n - 1) % SIZE as int;
        if is_edge(dx, dy, y, x) {
            before.push(line_cells(dx, dy, y, x))
        } else {
            before
        }
    }
}

/// The lines of a direction: one for each edge cell, the edge cells taken
/// row by row.
pub open spec fn all_lines(dx: int, dy: int) -> Seq<Seq<(usize, usize)>> {
    lines_upto(dx, dy, (SIZE * SIZE) as nat)
}

/// The edge cells among the first `n` cells of the grid, counted row by row,
/// in that order: the cells in which the lines of `lines_upto` end.
spec fn edges_upto(dx: int, dy: int, n: nat) -> Seq<(int, int)>
    decreases n,
{
    if n == 0 {
        Seq::empty()
    } else {
        let before = edges_upto(dx, dy, (n - 1) as nat);
        let y = (n - 1) / SIZE as int;
        let x = (n - 1) % SIZE as int;
        if is_edge(dx, dy, y, x) {
            before.push((y, x))
        } else {
            before
        }
    }
}

/// The place, among the lines of a direction, of the line on which a cell
/// lies: the number of lines that end before its edge cell.
#[verifier::opaque]
pub open spec fn line_no(dx: int, dy: int, y: int, x: int) -> int {
    let e = edge_of(dx, dy, y, x);
    lines_upto(dx, dy, (e.0 * SIZE + e.1) as nat).len() as int
}

/// Each line among the first ends in the edge cell at the same place, and
/// as many lines end before that cell as the line's place says.
proof fn lemma_edges(dx: int, dy: int, n: nat)
    requires
        n <= SIZE * SIZE,
    ensures
        edges_upto(dx, dy, n).len() == lines_upto(dx, dy, n).len(),
        forall|m: int|
            0 <= m < edges_upto(dx, dy, n).len() ==> {
                let e = #[trigger] edges_upto(dx, dy, n)[m];
                &&& is_edge(dx, dy, e.0, e.1)
                &&& e.0 * SIZE + e.1 < n
                &&& lines_upto(dx, dy, n)[m] == line_cells(dx, dy, e.0, e.1)
                &&& lines_upto(dx, dy, (e.0 * SIZE + e.1) as nat).len() == m
            },
    decreases n,
{
    if n > 0 {
        lemma_edges(dx, dy, (n - 1) as nat);
        let y = (n - 1) / SIZE as int;
        let x = (n - 1) % SIZE as int;
        assert(y * SIZE + x == n - 1);
        assert forall|m: int| 0 <= m < edges_upto(dx, dy, n).len() implies {
            let e = #[trigger] edges_upto(dx, dy, n)[m];
            &&& is_edge(dx, dy, e.0, e.1)
            &&& e.0 * SIZE + e.1 < n
            &&& lines_upto(dx, dy, n)[m] == line_cells(dx, dy, e.0, e.1)
            &&& lines_upto(dx, dy, (e.0 * SIZE + e.1) as nat).len() == m
        } by {
            if m < edges_upto(dx, dy, (n - 1) as nat).len() {
                assert(edges_upto(dx, dy, n)[m] == edges_upto(dx, dy, (n - 1) as nat)[m]);
            }
        }
    }
}

/// The line that ends in an edge cell stands, among the lines, at the place
/// that the number of lines before that cell gives.
proof fn lemma_rank(dx: int, dy: int, n: nat, y: int, x: int)
    requires
        n <= SIZE * SIZE,
        is_edge(dx, dy, y, x),
        y * SIZE + x < n,
    ensures
        ({
            let r = lines_upto(dx, dy, (y * SIZE + x) as nat).len() as int;
            &&& r < lines_upto(dx, dy, n).len()
            &&& lines_upto(dx, dy, n)[r] == line_cells(dx, dy, y, x)
        }),
    decreases n,
{
    let pos = y * SIZE + x;
    assert(pos / SIZE as int == y);
    assert(pos % SIZE as int == x);
    if n - 1 > pos {
        lemma_rank(dx, dy, (n - 1) as nat, y, x);
    }
}

/// A line's cells lie on the grid, each one step behind the one before, and
/// each is pushed toward the line's first cell.
pub proof fn lemma_line_cells(dx: int, dy: int, y: int, x: int)
    requires
        is_direction(dx, dy),
        is_edge(dx, dy, y, x),
    ensures
        is_line(line_cells(dx, dy, y, x)),
        1 <= line_cells(dx, dy, y, x).len() <= SIZE,
        forall|k: int|
            0 <= k < line_cells(dx, dy, y, x).len() ==> {
                let c = #[trigger] line_cells(dx, dy, y, x)[k];
                &&& c.0 == y - step(dy, k)
                &&& c.1 == x - step(dx, k)
                &&& in_grid(c.0 as int, c.1 as int)
                &&& depth(dx, dy, c.0 as int, c.1 as int) == k
                &&& edge_of(dx, dy, c.0 as int, c.1 as int) == (y, x)
            },
{
    reveal(depth);
    reveal(edge_of);
    reveal(line_cells);
    let cells = line_cells(dx, dy, y, x);
    assert forall|k: int| 0 <= k < cells.len() implies {
        let c = #[trigger] cells[k];
        &&& c.0 == y - step(dy, k)
        &&& c.1 == x - step(dx, k)
        &&& in_grid(c.0 as int, c.1 as int)
        &&& depth(dx, dy, c.0 as int, c.1 as int) == k
        &&& edge_of(dx, dy, c.0 as int, c.1 as int) == (y, x)
    } by {
        assert(in_grid(y - step(dy, k), x - step(dx, k)));
    }
    assert forall|k: int, l: int|
        0 <= k < cells.len() && 0 <= l < cells.len() && k != l implies #[trigger] cells[k]
        != #[trigger] cells[l] by {
        assert(depth(dx, dy, cells[k].0 as int, cells[k].1 as int) == k);
        assert(depth(dx, dy, cells[l].0 as int, cells[l].1 as int) == l);
    }
}

/// Every cell of the grid lies on the line of the edge cell that it is
/// pushed toward, at the place that its distance from the edge gives.
pub proof fn lemma_cell_on_line(dx: int, dy: int, y: int, x: int)
    requires
        is_direction(dx, dy),
        in_grid(y, x),
    ensures
        ({
            let e = edge_of(dx, dy, y, x);
            let k = depth(dx, dy, y, x);
            &&& is_edge(dx, dy, e.0, e.1)
            &&& 0 <= k < line_cells(dx, dy, e.0, e.1).len()
            &&& line_cells(dx, dy, e.0, e.1)[k] == (y as usize, x as usize)
            &&& 0 <= e.0 * SIZE + e.1 < SIZE * SIZE
        }),
{
    reveal(depth);
    reveal(edge_of);
    reveal(line_cells);
}

/// The cell in row `y`, column `x` lies on the line at place `m`, at its
/// distance from the edge, and that line ends in the cell's edge cell.
pub open spec fn on_line_at(dx: int, dy: int, m: int, y: int, x: int) -> bool {
    let e = edge_of(dx, dy, y, x);
    let k = depth(dx, dy, y, x);
    &&& all_lines(dx, dy)[m] == line_cells(dx, dy, e.0, e.1)
    &&& 0 <= k < all_lines(dx, dy)[m].len()
    &&& all_lines(dx, dy)[m][k] == (y as usize, x as usize)
}

/// A cell whose line has the place `m` lies on the line at that place.
pub proof fn lemma_on_line_at(dx: int, dy: int, m: int, y: int, x: int)
    requires
        is_direction(dx, dy),
        in_grid(y, x),
        line_no(dx, dy, y, x) == m,
    ensures
        0 <= m < all_lines(dx, dy).len(),
        on_line_at(dx, dy, m, y, x),
{
    reveal(line_no);
    lemma_cell_on_line(dx, dy, y, x);
    let c = edge_of(dx, dy, y, x);
    lemma_rank(dx, dy, (SIZE * SIZE) as nat, c.0, c.1);
}

/// The line at place `m` can be pushed as one line, and each of its cells
/// has a line with the place `m` and the distance from the edge that its
/// own place on the line gives.
pub proof fn lemma_line_at(dx: int, dy: int, m: int)
    requires
        is_direction(dx, dy),
        0 <= m < all_lines(dx, dy).len(),
    ensures
        is_line(all_lines(dx, dy)[m]),
        forall|k: int|
            0 <= k < all_lines(dx, dy)[m].len() ==> {
                let c = #[trigger] all_lines(dx, dy)[m][k];
                &&& in_grid(c.0 as int, c.1 as int)
                &&& line_no(dx, dy, c.0 as int, c.1 as int) == m
                &&& depth(dx, dy, c.0 as int, c.1 as int) == k
            },
{
    reveal(line_no);
    let n = (SIZE * SIZE) as nat;
    lemma_edges(dx, dy, n);
    let e = edges_upto(dx, dy, n)[m];
    assert(all_lines(dx, dy)[m] == line_cells(dx, dy, e.0, e.1));
    lemma_line_cells(dx, dy, e.0, e.1);
}

/// Whether column `x`, row `y` lies on the grid.
pub fn valid(x: i32, y: i32) -> (inside: bool)
    ensures
        inside == in_grid(y as int, x as int),
{
    x >= 0 && x < SIZE as i32 && y >= 0 && y < SIZE as i32
}

/// The line that ends in column `x`, row `y`.
pub fn line_from(dx: i32, dy: i32, x: i32, y: i32) -> (line: CellList)
    requires
        is_direction(dx as int, dy as int),
        in_grid(y as int, x as int),
    ensures
        cells_of(line) == line_cells(dx as int, dy as int, y as int, x as int),
{
    let ghost want = line_cells(dx as int, dy as int, y as int, x as int);
    proof {
        reveal(depth);
        reveal(line_cells);
    }
    let mut line = cells_new();
    let mut cur_x: i32 = x;
    let mut cur_y: i32 = y;
    let ghost mut k: int = 0;
    while valid(cur_x, cur_y)
        invariant
            is_direction(dx as int, dy as int),
            in_grid(y as int, x as int),
            want == line_cells(dx as int, dy as int, y as int, x as int),
            0 <= k <= want.len(),
            cur_x == x - step(dx as int, k),
            cur_y == y - step(dy as int, k),
            cells_of(line) == want.take(k),
        decreases want.len() - k,
    {
        proof {
            reveal(depth);
            reveal(line_cells);
            assert(k < want.len());
            assert(want.take(k + 1) =~= want.take(k).push(want[k]));
        }
        line.push_cell((cur_y as usize, cur_x as usize));
        cur_x -= dx;
        cur_y -= dy;
        proof {
            k = k + 1;
        }
    }
    proof {
        reveal(depth);
        reveal(line_cells);
        assert(k == want.len());
        assert(want.take(k) =~= want);
    }
    line
}

/// The lines along which a push in the direction `(dx, dy)` moves the
/// tiles. Every cell of the grid lies on exactly one of them.
pub fn lines(dx: i32, dy: i32) -> (list: LineList)
    requires
        is_direction(dx as int, dy as int),
    ensures
        lines_of(list) == all_lines(dx as int, dy as int),
{
    let mut list = lines_new();
    let mut y: i32 = 0;
    while y < SIZE as i32
        invariant
            is_direction(dx as int, dy as int),
            0 <= y <= SIZE,
            lines_of(list) == lines_upto(dx as int, dy as int, (y * SIZE) as nat),
        decreases SIZE - y,
    {
        let mut x: i32 = 0;
        while x < SIZE as i32
            invariant
                is_direction(dx as int, dy as int),
                0 <= y < SIZE,
                0 <= x <= SIZE,
                lines_of(list) == lines_upto(dx as int, dy as int, (y * SIZE + x) as nat),
            decreases SIZE - x,
        {
            proof {
                let n = (y * SIZE + x + 1) as nat;
                assert((n - 1) / SIZE as int == y);
                assert((n - 1) % SIZE as int == x);
            }
            if !valid(x + dx, y + dy) {
                let line = line_from(dx, dy, x, y);
                lines_push(&mut list, line);
            }
            x += 1;
        }
        y += 1;
    }
    list
}

} // verus!
