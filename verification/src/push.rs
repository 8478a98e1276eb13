use vstd::prelude::*;
use vstd::arithmetic::power2::is_pow2;
use crate::SIZE;
use crate::cells::{cells_get, cells_of, lines_get, lines_of, CellList};
use crate::grid::{adjacent, full, in_grid, stuck, tiled, total, Field, MAX_CELL};
use crate::lines::{
    all_lines, depth, edge_of, is_direction, lemma_cell_on_line, lemma_line_at, lemma_line_cells,
    lemma_on_line_at, line_cells, line_no, lines,
};
use crate::line::{
    lemma_pushed_len, lemma_pushed_meet, lemma_pushed_none, lemma_pushed_room,
    lemma_pushed_settled, lemma_pushed_slide, lemma_sum_update, pushed_line,
};

verus! {

/// A grid of the right shape: `SIZE` rows of `SIZE` cells.
pub open spec fn is_grid(g: Seq<Seq<int>>) -> bool {
    &&& g.len() == SIZE
    &&& forall|y: int| 0 <= y < SIZE ==> (#[trigger] g[y]).len() == SIZE
}

/// Cells that can be pushed as one line: each lies on the grid, and none
/// occurs twice.
pub open spec fn is_line(cells: Seq<(usize, usize)>) -> bool {
    &&& forall|k: int|
        0 <= k < cells.len() ==> in_grid((#[trigger] cells[k]).0 as int, cells[k].1 as int)
    &&& forall|k: int, l: int|
        0 <= k < cells.len() && 0 <= l < cells.len() && k != l ==> #[trigger] cells[k]
            != #[trigger] cells[l]
}

/// Whether the cell in row `y`, column `x` is one of `cells`.
pub open spec fn on_line(cells: Seq<(usize, usize)>, y: int, x: int) -> bool {
    exists|k: int| 0 <= k < cells.len() && (#[trigger] cells[k]).0 == y && cells[k].1 == x
}

/// The values that a grid holds in the given cells, in the cells' order.
pub open spec fn line_values(g: Seq<Seq<int>>, cells: Seq<(usize, usize)>) -> Seq<int> {
    Seq::new(cells.len(), |k: int| g[cells[k].0 as int][cells[k].1 as int])
}

/// A grid after a push in the direction `(dx, dy)`: each cell holds what the
/// push of its line puts at its place, the line taken from its edge cell
/// backward.
pub open spec fn pushed(g: Seq<Seq<int>>, dx: int, dy: int) -> Seq<Seq<int>> {
    Seq::new(
        SIZE as nat,
        |y: int|
            Seq::new(
                SIZE as nat,
                |x: int|
                    {
                        let e = edge_of(dx, dy, y, x);
                        pushed_line(line_values(g, line_cells(dx, dy, e.0, e.1)))[depth(
                            dx,
                            dy,
                            y,
                            x,
                        )]
                    },
            ),
    )
}

/// What holds of a grid `g` when the first `m` lines of a push of `g0` are
/// done: the cells on those lines hold what the push puts there, the others
/// what `g0` holds.
spec fn done_upto(g0: Seq<Seq<int>>, g: Seq<Seq<int>>, dx: int, dy: int, m: int) -> bool {
    &&& is_grid(g0)
    &&& is_grid(g)
    &&& forall|y: int, x: int|
        in_grid(y, x) ==> #[trigger] g[y][x] == if line_no(dx, dy, y, x) < m {
            pushed(g0, dx, dy)[y][x]
        } else {
            g0[y][x]
        }
}

/// Before line `m` is pushed it holds what it held in `g0`.
proof fn lemma_line_fresh(g0: Seq<Seq<int>>, g: Seq<Seq<int>>, dx: int, dy: int, m: int)
    requires
        is_direction(dx, dy),
        0 <= m < all_lines(dx, dy).len(),
        done_upto(g0, g, dx, dy, m),
    ensures
        is_line(all_lines(dx, dy)[m]),
        line_values(g, all_lines(dx, dy)[m]) == line_values(g0, all_lines(dx, dy)[m]),
{
    lemma_line_at(dx, dy, m);
    let cells = all_lines(dx, dy)[m];
    assert forall|k: int| 0 <= k < cells.len() implies #[trigger] line_values(g, cells)[k]
        == line_values(g0, cells)[k] by {
        let c = cells[k];
        assert(line_no(dx, dy, c.0 as int, c.1 as int) == m);
        assert(g[c.0 as int][c.1 as int] == g0[c.0 as int][c.1 as int]);
    }
    assert(line_values(g, cells) =~= line_values(g0, cells));
}

/// Once line `m` is pushed, the first `m + 1` lines are done.
proof fn lemma_line_done(
    g0: Seq<Seq<int>>,
    before: Seq<Seq<int>>,
    after: Seq<Seq<int>>,
    dx: int,
    dy: int,
    m: int,
)
    requires
        is_direction(dx, dy),
        0 <= m < all_lines(dx, dy).len(),
        done_upto(g0, before, dx, dy, m),
        is_grid(after),
        line_values(after, all_lines(dx, dy)[m]) == pushed_line(
            line_values(before, all_lines(dx, dy)[m]),
        ),
        forall|y: int, x: int|
            in_grid(y, x) && !on_line(all_lines(dx, dy)[m], y, x) ==> after[y][x] == before[y][x],
    ensures
        done_upto(g0, after, dx, dy, m + 1),
{
    lemma_line_at(dx, dy, m);
    lemma_line_fresh(g0, before, dx, dy, m);
    let cells = all_lines(dx, dy)[m];
    assert forall|y: int, x: int| in_grid(y, x) implies #[trigger] after[y][x] == if line_no(
        dx,
        dy,
        y,
        x,
    ) < m + 1 {
        pushed(g0, dx, dy)[y][x]
    } else {
        g0[y][x]
    } by {
        if line_no(dx, dy, y, x) == m {
            lemma_on_line_at(dx, dy, m, y, x);
            let k = depth(dx, dy, y, x);
            assert(cells[k] == (y as usize, x as usize));
            assert(after[y][x] == line_values(after, cells)[k]);
        } else {
            if on_line(cells, y, x) {
                let l = choose|l: int|
                    0 <= l < cells.len() && (#[trigger] cells[l]).0 == y && cells[l].1 == x;
                assert(line_no(dx, dy, cells[l].0 as int, cells[l].1 as int) == m);
            }
            assert(after[y][x] == before[y][x]);
        }
    }
}

/// Once all lines are pushed, the grid is the pushed grid.
proof fn lemma_all_done(g0: Seq<Seq<int>>, g: Seq<Seq<int>>, dx: int, dy: int)
    requires
        is_direction(dx, dy),
        done_upto(g0, g, dx, dy, all_lines(dx, dy).len() as int),
    ensures
        g == pushed(g0, dx, dy),
{
    let wanted = pushed(g0, dx, dy);
    assert forall|y: int| 0 <= y < SIZE implies #[trigger] g[y] == wanted[y] by {
        assert forall|x: int| 0 <= x < SIZE implies g[y][x] == wanted[y][x] by {
            assert(in_grid(y, x));
            lemma_on_line_at(dx, dy, line_no(dx, dy, y, x), y, x);
        }
        assert(g[y] =~= wanted[y]);
    }
    assert(g =~= wanted);
}

/// The grid `g` with `v` in row `y`, column `x`.
pub open spec fn with_cell(g: Seq<Seq<int>>, y: int, x: int, v: int) -> Seq<Seq<int>> {
    g.update(y, g[y].update(x, v))
}

/// What a new value in the `k`-th cell of a line does to the grid: to the
/// line's values, to the grid's sum, and to the other cells.
pub proof fn lemma_with_cell(g: Seq<Seq<int>>, cells: Seq<(usize, usize)>, k: int, v: int)
    requires
        is_grid(g),
        is_line(cells),
        0 <= k < cells.len(),
    ensures
        ({
            let h = with_cell(g, cells[k].0 as int, cells[k].1 as int, v);
            &&& is_grid(h)
            &&& line_values(h, cells) == line_values(g, cells).update(k, v)
            &&& total(h) == total(g) - g[cells[k].0 as int][cells[k].1 as int] + v
            &&& forall|y: int, x: int|
                in_grid(y, x) && !(y == cells[k].0 && x == cells[k].1) ==> h[y][x] == g[y][x]
        }),
{
    let y = cells[k].0 as int;
    let x = cells[k].1 as int;
    let h = with_cell(g, y, x, v);
    assert(in_grid(y, x));
    assert forall|l: int| 0 <= l < cells.len() implies #[trigger] line_values(h, cells)[l]
        == line_values(g, cells).update(k, v)[l] by {
        assert(in_grid(cells[l].0 as int, cells[l].1 as int));
        if l != k {
            assert(cells[l] != cells[k]);
        }
    }
    assert(line_values(h, cells) =~= line_values(g, cells).update(k, v));
    let fg = Seq::new((SIZE * SIZE) as nat, |n: int| g[n / SIZE as int][n % SIZE as int]);
    let fh = Seq::new((SIZE * SIZE) as nat, |n: int| h[n / SIZE as int][n % SIZE as int]);
    assert(fh =~= fg.update(y * SIZE + x, v));
    lemma_sum_update(fg, y * SIZE + x, v);
}

/// Fields with the same grid and the same flag are the same.
proof fn lemma_same_numbers(a: Field, b: Field)
    requires
        a.grid() == b.grid(),
        a.game_over == b.game_over,
    ensures
        a == b,
{
    assert forall|y: int| 0 <= y < SIZE implies #[trigger] a.numbers[y] == b.numbers[y] by {
        assert forall|x: int| 0 <= x < SIZE implies a.numbers[y][x] == b.numbers[y][x] by {
            assert(a.grid()[y][x] == a.numbers[y][x] as int);
            assert(b.grid()[y][x] == b.numbers[y][x] as int);
        }
        assert(a.numbers[y] =~= b.numbers[y]);
    }
    assert(a.numbers =~= b.numbers);
}

/// Two different powers of two do not add up to a power of two.
pub proof fn lemma_tiles_sum(a: int, b: int)
    requires
        is_pow2(a),
        is_pow2(b),
        a != b,
    ensures
        !is_pow2(a + b),
    decreases a,
{
    reveal(is_pow2);
    if a != 1 && b != 1 {
        lemma_tiles_sum(a / 2, b / 2);
    }
}

/// The line of a cell, in a grid that is stuck and holds tiles only, is not
/// changed by a push.
proof fn lemma_stuck_line(g: Seq<Seq<int>>, dx: int, dy: int, y: int, x: int)
    requires
        is_grid(g),
        is_direction(dx, dy),
        tiled(g),
        stuck(g),
        crate::lines::is_edge(dx, dy, y, x),
    ensures
        pushed_line(line_values(g, line_cells(dx, dy, y, x))) == line_values(
            g,
            line_cells(dx, dy, y, x),
        ),
{
    let cells = line_cells(dx, dy, y, x);
    let s = line_values(g, cells);
    lemma_line_cells(dx, dy, y, x);
    assert forall|k: int| 0 <= k < s.len() implies s[k] != 0 by {
        let c = cells[k];
        assert(in_grid(c.0 as int, c.1 as int));
        assert(g[c.0 as int][c.1 as int] != 0);
    }
    assert forall|k: int| 0 <= k < s.len() - 1 implies !is_pow2(#[trigger] s[k] + s[k + 1]) by {
        let c = cells[k];
        let d = cells[k + 1];
        assert(in_grid(c.0 as int, c.1 as int));
        assert(in_grid(d.0 as int, d.1 as int));
        assert(adjacent(c.0 as int, c.1 as int, d.0 as int, d.1 as int));
        let a = g[c.0 as int][c.1 as int];
        let b = g[d.0 as int][d.1 as int];
        assert(a != 0 && b != 0);
        assert(a != b);
        lemma_tiles_sum(a, b);
    }
    lemma_pushed_none(s);
}

/// A grid that is stuck and holds tiles only is not changed by a push, in
/// whichever direction.
pub proof fn lemma_stuck_stays(g: Seq<Seq<int>>, dx: int, dy: int)
    requires
        is_grid(g),
        is_direction(dx, dy),
        tiled(g),
        stuck(g),
    ensures
        pushed(g, dx, dy) == g,
{
    let h = pushed(g, dx, dy);
    assert forall|y: int| 0 <= y < SIZE implies #[trigger] h[y] == g[y] by {
        assert forall|x: int| 0 <= x < SIZE implies h[y][x] == g[y][x] by {
            assert(in_grid(y, x));
            lemma_cell_on_line(dx, dy, y, x);
            let e = edge_of(dx, dy, y, x);
            lemma_stuck_line(g, dx, dy, e.0, e.1);
        }
        assert(h[y] =~= g[y]);
    }
    assert(h =~= g);
}

/// A push that changes the grid leaves an empty cell.
pub proof fn lemma_changed_room(g: Seq<Seq<int>>, dx: int, dy: int)
    requires
        is_grid(g),
        is_direction(dx, dy),
        pushed(g, dx, dy) != g,
    ensures
        !full(pushed(g, dx, dy)),
{
    let h = pushed(g, dx, dy);
    if forall|y: int, x: int| in_grid(y, x) ==> h[y][x] == g[y][x] {
        assert forall|y: int| 0 <= y < SIZE implies #[trigger] h[y] == g[y] by {
            assert forall|x: int| 0 <= x < SIZE implies h[y][x] == g[y][x] by {
                assert(in_grid(y, x));
            }
            assert(h[y] =~= g[y]);
        }
        assert(h =~= g);
    }
    let (y, x) = choose|y: int, x: int| in_grid(y, x) && h[y][x] != g[y][x];
    lemma_cell_on_line(dx, dy, y, x);
    let e = edge_of(dx, dy, y, x);
    let cells = line_cells(dx, dy, e.0, e.1);
    let s = line_values(g, cells);
    lemma_line_cells(dx, dy, e.0, e.1);
    assert(s[depth(dx, dy, y, x)] == g[y][x]);
    lemma_pushed_room(s);
    lemma_pushed_len(s);
    let c = cells[cells.len() - 1];
    assert(in_grid(c.0 as int, c.1 as int));
    assert(edge_of(dx, dy, c.0 as int, c.1 as int) == e);
    assert(h[c.0 as int][c.1 as int] == 0);
}

/// The test that decides a merge: for a positive number, `i & (i - 1)` is 0
/// exactly when `i` is a power of two.
proof fn lemma_good_number(i: u32)
    requires
        i >= 1,
    ensures
        (i & ((i - 1) as u32)) == 0 <==> is_pow2(i as int),
    decreases i,
{
    reveal(is_pow2);
    let p: u32 = (i - 1) as u32;
    if i == 1 {
        assert(i & p == 0) by (bit_vector)
            requires
                i == 1u32,
                p == 0u32,
        ;
    } else {
        let h: u32 = i / 2;
        let q: u32 = (h - 1) as u32;
        let r: u32 = i % 2;
        lemma_good_number(h);
        assert((i & p == 0) == (r == 0 && h & q == 0)) by (bit_vector)
            requires
                i >= 2u32,
                p == i - 1u32,
                h == i / 2u32,
                q == h - 1u32,
                r == i % 2u32,
        ;
    }
}

/// Whether a number is 0 or a power of two: whether it has no bit in common
/// with the number before it.
pub fn good_number(i: i32) -> (good: bool)
    requires
        i > i32::MIN,
    ensures
        good == (i == 0 || is_pow2(i as int)),
{
    let low: i32 = i - 1;
    proof {
        reveal(is_pow2);
        if i >= 1 {
            lemma_good_number(i as u32);
            assert((i & low == 0) == ((i as u32) & (low as u32) == 0)) by (bit_vector)
                requires
                    i >= 1i32,
                    low == i - 1i32,
            ;
        } else {
            assert((i & low == 0) == (i == 0)) by (bit_vector)
                requires
                    i <= 0i32,
                    i > -0x8000_0000i32,
                    low == i - 1i32,
            ;
        }
    }
    i & low == 0
}

impl Field {
    /// The value in the `k`-th cell of a line.
    fn value_at(&self, line: &CellList, k: usize) -> (v: i32)
        requires
            is_line(cells_of(*line)),
            k < cells_of(*line).len(),
        ensures
            v == line_values(self.grid(), cells_of(*line))[k as int],
    {
        let cell = cells_get(line, k);
        self.get(cell)
    }

    /// Puts `v` in the `k`-th cell of a line.
    fn put_at(&mut self, line: &CellList, k: usize, v: i32)
        requires
            is_line(cells_of(*line)),
            k < cells_of(*line).len(),
        ensures
            final(self).game_over == old(self).game_over,
            line_values(final(self).grid(), cells_of(*line)) == line_values(
                old(self).grid(),
                cells_of(*line),
            ).update(k as int, v as int),
            total(final(self).grid()) == total(old(self).grid()) - line_values(
                old(self).grid(),
                cells_of(*line),
            )[k as int] + v,
            forall|y: int, x: int|
                in_grid(y, x) && !on_line(cells_of(*line), y, x) ==> final(self).grid()[y][x]
                    == old(self).grid()[y][x],
            forall|y: int, x: int|
                in_grid(y, x) ==> #[trigger] final(self).grid()[y][x] == old(self).grid()[y][x]
                    || final(self).grid()[y][x] == v,
    {
        let cell = cells_get(line, k);
        proof {
            lemma_with_cell(self.grid(), cells_of(*line), k as int, v as int);
        }
        self.set(cell, v);
    }

    /// Pushes the tiles in the cells of `line` toward its first cell: they
    /// slide over empty cells, and two tiles that meet merge where their sum
    /// is a power of two, each settled cell at most once. Returns whether
    /// anything moved or merged.
    pub fn push_line(&mut self, line: &CellList) -> (changed: bool)
        requires
            is_line(cells_of(*line)),
            forall|k: int|
                0 <= k < cells_of(*line).len() ==> 0 <= #[trigger] line_values(
                    old(self).grid(),
                    cells_of(*line),
                )[k] <= MAX_CELL,
        ensures
            line_values(final(self).grid(), cells_of(*line)) == pushed_line(
                line_values(old(self).grid(), cells_of(*line)),
            ),
            forall|y: int, x: int|
                in_grid(y, x) && !on_line(cells_of(*line), y, x) ==> final(self).grid()[y][x]
                    == old(self).grid()[y][x],
            changed == (final(self).grid() != old(self).grid()),
            changed == (line_values(final(self).grid(), cells_of(*line)) != line_values(
                old(self).grid(),
                cells_of(*line),
            )),
            final(self).game_over == old(self).game_over,
            total(final(self).grid()) == total(old(self).grid()),
            old(self).all_tiles() ==> final(self).all_tiles(),
    {
        let ghost cells = cells_of(*line);
        let ghost g0 = self.grid();
        let ghost orig = line_values(g0, cells);
        let ghost mut w: int = 0;
        let n = line.len();
        let mut changed = false;
        let mut i: usize = 0;
        let mut j: usize = 1;
        proof {
            assert(orig.take(0) =~= Seq::<int>::empty());
            assert(orig.skip(0) =~= orig);
            assert(pushed_line(orig) =~= orig.take(0) + pushed_line(orig.skip(0)));
        }
        while i < n
            invariant
                is_line(cells),
                cells == cells_of(*line),
                n == cells.len(),
                g0 == old(self).grid(),
                orig == line_values(g0, cells),
                i <= n,
                i <= j,
                j <= n || n == 0,
                line_values(self.grid(), cells).len() == n,
                pushed_line(orig) == line_values(self.grid(), cells).take(i as int) + pushed_line(
                    line_values(self.grid(), cells).skip(i as int),
                ),
                forall|k: int| i < k < j && k < n ==> line_values(self.grid(), cells)[k] == 0,
                forall|k: int| 0 <= k < n ==> 0 <= line_values(self.grid(), cells)[k],
                forall|k: int| i <= k < n ==> line_values(self.grid(), cells)[k] <= MAX_CELL,
                forall|y: int, x: int|
                    in_grid(y, x) && !on_line(cells, y, x) ==> self.grid()[y][x] == g0[y][x],
                total(self.grid()) == total(g0),
                !changed ==> line_values(self.grid(), cells) == orig,
                changed ==> 0 <= w < n && line_values(self.grid(), cells)[w] != orig[w] && (w < i
                    || (w == i && orig[w] == 0)),
                self.game_over == old(self).game_over,
                old(self).all_tiles() ==> self.all_tiles(),
            ensures
                line_values(self.grid(), cells) == pushed_line(orig),
            decreases n - i, (if i < n && line_values(self.grid(), cells)[i as int] == 0 {
                1int
            } else {
                0int
            }),
        {
            while j == i || (j < n && self.value_at(line, j) == 0)
                invariant
                    is_line(cells),
                    cells == cells_of(*line),
                    n == cells.len(),
                    i < n,
                    i <= j <= n,
                    forall|k: int| i < k < j && k < n ==> line_values(self.grid(), cells)[k] == 0,
                decreases n - j,
            {
                j += 1;
            }
            let ghost cur = line_values(self.grid(), cells);
            if j == n {
                proof {
                    let tail = cur.skip(i as int);
                    assert forall|k: int| 1 <= k < tail.len() implies tail[k] == 0 by {
                        assert(tail[k] == cur[i + k]);
                    }
                    lemma_pushed_settled(tail);
                    assert(cur.take(i as int) + tail =~= cur);
                }
                break;
            }
            let here = self.value_at(line, i);
            let there = self.value_at(line, j);
            proof {
                let tail = cur.skip(i as int);
                assert(tail[0] == here);
                assert(tail[j - i] == there);
                assert forall|k: int| 0 < k < j - i implies tail[k] == 0 by {
                    assert(tail[k] == cur[i + k]);
                }
            }
            if here == 0 {
                proof {
                    if !changed {
                        w = i as int;
                    }
                }
                changed = true;
                self.put_at(line, i, there);
                self.put_at(line, j, 0);
                proof {
                    let tail = cur.skip(i as int);
                    let now = line_values(self.grid(), cells);
                    lemma_pushed_slide(tail, j - i);
                    assert(now == cur.update(i as int, there as int).update(j as int, 0));
                    assert(now.take(i as int) =~= cur.take(i as int));
                    assert(now.skip(i as int) =~= tail.update(0, tail[j - i]).update(j - i, 0));
                }
                continue;
            }
            let possible_number = there + here;
            let ghost before = self.grid();
            if good_number(possible_number) {
                proof {
                    if !changed {
                        w = i as int;
                    }
                }
                changed = true;
                self.put_at(line, i, possible_number);
                self.put_at(line, j, 0);
                proof {
                    let tail = cur.skip(i as int);
                    let now = line_values(self.grid(), cells);
                    lemma_pushed_meet(tail, j - i);
                    assert(now == cur.update(i as int, possible_number as int).update(j as int, 0));
                    assert(now.take(i + 1) =~= cur.take(i as int) + seq![tail[0] + tail[j - i]]);
                    assert(now.skip(i + 1) =~= tail.update(j - i, 0).skip(1));
                    assert(pushed_line(orig) =~= now.take(i + 1) + pushed_line(now.skip(i + 1)));
                }
            } else {
                proof {
                    let tail = cur.skip(i as int);
                    lemma_pushed_meet(tail, j - i);
                    assert(cur.take(i + 1) =~= cur.take(i as int) + seq![tail[0]]);
                    assert(cur.skip(i + 1) =~= tail.skip(1));
                    assert(pushed_line(orig) =~= cur.take(i + 1) + pushed_line(cur.skip(i + 1)));
                }
            }
            i += 1;
        }
        proof {
            let now = line_values(self.grid(), cells);
            if i == n && now != pushed_line(orig) {
                assert(now.take(n as int) =~= now);
                assert(now.skip(n as int) =~= Seq::<int>::empty());
            }
            if changed {
                assert(self.grid()[cells[w].0 as int][cells[w].1 as int] == now[w]);
                assert(g0[cells[w].0 as int][cells[w].1 as int] == orig[w]);
            } else {
                assert forall|y: int, x: int| in_grid(y, x) implies self.grid()[y][x]
                    == g0[y][x] by {
                    if on_line(cells, y, x) {
                        let k = choose|k: int|
                            0 <= k < cells.len() && (#[trigger] cells[k]).0 == y && cells[k].1
                                == x;
                        assert(now[k] == orig[k]);
                    }
                }
                assert forall|y: int| 0 <= y < SIZE implies #[trigger] self.grid()[y]
                    == g0[y] by {
                    assert forall|x: int| 0 <= x < SIZE implies self.grid()[y][x]
                        == g0[y][x] by {
                        assert(in_grid(y, x));
                    }
                    assert(self.grid()[y] =~= g0[y]);
                }
                assert(self.grid() =~= g0);
            }
        }
        changed
    }

    /// Pushes all tiles in the direction `(dx, dy)`, each line of the
    /// direction by itself. Returns whether the grid changed.
    pub fn push_dir(&mut self, dx: i32, dy: i32) -> (changed: bool)
        requires
            is_direction(dx as int, dy as int),
            old(self).in_range(),
        ensures
            final(self).grid() == pushed(old(self).grid(), dx as int, dy as int),
            changed == (final(self).grid() != old(self).grid()),
            !changed ==> *final(self) == *old(self),
            changed ==> !full(final(self).grid()),
            final(self).game_over == old(self).game_over,
            total(final(self).grid()) == total(old(self).grid()),
            old(self).all_tiles() ==> final(self).all_tiles(),
            old(self).all_tiles() && stuck(old(self).grid()) ==> !changed,
    {
        let ghost g0 = self.grid();
        let ghost dxi = dx as int;
        let ghost dyi = dy as int;
        let ghost mut wy: int = 0;
        let ghost mut wx: int = 0;
        let all = lines(dx, dy);
        let count = all.len();
        let mut result = false;
        let mut m: usize = 0;
        proof {
            assert forall|y: int, x: int| in_grid(y, x) implies line_no(dxi, dyi, y, x) >= 0 by {
                lemma_on_line_at(dxi, dyi, line_no(dxi, dyi, y, x), y, x);
            }
        }
        while m < count
            invariant
                is_direction(dxi, dyi),
                g0 == old(self).grid(),
                old(self).in_range(),
                lines_of(all) == all_lines(dxi, dyi),
                count == lines_of(all).len(),
                m <= count,
                done_upto(g0, self.grid(), dxi, dyi, m as int),
                result ==> in_grid(wy, wx) && line_no(dxi, dyi, wy, wx) < m && self.grid()[wy][wx]
                    != g0[wy][wx],
                !result ==> self.grid() == g0,
                self.game_over == old(self).game_over,
                total(self.grid()) == total(g0),
                old(self).all_tiles() ==> self.all_tiles(),
            decreases count - m,
        {
            let line = lines_get(&all, m);
            let ghost cells = cells_of(*line);
            let ghost before = self.grid();
            proof {
                lemma_line_fresh(g0, before, dxi, dyi, m as int);
                assert forall|k: int| 0 <= k < cells.len() implies 0 <= #[trigger] line_values(
                    before,
                    cells,
                )[k] <= MAX_CELL by {
                    let c = cells[k];
                    assert(line_values(before, cells)[k] == line_values(g0, cells)[k]);
                    assert(0 <= old(self).grid()[c.0 as int][c.1 as int] <= MAX_CELL);
                }
            }
            let moved = self.push_line(line);
            proof {
                let after = self.grid();
                lemma_line_done(g0, before, after, dxi, dyi, m as int);
                if result {
                    lemma_line_at(dxi, dyi, m as int);
                    if on_line(cells, wy, wx) {
                        let l = choose|l: int|
                            0 <= l < cells.len() && (#[trigger] cells[l]).0 == wy && cells[l].1
                                == wx;
                        assert(line_no(dxi, dyi, cells[l].0 as int, cells[l].1 as int) == m);
                    }
                } else if moved {
                    lemma_line_at(dxi, dyi, m as int);
                    let va = line_values(after, cells);
                    let vb = line_values(before, cells);
                    assert(va != vb);
                    if forall|k: int| 0 <= k < cells.len() ==> va[k] == vb[k] {
                        assert(va =~= vb);
                    }
                    let k = choose|k: int| 0 <= k < cells.len() && va[k] != vb[k];
                    wy = cells[k].0 as int;
                    wx = cells[k].1 as int;
                    assert(after[wy][wx] == va[k]);
                    assert(before[wy][wx] == vb[k]);
                }
            }
            if moved {
                result = true;
            }
            m += 1;
        }
        proof {
            lemma_all_done(g0, self.grid(), dxi, dyi);
            if result {
                lemma_changed_room(g0, dxi, dyi);
            } else {
                lemma_same_numbers(*old(self), *self);
            }
            if old(self).all_tiles() && stuck(g0) {
                lemma_stuck_stays(g0, dxi, dyi);
            }
        }
        result
    }
}

} // verus!
