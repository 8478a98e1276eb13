use vstd::prelude::*;
use rand::rngs::ThreadRng;
use rand::Rng;
use crate::SIZE;
use crate::cells::{cells_of, CellList};
use crate::grid::{full, in_grid, is_tile, stuck, Field};
use crate::push::with_cell;

verus! {

/// `rand::rngs::ThreadRng`, the random number generator of a thread. Nothing
/// is known of what it holds.
#[verifier::external_type_specification]
#[verifier::external_body]
pub struct ExThreadRng(ThreadRng);

/// `Rng::gen_range` over `0..n`, on the thread's generator: trusted to
/// return a number below `n`, whichever it is; two calls may differ. The
/// call panics on an empty range, so `n` is not 0.
#[verifier::external_body]
pub(crate) fn draw_below(rng: &mut ThreadRng, n: usize) -> (r: usize)
    requires
        n > 0,
    ensures
        r < n,
{
    rng.gen_range(0..n)
}

/// The value of a new tile: 2 for the pick 0, else 4.
pub open spec fn start_number(pick: int) -> int {
    if pick == 0 {
        2
    } else {
        4
    }
}

/// The empty cells among the first `n` cells of a grid, counted row by row,
/// in that order.
pub open spec fn empties_upto(g: Seq<Seq<int>>, n: nat) -> Seq<(usize, usize)>
    decreases n,
{
    if n == 0 {
        Seq::empty()
    } else {
        let before = empties_upto(g, (n - 1) as nat);
        let y = (n - 1) / SIZE as int;
        let x = (n - 1) % SIZE as int;
        if g[y][x] == 0 {
            before.push((y as usize, x as usize))
        } else {
            before
        }
    }
}

/// The empty cells of a grid, row by row.
pub open spec fn empties(g: Seq<Seq<int>>) -> Seq<(usize, usize)> {
    empties_upto(g, (SIZE * SIZE) as nat)
}

/// A grid and its game-over flag after a new tile: with no empty cell the
/// grid stays and the game is over; else the `f`-th empty cell gets the
/// start number of `pick`, and the game is over if it was or if the new
/// grid is stuck.
pub open spec fn after_spawn(g: Seq<Seq<int>>, over: bool, f: int, pick: int) -> (
    Seq<Seq<int>>,
    bool,
) {
    let e = empties(g);
    if e.len() == 0 {
        (g, true)
    } else {
        let h = with_cell(g, e[f].0 as int, e[f].1 as int, start_number(pick));
        (h, over || stuck(h))
    }
}

/// Whether the grid `h` with the flag `h_over` can come of the grid `g` with
/// the flag `over` by one new tile, whichever cell and start number are
/// drawn.
pub open spec fn spawn_of(g: Seq<Seq<int>>, over: bool, h: Seq<Seq<int>>, h_over: bool) -> bool {
    exists|f: int, pick: int|
        0 <= pick < 2 && (0 <= f < empties(g).len() || (f == 0 && empties(g).len() == 0))
            && #[trigger] after_spawn(g, over, f, pick) == (h, h_over)
}

/// The grid without a tile.
pub open spec fn zero_grid() -> Seq<Seq<int>> {
    Seq::new(SIZE as nat, |y: int| Seq::new(SIZE as nat, |x: int| 0int))
}

/// Whether a game can start with the grid `h`: the grid without a tile,
/// then one new tile, then another.
pub open spec fn fresh_game(h: Seq<Seq<int>>) -> bool {
    exists|mid: Seq<Seq<int>>|
        #[trigger] spawn_of(zero_grid(), false, mid, false) && spawn_of(mid, false, h, false)
}

/// The empty cells listed are cells of the grid that hold 0, and every such
/// cell among the first `n` is listed.
pub proof fn lemma_empties(g: Seq<Seq<int>>, n: nat)
    requires
        n <= SIZE * SIZE,
    ensures
        empties_upto(g, n).len() <= n,
        forall|k: int|
            0 <= k < empties_upto(g, n).len() ==> {
                let c = #[trigger] empties_upto(g, n)[k];
                in_grid(c.0 as int, c.1 as int) && g[c.0 as int][c.1 as int] == 0
            },
        forall|y: int, x: int|
            in_grid(y, x) && y * SIZE + x < n && #[trigger] g[y][x] == 0 ==> empties_upto(
                g,
                n,
            ).len() > 0,
    decreases n,
{
    if n > 0 {
        lemma_empties(g, (n - 1) as nat);
        let y = (n - 1) / SIZE as int;
        let x = (n - 1) % SIZE as int;
        assert(y * SIZE + x == n - 1);
        assert forall|k: int| 0 <= k < empties_upto(g, n).len() implies {
            let c = #[trigger] empties_upto(g, n)[k];
            in_grid(c.0 as int, c.1 as int) && g[c.0 as int][c.1 as int] == 0
        } by {
            if k < empties_upto(g, (n - 1) as nat).len() {
                assert(empties_upto(g, n)[k] == empties_upto(g, (n - 1) as nat)[k]);
            }
        }
    }
}

impl Field {
    /// The empty cells of the field, row by row.
    pub fn empty_fields(&self) -> (list: CellList)
        ensures
            cells_of(list) == empties(self.grid()),
    {
        let ghost g = self.grid();
        let mut list = CellList::new();
        for i in 0..SIZE
            invariant
                g == self.grid(),
                cells_of(list) == empties_upto(g, (i * SIZE) as nat),
        {
            for j in 0..SIZE
                invariant
                    g == self.grid(),
                    0 <= i < SIZE,
                    cells_of(list) == empties_upto(g, (i * SIZE + j) as nat),
            {
                proof {
                    let n = (i * SIZE + j + 1) as nat;
                    assert((n - 1) / SIZE as int == i);
                    assert((n - 1) % SIZE as int == j);
                }
                if self.numbers[i][j] == 0 {
                    list.push_cell((i, j));
                }
            }
        }
        list
    }

    /// Puts a new tile in the `f`-th empty cell, with the start number of
    /// `pick`, and ends the game if no move is left then. With no empty
    /// cell the game is over, and the cells stay as they are.
    pub fn add_item_at(&mut self, f: usize, pick: usize)
        requires
            f < empties(old(self).grid()).len() || empties(old(self).grid()).len() == 0,
            pick < 2,
        ensures
            (final(self).grid(), final(self).game_over) == after_spawn(
                old(self).grid(),
                old(self).game_over,
                f as int,
                pick as int,
            ),
            old(self).all_tiles() ==> final(self).all_tiles(),
            old(self).in_range() ==> final(self).in_range(),
    {
        let empty_fields = self.empty_fields();
        if empty_fields.len() == 0 {
            self.game_over = true;
            return ;
        }
        proof {
            lemma_empties(self.grid(), (SIZE * SIZE) as nat);
        }
        let cell = empty_fields.cell(f);
        self.place_item(cell, pick);
    }

    /// Puts a new tile in the cell, with the start number of `pick`, and
    /// ends the game if no move is left then.
    pub fn place_item(&mut self, cell: (usize, usize), pick: usize)
        requires
            in_grid(cell.0 as int, cell.1 as int),
            pick < 2,
        ensures
            final(self).grid() == with_cell(
                old(self).grid(),
                cell.0 as int,
                cell.1 as int,
                start_number(pick as int),
            ),
            final(self).game_over == (old(self).game_over || stuck(final(self).grid())),
            old(self).all_tiles() ==> final(self).all_tiles(),
            old(self).in_range() ==> final(self).in_range(),
    {
        let start_numbers: [i32; 2] = [2, 4];
        let new_number = start_numbers[pick];
        self.set(cell, new_number);
        proof {
            lemma_start_number_is_tile(pick as int);
        }
        if self.fail() {
            self.game_over = true;
        }
    }

    /// Puts a new tile, a 2 or a 4, in an empty cell, both drawn from `rng`,
    /// and ends the game if no move is left then. With no empty cell the
    /// game is over, and the cells stay as they are.
    pub fn add_item(&mut self, rng: &mut ThreadRng)
        ensures
            spawn_of(
                old(self).grid(),
                old(self).game_over,
                final(self).grid(),
                final(self).game_over,
            ),
            old(self).all_tiles() ==> final(self).all_tiles(),
            old(self).in_range() ==> final(self).in_range(),
    {
        let empty_fields = self.empty_fields();
        if empty_fields.len() == 0 {
            self.game_over = true;
            assert(after_spawn(old(self).grid(), old(self).game_over, 0, 0) == (
                self.grid(),
                self.game_over,
            ));
            return ;
        }
        let f = draw_below(rng, empty_fields.len());
        let pick = draw_below(rng, 2);
        proof {
            lemma_empties(self.grid(), (SIZE * SIZE) as nat);
        }
        let cell = empty_fields.cell(f);
        self.place_item(cell, pick);
        assert(after_spawn(old(self).grid(), old(self).game_over, f as int, pick as int) == (
            self.grid(),
            self.game_over,
        ));
    }

    /// Starts a new game: an empty field with two new tiles, one after the
    /// other. The game is not over then.
    pub fn new_game(&mut self, rng: &mut ThreadRng)
        ensures
            fresh_game(final(self).grid()),
            !final(self).game_over,
            final(self).in_range(),
            final(self).all_tiles(),
            final(self).consistent(),
    {
        *self = Field::new();
        let ghost g0 = self.grid();
        proof {
            assert forall|y: int| 0 <= y < SIZE implies #[trigger] g0[y] == zero_grid()[y] by {
                assert forall|x: int| 0 <= x < SIZE implies g0[y][x] == zero_grid()[y][x] by {
                    assert(in_grid(y, x));
                }
                assert(g0[y] =~= zero_grid()[y]);
            }
            assert(g0 =~= zero_grid());
            assert(in_grid(0, 0));
            lemma_room(g0, 0, 0);
        }
        self.add_item(rng);
        let ghost g1 = self.grid();
        let ghost (f1, pick1) = choose|f: int, pick: int|
            0 <= pick < 2 && (0 <= f < empties(g0).len() || (f == 0 && empties(g0).len() == 0))
                && #[trigger] after_spawn(g0, false, f, pick) == (g1, self.game_over);
        proof {
            lemma_empties(g0, (SIZE * SIZE) as nat);
            let c = empties(g0)[f1];
            assert(in_grid(0, 0) && in_grid(0, 1));
            if c.0 == 0 && c.1 == 0 {
                lemma_room(g1, 0, 1);
            } else {
                lemma_room(g1, 0, 0);
            }
        }
        self.add_item(rng);
        let ghost g2 = self.grid();
        let ghost (f2, pick2) = choose|f: int, pick: int|
            0 <= pick < 2 && (0 <= f < empties(g1).len() || (f == 0 && empties(g1).len() == 0))
                && #[trigger] after_spawn(g1, false, f, pick) == (g2, self.game_over);
        proof {
            lemma_empties(g1, (SIZE * SIZE) as nat);
            let c = empties(g0)[f1];
            let d = empties(g1)[f2];
            assert(in_grid(0, 0) && in_grid(0, 1) && in_grid(0, 2));
            if !(c.0 == 0 && c.1 == 0) && !(d.0 == 0 && d.1 == 0) {
                lemma_room(g2, 0, 0);
            } else if !(c.0 == 0 && c.1 == 1) && !(d.0 == 0 && d.1 == 1) {
                lemma_room(g2, 0, 1);
            } else {
                lemma_room(g2, 0, 2);
            }
            assert(spawn_of(zero_grid(), false, g1, false));
            assert(spawn_of(g1, false, g2, false));
        }
    }
}

/// After a new tile on a grid with an empty cell, in a game that was not
/// over, the game is over exactly when no move is left.
pub proof fn lemma_spawn_consistent(g: Seq<Seq<int>>)
    requires
        !full(g),
    ensures
        forall|h: Seq<Seq<int>>, h_over: bool| #[trigger]
            spawn_of(g, false, h, h_over) ==> h_over == stuck(h),
{
    let (y, x) = choose|y: int, x: int| in_grid(y, x) && g[y][x] == 0;
    lemma_room(g, y, x);
}

/// A grid with an empty cell is not stuck, and its list of empty cells is
/// not empty.
pub proof fn lemma_room(g: Seq<Seq<int>>, y: int, x: int)
    requires
        in_grid(y, x),
        g[y][x] == 0,
    ensures
        !stuck(g),
        empties(g).len() > 0,
{
    lemma_empties(g, (SIZE * SIZE) as nat);
}

/// Both start numbers are tiles.
pub proof fn lemma_start_number_is_tile(pick: int)
    ensures
        is_tile(start_number(pick)),
{
    reveal_with_fuel(vstd::arithmetic::power2::is_pow2, 4);
}

} // verus!
