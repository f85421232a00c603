//! One generation of the automaton on a torus.

use crate::grid::Board;
use crate::grid::Grid;
use crate::index::lemma_cell_of_flat_index;
use crate::index::lemma_flat_index_in_bounds;
use crate::index::lemma_flat_index_roundtrip;
use vstd::arithmetic::div_mod::lemma_fundamental_div_mod_converse_mod;
use vstd::prelude::*;

verus! {

/// The coordinate `i`, which may lie one step outside `0..n`, brought back
/// into `0..n` around the torus.
pub open spec fn wrap(i: int, n: int) -> int {
    (i + n) % n
}

/// What wrapping does to a coordinate of the grid and to its two neighbours.
pub proof fn lemma_wrap(i: int, n: int)
    requires
        0 <= i < n,
    ensures
        wrap(i, n) == i,
        wrap(i - 1, n) == if i == 0 { n - 1 } else { i - 1 },
        wrap(i + 1, n) == if i + 1 == n { 0 } else { i + 1 },
{
    lemma_fundamental_div_mod_converse_mod(i + n, n, 1, i);
    if i == 0 {
        lemma_fundamental_div_mod_converse_mod(i - 1 + n, n, 0, n - 1);
    } else {
        lemma_fundamental_div_mod_converse_mod(i - 1 + n, n, 1, i - 1);
    }
    if i + 1 == n {
        lemma_fundamental_div_mod_converse_mod(i + 1 + n, n, 2, 0);
    } else {
        lemma_fundamental_div_mod_converse_mod(i + 1 + n, n, 1, i + 1);
    }
}

impl Board {
    /// Whether the cell reached from `(x, y)` around the torus is alive;
    /// `x` and `y` may lie one step outside the board.
    pub open spec fn alive_on_torus(self, x: int, y: int) -> bool {
        self.alive(wrap(x, self.width as int), wrap(y, self.height as int))
    }

    /// What the cell reached from `(x, y)` adds to a count of live cells.
    pub open spec fn population(self, x: int, y: int) -> nat {
        if self.alive_on_torus(x, y) {
            1
        } else {
            0
        }
    }

    /// The number of live cells among the eight neighbours of `(x, y)` on the torus.
    pub open spec fn live_neighbors(self, x: int, y: int) -> nat {
        self.population(x - 1, y - 1) + self.population(x, y - 1) + self.population(x + 1, y - 1)
            + self.population(x - 1, y) + self.population(x + 1, y) + self.population(
            x - 1,
            y + 1,
        ) + self.population(x, y + 1) + self.population(x + 1, y + 1)
    }

    /// Whether the cell at `(x, y)` is alive in the next generation: with
    /// three live neighbours it is, with two it stays as it is, otherwise it is dead.
    pub open spec fn next_alive(self, x: int, y: int) -> bool {
        let n = self.live_neighbors(x, y);
        n == 3 || (n == 2 && self.alive(x, y))
    }

    /// The next generation of the whole board.
    pub open spec fn step(self) -> Board {
        Board {
            width: self.width,
            height: self.height,
            rows: Seq::new(
                self.height,
                |y: int| Seq::new(self.width, |x: int| self.next_alive(x, y)),
            ),
        }
    }
}

/// The coordinate before `i` on a ring of `n`.
fn wrap_prev(i: usize, n: usize) -> (r: usize)
    requires
        i < n,
    ensures
        r == wrap(i - 1, n as int),
        r < n,
{
    proof {
        lemma_wrap(i as int, n as int);
    }
    if i == 0 {
        n - 1
    } else {
        i - 1
    }
}

/// The coordinate after `i` on a ring of `n`.
fn wrap_next(i: usize, n: usize) -> (r: usize)
    requires
        i < n,
    ensures
        r == wrap(i + 1, n as int),
        r < n,
{
    proof {
        lemma_wrap(i as int, n as int);
        if i + 1 == n {
            lemma_fundamental_div_mod_converse_mod(i + 1, n as int, 1, 0);
        } else {
            lemma_fundamental_div_mod_converse_mod(i + 1, n as int, 0, i + 1);
        }
    }
    (i + 1) % n
}

/// One or zero, as the cell at `(x, y)` is alive or dead.
fn population_at(grid: &Grid, x: usize, y: usize) -> (n: u8)
    requires
        grid@.contains(x as int, y as int),
    ensures
        n == if grid@.alive(x as int, y as int) { 1int } else { 0int },
{
    if grid.get(x, y) {
        1
    } else {
        0
    }
}

/// The number of live cells among the eight neighbours of `(x, y)`, where
/// the left edge of the grid touches the right one and the top the bottom.
pub fn live_neighbors(grid: &Grid, x: usize, y: usize) -> (n: u8)
    requires
        grid@.contains(x as int, y as int),
    ensures
        n == grid@.live_neighbors(x as int, y as int),
        n <= 8,
{
    let w: usize = grid.width();
    let h: usize = grid.height();
    let left: usize = wrap_prev(x, w);
    let right: usize = wrap_next(x, w);
    let up: usize = wrap_prev(y, h);
    let down: usize = wrap_next(y, h);
    proof {
        lemma_wrap(x as int, w as int);
        lemma_wrap(y as int, h as int);
    }
    let above: u8 = population_at(grid, left, up) + population_at(grid, x, up) + population_at(
        grid,
        right,
        up,
    );
    let beside: u8 = population_at(grid, left, y) + population_at(grid, right, y);
    let below: u8 = population_at(grid, left, down) + population_at(grid, x, down) + population_at(
        grid,
        right,
        down,
    );
    above + beside + below
}

/// Whether the cell at `(x, y)` is alive in the next generation.
pub fn next_state(grid: &Grid, x: usize, y: usize) -> (alive: bool)
    requires
        grid@.contains(x as int, y as int),
    ensures
        alive == grid@.next_alive(x as int, y as int),
{
    let n: u8 = live_neighbors(grid, x, y);
    if n == 3 {
        true
    } else if n == 2 {
        grid.get(x, y)
    } else {
        false
    }
}

/// The next generation of `grid`, as a new grid of the same size; `grid` is
/// left as it is.
pub fn update(grid: &Grid) -> (next: Grid)
    ensures
        next@ == grid@.step(),
        next@.width == grid@.width,
        next@.height == grid@.height,
        next@.wf(),
        grid@.wf(),
{
    let w: usize = grid.width();
    let h: usize = grid.height();
    let n: usize = grid.cell_count();
    let mut cells: Vec<bool> = Vec::new();
    let mut i: usize = 0;
    while i < n
        invariant
            i <= n,
            n == w * h,
            w == grid@.width,
            h == grid@.height,
            w > 0,
            cells@.len() == i,
            forall|k: int|
                0 <= k < i ==> #[trigger] cells@[k] == grid@.next_alive(k % (w as int), k / (w as int)),
        decreases n - i,
    {
        proof {
            lemma_cell_of_flat_index(i as int, w as int, h as int);
        }
        let x: usize = i % w;
        let y: usize = i / w;
        cells.push(next_state(grid, x, y));
        i += 1;
    }
    let next = Grid::from_cells(w, h, cells).unwrap();
    proof {
        let target = grid@.step();
        assert forall|y: int| 0 <= y < h implies #[trigger] next@.rows[y] == target.rows[y] by {
            assert forall|x: int| 0 <= x < w implies next@.rows[y][x] == target.rows[y][x] by {
                lemma_flat_index_in_bounds(x, y, w as int, h as int);
                lemma_flat_index_roundtrip(x, y, w as int);
            }
            assert(next@.rows[y] =~= target.rows[y]);
        }
        assert(next@.rows =~= target.rows);
    }
    next
}

/// A generation keeps the size of the board, and is a board in its own right.
pub proof fn lemma_step_preserves_dimensions(board: Board)
    requires
        board.wf(),
    ensures
        board.step().width == board.width,
        board.step().height == board.height,
        board.step().wf(),
{
}

/// Each cell of the next generation is what the rule makes of the cell and
/// its neighbours in this one.
pub proof fn lemma_step_cell(board: Board, x: int, y: int)
    requires
        board.wf(),
        board.contains(x, y),
    ensures
        board.step().alive(x, y) == board.next_alive(x, y),
{
}

/// The next generation depends on nothing but the size of the board and its
/// cells: two boards of one size that agree on every cell have the same
/// next generation.
pub proof fn lemma_step_deterministic(a: Board, b: Board)
    requires
        a.wf(),
        b.wf(),
        a.width == b.width,
        a.height == b.height,
        forall|x: int, y: int| a.contains(x, y) ==> a.alive(x, y) == b.alive(x, y),
    ensures
        a == b,
        a.step() == b.step(),
{
    assert forall|y: int| 0 <= y < a.height implies #[trigger] a.rows[y] == b.rows[y] by {
        assert forall|x: int| 0 <= x < a.width implies a.rows[y][x] == b.rows[y][x] by {
            assert(a.contains(x, y));
            assert(a.alive(x, y) == b.alive(x, y));
        }
        assert(a.rows[y] =~= b.rows[y]);
    }
    assert(a.rows =~= b.rows);
}

/// The board is a torus in both directions at once: where the cell at the
/// origin is the only live one, on a board of at least three by three, the
/// cell in the opposite corner has it as its one live neighbour.
pub proof fn lemma_opposite_corner_touches_origin(board: Board)
    requires
        board.wf(),
        board.width >= 3,
        board.height >= 3,
        forall|x: int, y: int|
            board.contains(x, y) ==> (#[trigger] board.alive(x, y) <==> x == 0 && y == 0),
    ensures
        wrap(board.width as int, board.width as int) == 0,
        wrap(board.height as int, board.height as int) == 0,
        board.population(board.width as int, board.height as int) == 1,
        board.live_neighbors(board.width - 1, board.height - 1) == 1,
{
    let w = board.width as int;
    let h = board.height as int;
    lemma_wrap(w - 1, w);
    lemma_wrap(h - 1, h);
    assert(board.contains(0, 0));
    assert(board.contains(w - 2, 0));
    assert(board.contains(w - 1, 0));
    assert(board.contains(0, h - 2));
    assert(board.contains(0, h - 1));
    assert(board.contains(w - 2, h - 2));
    assert(board.contains(w - 1, h - 2));
    assert(board.contains(w - 2, h - 1));
}

/// The rule is Conway's: a live cell lives on with two or three live
/// neighbours, a dead cell comes alive with exactly three, and every other
/// cell is dead in the next generation.
pub proof fn lemma_rule_is_conway(board: Board, x: int, y: int)
    requires
        board.wf(),
        board.contains(x, y),
    ensures
        board.live_neighbors(x, y) <= 8,
        board.step().alive(x, y) == if board.alive(x, y) {
            board.live_neighbors(x, y) == 2 || board.live_neighbors(x, y) == 3
        } else {
            board.live_neighbors(x, y) == 3
        },
{
}

/// A live cell with no live neighbour is dead in the next generation.
pub proof fn lemma_isolated_cell_dies(board: Board, x: int, y: int)
    requires
        board.wf(),
        board.contains(x, y),
        board.alive(x, y),
        board.live_neighbors(x, y) == 0,
    ensures
        !board.step().alive(x, y),
{
}

/// A dead cell with exactly three live neighbours is alive in the next
/// generation; with exactly two it stays dead.
pub proof fn lemma_birth_takes_three(board: Board, x: int, y: int)
    requires
        board.wf(),
        board.contains(x, y),
        !board.alive(x, y),
    ensures
        board.live_neighbors(x, y) == 3 ==> board.step().alive(x, y),
        board.live_neighbors(x, y) == 2 ==> !board.step().alive(x, y),
{
}

/// Whether `(x, y)` is one of the four cells of the block whose corner with
/// the least coordinates is `(x0, y0)`.
pub open spec fn in_block(x0: int, y0: int, x: int, y: int) -> bool {
    x0 <= x <= x0 + 1 && y0 <= y <= y0 + 1
}

/// A block of two by two live cells, alone on a board of at least four by
/// four, is a still life: the next generation is the same board.
pub proof fn lemma_block_is_still(board: Board, x0: int, y0: int)
    requires
        board.wf(),
        board.width >= 4,
        board.height >= 4,
        board.contains(x0, y0),
        board.contains(x0 + 1, y0 + 1),
        forall|x: int, y: int|
            board.contains(x, y) ==> (#[trigger] board.alive(x, y) <==> in_block(x0, y0, x, y)),
    ensures
        board.step() == board,
{
    let w = board.width as int;
    let h = board.height as int;
    let next = board.step();
    assert forall|y: int| 0 <= y < h implies #[trigger] next.rows[y] == board.rows[y] by {
        assert forall|x: int| 0 <= x < w implies next.rows[y][x] == board.rows[y][x] by {
            lemma_wrap(x, w);
            lemma_wrap(y, h);
            let l = wrap(x - 1, w);
            let r = wrap(x + 1, w);
            let u = wrap(y - 1, h);
            let d = wrap(y + 1, h);
            assert(board.contains(l, u) && board.contains(x, u) && board.contains(r, u));
            assert(board.contains(l, y) && board.contains(x, y) && board.contains(r, y));
            assert(board.contains(l, d) && board.contains(x, d) && board.contains(r, d));
            assert(board.next_alive(x, y) == board.alive(x, y));
        }
        assert(next.rows[y] =~= board.rows[y]);
    }
    assert(next.rows =~= board.rows);
}

/// A block of two by two live cells with two rings of dead cells around it
/// lasts, whatever lies further away: in the next generation the block and
/// the ring next to it are as they were.
pub proof fn lemma_isolated_block_lasts(board: Board, x0: int, y0: int)
    requires
        board.wf(),
        board.contains(x0 - 2, y0 - 2),
        board.contains(x0 + 3, y0 + 3),
        forall|x: int, y: int|
            x0 - 2 <= x <= x0 + 3 && y0 - 2 <= y <= y0 + 3 ==> (#[trigger] board.alive(x, y)
                <==> in_block(x0, y0, x, y)),
    ensures
        forall|x: int, y: int|
            x0 - 1 <= x <= x0 + 2 && y0 - 1 <= y <= y0 + 2 ==> #[trigger] board.step().alive(x, y)
                == in_block(x0, y0, x, y),
{
    let w = board.width as int;
    let h = board.height as int;
    assert forall|x: int, y: int|
        x0 - 1 <= x <= x0 + 2 && y0 - 1 <= y <= y0 + 2 implies #[trigger] board.step().alive(x, y)
        == in_block(x0, y0, x, y) by {
        lemma_wrap(x, w);
        lemma_wrap(y, h);
        lemma_step_cell(board, x, y);
        assert(board.next_alive(x, y) == in_block(x0, y0, x, y));
    }
}

} // verus!
