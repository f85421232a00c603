//! The grid of cells and its mathematical model.

use crate::index::lemma_flat_index_in_bounds;
use crate::index::lemma_flat_index_injective;
use vstd::prelude::*;

verus! {

/// The mathematical model of a grid: `height` rows of `width` cells each.
/// `rows[y][x]` tells whether the cell in column `x` of row `y` is alive.
pub struct Board {
    pub width: nat,
    pub height: nat,
    pub rows: Seq<Seq<bool>>,
}

impl Board {
    /// A board has at least one row and one column, and every row is full.
    pub open spec fn wf(self) -> bool {
        &&& self.width > 0
        &&& self.height > 0
        &&& self.rows.len() == self.height
        &&& forall|y: int| 0 <= y < self.height ==> (#[trigger] self.rows[y]).len() == self.width
    }

    /// Whether `(x, y)` names a cell of the board.
    pub open spec fn contains(self, x: int, y: int) -> bool {
        0 <= x < self.width && 0 <= y < self.height
    }

    /// Whether the cell at `(x, y)` is alive.
    pub open spec fn alive(self, x: int, y: int) -> bool
        recommends
            self.contains(x, y),
    {
        self.rows[y][x]
    }

    /// The board of the given size whose cells lie row after row in `cells`.
    pub open spec fn from_flat(width: nat, height: nat, cells: Seq<bool>) -> Board {
        Board {
            width,
            height,
            rows: Seq::new(height, |y: int| Seq::new(width, |x: int| cells[y * width + x])),
        }
    }

    /// The board of the given size with no live cell.
    pub open spec fn dead(width: nat, height: nat) -> Board {
        Board { width, height, rows: Seq::new(height, |y: int| Seq::new(width, |x: int| false)) }
    }

    /// The board that differs from this one at most at `(x, y)`, where it holds `alive`.
    pub open spec fn with_cell(self, x: int, y: int, alive: bool) -> Board
        recommends
            self.contains(x, y),
    {
        Board { rows: self.rows.update(y, self.rows[y].update(x, alive)), ..self }
    }
}

/// Why a grid could not be built.
#[derive(Debug, Clone, Copy, PartialEq, Eq, Structural)]
pub enum GridError {
    /// The width or the height is zero, or they do not fit the cells given.
    InvalidDimensions,
}

/// A rectangular grid of cells, stored row after row in one buffer.
#[derive(Debug, PartialEq, Eq)]
pub struct Grid {
    width: usize,
    height: usize,
    cells: Vec<bool>,
}

impl View for Grid {
    type V = Board;

    closed spec fn view(&self) -> Board {
        Board::from_flat(self.width as nat, self.height as nat, self.cells@)
    }
}

impl Clone for Grid {
    /// A grid of the same size with the same cells.
    fn clone(&self) -> (copy: Grid)
        ensures
            copy@ == self@,
            copy@.wf(),
    {
        proof {
            use_type_invariant(self);
        }
        let cells = self.cells.clone();
        assert(cells@ =~= self.cells@);
        Grid { width: self.width, height: self.height, cells }
    }
}

impl Grid {
    /// The invariant of the representation: both dimensions are positive and
    /// the buffer holds exactly one entry for each cell.
    #[verifier::type_invariant]
    closed spec fn inv(&self) -> bool {
        &&& self.width > 0
        &&& self.height > 0
        &&& self.cells.len() == self.width * self.height
    }

    /// A grid of the given size with every cell dead.
    pub fn new(width: usize, height: usize) -> (r: Result<Grid, GridError>)
        requires
            width * height <= usize::MAX,
        ensures
            r is Err <==> width == 0 || height == 0,
            r is Err ==> r == Err::<Grid, GridError>(GridError::InvalidDimensions),
            r is Ok ==> r.unwrap()@ == Board::dead(width as nat, height as nat),
            r is Ok ==> r.unwrap()@.wf(),
    {
        if width == 0 || height == 0 {
            return Err(GridError::InvalidDimensions);
        }
        let n: usize = width * height;
        let mut cells: Vec<bool> = Vec::new();
        let mut i: usize = 0;
        while i < n
            invariant
                i <= n,
                cells@.len() == i,
                forall|j: int| 0 <= j < i ==> !cells@[j],
            decreases n - i,
        {
            cells.push(false);
            i += 1;
        }
        let grid = Grid { width, height, cells };
        proof {
            let w = width as nat;
            let h = height as nat;
            assert forall|y: int| 0 <= y < h implies #[trigger] grid@.rows[y] == Seq::new(
                w,
                |x: int| false,
            ) by {
                assert forall|x: int| 0 <= x < w implies grid@.rows[y][x] == false by {
                    lemma_flat_index_in_bounds(x, y, w as int, h as int);
                }
                assert(grid@.rows[y] =~= Seq::new(w, |x: int| false));
            }
            assert(grid@.rows =~= Board::dead(w, h).rows);
        }
        Ok(grid)
    }

    /// A grid of the given size whose cells are taken row after row from
    /// `cells`: the cell at `(x, y)` is `cells[y * width + x]`.
    pub fn from_cells(width: usize, height: usize, cells: Vec<bool>) -> (r: Result<Grid, GridError>)
        ensures
            r is Err <==> width == 0 || height == 0 || cells@.len() != width * height,
            r is Err ==> r == Err::<Grid, GridError>(GridError::InvalidDimensions),
            r is Ok ==> r.unwrap()@ == Board::from_flat(width as nat, height as nat, cells@),
            r is Ok ==> r.unwrap()@.wf(),
    {
        if width == 0 || height == 0 {
            return Err(GridError::InvalidDimensions);
        }
        assert(cells.len() <= usize::MAX);
        match width.checked_mul(height) {
            Some(n) => {
                if cells.len() != n {
                    return Err(GridError::InvalidDimensions);
                }
            },
            None => {
                return Err(GridError::InvalidDimensions);
            },
        }
        Ok(Grid { width, height, cells })
    }

    /// The number of cells, which fits the machine's index type.
    pub fn cell_count(&self) -> (n: usize)
        ensures
            n == self@.width * self@.height,
            self@.wf(),
    {
        proof {
            use_type_invariant(self);
        }
        self.cells.len()
    }

    /// The number of columns.
    pub fn width(&self) -> (w: usize)
        ensures
            w == self@.width,
            w > 0,
            self@.wf(),
    {
        proof {
            use_type_invariant(self);
        }
        self.width
    }

    /// The number of rows.
    pub fn height(&self) -> (h: usize)
        ensures
            h == self@.height,
            h > 0,
            self@.wf(),
    {
        proof {
            use_type_invariant(self);
        }
        self.height
    }

    /// Whether the cell at `(x, y)` is alive.
    pub fn get(&self, x: usize, y: usize) -> (alive: bool)
        requires
            self@.contains(x as int, y as int),
        ensures
            alive == self@.alive(x as int, y as int),
            self@.wf(),
    {
        proof {
            use_type_invariant(self);
            lemma_flat_index_in_bounds(x as int, y as int, self.width as int, self.height as int);
        }
        self.cells[y * self.width + x]
    }

    /// Makes the cell at `(x, y)` alive or dead and leaves every other cell as it was.
    pub fn set(&mut self, x: usize, y: usize, alive: bool)
        requires
            old(self)@.contains(x as int, y as int),
        ensures
            final(self)@ == old(self)@.with_cell(x as int, y as int, alive),
            final(self)@.wf(),
    {
        proof {
            use_type_invariant(&*self);
            lemma_flat_index_in_bounds(x as int, y as int, self.width as int, self.height as int);
        }
        let i: usize = y * self.width + x;
        self.cells[i] = alive;
        proof {
            let w = self.width as int;
            let h = self.height as int;
            let target = old(self)@.with_cell(x as int, y as int, alive);
            assert(target.rows.len() == h);
            assert(old(self)@.rows[y as int].len() == w);
            assert forall|yy: int| 0 <= yy < h implies #[trigger] self@.rows[yy] == target.rows[yy] by {
                assert forall|xx: int| 0 <= xx < w implies self@.rows[yy][xx] == target.rows[yy][xx] by {
                    lemma_flat_index_in_bounds(xx, yy, w, h);
                    if yy * w + xx == y * w + x {
                        lemma_flat_index_injective(xx, yy, x as int, y as int, w);
                    }
                }
                assert(self@.rows[yy] =~= target.rows[yy]);
            }
            assert(self@.rows =~= target.rows);
        }
    }
}

} // verus!
