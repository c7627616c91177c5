use vstd::prelude::*;
use crate::error::BoardError;
use vstd::arithmetic::div_mod::{lemma_fundamental_div_mod, lemma_fundamental_div_mod_converse};

verus! {

/// The mathematical model of a board: its two dimensions and its cells in
/// row-major order, the cell at column `x` of row `y` at index `y * width + x`.
pub struct Grid {
    pub width: nat,
    pub height: nat,
    pub cells: Seq<bool>,
}

/// One for a live cell, nothing for a dead one.
pub open spec fn count(alive: bool) -> nat {
    if alive {
        1
    } else {
        0
    }
}

impl Grid {
    /// Both dimensions are positive and there is one cell per position.
    pub open spec fn wf(self) -> bool {
        &&& self.width > 0
        &&& self.height > 0
        &&& self.cells.len() == self.width * self.height
    }

    /// Whether `(x, y)` names a position of the grid.
    pub open spec fn in_bounds(self, x: int, y: int) -> bool {
        0 <= x < self.width && 0 <= y < self.height
    }

    /// Where the cell at `(x, y)` stands in `cells`.
    pub open spec fn offset_of(self, x: int, y: int) -> int {
        y * self.width + x
    }

    /// Whether the cell at `(x, y)` is alive. Every position off the grid is dead.
    pub open spec fn alive(self, x: int, y: int) -> bool {
        self.in_bounds(x, y) && self.cells[self.offset_of(x, y)]
    }

    /// The grid that differs from this one at `(x, y)` alone, where it holds `state`.
    pub open spec fn with_cell(self, x: int, y: int, state: bool) -> Grid {
        Grid { cells: self.cells.update(self.offset_of(x, y), state), ..self }
    }

    /// The grid of the given dimensions whose cell at `(x, y)` holds `state(x, y)`.
    pub open spec fn from_fn(width: nat, height: nat, state: spec_fn(int, int) -> bool) -> Grid {
        Grid {
            width,
            height,
            cells: Seq::new(width * height, |i: int| state(i % (width as int), i / (width as int))),
        }
    }

    /// The grid of the given dimensions with every cell dead.
    pub open spec fn dead(width: nat, height: nat) -> Grid {
        Grid::from_fn(width, height, |x: int, y: int| false)
    }

    /// What building a grid of the given dimensions gives: the grid that holds
    /// `cells`, or the dead grid where none are given, or the reason why there
    /// is no such grid.
    pub open spec fn build(width: nat, height: nat, cells: Option<Seq<bool>>) -> Result<
        Grid,
        BoardError,
    > {
        if width * height == 0 {
            Err(BoardError::InvalidDimensions)
        } else {
            match cells {
                Some(given) => if given.len() != width * height {
                    Err(BoardError::SizeMismatch)
                } else {
                    Ok(Grid { width, height, cells: given })
                },
                None => Ok(Grid::dead(width, height)),
            }
        }
    }

    /// Whether no cell is alive.
    pub open spec fn all_dead(self) -> bool {
        forall|x: int, y: int| !self.alive(x, y)
    }

    /// Whether `other`, laid on this grid with its corner at `(left, top)`,
    /// leaves at least one column free on the right and one row free below.
    pub open spec fn fits(self, other: Grid, left: int, top: int) -> bool {
        left + other.width < self.width && top + other.height < self.height
    }

    /// This grid with `other` laid on it, the corner of `other` at `(left, top)`:
    /// under `other` every cell takes the state that `other` has there, alive or
    /// dead; every other cell stays as it is.
    pub open spec fn overlay(self, other: Grid, left: int, top: int) -> Grid {
        Grid::from_fn(
            self.width,
            self.height,
            |x: int, y: int|
                if other.in_bounds(x - left, y - top) {
                    other.alive(x - left, y - top)
                } else {
                    self.alive(x, y)
                },
        )
    }

    /// How many of the eight cells around `(x, y)` are alive.
    pub open spec fn live_neighbors(self, x: int, y: int) -> nat {
        count(self.alive(x - 1, y - 1)) + count(self.alive(x, y - 1)) + count(
            self.alive(x + 1, y - 1),
        ) + count(self.alive(x - 1, y)) + count(self.alive(x + 1, y)) + count(
            self.alive(x - 1, y + 1),
        ) + count(self.alive(x, y + 1)) + count(self.alive(x + 1, y + 1))
    }

    /// Whether the cell at `(x, y)` is alive in the next generation: a live cell
    /// with two or three live neighbours stays alive, a dead cell with exactly
    /// three comes alive, every other cell is dead.
    pub open spec fn next_alive(self, x: int, y: int) -> bool {
        let around = self.live_neighbors(x, y);
        if self.alive(x, y) {
            around == 2 || around == 3
        } else {
            around == 3
        }
    }

    /// The next generation: every cell computed from this grid alone.
    pub open spec fn step(self) -> Grid {
        Grid::from_fn(self.width, self.height, |x: int, y: int| self.next_alive(x, y))
    }
}

/// A position inside a `width` by `height` grid has its index inside the cells,
/// and the index gives the position back.
pub proof fn lemma_offset_in_range(width: int, height: int, x: int, y: int)
    requires
        0 <= x < width,
        0 <= y < height,
    ensures
        0 <= y * width + x < width * height,
        (y * width + x) % width == x,
        (y * width + x) / width == y,
{
    assert(y * width + width <= width * height) by (nonlinear_arith)
        requires
            0 <= y < height,
            0 < width,
    ;
    assert(y * width >= 0) by (nonlinear_arith)
        requires
            0 <= y,
            0 < width,
    ;
    lemma_fundamental_div_mod_converse(y * width + x, width, y, x);
}

/// An index inside the cells of a `width` by `height` grid is that of one
/// position inside the grid.
pub proof fn lemma_position_in_range(width: int, height: int, i: int)
    requires
        0 < width,
        0 <= i < width * height,
    ensures
        0 <= i % width < width,
        0 <= i / width < height,
        (i / width) * width + i % width == i,
{
    lemma_fundamental_div_mod(i, width);
    let row = i / width;
    let column = i % width;
    assert(width * row == row * width) by (nonlinear_arith);
    assert(0 <= row < height) by (nonlinear_arith)
        requires
            0 < width,
            0 <= column < width,
            0 <= row * width + column < width * height,
    ;
}

/// A grid made from a function is well formed and holds at each of its
/// positions what the function gives there.
pub proof fn lemma_from_fn(width: nat, height: nat, state: spec_fn(int, int) -> bool)
    requires
        width > 0,
        height > 0,
    ensures
        Grid::from_fn(width, height, state).wf(),
        Grid::from_fn(width, height, state).width == width,
        Grid::from_fn(width, height, state).height == height,
        forall|x: int, y: int|
            0 <= x < width && 0 <= y < height ==> #[trigger] Grid::from_fn(
                width,
                height,
                state,
            ).alive(x, y) == state(x, y),
{
    let made = Grid::from_fn(width, height, state);
    assert forall|x: int, y: int| 0 <= x < width && 0 <= y < height implies #[trigger] made.alive(
        x,
        y,
    ) == state(x, y) by {
        lemma_offset_in_range(width as int, height as int, x, y);
    }
}

/// Two well-formed grids of one size with the same state at every position
/// are the same grid.
pub proof fn lemma_grids_equal(a: Grid, b: Grid)
    requires
        a.wf(),
        b.wf(),
        a.width == b.width,
        a.height == b.height,
        forall|x: int, y: int| a.in_bounds(x, y) ==> a.alive(x, y) == b.alive(x, y),
    ensures
        a == b,
{
    assert forall|i: int| 0 <= i < a.cells.len() implies a.cells[i] == b.cells[i] by {
        lemma_position_in_range(a.width as int, a.height as int, i);
        let x = i % (a.width as int);
        let y = i / (a.width as int);
        assert(a.in_bounds(x, y));
        assert(a.alive(x, y) == b.alive(x, y));
    }
    assert(a.cells =~= b.cells);
}

/// Setting one cell changes that cell and no other.
pub proof fn lemma_with_cell(grid: Grid, x: int, y: int, state: bool)
    requires
        grid.wf(),
        grid.in_bounds(x, y),
    ensures
        grid.with_cell(x, y, state).wf(),
        grid.with_cell(x, y, state).width == grid.width,
        grid.with_cell(x, y, state).height == grid.height,
        forall|px: int, py: int| #[trigger]
            grid.with_cell(x, y, state).alive(px, py) == if px == x && py == y {
                state
            } else {
                grid.alive(px, py)
            },
{
    let changed = grid.with_cell(x, y, state);
    lemma_offset_in_range(grid.width as int, grid.height as int, x, y);
    assert forall|px: int, py: int| #[trigger]
        changed.alive(px, py) == if px == x && py == y {
            state
        } else {
            grid.alive(px, py)
        } by {
        if grid.in_bounds(px, py) {
            lemma_offset_in_range(grid.width as int, grid.height as int, px, py);
        }
    }
}

} // verus!
