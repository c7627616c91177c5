use vstd::prelude::*;
use crate::error::BoardError;
use crate::laws::lemma_dead_grid;
use crate::grid::{Grid, lemma_from_fn, lemma_grids_equal, lemma_offset_in_range, lemma_with_cell};

verus! {

/// A column `x` and a row `y`: a position on a board, or the size of one.
#[derive(Debug, Clone, Copy, PartialEq, Eq)]
pub struct Coords {
    pub x: usize,
    pub y: usize,
}

/// A board of fixed size. Its cells never number anything but width times
/// height, and neither dimension is zero.
#[derive(Debug, PartialEq, Eq)]
pub struct Board {
    dims: Coords,
    cells: Vec<bool>,
}

impl View for Board {
    type V = Grid;

    closed spec fn view(&self) -> Grid {
        Grid { width: self.dims.x as nat, height: self.dims.y as nat, cells: self.cells@ }
    }
}

/// The cells handed to [`Board::new`], as a sequence.
pub open spec fn given_cells(cells: Option<Vec<bool>>) -> Option<Seq<bool>> {
    match cells {
        Some(given) => Some(given@),
        None => None,
    }
}

impl Board {
    #[verifier::type_invariant]
    spec fn inv(&self) -> bool {
        self@.wf()
    }

    /// Builds a board of the given size: from `cells` in row-major order, or
    /// with every cell dead where none are given. A board without cells can
    /// be asked for only in a size whose area is a `usize`.
    pub fn new(dims: Coords, cells: Option<Vec<bool>>) -> (made: Result<Board, BoardError>)
        requires
            cells is None ==> dims.x * dims.y <= usize::MAX,
        ensures
            match made {
                Ok(board) => Grid::build(dims.x as nat, dims.y as nat, given_cells(cells)) == Ok::<
                    Grid,
                    BoardError,
                >(board@),
                Err(error) => Grid::build(dims.x as nat, dims.y as nat, given_cells(cells)) == Err::<
                    Grid,
                    BoardError,
                >(error),
            },
            made matches Ok(board) ==> board@.wf(),
            dims.x * dims.y == 0 ==> made matches Err(BoardError::InvalidDimensions),
            dims.x * dims.y != 0 && cells is Some && cells->0@.len() != dims.x * dims.y
                ==> made matches Err(BoardError::SizeMismatch),
            dims.x * dims.y != 0 && cells is None ==> made is Ok && made->Ok_0@.all_dead(),
    {
        if dims.x == 0 || dims.y == 0 {
            assert(dims.x * dims.y == 0) by (nonlinear_arith)
                requires
                    dims.x == 0 || dims.y == 0,
            ;
            return Err(BoardError::InvalidDimensions);
        }
        assert(dims.x * dims.y != 0) by (nonlinear_arith)
            requires
                dims.x > 0,
                dims.y > 0,
        ;
        let cells = match cells {
            Some(given) => {
                let num_given: usize = given.len();
                match dims.x.checked_mul(dims.y) {
                    Some(num_cells) if num_given == num_cells => given,
                    _ => {
                        return Err(BoardError::SizeMismatch);
                    },
                }
            },
            None => {
                let num_cells: usize = dims.x * dims.y;
                let fresh = vec![false; num_cells];
                proof {
                    assert(fresh@ =~= Grid::dead(dims.x as nat, dims.y as nat).cells);
                    lemma_dead_grid(dims.x as nat, dims.y as nat);
                }
                fresh
            },
        };
        Ok(Board { dims, cells })
    }

    /// The number of rows.
    pub fn dim_y(&self) -> (height: usize)
        ensures
            height == self@.height,
            self@.wf(),
            self@.cells.len() <= usize::MAX,
    {
        proof {
            use_type_invariant(self);
            assert(self.cells.len() == self.cells@.len());
        }
        self.dims.y
    }

    /// The number of columns.
    pub fn dim_x(&self) -> (width: usize)
        ensures
            width == self@.width,
            self@.wf(),
            self@.cells.len() <= usize::MAX,
    {
        proof {
            use_type_invariant(self);
            assert(self.cells.len() == self.cells@.len());
        }
        self.dims.x
    }

    /// Where the cell at `coords` stands among the cells.
    fn index(&self, coords: &Coords) -> (at: usize)
        requires
            self@.in_bounds(coords.x as int, coords.y as int),
        ensures
            at == self@.offset_of(coords.x as int, coords.y as int),
            at < self@.cells.len(),
            self@.wf(),
    {
        proof {
            use_type_invariant(self);
            lemma_offset_in_range(
                self.dims.x as int,
                self.dims.y as int,
                coords.x as int,
                coords.y as int,
            );
            assert(self.cells.len() == self.cells@.len());
        }
        coords.y * self.dims.x + coords.x
    }

    /// Whether the cell at `coords` is alive.
    pub fn alive(&self, coords: &Coords) -> (state: bool)
        requires
            self@.in_bounds(coords.x as int, coords.y as int),
        ensures
            state == self@.alive(coords.x as int, coords.y as int),
            self@.wf(),
    {
        let at = self.index(coords);
        self.cells[at]
    }

    /// Makes the cell at `coords` alive or dead and leaves every other cell as it is.
    pub(crate) fn set_alive(&mut self, coords: &Coords, alive: bool)
        requires
            old(self)@.in_bounds(coords.x as int, coords.y as int),
        ensures
            final(self)@ == old(self)@.with_cell(coords.x as int, coords.y as int, alive),
            final(self)@.wf(),
    {
        let at = self.index(coords);
        self.cells[at] = alive;
    }

    /// Lays `board` on a copy of this board, its corner at `insert_coords`. The
    /// cells of `board` replace those under them, the dead ones too. It must
    /// leave a column free on the right and a row free below.
    pub fn add(&self, board: Board, insert_coords: Coords) -> (made: Result<Board, BoardError>)
        ensures
            match made {
                Ok(sum) => {
                    &&& self@.fits(board@, insert_coords.x as int, insert_coords.y as int)
                    &&& sum@ == self@.overlay(board@, insert_coords.x as int, insert_coords.y as int)
                    &&& sum@.wf()
                },
                Err(error) => {
                    &&& error == BoardError::OutOfBounds
                    &&& !self@.fits(board@, insert_coords.x as int, insert_coords.y as int)
                },
            },
    {
        let mut new_board = self.clone();
        let fits_below = match insert_coords.y.checked_add(board.dim_y()) {
            Some(bottom) => bottom < self.dim_y(),
            None => false,
        };
        let fits_right = match insert_coords.x.checked_add(board.dim_x()) {
            Some(right) => right < self.dim_x(),
            None => false,
        };
        if !fits_below || !fits_right {
            return Err(BoardError::OutOfBounds);
        }
        let ghost left = insert_coords.x as int;
        let ghost top = insert_coords.y as int;
        let rows = board.dim_y();
        let columns = board.dim_x();
        for y in 0..rows
            invariant
                rows == board@.height,
                columns == board@.width,
                self@.wf(),
                board@.wf(),
                new_board@.wf(),
                new_board@.width == self@.width,
                new_board@.height == self@.height,
                left == insert_coords.x,
                top == insert_coords.y,
                self@.fits(board@, left, top),
                forall|px: int, py: int| #[trigger]
                    new_board@.alive(px, py) == if board@.in_bounds(px - left, py - top) && py - top
                        < y {
                        board@.alive(px - left, py - top)
                    } else {
                        self@.alive(px, py)
                    },
        {
            for x in 0..columns
                invariant
                    rows == board@.height,
                    columns == board@.width,
                    self@.wf(),
                    board@.wf(),
                    new_board@.wf(),
                    new_board@.width == self@.width,
                    new_board@.height == self@.height,
                    left == insert_coords.x,
                    top == insert_coords.y,
                    self@.fits(board@, left, top),
                    0 <= y < board@.height,
                    forall|px: int, py: int| #[trigger]
                        new_board@.alive(px, py) == if board@.in_bounds(px - left, py - top) && (py
                            - top < y || (py - top == y && px - left < x)) {
                            board@.alive(px - left, py - top)
                        } else {
                            self@.alive(px, py)
                        },
            {
                let new_coords = Coords { x: x + insert_coords.x, y: y + insert_coords.y };
                let state = board.alive(&Coords { x, y });
                proof {
                    lemma_with_cell(new_board@, new_coords.x as int, new_coords.y as int, state);
                }
                new_board.set_alive(&new_coords, state);
            }
        }
        proof {
            let laid = self@.overlay(board@, left, top);
            lemma_from_fn(
                self@.width,
                self@.height,
                |x: int, y: int|
                    if board@.in_bounds(x - left, y - top) {
                        board@.alive(x - left, y - top)
                    } else {
                        self@.alive(x, y)
                    },
            );
            lemma_grids_equal(new_board@, laid);
        }
        Ok(new_board)
    }
}

impl Clone for Board {
    /// A board of the same size with the same cells.
    fn clone(&self) -> (copy: Board)
        ensures
            copy@ == self@,
    {
        proof {
            use_type_invariant(self);
        }
        let cells = self.cells.clone();
        assert(cells@ =~= self.cells@);
        Board { dims: Coords { x: self.dims.x, y: self.dims.y }, cells }
    }
}

} // verus!
