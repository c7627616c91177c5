use vstd::prelude::*;
use crate::board::{Board, Coords};
use crate::direction::Direction;
use crate::laws::lemma_all_dead_is_fixed;
use crate::grid::{Grid, count, lemma_from_fn, lemma_grids_equal, lemma_with_cell};

verus! {

impl Grid {
    /// Whether the cell one step from `(x, y)` in direction `dir` is alive.
    pub open spec fn neighbor_alive(self, x: int, y: int, dir: Direction) -> bool {
        self.alive(x + dir.delta().0, y + dir.delta().1)
    }

    /// How many of the cells one step from `(x, y)` in the directions `dirs` are alive.
    pub open spec fn live_among(self, dirs: Seq<Direction>, x: int, y: int) -> nat
        decreases dirs.len(),
    {
        if dirs.len() == 0 {
            0
        } else {
            self.live_among(dirs.drop_last(), x, y) + count(
                self.neighbor_alive(x, y, dirs.last()),
            )
        }
    }
}

/// Counting through the eight directions counts the eight cells around a cell.
pub proof fn lemma_live_among_compass(grid: Grid, x: int, y: int)
    ensures
        grid.live_among(Direction::compass(), x, y) == grid.live_neighbors(x, y),
{
    let all = Direction::compass();
    reveal_with_fuel(Grid::live_among, 9);
    assert(all.take(8) =~= all);
    assert(all.take(8).drop_last() =~= all.take(7));
    assert(all.take(7).drop_last() =~= all.take(6));
    assert(all.take(6).drop_last() =~= all.take(5));
    assert(all.take(5).drop_last() =~= all.take(4));
    assert(all.take(4).drop_last() =~= all.take(3));
    assert(all.take(3).drop_last() =~= all.take(2));
    assert(all.take(2).drop_last() =~= all.take(1));
    assert(all.take(1).drop_last() =~= all.take(0));
}

impl Board {
    /// The position one step from `coords` in direction `dir`, where the board
    /// has one.
    pub fn neighbor_coords(&self, coords: &Coords, dir: &Direction) -> (found: Option<Coords>)
        ensures
            match found {
                Some(at) => {
                    &&& at.x == coords.x + dir.delta().0
                    &&& at.y == coords.y + dir.delta().1
                    &&& self@.in_bounds(at.x as int, at.y as int)
                },
                None => !self@.in_bounds(coords.x + dir.delta().0, coords.y + dir.delta().1),
            },
            self@.wf(),
    {
        let offset = dir.offset();
        let width = self.dim_x();
        let height = self.dim_y();
        let x = match coords.x.checked_add_signed(offset.x) {
            Some(x) => x,
            None => {
                return None;
            },
        };
        let y = match coords.y.checked_add_signed(offset.y) {
            Some(y) => y,
            None => {
                return None;
            },
        };
        if x >= width || y >= height {
            None
        } else {
            Some(Coords { x, y })
        }
    }

    /// Whether the board has a live cell one step from `coords` in direction `dir`.
    pub fn neighbor_alive(&self, coords: &Coords, dir: &Direction) -> (state: bool)
        ensures
            state == self@.neighbor_alive(coords.x as int, coords.y as int, *dir),
            self@.wf(),
    {
        match self.neighbor_coords(coords, dir) {
            Some(neighbor_coords) => self.alive(&neighbor_coords),
            None => false,
        }
    }

    /// How many of the eight cells around `coords` are alive.
    pub fn num_alive_neighbors(&self, coords: &Coords) -> (around: usize)
        ensures
            around == self@.live_neighbors(coords.x as int, coords.y as int),
            around <= 8,
    {
        let dirs = Direction::all();
        let mut around: usize = 0;
        let mut k: usize = 0;
        assert(dirs@.take(0) =~= Seq::<Direction>::empty());
        while k < 8
            invariant
                k <= 8,
                dirs@ == Direction::compass(),
                around == self@.live_among(dirs@.take(k as int), coords.x as int, coords.y as int),
                around <= k,
            decreases 8 - k,
        {
            assert(dirs@.take(k + 1).drop_last() =~= dirs@.take(k as int));
            if self.neighbor_alive(coords, &dirs[k]) {
                around += 1;
            }
            k += 1;
        }
        proof {
            assert(dirs@.take(8) =~= dirs@);
            lemma_live_among_compass(self@, coords.x as int, coords.y as int);
        }
        around
    }

    /// Whether the cell at `coords` is alive in the next generation.
    pub fn next_cell_state(&self, coords: &Coords) -> (state: bool)
        requires
            self@.in_bounds(coords.x as int, coords.y as int),
        ensures
            state == self@.next_alive(coords.x as int, coords.y as int),
    {
        let around = self.num_alive_neighbors(coords);
        if self.alive(coords) {
            // Fewer than two is underpopulation, more than three overpopulation.
            around == 2 || around == 3
        } else {
            // Reproduction.
            around == 3
        }
    }

    /// The next generation. Every cell is computed from this board alone.
    pub fn next(&self) -> (after: Board)
        ensures
            after@ == self@.step(),
            after@.wf(),
            self@.all_dead() ==> after@ == self@,
    {
        let height = self.dim_y();
        let width = self.dim_x();
        assert(width as nat * height as nat > 0) by (nonlinear_arith)
            requires
                width > 0,
                height > 0,
        ;
        let made = Board::new(Coords { x: width, y: height }, None);
        let mut next_board = made.unwrap();
        for y in 0..height
            invariant
                height == self@.height,
                width == self@.width,
                self@.wf(),
                next_board@.wf(),
                next_board@.width == self@.width,
                next_board@.height == self@.height,
                forall|px: int, py: int|
                    0 <= px < width && 0 <= py < y ==> #[trigger] next_board@.alive(px, py)
                        == self@.next_alive(px, py),
        {
            for x in 0..width
                invariant
                    height == self@.height,
                    width == self@.width,
                    0 <= y < height,
                    self@.wf(),
                    next_board@.wf(),
                    next_board@.width == self@.width,
                    next_board@.height == self@.height,
                    forall|px: int, py: int|
                        0 <= px < width && (0 <= py < y || (py == y && px < x))
                            ==> #[trigger] next_board@.alive(px, py) == self@.next_alive(px, py),
            {
                let coords = Coords { x, y };
                let state = self.next_cell_state(&coords);
                proof {
                    lemma_with_cell(next_board@, x as int, y as int, state);
                }
                next_board.set_alive(&coords, state);
            }
        }
        proof {
            lemma_from_fn(self@.width, self@.height, |x: int, y: int| self@.next_alive(x, y));
            lemma_grids_equal(next_board@, self@.step());
            if self@.all_dead() {
                lemma_all_dead_is_fixed(self@);
            }
        }
        next_board
    }
}

} // verus!
