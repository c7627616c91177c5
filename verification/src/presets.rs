use vstd::prelude::*;
use crate::board::Board;
use crate::error::BoardError;
use crate::grid::Grid;
use crate::lines::{is_lines, is_lines_from, lemma_lines_parse, lines_len};
use crate::text::{ALIVE_CHAR, parse_text, states};

verus! {

/// The pattern of the blinker: three live cells in a column, which turn into a
/// row and back.
pub const BLINKER: &'static str = "\
-----\n\
--x--\n\
--x--\n\
--x--\n\
-----\n";

/// The pattern of the glider gun, which sends out a glider every thirty
/// generations.
pub const GOSPER: &'static str = "\
---------------------------------------\n\
--------------------------x------------\n\
------------------------x-x------------\n\
--------------xx------xx------------xx-\n\
-------------x---x----xx------------xx-\n\
--xx--------x-----x---xx---------------\n\
--xx--------x---x-xx----x-x------------\n\
------------x-----x-------x------------\n\
-------------x---x---------------------\n\
--------------xx-----------------------\n\
---------------------------------------\n";

/// The blinker pattern is five lines of five glyphs.
proof fn lemma_blinker_lines()
    ensures
        BLINKER@.len() == 30,
        is_lines(BLINKER@, 5),
{
    reveal_strlit("\
-----\n\
--x--\n\
--x--\n\
--x--\n\
-----\n");
    reveal_with_fuel(is_lines_from, 31);
}

/// The live glyphs of the blinker pattern are the third of its second, third
/// and fourth line.
proof fn lemma_blinker_cells()
    ensures
        forall|x: int, y: int|
            0 <= x < 5 && 0 <= y < 5 ==> ((#[trigger] BLINKER@[6 * y + x]) == ALIVE_CHAR <==> x == 2
                && 1 <= y <= 3),
{
    reveal_strlit("\
-----\n\
--x--\n\
--x--\n\
--x--\n\
-----\n");
}

/// The glider gun pattern is eleven lines of thirty-nine glyphs.
proof fn lemma_gosper_lines()
    ensures
        GOSPER@.len() == 440,
        is_lines(GOSPER@, 39),
{
    reveal_strlit("\
---------------------------------------\n\
--------------------------x------------\n\
------------------------x-x------------\n\
--------------xx------xx------------xx-\n\
-------------x---x----xx------------xx-\n\
--xx--------x-----x---xx---------------\n\
--xx--------x---x-xx----x-x------------\n\
------------x-----x-------x------------\n\
-------------x---x---------------------\n\
--------------xx-----------------------\n\
---------------------------------------\n");
    reveal_with_fuel(is_lines_from, 41);
    assert(is_lines_from(GOSPER@, 39, 440, 0));
    assert(is_lines_from(GOSPER@, 39, 400, 0));
    assert(is_lines_from(GOSPER@, 39, 360, 0));
    assert(is_lines_from(GOSPER@, 39, 320, 0));
    assert(is_lines_from(GOSPER@, 39, 280, 0));
    assert(is_lines_from(GOSPER@, 39, 240, 0));
    assert(is_lines_from(GOSPER@, 39, 200, 0));
    assert(is_lines_from(GOSPER@, 39, 160, 0));
    assert(is_lines_from(GOSPER@, 39, 120, 0));
    assert(is_lines_from(GOSPER@, 39, 80, 0));
    assert(is_lines_from(GOSPER@, 39, 40, 0));
}

impl Board {
    /// The board that [`BLINKER`] shows.
    pub fn blinker() -> (made: Board)
        ensures
            parse_text(BLINKER@) == Ok::<Grid, BoardError>(made@),
            made@.width == 5,
            made@.height == 5,
            made@.wf(),
            forall|x: int, y: int| #[trigger] made@.alive(x, y) <==> x == 2 && 1 <= y <= 3,
    {
        proof {
            lemma_blinker_lines();
            lemma_lines_parse(BLINKER@, 5, 5);
            lemma_blinker_cells();
            let grid = Grid { width: 5, height: 5, cells: states(BLINKER@) };
            assert forall|x: int, y: int| #[trigger] grid.alive(x, y) <==> x == 2 && 1 <= y
                <= 3 by {
                if grid.in_bounds(x, y) {
                    assert(y * (5 + 1) == 6 * y) by (nonlinear_arith);
                    assert(lines_len(5, y as nat) == 6 * y);
                }
            }
        }
        Board::parse(BLINKER).unwrap()
    }

    /// The board that [`GOSPER`] shows.
    pub fn gosper() -> (made: Board)
        ensures
            parse_text(GOSPER@) == Ok::<Grid, BoardError>(made@),
            made@.width == 39,
            made@.height == 11,
            made@.wf(),
            forall|x: int, y: int|
                0 <= x < 39 && 0 <= y < 11 ==> #[trigger] made@.alive(x, y) == (GOSPER@[40 * y + x]
                    == ALIVE_CHAR),
    {
        proof {
            lemma_gosper_lines();
            lemma_lines_parse(GOSPER@, 39, 11);
            let grid = Grid { width: 39, height: 11, cells: states(GOSPER@) };
            assert forall|x: int, y: int| 0 <= x < 39 && 0 <= y < 11 implies #[trigger] grid.alive(
                x,
                y,
            ) == (GOSPER@[40 * y + x] == ALIVE_CHAR) by {
                assert(y * (39 + 1) == 40 * y) by (nonlinear_arith);
                assert(lines_len(39, y as nat) == 40 * y);
            }
        }
        Board::parse(GOSPER).unwrap()
    }
}

} // verus!
