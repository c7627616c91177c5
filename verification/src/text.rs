use vstd::prelude::*;
use crate::board::{Board, Coords};
use crate::error::BoardError;
use crate::grid::Grid;
use crate::laws::lemma_parse_render;

verus! {

/// The glyph of a live cell.
pub const ALIVE_CHAR: char = 'x';

/// The glyph of a dead cell.
pub const DEAD_CHAR: char = '-';

/// Whether `c` has the Unicode property White_Space: the 25 code points that
/// separate the rows of a pattern.
pub open spec fn white_space(c: char) -> bool {
    let code = c as u32;
    ||| 0x0009 <= code <= 0x000D
    ||| code == 0x0020
    ||| code == 0x0085
    ||| code == 0x00A0
    ||| code == 0x1680
    ||| 0x2000 <= code <= 0x200A
    ||| code == 0x2028
    ||| code == 0x2029
    ||| code == 0x202F
    ||| code == 0x205F
    ||| code == 0x3000
}

/// Whether `c` stands for a cell.
pub open spec fn is_glyph(c: char) -> bool {
    c == ALIVE_CHAR || c == DEAD_CHAR
}

/// Whether a pattern may hold `c`.
pub open spec fn is_pattern_char(c: char) -> bool {
    white_space(c) || is_glyph(c)
}

/// Whether a pattern may hold every character of `text`.
pub open spec fn all_pattern_chars(text: Seq<char>) -> bool {
    forall|i: int| 0 <= i < text.len() ==> is_pattern_char(#[trigger] text[i])
}

/// The rows of `text`: its maximal runs of characters that are not white space,
/// in the order in which they stand.
pub open spec fn rows(text: Seq<char>) -> Seq<Seq<char>>
    decreases text.len(),
{
    if text.len() == 0 {
        Seq::empty()
    } else {
        let before = rows(text.drop_last());
        let c = text.last();
        if white_space(c) {
            before
        } else if text.len() >= 2 && !white_space(text[text.len() - 2]) {
            before.drop_last().push(before.last().push(c))
        } else {
            before.push(seq![c])
        }
    }
}

/// Whether every row is as long as the first.
pub open spec fn is_rectangular(rows: Seq<Seq<char>>) -> bool {
    forall|i: int| 0 <= i < rows.len() ==> (#[trigger] rows[i]).len() == rows[0].len()
}

/// The characters of `text` that are not white space, in order.
pub open spec fn glyphs(text: Seq<char>) -> Seq<char> {
    text.filter(|c: char| !white_space(c))
}

/// The states that the characters of `text` stand for, white space left out:
/// alive for the live glyph, dead for any other.
pub open spec fn states(text: Seq<char>) -> Seq<bool> {
    glyphs(text).map_values(|c: char| c == ALIVE_CHAR)
}

/// What a pattern means: the grid whose rows are the rows of `text` from top
/// to bottom, or the reason why it stands for none.
pub open spec fn parse_text(text: Seq<char>) -> Result<Grid, BoardError> {
    if !all_pattern_chars(text) {
        Err(BoardError::InvalidCharacter)
    } else if rows(text).len() == 0 {
        Err(BoardError::InvalidDimensions)
    } else if !is_rectangular(rows(text)) {
        Err(BoardError::RaggedRows)
    } else {
        Ok(
            Grid {
                width: rows(text)[0].len(),
                height: rows(text).len(),
                cells: states(text),
            },
        )
    }
}

/// The glyph of a cell.
pub open spec fn glyph_of(alive: bool) -> char {
    if alive {
        ALIVE_CHAR
    } else {
        DEAD_CHAR
    }
}

/// Row `y` of `grid` as glyphs, from `x == 0` on.
pub open spec fn render_row(grid: Grid, y: int) -> Seq<char> {
    Seq::new(grid.width, |x: int| glyph_of(grid.alive(x, y)))
}

/// The first `n` rows of `grid` as text, a line feed after each.
pub open spec fn render_rows(grid: Grid, n: nat) -> Seq<char>
    decreases n,
{
    if n == 0 {
        Seq::empty()
    } else {
        render_rows(grid, (n - 1) as nat) + render_row(grid, n - 1).push('\n')
    }
}

/// `grid` as text: one line per row, the row at `y == 0` first.
pub open spec fn render(grid: Grid) -> Seq<char> {
    render_rows(grid, grid.height)
}

/// Whether `c` is white space.
pub fn is_whitespace(c: char) -> (yes: bool)
    ensures
        yes == white_space(c),
{
    let code: u32 = c as u32;
    (0x0009 <= code && code <= 0x000D) || code == 0x0020 || code == 0x0085 || code == 0x00A0
        || code == 0x1680 || (0x2000 <= code && code <= 0x200A) || code == 0x2028 || code
        == 0x2029 || code == 0x202F || code == 0x205F || code == 0x3000
}

/// One more character at the end of `text` adds to its rows and states what
/// the definitions say of the last character.
proof fn lemma_scan_step(text: Seq<char>, n: int)
    requires
        0 <= n < text.len(),
    ensures
        text.take(n + 1).drop_last() == text.take(n),
        white_space(text[n]) ==> states(text.take(n + 1)) == states(text.take(n)),
        !white_space(text[n]) ==> states(text.take(n + 1)) == states(text.take(n)).push(
            text[n] == ALIVE_CHAR,
        ),
        rows(text.take(n + 1)) == if white_space(text[n]) {
            rows(text.take(n))
        } else if n >= 1 && !white_space(text[n - 1]) {
            rows(text.take(n)).drop_last().push(rows(text.take(n)).last().push(text[n]))
        } else {
            rows(text.take(n)).push(seq![text[n]])
        },
{
    let longer = text.take(n + 1);
    assert(longer.drop_last() =~= text.take(n));
    assert(longer.last() == text[n]);
    reveal_with_fuel(Seq::filter, 2);
    if white_space(text[n]) {
        assert(glyphs(longer) == glyphs(text.take(n)));
    } else {
        assert(glyphs(longer) == glyphs(text.take(n)).push(text[n]));
        assert(states(longer) =~= states(text.take(n)).push(text[n] == ALIVE_CHAR));
    }
}

/// The rows of a text hold its glyphs and nothing else, none of them is empty,
/// and a text that ends in a glyph has a row.
pub proof fn lemma_rows_hold_glyphs(text: Seq<char>)
    ensures
        rows(text).flatten() == glyphs(text),
        forall|k: int| 0 <= k < rows(text).len() ==> (#[trigger] rows(text)[k]).len() > 0,
        text.len() > 0 && !white_space(text.last()) ==> rows(text).len() > 0,
    decreases text.len(),
{
    broadcast use Seq::lemma_flatten_push;

    reveal_with_fuel(Seq::filter, 2);
    if text.len() == 0 {
        assert(rows(text).flatten() =~= glyphs(text));
    } else {
        let shorter = text.drop_last();
        let before = rows(shorter);
        let c = text.last();
        lemma_rows_hold_glyphs(shorter);
        if white_space(c) {
        } else if text.len() >= 2 && !white_space(text[text.len() - 2]) {
            assert(shorter.last() == text[text.len() - 2]);
            assert(before =~= before.drop_last().push(before.last()));
            assert(rows(text).flatten() =~= glyphs(text));
        } else {
            assert(rows(text).flatten() =~= glyphs(text));
        }
    }
}

/// Rows of one length `width` hold `width` characters each.
pub proof fn lemma_flatten_rectangle(rows: Seq<Seq<char>>, width: nat)
    requires
        forall|k: int| 0 <= k < rows.len() ==> (#[trigger] rows[k]).len() == width,
    ensures
        rows.flatten().len() == rows.len() * width,
    decreases rows.len(),
{
    broadcast use Seq::lemma_flatten_push;

    if rows.len() == 0 {
        assert(rows.flatten() =~= Seq::<char>::empty());
    } else {
        lemma_flatten_rectangle(rows.drop_last(), width);
        assert(rows =~= rows.drop_last().push(rows.last()));
        assert(rows.len() * width == (rows.len() - 1) * width + width) by (nonlinear_arith);
    }
}

/// The length of each row of `text` and the states of its glyphs, in one pass.
fn scan(text: &str) -> (found: (Vec<usize>, Vec<bool>))
    ensures
        found.0@.len() == rows(text@).len(),
        forall|k: int| 0 <= k < found.0@.len() ==> found.0@[k] == (#[trigger] rows(text@)[k]).len(),
        found.1@ == states(text@),
{
    let mut row_lens: Vec<usize> = Vec::new();
    let mut cells: Vec<bool> = Vec::new();
    let mut in_row = false;
    assert(text@.take(0) =~= Seq::<char>::empty());
    assert(states(text@.take(0)) =~= Seq::<bool>::empty());
    for c in it: text.chars()
        invariant
            it.seq() == text@,
            row_lens@.len() == rows(text@.take(it.index() as int)).len(),
            forall|k: int|
                0 <= k < row_lens@.len() ==> (#[trigger] row_lens@[k]) == rows(
                    text@.take(it.index() as int),
                )[k].len() && row_lens@[k] <= cells@.len(),
            cells@ == states(text@.take(it.index() as int)),
            in_row <==> it.index() >= 1 && !white_space(text@[it.index() - 1]),
            in_row ==> row_lens@.len() > 0,
    {
        proof {
            lemma_scan_step(text@, it.index() as int);
        }
        if is_whitespace(c) {
            in_row = false;
        } else {
            cells.push(c == ALIVE_CHAR);
            if in_row {
                let last = row_lens.len() - 1;
                let len = row_lens[last];
                assert(len < cells.len());
                row_lens[last] = len + 1;
            } else {
                row_lens.push(1);
            }
            in_row = true;
        }
    }
    assert(text@.take(text@.len() as int) =~= text@);
    (row_lens, cells)
}

impl Board {
    /// Writes the board as text that [`Board::parse`] reads back: one line per
    /// row, the row at `y == 0` first, a line feed after each.
    pub fn format(&self) -> (text: String)
        ensures
            text@ == render(self@),
            parse_text(text@) == Ok::<Grid, BoardError>(self@),
    {
        let mut text = String::new();
        let height = self.dim_y();
        let width = self.dim_x();
        proof {
            lemma_parse_render(self@);
            reveal_strlit("x");
            reveal_strlit("-");
            reveal_strlit("\n");
        }
        for y in 0..height
            invariant
                height == self@.height,
                width == self@.width,
                "\n"@ == seq!['\n'],
                "x"@ == seq![ALIVE_CHAR],
                "-"@ == seq![DEAD_CHAR],
                text@ == render_rows(self@, y as nat),
        {
            for x in 0..width
                invariant
                    height == self@.height,
                    width == self@.width,
                    0 <= y < height,
                    "x"@ == seq![ALIVE_CHAR],
                    "-"@ == seq![DEAD_CHAR],
                    text@ == render_rows(self@, y as nat) + render_row(self@, y as int).take(
                        x as int,
                    ),
            {
                let glyph = if self.alive(&Coords { x, y }) {
                    "x"
                } else {
                    "-"
                };
                text.append(glyph);
                assert(render_row(self@, y as int).take(x + 1) =~= render_row(
                    self@,
                    y as int,
                ).take(x as int).push(glyph_of(self@.alive(x as int, y as int))));
                assert(text@ =~= render_rows(self@, y as nat) + render_row(self@, y as int).take(
                    x + 1,
                ));
            }
            assert(render_row(self@, y as int).take(width as int) =~= render_row(self@, y as int));
            text.append("\n");
            assert(text@ =~= render_rows(self@, (y + 1) as nat));
        }
        text
    }

    /// Reads a board from a pattern: rows of glyphs, `x` for a live cell and
    /// `-` for a dead one, parted by white space, the first row at `y == 0`.
    /// A stray character is named before rows of unequal length are, and a
    /// text without a glyph has no dimensions.
    pub fn parse(text: &str) -> (parsed: Result<Board, BoardError>)
        ensures
            match parsed {
                Ok(board) => parse_text(text@) == Ok::<Grid, BoardError>(board@),
                Err(error) => parse_text(text@) == Err::<Grid, BoardError>(error),
            },
            parsed matches Ok(board) ==> board@.wf(),
    {
        for c in it: text.chars()
            invariant
                it.seq() == text@,
                forall|i: int| 0 <= i < it.index() ==> is_pattern_char(#[trigger] text@[i]),
        {
            if !(is_whitespace(c) || c == ALIVE_CHAR || c == DEAD_CHAR) {
                assert(!is_pattern_char(text@[it.index() as int]));
                return Err(BoardError::InvalidCharacter);
            }
        }
        assert(all_pattern_chars(text@));
        let (row_lens, cells) = scan(text);
        let height = row_lens.len();
        if height == 0 {
            return Err(BoardError::InvalidDimensions);
        }
        let width = row_lens[0];
        let mut k: usize = 1;
        while k < height
            invariant
                1 <= k <= height,
                all_pattern_chars(text@),
                height == row_lens@.len(),
                width == row_lens@[0],
                forall|j: int| 0 <= j < k ==> (#[trigger] row_lens@[j]) == width,
                row_lens@.len() == rows(text@).len(),
                forall|j: int|
                    0 <= j < row_lens@.len() ==> row_lens@[j] == (#[trigger] rows(text@)[j]).len(),
            decreases height - k,
        {
            if row_lens[k] != width {
                assert(rows(text@)[k as int].len() != rows(text@)[0].len());
                return Err(BoardError::RaggedRows);
            }
            k += 1;
        }
        proof {
            lemma_rows_hold_glyphs(text@);
            lemma_flatten_rectangle(rows(text@), width as nat);
            assert(rows(text@)[0].len() > 0);
            assert(is_rectangular(rows(text@)));
            assert(cells@.len() == height as nat * width as nat);
            assert(width as nat * height as nat == height as nat * width as nat
                && width as nat * height as nat > 0) by (nonlinear_arith)
                requires
                    width > 0,
                    height > 0,
            ;
        }
        Board::new(Coords { x: width, y: height }, Some(cells))
    }
}

impl<'a> TryFrom<&'a str> for Board {
    type Error = BoardError;

    /// Reads a board from a pattern, as [`Board::parse`] does.
    fn try_from(text: &'a str) -> (parsed: Result<Board, BoardError>)
        ensures
            match parsed {
                Ok(board) => parse_text(text@) == Ok::<Grid, BoardError>(board@),
                Err(error) => parse_text(text@) == Err::<Grid, BoardError>(error),
            },
    {
        Board::parse(text)
    }
}

impl<'a> vstd::std_specs::convert::TryFromSpecImpl<&'a str> for Board {
    /// A board is more than its cells to Verus, so `try_from` is specified by
    /// its own `ensures` and not by a board that a spec function gives.
    open spec fn obeys_try_from_spec() -> bool {
        false
    }

    open spec fn try_from_spec(text: &'a str) -> Result<Board, BoardError> {
        arbitrary()
    }
}

} // verus!
