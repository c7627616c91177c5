use vstd::prelude::*;
use crate::error::BoardError;
use crate::grid::Grid;
use crate::laws::{lemma_parsed_cell, lemma_rows_append_line};
use crate::text::{
    ALIVE_CHAR, all_pattern_chars, is_glyph, is_pattern_char, parse_text, rows, states, white_space,
};

verus! {

/// Whether `text`, from character `at` on, is the rest of lines of `width`
/// glyphs each with a line feed after each, `at` standing at `column` of its
/// line.
pub open spec fn is_lines_from(text: Seq<char>, width: nat, at: int, column: int) -> bool
    decreases text.len() - at,
{
    if at >= text.len() {
        column == 0
    } else if column == width {
        text[at] == '\n' && is_lines_from(text, width, at + 1, 0)
    } else {
        is_glyph(text[at]) && is_lines_from(text, width, at + 1, column + 1)
    }
}

/// Whether `text` is lines of `width` glyphs each, a line feed after each and
/// nothing else.
pub open spec fn is_lines(text: Seq<char>, width: nat) -> bool {
    is_lines_from(text, width, 0, 0)
}

/// How many characters `n` lines of `width` glyphs take.
pub open spec fn lines_len(width: nat, n: nat) -> int {
    (n * (width + 1)) as int
}

/// In a text of lines, the line that `at` stands in runs on to its width and
/// ends in a line feed, and lines follow it.
proof fn lemma_line_at(text: Seq<char>, width: nat, at: int, column: int)
    requires
        0 <= column <= width,
        0 <= at < text.len(),
        is_lines_from(text, width, at, column),
    ensures
        at + (width - column) < text.len(),
        forall|j: int| at <= j < at + (width - column) ==> is_glyph(#[trigger] text[j]),
        text[at + (width - column)] == '\n',
        is_lines_from(text, width, at + (width - column) + 1, 0),
    decreases width - column,
{
    if column < width {
        reveal_with_fuel(is_lines_from, 2);
        lemma_line_at(text, width, at + 1, column + 1);
    }
}

/// The first `n` lines of a text of lines hold pattern characters only, and
/// its rows are those lines without their line feeds.
proof fn lemma_lines_upto(text: Seq<char>, width: nat, n: nat)
    requires
        width > 0,
        is_lines(text, width),
        lines_len(width, n) <= text.len(),
    ensures
        all_pattern_chars(text.take(lines_len(width, n))),
        n > 0 ==> white_space(text[lines_len(width, n) - 1]),
        rows(text.take(lines_len(width, n))).len() == n,
        forall|k: int|
            0 <= k < n ==> 0 <= #[trigger] lines_len(width, k as nat) && lines_len(width, k as nat)
                + width < lines_len(width, n),
        forall|k: int|
            0 <= k < n ==> #[trigger] rows(text.take(lines_len(width, n)))[k] == text.subrange(
                lines_len(width, k as nat),
                lines_len(width, k as nat) + width,
            ),
        is_lines_from(text, width, lines_len(width, n), 0),
    decreases n,
{
    let end = lines_len(width, n);
    let prefix = text.take(end);
    if n == 0 {
        assert(0 * (width + 1) == 0) by (nonlinear_arith);
        assert(prefix =~= Seq::<char>::empty());
    } else {
        let at = lines_len(width, (n - 1) as nat);
        assert(at + width + 1 == end) by (nonlinear_arith)
            requires
                at == (n - 1) * (width + 1),
                end == n * (width + 1),
        ;
        assert(at >= 0) by (nonlinear_arith)
            requires
                at == (n - 1) * (width + 1),
                n >= 1,
        ;
        lemma_lines_upto(text, width, (n - 1) as nat);
        lemma_line_at(text, width, at, 0);
        let before = text.take(at);
        let run = text.subrange(at, at + width);
        assert(white_space('\n'));
        assert(prefix =~= before + run.push('\n'));
        assert(at > 0 ==> before.last() == text[at - 1]);
        assert forall|j: int| 0 <= j < run.len() implies !white_space(#[trigger] run[j]) by {
            assert(is_glyph(text[at + j]));
        }
        lemma_rows_append_line(before, run, '\n');
        assert forall|i: int| 0 <= i < prefix.len() implies is_pattern_char(
            #[trigger] prefix[i],
        ) by {
            if i < at {
                assert(prefix[i] == before[i]);
            } else if i < at + width {
                assert(is_glyph(text[i]));
            }
        }
        assert forall|k: int| 0 <= k < n implies 0 <= #[trigger] lines_len(width, k as nat)
            && lines_len(width, k as nat) + width < end by {
            if k < n - 1 {
                assert(lines_len(width, k as nat) + width < at);
            }
        }
        assert forall|k: int| 0 <= k < n implies #[trigger] rows(prefix)[k] == text.subrange(
            lines_len(width, k as nat),
            lines_len(width, k as nat) + width,
        ) by {
            if k < n - 1 {
                assert(rows(prefix)[k] == rows(before)[k]);
            }
        }
    }
}

/// A text of `height` lines of `width` glyphs each parses to the grid of that
/// size that holds the states of its glyphs: the cell at `(x, y)` is alive
/// where glyph `x` of line `y` is the live glyph.
pub proof fn lemma_lines_parse(text: Seq<char>, width: nat, height: nat)
    requires
        width > 0,
        height > 0,
        text.len() == lines_len(width, height),
        is_lines(text, width),
    ensures
        parse_text(text) == Ok::<Grid, BoardError>(Grid { width, height, cells: states(text) }),
        forall|y: int|
            0 <= y < height ==> 0 <= #[trigger] lines_len(width, y as nat) && lines_len(
                width,
                y as nat,
            ) + width < text.len(),
        forall|x: int, y: int|
            0 <= x < width && 0 <= y < height ==> #[trigger] (Grid {
                width,
                height,
                cells: states(text),
            }).alive(x, y) == (text[lines_len(width, y as nat) + x] == ALIVE_CHAR),
{
    lemma_lines_upto(text, width, height);
    assert(text.take(text.len() as int) =~= text);
    assert(rows(text)[0].len() == width);
    let grid = Grid { width, height, cells: states(text) };
    assert forall|x: int, y: int| 0 <= x < width && 0 <= y < height implies #[trigger] grid.alive(
        x,
        y,
    ) == (text[lines_len(width, y as nat) + x] == ALIVE_CHAR) by {
        lemma_parsed_cell(text, x, y);
        assert(rows(text)[y] == text.subrange(
            lines_len(width, y as nat),
            lines_len(width, y as nat) + width,
        ));
    }
}

} // verus!
