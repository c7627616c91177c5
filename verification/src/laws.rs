use vstd::prelude::*;
use crate::error::BoardError;
use crate::grid::{Grid, lemma_from_fn, lemma_grids_equal, lemma_offset_in_range};
use crate::text::{
    ALIVE_CHAR, all_pattern_chars, glyph_of, glyphs, is_pattern_char, is_rectangular,
    lemma_flatten_rectangle, lemma_rows_hold_glyphs, parse_text, render, render_row, render_rows,
    rows, states, white_space,
};

verus! {

/// A dead grid is well formed and has no live cell.
pub proof fn lemma_dead_grid(width: nat, height: nat)
    requires
        width > 0,
        height > 0,
    ensures
        Grid::dead(width, height).wf(),
        Grid::dead(width, height).all_dead(),
        forall|x: int, y: int| !Grid::dead(width, height).alive(x, y),
{
    lemma_from_fn(width, height, |x: int, y: int| false);
}

/// A grid laid on another shows its own cells where it lies, the live and the
/// dead ones, and leaves the other grid as it was everywhere else.
pub proof fn lemma_overlay_cell(grid: Grid, other: Grid, left: int, top: int, x: int, y: int)
    requires
        grid.wf(),
        grid.in_bounds(x, y),
    ensures
        grid.overlay(other, left, top).wf(),
        grid.overlay(other, left, top).width == grid.width,
        grid.overlay(other, left, top).height == grid.height,
        grid.overlay(other, left, top).alive(x, y) == if other.in_bounds(x - left, y - top) {
            other.alive(x - left, y - top)
        } else {
            grid.alive(x, y)
        },
{
    lemma_from_fn(
        grid.width,
        grid.height,
        |x: int, y: int|
            if other.in_bounds(x - left, y - top) {
                other.alive(x - left, y - top)
            } else {
                grid.alive(x, y)
            },
    );
}

/// The next generation has the size of this one, and each of its cells is
/// what the rules make of the cell and its eight neighbours now.
pub proof fn lemma_step_cell(grid: Grid, x: int, y: int)
    requires
        grid.wf(),
    ensures
        grid.step().wf(),
        grid.step().width == grid.width,
        grid.step().height == grid.height,
        grid.step().alive(x, y) == (grid.in_bounds(x, y) && grid.next_alive(x, y)),
{
    lemma_from_fn(grid.width, grid.height, |x: int, y: int| grid.next_alive(x, y));
}

/// The four rules: a live cell with fewer than two live neighbours dies, one
/// with two or three lives on, one with more than three dies, and a dead cell
/// comes alive with exactly three and with no other number.
pub proof fn lemma_rules(grid: Grid, x: int, y: int)
    requires
        grid.wf(),
        grid.in_bounds(x, y),
    ensures
        grid.alive(x, y) && grid.live_neighbors(x, y) < 2 ==> !grid.step().alive(x, y),
        grid.alive(x, y) && 2 <= grid.live_neighbors(x, y) <= 3 ==> grid.step().alive(x, y),
        grid.alive(x, y) && grid.live_neighbors(x, y) > 3 ==> !grid.step().alive(x, y),
        !grid.alive(x, y) && grid.live_neighbors(x, y) == 3 ==> grid.step().alive(x, y),
        !grid.alive(x, y) && grid.live_neighbors(x, y) != 3 ==> !grid.step().alive(x, y),
{
    lemma_step_cell(grid, x, y);
}

/// A grid with no live cell is its own next generation.
pub proof fn lemma_all_dead_is_fixed(grid: Grid)
    requires
        grid.wf(),
        grid.all_dead(),
    ensures
        grid.step() == grid,
        grid.step().all_dead(),
{
    let after = grid.step();
    assert forall|x: int, y: int| grid.in_bounds(x, y) implies after.alive(x, y) == grid.alive(
        x,
        y,
    ) by {
        lemma_step_cell(grid, x, y);
        assert(grid.live_neighbors(x, y) == 0);
    }
    lemma_step_cell(grid, 0, 0);
    lemma_grids_equal(after, grid);
}

/// A run of glyphs behind a text that is empty or ends in white space is one
/// more row.
pub proof fn lemma_rows_append_run(text: Seq<char>, run: Seq<char>)
    requires
        text.len() == 0 || white_space(text.last()),
        run.len() > 0,
        forall|j: int| 0 <= j < run.len() ==> !white_space(#[trigger] run[j]),
    ensures
        rows(text + run) == rows(text).push(run),
    decreases run.len(),
{
    let whole = text + run;
    assert(whole.last() == run.last());
    if run.len() == 1 {
        assert(whole.drop_last() =~= text);
        assert(run =~= seq![run.last()]);
        if whole.len() >= 2 {
            assert(whole[whole.len() - 2] == text.last());
        }
    } else {
        let shorter = run.drop_last();
        lemma_rows_append_run(text, shorter);
        assert(whole.drop_last() =~= text + shorter);
        assert(whole[whole.len() - 2] == shorter.last());
        let before = rows(text).push(shorter);
        assert(before.drop_last() =~= rows(text));
        assert(shorter.push(run.last()) =~= run);
    }
}

/// A line, that is a run of glyphs and one white space behind it, adds one row
/// to a text that is empty or ends in white space.
pub proof fn lemma_rows_append_line(text: Seq<char>, run: Seq<char>, end: char)
    requires
        text.len() == 0 || white_space(text.last()),
        run.len() > 0,
        forall|j: int| 0 <= j < run.len() ==> !white_space(#[trigger] run[j]),
        white_space(end),
    ensures
        rows(text + run.push(end)) == rows(text).push(run),
{
    let whole = text + run.push(end);
    assert(whole.drop_last() =~= text + run);
    assert(whole.last() == end);
    lemma_rows_append_run(text, run);
}

/// Rows of one length, written one behind the other, hold glyph `x` of row `y`
/// at `y * width + x`.
pub proof fn lemma_flatten_index(rows: Seq<Seq<char>>, width: nat, x: int, y: int)
    requires
        forall|k: int| 0 <= k < rows.len() ==> (#[trigger] rows[k]).len() == width,
        0 <= y < rows.len(),
        0 <= x < width,
    ensures
        0 <= y * width + x < rows.flatten().len(),
        rows.flatten()[y * width + x] == rows[y][x],
    decreases rows.len(),
{
    broadcast use Seq::lemma_flatten_push;

    let upper = rows.drop_last();
    assert(rows =~= upper.push(rows.last()));
    assert(rows.flatten() =~= upper.flatten() + rows.last());
    lemma_flatten_rectangle(upper, width);
    lemma_offset_in_range(width as int, rows.len() as int, x, y);
    if y < rows.len() - 1 {
        lemma_flatten_index(upper, width, x, y);
    } else {
        assert(upper.len() * width == y * width) by (nonlinear_arith)
            requires
                upper.len() == y,
        ;
    }
}

/// The grid that a pattern stands for is well formed, and its cell at
/// `(x, y)` is alive where glyph `x` of row `y` is the live glyph: the first
/// row of the text is the row at `y == 0`.
pub proof fn lemma_parsed_cell(text: Seq<char>, x: int, y: int)
    requires
        parse_text(text) is Ok,
        parse_text(text)->Ok_0.in_bounds(x, y),
    ensures
        parse_text(text)->Ok_0.wf(),
        parse_text(text)->Ok_0.alive(x, y) == (rows(text)[y][x] == ALIVE_CHAR),
{
    let grid = parse_text(text)->Ok_0;
    lemma_rows_hold_glyphs(text);
    lemma_flatten_rectangle(rows(text), grid.width);
    lemma_flatten_index(rows(text), grid.width, x, y);
    assert(grid.width * grid.height == grid.height * grid.width) by (nonlinear_arith);
}

/// What the first `n` lines of a rendered grid hold: nothing but pattern
/// characters, a line feed at the end, the first `n` rows of the grid as rows,
/// and the states of its first `n` rows of cells.
proof fn lemma_render_rows(grid: Grid, n: nat)
    requires
        grid.wf(),
        n <= grid.height,
    ensures
        all_pattern_chars(render_rows(grid, n)),
        n > 0 ==> white_space(render_rows(grid, n).last()),
        n == 0 ==> render_rows(grid, n).len() == 0,
        rows(render_rows(grid, n)) == Seq::new(n, |y: int| render_row(grid, y)),
        n * grid.width <= grid.cells.len(),
        states(render_rows(grid, n)) == grid.cells.take((n * grid.width) as int),
    decreases n,
{
    let text = render_rows(grid, n);
    let width = grid.width as int;
    assert(n * width <= grid.height * width) by (nonlinear_arith)
        requires
            n <= grid.height,
            width >= 0,
    ;
    assert(grid.height * width == width * grid.height) by (nonlinear_arith);
    if n == 0 {
        assert(rows(text) =~= Seq::new(n, |y: int| render_row(grid, y)));
        lemma_rows_hold_glyphs(text);
        assert(states(text) =~= grid.cells.take(0));
    } else {
        let y = n - 1;
        let before = render_rows(grid, y as nat);
        let row = render_row(grid, y);
        lemma_render_rows(grid, y as nat);
        assert(text == before + row.push('\n'));
        assert(white_space('\n'));
        assert(text.last() == '\n');
        assert forall|i: int| 0 <= i < text.len() implies is_pattern_char(#[trigger] text[i]) by {
            if i < before.len() {
                assert(text[i] == before[i]);
            } else if i < before.len() + row.len() {
                assert(text[i] == row[i - before.len()]);
            }
        }
        lemma_rows_append_line(before, row, '\n');
        assert(rows(text) =~= Seq::new(n, |y: int| render_row(grid, y)));
        lemma_rows_hold_glyphs(text);
        lemma_rows_hold_glyphs(before);
        broadcast use Seq::lemma_flatten_push;

        assert(glyphs(text) =~= glyphs(before) + row);
        assert(y * width + width == n * width) by (nonlinear_arith)
            requires
                y + 1 == n,
        ;
        assert(states(before).len() == y * width);
        assert(glyphs(before).len() == y * width);
        assert(row.len() == width);
        assert(glyphs(text).len() == n * width);
        assert forall|i: int| 0 <= i < n * width implies states(text)[i] == grid.cells[i] by {
            if i < y * width {
                assert(states(before)[i] == grid.cells.take(y * width)[i]);
                assert(glyphs(text)[i] == glyphs(before)[i]);
            } else {
                let x = i - y * width;
                assert(glyphs(text)[i] == row[x]);
                lemma_offset_in_range(width, grid.height as int, x, y);
                assert(row[x] == glyph_of(grid.alive(x, y)));
            }
        }
        assert(states(text) =~= grid.cells.take(n * width));
    }
}

/// Rendering a grid and parsing the text gives the grid back.
pub proof fn lemma_parse_render(grid: Grid)
    requires
        grid.wf(),
    ensures
        parse_text(render(grid)) == Ok::<Grid, BoardError>(grid),
{
    lemma_render_rows(grid, grid.height);
    let text = render(grid);
    assert(rows(text)[0] == render_row(grid, 0));
    assert(is_rectangular(rows(text)));
    assert(grid.height * grid.width == grid.width * grid.height) by (nonlinear_arith);
    assert(grid.cells.take(grid.cells.len() as int) =~= grid.cells);
}

} // verus!
