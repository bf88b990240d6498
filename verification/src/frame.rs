//! The text of a frame, and what holds of it.

use vstd::prelude::*;
use crate::ansi::{bg_black_text, bg_white_text, decimal, goto_text};
use crate::counting::{count, lemma_count_concat, lemma_count_zero};

verus! {

/// The background colour of a pixel: white when lit, black when dark.
pub open spec fn colour_text(on: bool) -> Seq<char> {
    if on {
        bg_white_text()
    } else {
        bg_black_text()
    }
}

/// What one pixel contributes to a frame: the background colour of its state,
/// then one space painted in that colour.
pub open spec fn cell_text(on: bool) -> Seq<char> {
    colour_text(on).push(' ')
}

/// The cells of one row, from left to right.
pub open spec fn cells_text(row: Seq<bool>) -> Seq<char> {
    row.flat_map(|on: bool| cell_text(on))
}

/// What row `r` of the display contributes to a frame: the cursor is put at
/// the first column of terminal row `r + 1`, then the cells follow.
pub open spec fn row_text(r: int, row: Seq<bool>) -> Seq<char> {
    goto_text(1, (r + 1) as u16) + cells_text(row)
}

/// The text of a whole frame: its rows from top to bottom.
pub open spec fn frame_text(grid: Seq<Seq<bool>>) -> Seq<char> {
    grid.map(|r: int, row: Seq<bool>| row_text(r, row)).flatten()
}

/// Whether `grid` has `height` rows of `width` pixels each.
pub open spec fn has_shape(grid: Seq<Seq<bool>>, height: nat, width: nat) -> bool {
    &&& grid.len() == height
    &&& forall|r: int| 0 <= r < grid.len() ==> (#[trigger] grid[r]).len() == width
}

/// Whether every pixel of `grid` is in the state `on`.
pub open spec fn is_uniform(grid: Seq<Seq<bool>>, on: bool) -> bool {
    forall|r: int, c: int|
        0 <= r < grid.len() && 0 <= c < grid[r].len() ==> #[trigger] grid[r][c] == on
}

/// Whether `text` paints the pixels `painted`, one space for each and in
/// their order: the spaces of `text` are as many as the pixels, and the
/// space that has `k` spaces before it stands directly behind the colour of
/// pixel `k`.
pub open spec fn paints(text: Seq<char>, painted: Seq<bool>) -> bool {
    &&& count(text, ' ') == painted.len()
    &&& forall|i: int|
        0 <= i < text.len() && #[trigger] text[i] == ' ' ==> {
            &&& i >= 9
            &&& count(text.take(i), ' ') < painted.len()
            &&& text.subrange(i - 9, i) == colour_text(painted[count(text.take(i), ' ') as int])
        }
}

/// Whether `piece` stands somewhere in `text`.
pub open spec fn occurs_in(piece: Seq<char>, text: Seq<char>) -> bool {
    exists|i: int|
        0 <= i && i + piece.len() <= text.len() && #[trigger] text.subrange(i, i + piece.len())
            == piece
}

/// Whether every `marker` in `text` is the last character of a copy of `piece`.
pub open spec fn each_ends(text: Seq<char>, marker: char, piece: Seq<char>) -> bool {
    forall|i: int|
        0 <= i < text.len() && #[trigger] text[i] == marker ==> i + 1 >= piece.len()
            && text.subrange(i + 1 - piece.len(), i + 1) == piece
}

/// The cells of the first `n + 1` pixels are the cells of the first `n`,
/// followed by the cell of pixel `n`.
pub proof fn lemma_cells_text_next_cell(row: Seq<bool>, n: int)
    requires
        0 <= n < row.len(),
    ensures
        cells_text(row.take(n + 1)) == cells_text(row.take(n)) + cell_text(row[n]),
{
    row.lemma_flat_map_take_append(|on: bool| cell_text(on), n);
}

/// The frame of the first `n + 1` rows is the frame of the first `n` rows
/// followed by the text of row `n`.
pub proof fn lemma_frame_text_next_row(grid: Seq<Seq<bool>>, n: int)
    requires
        0 <= n < grid.len(),
    ensures
        frame_text(grid.take(n + 1)) == frame_text(grid.take(n)) + row_text(n, grid[n]),
{
    let f = |r: int, row: Seq<bool>| row_text(r, row);
    assert(grid.take(n + 1).map(f) =~= grid.take(n).map(f).push(row_text(n, grid[n])));
    grid.take(n).map(f).lemma_flatten_push(row_text(n, grid[n]));
}

/// A decimal numeral holds digits only.
proof fn lemma_decimal_digits(n: nat)
    ensures
        decimal(n).len() >= 1,
        forall|i: int|
            0 <= i < decimal(n).len() ==> '0' <= #[trigger] decimal(n)[i] && decimal(n)[i] <= '9',
    decreases n,
{
    if n >= 10 {
        lemma_decimal_digits(n / 10);
    }
}

/// A cursor movement holds neither a space nor an `m`.
proof fn lemma_goto_text_chars(x: u16, y: u16)
    ensures
        !goto_text(x, y).contains(' '),
        !goto_text(x, y).contains('m'),
{
    lemma_decimal_digits(x as nat);
    lemma_decimal_digits(y as nat);
    let text = goto_text(x, y);
    assert forall|i: int| 0 <= i < text.len() implies text[i] != ' ' && text[i] != 'm' by {}
}

/// In a cell, the one space ends the cell and the one `m` ends its colour.
proof fn lemma_cell_text_marks(on: bool)
    ensures
        each_ends(cell_text(on), ' ', cell_text(on)),
        each_ends(cell_text(on), 'm', colour_text(on)),
        count(cell_text(on), ' ') == 1,
{
    let text = cell_text(on);
    assert(text.subrange(0, 10) =~= text);
    assert(text.drop_last() =~= colour_text(on));
    assert forall|i: int| 0 <= i < colour_text(on).len() implies colour_text(on)[i] != ' ' by {}
    lemma_count_zero(colour_text(on), ' ');
}

/// Text without a space, put behind a text, paints nothing more.
proof fn lemma_paints_nothing_more(text: Seq<char>, painted: Seq<bool>, more: Seq<char>)
    requires
        paints(text, painted),
        !more.contains(' '),
    ensures
        paints(text + more, painted),
{
    let all = text + more;
    lemma_count_zero(more, ' ');
    lemma_count_concat(text, more, ' ');
    assert forall|i: int| 0 <= i < all.len() && #[trigger] all[i] == ' ' implies {
        &&& i >= 9
        &&& count(all.take(i), ' ') < painted.len()
        &&& all.subrange(i - 9, i) == colour_text(painted[count(all.take(i), ' ') as int])
    } by {
        if i < text.len() {
            assert(text[i] == ' ');
            assert(all.take(i) =~= text.take(i));
            assert(all.subrange(i - 9, i) =~= text.subrange(i - 9, i));
        } else {
            assert(more[i - text.len()] == ' ');
        }
    }
}

/// A cell, put behind a text, paints one pixel more.
proof fn lemma_paints_one_more(text: Seq<char>, painted: Seq<bool>, on: bool)
    requires
        paints(text, painted),
    ensures
        paints(text + cell_text(on), painted.push(on)),
{
    let all = text + cell_text(on);
    let colour = colour_text(on);
    lemma_cell_text_marks(on);
    lemma_count_concat(text, cell_text(on), ' ');
    assert forall|j: int| 0 <= j < colour.len() implies colour[j] != ' ' by {}
    lemma_count_zero(colour, ' ');
    assert forall|i: int| 0 <= i < all.len() && #[trigger] all[i] == ' ' implies {
        &&& i >= 9
        &&& count(all.take(i), ' ') < painted.push(on).len()
        &&& all.subrange(i - 9, i) == colour_text(
            painted.push(on)[count(all.take(i), ' ') as int],
        )
    } by {
        if i < text.len() {
            assert(text[i] == ' ');
            assert(all.take(i) =~= text.take(i));
            assert(all.subrange(i - 9, i) =~= text.subrange(i - 9, i));
        } else {
            assert(cell_text(on)[i - text.len()] == ' ');
            assert(i == text.len() + 9);
            assert(all.take(i) =~= text + colour);
            lemma_count_concat(text, colour, ' ');
            assert(all.subrange(i - 9, i) =~= colour);
        }
    }
}

/// The cells of the first `n` pixels of a row, put behind a text, paint
/// those pixels more.
proof fn lemma_paints_cells(text: Seq<char>, painted: Seq<bool>, row: Seq<bool>, n: int)
    requires
        paints(text, painted),
        0 <= n <= row.len(),
    ensures
        paints(text + cells_text(row.take(n)), painted + row.take(n)),
    decreases n,
{
    if n == 0 {
        assert(text + cells_text(row.take(0)) =~= text);
        assert(painted + row.take(0) =~= painted);
    } else {
        lemma_paints_cells(text, painted, row, n - 1);
        lemma_cells_text_next_cell(row, n - 1);
        lemma_paints_one_more(
            text + cells_text(row.take(n - 1)),
            painted + row.take(n - 1),
            row[n - 1],
        );
        assert(text + cells_text(row.take(n - 1)) + cell_text(row[n - 1]) =~= text + cells_text(
            row.take(n),
        ));
        assert((painted + row.take(n - 1)).push(row[n - 1]) =~= painted + row.take(n));
    }
}

/// The first `n` rows of a frame paint the pixels of those rows.
proof fn lemma_paints_rows(grid: Seq<Seq<bool>>, n: int)
    requires
        0 <= n <= grid.len(),
    ensures
        paints(frame_text(grid.take(n)), grid.take(n).flatten()),
    decreases n,
{
    if n == 0 {
        assert(frame_text(grid.take(0)) =~= Seq::<char>::empty());
        assert(grid.take(0).flatten() =~= Seq::<bool>::empty());
    } else {
        let row = grid[n - 1];
        let before = frame_text(grid.take(n - 1));
        let start = goto_text(1, n as u16);
        lemma_paints_rows(grid, n - 1);
        lemma_frame_text_next_row(grid, n - 1);
        lemma_goto_text_chars(1, n as u16);
        lemma_paints_nothing_more(before, grid.take(n - 1).flatten(), start);
        lemma_paints_cells(before + start, grid.take(n - 1).flatten(), row, row.len() as int);
        assert(row.take(row.len() as int) =~= row);
        assert(before + start + cells_text(row) =~= before + row_text(n - 1, row));
        assert(grid.take(n) =~= grid.take(n - 1).push(row));
        grid.take(n - 1).lemma_flatten_push(row);
    }
}

/// A frame paints the pixels of the display in their order, row by row from
/// the top and each row from the left: the spaces of the frame are as many as
/// the pixels, and each stands directly behind the colour of its pixel.
pub proof fn lemma_frame_paints_in_order(grid: Seq<Seq<bool>>)
    ensures
        paints(frame_text(grid), grid.flatten()),
{
    lemma_paints_rows(grid, grid.len() as int);
    assert(grid.take(grid.len() as int) =~= grid);
}

/// The pixels of the first `n` rows of a display of equal rows, row by row.
proof fn lemma_rows_flatten(grid: Seq<Seq<bool>>, width: nat, n: int)
    requires
        0 <= n <= grid.len(),
        has_shape(grid, grid.len(), width),
    ensures
        grid.take(n).flatten().len() == n * width,
        forall|r: int, c: int|
            0 <= r < n && 0 <= c < width ==> grid.take(n).flatten()[r * width + c]
                == #[trigger] grid[r][c],
    decreases n,
{
    if n == 0 {
        assert(grid.take(0).flatten() =~= Seq::<bool>::empty());
    } else {
        let row = grid[n - 1];
        lemma_rows_flatten(grid, width, n - 1);
        assert(grid.take(n) =~= grid.take(n - 1).push(row));
        grid.take(n - 1).lemma_flatten_push(row);
        assert(n * width == (n - 1) * width + width) by (nonlinear_arith);
        assert forall|r: int, c: int| 0 <= r < n && 0 <= c < width implies grid.take(
            n,
        ).flatten()[r * width + c] == #[trigger] grid[r][c] by {
            if r < n - 1 {
                assert(r * width + c < (n - 1) * width) by (nonlinear_arith)
                    requires
                        0 <= r < n - 1,
                        0 <= c < width,
                ;
            } else {
                assert(r * width + c == (n - 1) * width + c);
            }
        }
    }
}

/// In a display of equal rows, counted row by row, pixel `c` of row `r` is
/// the pixel of number `r * width + c`.
pub proof fn lemma_pixels_row_by_row(grid: Seq<Seq<bool>>, width: nat)
    requires
        has_shape(grid, grid.len(), width),
    ensures
        grid.flatten().len() == grid.len() * width,
        forall|r: int, c: int|
            0 <= r < grid.len() && 0 <= c < width ==> grid.flatten()[r * width + c]
                == #[trigger] grid[r][c],
{
    lemma_rows_flatten(grid, width, grid.len() as int);
    assert(grid.take(grid.len() as int) =~= grid);
}

/// Where both parts keep every `marker` at the end of a `piece`, so does
/// their concatenation.
proof fn lemma_each_ends_concat(a: Seq<char>, b: Seq<char>, marker: char, piece: Seq<char>)
    requires
        each_ends(a, marker, piece),
        each_ends(b, marker, piece),
    ensures
        each_ends(a + b, marker, piece),
{
    let text = a + b;
    assert forall|i: int| 0 <= i < text.len() && #[trigger] text[i] == marker implies i + 1
        >= piece.len() && text.subrange(i + 1 - piece.len(), i + 1) == piece by {
        // The marker stands in `a` or in `b`, and so does the piece that it ends.
        if i < a.len() {
            assert(a[i] == marker);
        } else {
            assert(b[i - a.len()] == marker);
        }
    }
}

/// What holds of the cells of a row whose pixels are all in the state `on`.
proof fn lemma_uniform_cells(row: Seq<bool>, on: bool, n: int)
    requires
        0 <= n <= row.len(),
        forall|c: int| 0 <= c < row.len() ==> row[c] == on,
    ensures
        each_ends(cells_text(row.take(n)), ' ', cell_text(on)),
        each_ends(cells_text(row.take(n)), 'm', colour_text(on)),
    decreases n,
{
    if n > 0 {
        lemma_uniform_cells(row, on, n - 1);
        lemma_cells_text_next_cell(row, n - 1);
        lemma_cell_text_marks(on);
        lemma_each_ends_concat(cells_text(row.take(n - 1)), cell_text(on), ' ', cell_text(on));
        lemma_each_ends_concat(cells_text(row.take(n - 1)), cell_text(on), 'm', colour_text(on));
    }
}

/// What holds of the first `n` rows of a frame whose pixels are all in the
/// state `on`.
proof fn lemma_uniform_rows(grid: Seq<Seq<bool>>, on: bool, n: int)
    requires
        0 <= n <= grid.len(),
        is_uniform(grid, on),
    ensures
        each_ends(frame_text(grid.take(n)), ' ', cell_text(on)),
        each_ends(frame_text(grid.take(n)), 'm', colour_text(on)),
    decreases n,
{
    if n > 0 {
        let row = grid[n - 1];
        let start = goto_text(1, n as u16);
        lemma_uniform_rows(grid, on, n - 1);
        lemma_frame_text_next_row(grid, n - 1);
        assert forall|c: int| 0 <= c < row.len() implies row[c] == on by {
            assert(grid[n - 1][c] == on);
        }
        lemma_uniform_cells(row, on, row.len() as int);
        assert(row.take(row.len() as int) =~= row);
        lemma_goto_text_chars(1, n as u16);
        lemma_each_ends_concat(start, cells_text(row), ' ', cell_text(on));
        lemma_each_ends_concat(start, cells_text(row), 'm', colour_text(on));
        lemma_each_ends_concat(
            frame_text(grid.take(n - 1)),
            row_text(n - 1, row),
            ' ',
            cell_text(on),
        );
        lemma_each_ends_concat(
            frame_text(grid.take(n - 1)),
            row_text(n - 1, row),
            'm',
            colour_text(on),
        );
    }
}

/// The frame of a display whose pixels are all in one state. Every cell is
/// painted in the colour of that state: each space of the frame ends a cell
/// of that colour. And the colour of the other state stands nowhere in the
/// frame.
pub proof fn lemma_uniform_frame(grid: Seq<Seq<bool>>, on: bool)
    requires
        is_uniform(grid, on),
    ensures
        each_ends(frame_text(grid), ' ', cell_text(on)),
        !occurs_in(colour_text(!on), frame_text(grid)),
{
    let text = frame_text(grid);
    lemma_uniform_rows(grid, on, grid.len() as int);
    assert(grid.take(grid.len() as int) =~= grid);
    let other = colour_text(!on);
    assert forall|i: int| 0 <= i && i + other.len() <= text.len() implies #[trigger] text.subrange(
        i,
        i + other.len(),
    ) != other by {
        // Had the other colour stood at `i`, its `m` would stand at `i + 8`
        // and end a copy of this colour there; but the two colours differ in
        // the character before the `m`.
        let found = text.subrange(i, i + other.len());
        if found == other {
            assert(text[i + 8] == found[8]);
            assert(text.subrange(i, i + 9)[7] == colour_text(on)[7]);
        }
    }
}

} // verus!
