//! The terminal driver: what to write to the terminal, and what a polled key means.
//!
//! The driver does no input or output itself. Each of its methods returns the
//! text to write, and its caller writes it; the caller also polls the
//! keyboard and hands over what the poll found.

use vstd::prelude::*;
use vstd::string::StringExecFns;
use crate::ansi::{
    bell_text, bg_black, bg_white, clear_all, clear_all_text, goto, goto_text, hide_cursor,
    hide_cursor_text, show_cursor, show_cursor_text,
};
use crate::counting::count;
use crate::frame::{
    cell_text, cells_text, colour_text, each_ends, frame_text, has_shape, is_uniform,
    lemma_cells_text_next_cell, lemma_frame_paints_in_order, lemma_frame_text_next_row,
    lemma_pixels_row_by_row, lemma_uniform_frame, occurs_in,
};
use crate::keys::{key_code, lemma_keypad_layout, Key, KeyPoll};

verus! {

/// Rows of the display.
pub const DISPLAY_HEIGHT: usize = 32;

/// Columns of the display.
pub const DISPLAY_WIDTH: usize = 64;

/// What is written on entering display mode: the screen is erased and the
/// cursor hidden.
pub open spec fn enter_text() -> Seq<char> {
    clear_all_text() + hide_cursor_text()
}

/// What is written on leaving display mode: the screen is erased, the cursor
/// put at row 1, column 1, and shown again.
pub open spec fn restore_text() -> Seq<char> {
    clear_all_text() + goto_text(1, 1) + show_cursor_text()
}

/// The pixels of a frame buffer, row by row.
pub open spec fn pixels(vram: [[bool; DISPLAY_WIDTH]; DISPLAY_HEIGHT]) -> Seq<Seq<bool>> {
    vram.deep_view()
}

/// The driver of the terminal. It keeps nothing between calls.
pub struct IODriver {}

impl IODriver {
    pub fn new() -> (driver: IODriver) {
        IODriver {  }
    }

    /// The text that enters display mode.
    pub fn display_clear(&self) -> (text: String)
        ensures
            text@ == enter_text(),
    {
        let mut text = clear_all();
        let hide = hide_cursor();
        text.append(hide.as_str());
        text
    }

    /// The text that paints the frame buffer `vram`: every row from top to
    /// bottom, every pixel of a row from left to right, in one piece.
    pub fn display_draw(&self, vram: &[[bool; DISPLAY_WIDTH]; DISPLAY_HEIGHT]) -> (text: String)
        ensures
            text@ == frame_text(pixels(*vram)),
    {
        let ghost grid = pixels(*vram);
        let mut text = String::new();
        let mut y: usize = 0;
        while y < DISPLAY_HEIGHT
            invariant
                y <= DISPLAY_HEIGHT,
                grid == pixels(*vram),
                text@ == frame_text(grid.take(y as int)),
            decreases DISPLAY_HEIGHT - y,
        {
            let ghost row = grid[y as int];
            let start = goto(1, (y + 1) as u16);
            text.append(start.as_str());
            let mut x: usize = 0;
            while x < DISPLAY_WIDTH
                invariant
                    y < DISPLAY_HEIGHT,
                    x <= DISPLAY_WIDTH,
                    grid == pixels(*vram),
                    row == grid[y as int],
                    text@ == frame_text(grid.take(y as int)) + goto_text(1, (y + 1) as u16)
                        + cells_text(row.take(x as int)),
                decreases DISPLAY_WIDTH - x,
            {
                let colour = if vram[y][x] {
                    bg_white()
                } else {
                    bg_black()
                };
                text.append(colour.as_str());
                text.append(" ");
                proof {
                    reveal_strlit(" ");
                    lemma_cells_text_next_cell(row, x as int);
                }
                x = x + 1;
            }
            proof {
                assert(row.take(DISPLAY_WIDTH as int) =~= row);
                lemma_frame_text_next_row(grid, y as int);
            }
            y = y + 1;
        }
        assert(grid.take(DISPLAY_HEIGHT as int) =~= grid);
        text
    }

    /// The text that restores the terminal.
    pub fn display_restore(&self) -> (text: String)
        ensures
            text@ == restore_text(),
    {
        let mut text = clear_all();
        let origin = goto(1, 1);
        text.append(origin.as_str());
        let show = show_cursor();
        text.append(show.as_str());
        text
    }

    /// The code of what a poll of the keyboard found. A poll that found
    /// nothing, or nothing that is a key, gives the code for no key.
    pub fn get_key(&self, poll: KeyPoll) -> (code: u8)
        ensures
            code == key_code(poll),
    {
        proof {
            lemma_keypad_layout();
        }
        let key = match poll {
            KeyPoll::Pressed(key) => key,
            _ => return 0xFF,
        };
        match key {
            Key::Char('x') => 0x00,
            Key::Char('1') => 0x01,
            Key::Char('2') => 0x02,
            Key::Char('3') => 0x03,
            Key::Char('q') => 0x04,
            Key::Char('w') => 0x05,
            Key::Char('e') => 0x06,
            Key::Char('a') => 0x07,
            Key::Char('s') => 0x08,
            Key::Char('d') => 0x09,
            Key::Char('z') => 0x0A,
            Key::Char('c') => 0x0B,
            Key::Char('4') => 0x0C,
            Key::Char('r') => 0x0D,
            Key::Char('f') => 0x0E,
            Key::Char('v') => 0x0F,
            Key::Char('\n') => 0xFD,
            Key::Esc => 0xFE,
            _ => 0xFF,
        }
    }

    /// The text that rings the terminal bell once.
    pub fn sound(&self) -> (text: String)
        ensures
            text@ == bell_text(),
    {
        proof {
            reveal_strlit("\u{7}");
        }
        String::from_str("\u{7}")
    }
}

/// The pixels of a frame buffer are 32 rows of 64, and pixel `c` of row `r`
/// is `vram[r][c]`.
pub proof fn lemma_pixels(vram: [[bool; DISPLAY_WIDTH]; DISPLAY_HEIGHT])
    ensures
        has_shape(pixels(vram), 32, 64),
        forall|r: int, c: int|
            0 <= r < 32 && 0 <= c < 64 ==> #[trigger] pixels(vram)[r][c] == vram[r][c],
{
}

/// Every frame paints the pixels in their order, row by row from the top
/// and each row from the left: of its 2048 spaces, the one that has `k`
/// spaces before it stands directly behind the colour of pixel `k % 64` of
/// row `k / 64`.
pub proof fn lemma_frame_paints_pixels_in_order(vram: [[bool; DISPLAY_WIDTH]; DISPLAY_HEIGHT])
    ensures
        count(frame_text(pixels(vram)), ' ') == 2048,
        forall|i: int|
            0 <= i < frame_text(pixels(vram)).len() && #[trigger] frame_text(pixels(vram))[i]
                == ' ' ==> {
                let k = count(frame_text(pixels(vram)).take(i), ' ') as int;
                &&& i >= 9
                &&& k < 2048
                &&& frame_text(pixels(vram)).subrange(i - 9, i) == colour_text(vram[k / 64][k % 64])
            },
{
    let grid = pixels(vram);
    let text = frame_text(grid);
    lemma_pixels(vram);
    lemma_frame_paints_in_order(grid);
    lemma_pixels_row_by_row(grid, 64);
    assert forall|i: int| 0 <= i < text.len() && #[trigger] text[i] == ' ' implies {
        let k = count(text.take(i), ' ') as int;
        &&& i >= 9
        &&& k < 2048
        &&& text.subrange(i - 9, i) == colour_text(vram[k / 64][k % 64])
    } by {
        let k = count(text.take(i), ' ') as int;
        assert(grid.flatten()[(k / 64) * 64 + k % 64] == grid[k / 64][k % 64]);
        assert(grid[k / 64][k % 64] == vram[k / 64][k % 64]);
    }
}

/// The frame of a display that is all dark, or all lit. It paints all 2048
/// cells, each in the colour of that state: every space of the frame ends a
/// cell of that colour. The colour of the other state stands nowhere in the
/// frame: a dark frame holds no directive for white, a lit frame none for
/// black.
pub proof fn lemma_frame_of_one_colour(vram: [[bool; DISPLAY_WIDTH]; DISPLAY_HEIGHT], on: bool)
    requires
        forall|r: int, c: int| 0 <= r < 32 && 0 <= c < 64 ==> #[trigger] vram[r][c] == on,
    ensures
        count(frame_text(pixels(vram)), ' ') == 2048,
        each_ends(frame_text(pixels(vram)), ' ', cell_text(on)),
        !occurs_in(colour_text(!on), frame_text(pixels(vram))),
{
    lemma_frame_paints_pixels_in_order(vram);
    lemma_pixels(vram);
    assert(is_uniform(pixels(vram), on)) by {
        assert forall|r: int, c: int|
            0 <= r < pixels(vram).len() && 0 <= c < pixels(vram)[r].len() implies #[trigger] pixels(
            vram,
        )[r][c] == on by {
            assert(vram[r][c] == on);
        }
    }
    lemma_uniform_frame(pixels(vram), on);
}

} // verus!
