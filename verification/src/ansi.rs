//! The control sequences sent to the terminal, and the calls into `termion`
//! that produce them.
//!
//! Each sequence is stated character by character in a spec function. The
//! executable functions of this module are thin wrappers around `termion`; the
//! verifier takes their contracts on trust and does not look at their bodies.

use vstd::prelude::*;

verus! {

/// The character of the decimal digit `d`, for `d < 10`.
pub open spec fn digit_char(d: nat) -> char {
    ('0' as nat + d) as char
}

/// The decimal numeral of `n`, most significant digit first, without padding.
pub open spec fn decimal(n: nat) -> Seq<char>
    decreases n,
{
    if n < 10 {
        seq![digit_char(n)]
    } else {
        decimal(n / 10).push(digit_char(n % 10))
    }
}

/// Erase the whole screen: `ESC [ 2 J`.
pub open spec fn clear_all_text() -> Seq<char> {
    seq!['\u{1b}', '[', '2', 'J']
}

/// Make the cursor invisible: `ESC [ ? 2 5 l`.
pub open spec fn hide_cursor_text() -> Seq<char> {
    seq!['\u{1b}', '[', '?', '2', '5', 'l']
}

/// Make the cursor visible: `ESC [ ? 2 5 h`.
pub open spec fn show_cursor_text() -> Seq<char> {
    seq!['\u{1b}', '[', '?', '2', '5', 'h']
}

/// Move the cursor to column `x` of row `y`, both counted from one:
/// `ESC [ y ; x H`, with the two numbers in decimal.
pub open spec fn goto_text(x: u16, y: u16) -> Seq<char> {
    seq!['\u{1b}', '['] + decimal(y as nat) + seq![';'] + decimal(x as nat) + seq!['H']
}

/// Set the background to white, the colour of a lit pixel: `ESC [ 4 8 ; 5 ; 7 m`.
pub open spec fn bg_white_text() -> Seq<char> {
    seq!['\u{1b}', '[', '4', '8', ';', '5', ';', '7', 'm']
}

/// Set the background to black, the colour of a dark pixel: `ESC [ 4 8 ; 5 ; 0 m`.
pub open spec fn bg_black_text() -> Seq<char> {
    seq!['\u{1b}', '[', '4', '8', ';', '5', ';', '0', 'm']
}

/// The bell: the single control character `BEL`.
pub open spec fn bell_text() -> Seq<char> {
    seq!['\u{7}']
}

/// Formats `termion::clear::All`. Trusted: the result is the fixed sequence
/// `ESC [ 2 J` that the crate writes for it.
#[verifier::external_body]
pub(crate) fn clear_all() -> (text: String)
    ensures
        text@ == clear_all_text(),
{
    termion::clear::All.to_string()
}

/// Formats `termion::cursor::Hide`. Trusted: the result is the fixed sequence
/// `ESC [ ? 2 5 l` that the crate writes for it.
#[verifier::external_body]
pub(crate) fn hide_cursor() -> (text: String)
    ensures
        text@ == hide_cursor_text(),
{
    termion::cursor::Hide.to_string()
}

/// Formats `termion::cursor::Show`. Trusted: the result is the fixed sequence
/// `ESC [ ? 2 5 h` that the crate writes for it.
#[verifier::external_body]
pub(crate) fn show_cursor() -> (text: String)
    ensures
        text@ == show_cursor_text(),
{
    termion::cursor::Show.to_string()
}

/// Formats `termion::cursor::Goto(x, y)`. Trusted: the crate writes `ESC [`,
/// the row, `;`, the column and `H`, the numbers as the standard library
/// prints a `u16`. The crate asserts that the position is not `(0, 0)`, so
/// that position is excluded here.
#[verifier::external_body]
pub(crate) fn goto(x: u16, y: u16) -> (text: String)
    requires
        x != 0 || y != 0,
    ensures
        text@ == goto_text(x, y),
{
    termion::cursor::Goto(x, y).to_string()
}

/// Formats `termion::color::Bg(termion::color::White)`. Trusted: the result is
/// the fixed sequence `ESC [ 4 8 ; 5 ; 7 m` that the crate writes for it.
#[verifier::external_body]
pub(crate) fn bg_white() -> (text: String)
    ensures
        text@ == bg_white_text(),
{
    termion::color::Bg(termion::color::White).to_string()
}

/// Formats `termion::color::Bg(termion::color::Black)`. Trusted: the result is
/// the fixed sequence `ESC [ 4 8 ; 5 ; 0 m` that the crate writes for it.
#[verifier::external_body]
pub(crate) fn bg_black() -> (text: String)
    ensures
        text@ == bg_black_text(),
{
    termion::color::Bg(termion::color::Black).to_string()
}

} // verus!
