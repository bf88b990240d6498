//! Key events and the keypad codes they stand for.

use vstd::prelude::*;

verus! {

/// Code reported when no key is pending, or when the key has no place on the keypad.
pub const NO_KEY: u8 = 0xFF;

/// Code reported for Escape: the request to leave.
pub const EXIT_KEY: u8 = 0xFE;

/// Code reported for Enter. Reserved: nothing acts on it.
pub const CONFIRM_KEY: u8 = 0xFD;

/// Number of keys on the keypad; their codes are `0 .. KEYPAD_KEYS`.
pub const KEYPAD_KEYS: u8 = 16;

/// A key press as the terminal reports it.
#[derive(Clone, Copy, Debug, PartialEq, Eq, Structural)]
pub enum Key {
    Backspace,
    Left,
    Right,
    Up,
    Down,
    Home,
    End,
    PageUp,
    PageDown,
    BackTab,
    Delete,
    Insert,
    /// A function key, by its number.
    F(u8),
    /// An ordinary character.
    Char(char),
    /// A character typed with Alt held.
    Alt(char),
    /// A character typed with Ctrl held.
    Ctrl(char),
    Null,
    Esc,
}

/// What one non-blocking look at the input stream found.
#[derive(Clone, Copy, Debug, PartialEq, Eq, Structural)]
pub enum KeyPoll {
    /// Nothing was pending.
    Idle,
    /// Bytes were pending that form no key event.
    Malformed,
    /// One key event was pending.
    Pressed(Key),
}

/// The sixteen characters of the keypad: the character at index `i` is the
/// physical key of code `i`.
pub open spec fn keypad_layout() -> Seq<char> {
    seq!['x', '1', '2', '3', 'q', 'w', 'e', 'a', 's', 'd', 'z', 'c', '4', 'r', 'f', 'v']
}

/// The code of a key press.
pub open spec fn key_code_of(key: Key) -> u8 {
    match key {
        Key::Char(c) => {
            if keypad_layout().contains(c) {
                keypad_layout().index_of(c) as u8
            } else if c == '\n' {
                CONFIRM_KEY
            } else {
                NO_KEY
            }
        },
        Key::Esc => EXIT_KEY,
        _ => NO_KEY,
    }
}

/// The code of what a poll found.
pub open spec fn key_code(poll: KeyPoll) -> u8 {
    match poll {
        KeyPoll::Pressed(key) => key_code_of(key),
        _ => NO_KEY,
    }
}

/// Whether `code` names one of the sixteen keypad keys.
pub open spec fn is_keypad_code(code: u8) -> bool {
    code < KEYPAD_KEYS
}

/// The keypad layout has sixteen entries, no character twice.
pub proof fn lemma_keypad_layout()
    ensures
        keypad_layout().len() == 16,
        keypad_layout().no_duplicates(),
{
}

/// The key table. The key at index `i` of the layout has code `i`; Enter has
/// the confirm code and Escape the exit code; every other key, and a poll
/// that found no key, has the code for no key.
pub proof fn lemma_key_table(poll: KeyPoll)
    ensures
        forall|i: int|
            0 <= i < 16 && poll == KeyPoll::Pressed(Key::Char(#[trigger] keypad_layout()[i]))
                ==> key_code(poll) == i,
        poll == KeyPoll::Pressed(Key::Char('\n')) ==> key_code(poll) == CONFIRM_KEY,
        poll == KeyPoll::Pressed(Key::Esc) ==> key_code(poll) == EXIT_KEY,
        !(poll matches KeyPoll::Pressed(Key::Char(c)) && (keypad_layout().contains(c) || c
            == '\n')) && poll != KeyPoll::Pressed(Key::Esc) ==> key_code(poll) == NO_KEY,
{
    lemma_keypad_layout();
}

/// Codes and keys match one to one. A code below sixteen comes from the one
/// character of the layout at that index, the confirm code from Enter alone
/// and the exit code from Escape alone; there are no other codes but the one
/// for no key.
pub proof fn lemma_key_code_names_its_key(poll: KeyPoll)
    ensures
        is_keypad_code(key_code(poll)) ==> poll == KeyPoll::Pressed(
            Key::Char(keypad_layout()[key_code(poll) as int]),
        ),
        key_code(poll) == CONFIRM_KEY ==> poll == KeyPoll::Pressed(Key::Char('\n')),
        key_code(poll) == EXIT_KEY ==> poll == KeyPoll::Pressed(Key::Esc),
        is_keypad_code(key_code(poll)) || key_code(poll) == CONFIRM_KEY || key_code(poll)
            == EXIT_KEY || key_code(poll) == NO_KEY,
{
    lemma_keypad_layout();
}

} // verus!
