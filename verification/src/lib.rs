//! Terminal front end for a CHIP-8 machine.
//!
//! The library holds the rules of the front end and proves what it states of
//! them; it does no input or output. Its caller polls the keyboard, sleeps,
//! drives the interpreter and writes to the terminal.
//!
//! - [`keys`]: key events and their keypad codes.
//! - [`ansi`]: the control sequences, and the calls into `termion` that make them.
//! - [`frame`]: the text of a frame.
//! - [`driver`]: the terminal driver, which composes what is written.
//! - [`pump`]: the execution pump, a state machine from reports to commands.
//! - [`runs`], [`ticks`]: what holds of whole runs and whole ticks of the pump.
//! - [`counting`]: counting the occurrences of a value in a sequence.

pub mod ansi;
pub mod counting;
pub mod driver;
pub mod frame;
pub mod keys;
pub mod pump;
pub mod runs;
pub mod ticks;
