//! The execution pump: the decisions of the loop that drives the interpreter.
//!
//! The pump neither sleeps nor touches the terminal or the interpreter. It is
//! a state machine: its caller reports an [`Event`], the pump answers with the
//! [`Command`]s to carry out, in order, and the last of them says which report
//! the pump waits for next.

use vstd::prelude::*;
use crate::keys::{is_keypad_code, EXIT_KEY, KEYPAD_KEYS};

verus! {

/// Length of the pause before each tick, in milliseconds.
pub const PACE_MILLIS: u64 = 1;

/// Where the pump stands.
#[derive(Clone, Copy, Debug, PartialEq, Eq, Structural)]
pub enum Phase {
    /// Not started: the terminal is as the parent process left it.
    Idle,
    /// A tick has begun: the pump waits for the key polled after the pause.
    Sampling,
    /// The key is dealt with: the pump waits to hear whether the interpreter
    /// is blocked on a key press, and how many sounds it asks for.
    Gating,
    /// The interpreter is taking one step: the pump waits for the dirty flag.
    Stepping,
    /// The run is over and the terminal restored.
    Stopped,
}

/// What the caller reports to the pump.
#[derive(Clone, Copy, Debug, PartialEq, Eq, Structural)]
pub enum Event {
    /// The run begins.
    Start,
    /// The code of the key polled after the pause.
    Key(u8),
    /// The interpreter's state before a step: whether it is blocked on a key
    /// press, and its count of requested sounds.
    Status { waiting: bool, sound: u64 },
    /// The interpreter's dirty flag right after a step.
    Stepped { dirty: bool },
}

/// What the pump asks of its caller.
#[derive(Clone, Copy, Debug, PartialEq, Eq, Structural)]
pub enum Command {
    /// Write the text that enters display mode.
    EnterDisplay,
    /// Pause for `PACE_MILLIS`.
    Pace,
    /// Poll the keyboard once, without blocking, and report `Event::Key`.
    PollKey,
    /// Tell the interpreter that the keypad key of this code is pressed.
    PressKey(u8),
    /// Report `Event::Status`.
    ReportStatus,
    /// Ring the terminal bell once.
    Bell,
    /// Set the interpreter's count of requested sounds to zero.
    ResetSound,
    /// Let the interpreter take one step.
    Step,
    /// Report `Event::Stepped`.
    ReportDirty,
    /// Paint the interpreter's frame buffer.
    Render,
    /// Clear the interpreter's dirty flag.
    ClearDirty,
    /// Write the text that restores the terminal.
    RestoreDisplay,
}

/// The event was not the one the pump waits for in its phase.
#[derive(Clone, Copy, Debug, PartialEq, Eq, Structural)]
pub enum PumpError {
    OutOfTurn,
}

/// How the pump reacts to `event` in `phase`: the phase it moves to and the
/// commands it issues, or `None` where the event is out of turn.
pub open spec fn react(phase: Phase, event: Event) -> Option<(Phase, Seq<Command>)> {
    match (phase, event) {
        (Phase::Idle, Event::Start) => Some(
            (Phase::Sampling, seq![Command::EnterDisplay, Command::Pace, Command::PollKey]),
        ),
        (Phase::Sampling, Event::Key(code)) => if code == EXIT_KEY {
            Some((Phase::Stopped, seq![Command::RestoreDisplay]))
        } else if is_keypad_code(code) {
            Some((Phase::Gating, seq![Command::PressKey(code), Command::ReportStatus]))
        } else {
            Some((Phase::Gating, seq![Command::ReportStatus]))
        },
        (Phase::Gating, Event::Status { waiting, sound }) => if waiting {
            Some((Phase::Sampling, seq![Command::Pace, Command::PollKey]))
        } else if sound > 0 {
            Some(
                (
                    Phase::Stepping,
                    seq![Command::Bell, Command::ResetSound, Command::Step, Command::ReportDirty],
                ),
            )
        } else {
            Some((Phase::Stepping, seq![Command::Step, Command::ReportDirty]))
        },
        (Phase::Stepping, Event::Stepped { dirty }) => if dirty {
            Some(
                (
                    Phase::Sampling,
                    seq![Command::Render, Command::ClearDirty, Command::Pace, Command::PollKey],
                ),
            )
        } else {
            Some((Phase::Sampling, seq![Command::Pace, Command::PollKey]))
        },
        _ => None,
    }
}

/// The pump.
pub struct Pump {
    phase: Phase,
}

impl View for Pump {
    type V = Phase;

    closed spec fn view(&self) -> Phase {
        self.phase
    }
}

impl Pump {
    /// A pump that has not started.
    pub fn new() -> (pump: Pump)
        ensures
            pump@ == Phase::Idle,
    {
        Pump { phase: Phase::Idle }
    }

    /// The phase the pump is in.
    pub fn phase(&self) -> (phase: Phase)
        ensures
            phase == self@,
    {
        self.phase
    }

    /// Whether the run is over.
    pub fn is_stopped(&self) -> (stopped: bool)
        ensures
            stopped == (self@ == Phase::Stopped),
    {
        match self.phase {
            Phase::Stopped => true,
            _ => false,
        }
    }

    /// Takes one report and answers with the commands to carry out, in order.
    /// An event that is out of turn is refused and changes nothing.
    pub fn advance(&mut self, event: Event) -> (out: Result<Vec<Command>, PumpError>)
        ensures
            match react(old(self)@, event) {
                Some((next, commands)) => {
                    &&& final(self)@ == next
                    &&& out matches Ok(list)
                    &&& list@ == commands
                },
                None => {
                    &&& final(self)@ == old(self)@
                    &&& out == Err::<Vec<Command>, PumpError>(PumpError::OutOfTurn)
                },
            },
    {
        match (self.phase, event) {
            (Phase::Idle, Event::Start) => {
                self.phase = Phase::Sampling;
                Ok(vec![Command::EnterDisplay, Command::Pace, Command::PollKey])
            },
            (Phase::Sampling, Event::Key(code)) => {
                if code == EXIT_KEY {
                    self.phase = Phase::Stopped;
                    Ok(vec![Command::RestoreDisplay])
                } else if code < KEYPAD_KEYS {
                    self.phase = Phase::Gating;
                    Ok(vec![Command::PressKey(code), Command::ReportStatus])
                } else {
                    self.phase = Phase::Gating;
                    Ok(vec![Command::ReportStatus])
                }
            },
            (Phase::Gating, Event::Status { waiting, sound }) => {
                if waiting {
                    self.phase = Phase::Sampling;
                    Ok(vec![Command::Pace, Command::PollKey])
                } else if sound > 0 {
                    self.phase = Phase::Stepping;
                    Ok(vec![Command::Bell, Command::ResetSound, Command::Step, Command::ReportDirty])
                } else {
                    self.phase = Phase::Stepping;
                    Ok(vec![Command::Step, Command::ReportDirty])
                }
            },
            (Phase::Stepping, Event::Stepped { dirty }) => {
                self.phase = Phase::Sampling;
                if dirty {
                    Ok(vec![Command::Render, Command::ClearDirty, Command::Pace, Command::PollKey])
                } else {
                    Ok(vec![Command::Pace, Command::PollKey])
                }
            },
            _ => Err(PumpError::OutOfTurn),
        }
    }
}

} // verus!
