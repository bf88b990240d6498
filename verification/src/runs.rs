//! Whole runs of the pump, and what holds of them.

use vstd::prelude::*;
use crate::counting::{count, lemma_count_concat, lemma_count_up_to_four};
use crate::keys::is_keypad_code;
use crate::pump::{react, Command, Event, Phase};

verus! {

/// The phase a run ends in and the commands it issues, when `events` are
/// reported in order to a pump in `phase`. An event that is out of turn is
/// refused and leaves the run where it was.
pub open spec fn run(phase: Phase, events: Seq<Event>) -> (Phase, Seq<Command>)
    decreases events.len(),
{
    if events.len() == 0 {
        (phase, Seq::empty())
    } else {
        match react(phase, events.first()) {
            Some((next, issued)) => {
                let rest = run(next, events.drop_first());
                (rest.0, issued + rest.1)
            },
            None => run(phase, events.drop_first()),
        }
    }
}

/// Whether the terminal is in display mode while the pump is in `phase`.
pub open spec fn in_display_mode(phase: Phase) -> bool {
    phase != Phase::Idle && phase != Phase::Stopped
}

/// Whether the pump may issue `next` directly after `previous`.
pub open spec fn may_follow(previous: Command, next: Command) -> bool {
    match previous {
        Command::EnterDisplay => next == Command::Pace,
        Command::Pace => next == Command::PollKey,
        Command::PollKey => match next {
            Command::PressKey(code) => is_keypad_code(code),
            Command::ReportStatus => true,
            Command::RestoreDisplay => true,
            _ => false,
        },
        Command::PressKey(_) => next == Command::ReportStatus,
        Command::ReportStatus => next == Command::Bell || next == Command::Step || next
            == Command::Pace,
        Command::Bell => next == Command::ResetSound,
        Command::ResetSound => next == Command::Step,
        Command::Step => next == Command::ReportDirty,
        Command::ReportDirty => next == Command::Render || next == Command::Pace,
        Command::Render => next == Command::ClearDirty,
        Command::ClearDirty => next == Command::Pace,
        Command::RestoreDisplay => false,
    }
}

/// The command after which the pump waits in `phase`.
pub open spec fn awaited_after(phase: Phase) -> Option<Command> {
    match phase {
        Phase::Idle => None,
        Phase::Sampling => Some(Command::PollKey),
        Phase::Gating => Some(Command::ReportStatus),
        Phase::Stepping => Some(Command::ReportDirty),
        Phase::Stopped => Some(Command::RestoreDisplay),
    }
}

/// Whether the command at index `i` may follow the one before it.
pub open spec fn follows_at(commands: Seq<Command>, i: int) -> bool {
    may_follow(commands[i - 1], commands[i])
}

/// Whether `commands` is in order for a pump that has reached `phase`: the
/// first command enters display mode, each command may follow the one before
/// it, and the last is the one after which the pump waits in `phase`.
pub open spec fn in_order(phase: Phase, commands: Seq<Command>) -> bool {
    &&& match awaited_after(phase) {
        None => commands.len() == 0,
        Some(last) => commands.len() > 0 && commands.last() == last,
    }
    &&& commands.len() > 0 ==> commands.first() == Command::EnterDisplay
    &&& forall|i: int| 1 <= i < commands.len() ==> #[trigger] follows_at(commands, i)
}

/// Whether the command at index `i` stands among the neighbours it must
/// have. A frame is painted directly after a step and the report of its
/// dirty flag, and the flag is cleared directly after the painting. The bell
/// is rung directly before the count of sounds is reset and the interpreter
/// steps. A key is forwarded directly after the poll, under a keypad code.
/// The keyboard is polled directly after a pause.
pub open spec fn well_placed(commands: Seq<Command>, i: int) -> bool {
    match commands[i] {
        Command::Render => {
            &&& i >= 2
            &&& commands[i - 2] == Command::Step
            &&& commands[i - 1] == Command::ReportDirty
            &&& i + 1 < commands.len()
            &&& commands[i + 1] == Command::ClearDirty
        },
        Command::Bell => {
            &&& i + 2 < commands.len()
            &&& commands[i + 1] == Command::ResetSound
            &&& commands[i + 2] == Command::Step
        },
        Command::PressKey(code) => {
            &&& is_keypad_code(code)
            &&& i >= 1
            &&& commands[i - 1] == Command::PollKey
        },
        Command::PollKey => i >= 1 && commands[i - 1] == Command::Pace,
        _ => true,
    }
}

/// Whether `command` asks the caller for a report.
pub open spec fn asks_report(command: Command) -> bool {
    command == Command::PollKey || command == Command::ReportStatus || command
        == Command::ReportDirty
}

/// Whether `event` is the report that the pump waits for in `phase`.
pub open spec fn in_turn(phase: Phase, event: Event) -> bool {
    match phase {
        Phase::Idle => event is Start,
        Phase::Sampling => event is Key,
        Phase::Gating => event is Status,
        Phase::Stepping => event is Stepped,
        Phase::Stopped => false,
    }
}

/// The pump takes exactly the report that is in turn. Its answer is never
/// empty; it asks for one report, with its last command, and that report is
/// then in turn; only the answer that stops the run asks for none.
pub proof fn lemma_one_request_per_answer(phase: Phase, event: Event)
    ensures
        react(phase, event) is Some <==> in_turn(phase, event),
        react(phase, event) matches Some((next, issued)) ==> {
            &&& issued.len() > 0
            &&& forall|j: int| 0 <= j < issued.len() - 1 ==> !asks_report(#[trigger] issued[j])
            &&& awaited_after(next) == Some(issued.last())
            &&& asks_report(issued.last()) <==> next != Phase::Stopped
        },
{
}

/// Nothing moves a pump that has stopped.
pub proof fn lemma_stopped_is_final(event: Event)
    ensures
        react(Phase::Stopped, event) is None,
{
}

/// What one reaction issues is in order by itself, and its first command
/// may follow the command after which the pump waited.
proof fn lemma_issued_in_order(phase: Phase, event: Event)
    requires
        react(phase, event) is Some,
    ensures
        ({
            let (next, issued) = react(phase, event).unwrap();
            &&& 0 < issued.len() <= 4
            &&& awaited_after(next) == Some(issued.last())
            &&& match awaited_after(phase) {
                None => issued.first() == Command::EnterDisplay,
                Some(last) => may_follow(last, issued.first()),
            }
            &&& forall|j: int| 1 <= j < issued.len() ==> #[trigger] follows_at(issued, j)
        }),
{
}

/// One reaction keeps the commands in order.
proof fn lemma_react_keeps_order(phase: Phase, before: Seq<Command>, event: Event)
    requires
        in_order(phase, before),
        react(phase, event) is Some,
    ensures
        in_order(react(phase, event).unwrap().0, before + react(phase, event).unwrap().1),
{
    let issued = react(phase, event).unwrap().1;
    let all = before + issued;
    lemma_issued_in_order(phase, event);
    assert forall|i: int| 1 <= i < all.len() implies #[trigger] follows_at(all, i) by {
        if i < before.len() {
            assert(follows_at(before, i));
        } else if i > before.len() {
            assert(follows_at(issued, i - before.len()));
        }
    }
}

/// A run keeps the commands in order, whatever was issued before it.
pub proof fn lemma_run_keeps_order(phase: Phase, before: Seq<Command>, events: Seq<Event>)
    requires
        in_order(phase, before),
    ensures
        in_order(run(phase, events).0, before + run(phase, events).1),
    decreases events.len(),
{
    if events.len() > 0 {
        match react(phase, events.first()) {
            Some((next, issued)) => {
                let rest = run(next, events.drop_first());
                lemma_react_keeps_order(phase, before, events.first());
                lemma_run_keeps_order(next, before + issued, events.drop_first());
                assert((before + issued) + rest.1 =~= before + (issued + rest.1));
            },
            None => {
                lemma_run_keeps_order(phase, before, events.drop_first());
            },
        }
    }
}

/// Over a whole run, whatever is reported and in whatever order, the
/// commands are in order: the first enters display mode, each may follow the
/// one before it, and the last is the one after which the pump waits.
pub proof fn lemma_run_is_in_order(events: Seq<Event>)
    ensures
        in_order(run(Phase::Idle, events).0, run(Phase::Idle, events).1),
{
    lemma_run_keeps_order(Phase::Idle, Seq::empty(), events);
}

/// Over a whole run, whatever is reported and in whatever order, every
/// command stands among the neighbours it must have: a frame is painted only
/// directly after a step and the report of its dirty flag, and the flag is
/// cleared directly after the painting; the bell is rung only directly before
/// the count of sounds is reset and the interpreter steps; a key is forwarded
/// only directly after the poll and only under a keypad code; and the
/// keyboard is polled only directly after a pause.
pub proof fn lemma_run_neighbours(events: Seq<Event>)
    ensures
        forall|i: int|
            0 <= i < run(Phase::Idle, events).1.len() ==> #[trigger] well_placed(
                run(Phase::Idle, events).1,
                i,
            ),
{
    lemma_run_is_in_order(events);
    let commands = run(Phase::Idle, events).1;
    assert forall|i: int| 0 <= i < commands.len() implies #[trigger] well_placed(commands, i) by {
        if i >= 1 {
            assert(follows_at(commands, i));
        }
        if i >= 2 {
            assert(follows_at(commands, i - 1));
        }
        if i + 1 < commands.len() {
            assert(follows_at(commands, i + 1));
        }
        if i + 2 < commands.len() {
            assert(follows_at(commands, i + 2));
        }
    }
}

/// How often one reaction enters display mode and restores the terminal.
proof fn lemma_issued_display_mode(phase: Phase, event: Event)
    requires
        react(phase, event) is Some,
    ensures
        ({
            let (next, issued) = react(phase, event).unwrap();
            &&& count(issued, Command::EnterDisplay) == (if phase == Phase::Idle {
                1nat
            } else {
                0nat
            })
            &&& count(issued, Command::RestoreDisplay) == (if next == Phase::Stopped {
                1nat
            } else {
                0nat
            })
            &&& next != Phase::Idle
            &&& phase != Phase::Stopped
        }),
{
    let issued = react(phase, event).unwrap().1;
    lemma_count_up_to_four(issued, Command::EnterDisplay);
    lemma_count_up_to_four(issued, Command::RestoreDisplay);
}

/// A run from any phase enters display mode only out of `Idle` and restores
/// the terminal only into `Stopped`, each at most once.
proof fn lemma_run_display_mode(phase: Phase, events: Seq<Event>)
    ensures
        ({
            let (last, commands) = run(phase, events);
            &&& count(commands, Command::EnterDisplay) == (if phase == Phase::Idle && last
                != Phase::Idle {
                1nat
            } else {
                0nat
            })
            &&& count(commands, Command::RestoreDisplay) == (if phase != Phase::Stopped && last
                == Phase::Stopped {
                1nat
            } else {
                0nat
            })
            &&& phase != Phase::Idle ==> last != Phase::Idle
            &&& phase == Phase::Stopped ==> last == Phase::Stopped
        }),
    decreases events.len(),
{
    if events.len() > 0 {
        match react(phase, events.first()) {
            Some((next, issued)) => {
                let rest = run(next, events.drop_first());
                lemma_issued_display_mode(phase, events.first());
                lemma_run_display_mode(next, events.drop_first());
                lemma_count_concat(issued, rest.1, Command::EnterDisplay);
                lemma_count_concat(issued, rest.1, Command::RestoreDisplay);
            },
            None => {
                lemma_run_display_mode(phase, events.drop_first());
            },
        }
    }
}

/// Over a whole run, whatever is reported and in whatever order: display mode
/// is entered once, by the first command, unless the run never starts; the
/// terminal is restored once, by the last command, exactly when the run has
/// stopped; and the terminal is in display mode, entered and not yet
/// restored, exactly in the phases between the start and the stop.
pub proof fn lemma_display_mode_is_bracketed(events: Seq<Event>)
    ensures
        ({
            let (last, commands) = run(Phase::Idle, events);
            &&& count(commands, Command::EnterDisplay) == (if last == Phase::Idle {
                0nat
            } else {
                1nat
            })
            &&& count(commands, Command::RestoreDisplay) == (if last == Phase::Stopped {
                1nat
            } else {
                0nat
            })
            &&& last != Phase::Idle ==> commands.first() == Command::EnterDisplay
            &&& last == Phase::Stopped ==> commands.last() == Command::RestoreDisplay
            &&& last == Phase::Idle ==> commands.len() == 0
            &&& in_display_mode(last) <==> count(commands, Command::EnterDisplay) == 1 && count(
                commands,
                Command::RestoreDisplay,
            ) == 0
        }),
{
    lemma_run_display_mode(Phase::Idle, events);
    lemma_run_is_in_order(events);
}

} // verus!
