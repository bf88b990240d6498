//! Whole ticks of the pump, and what holds of them.

use vstd::prelude::*;
use crate::counting::{
    count, lemma_count_concat, lemma_count_once, lemma_count_up_to_four, lemma_count_zero,
};
use crate::keys::{is_keypad_code, EXIT_KEY};
use crate::pump::{react, Command, Event, Phase};
use crate::runs::{awaited_after, follows_at, in_order, lemma_run_keeps_order, may_follow, run};

verus! {

/// The commands of one tick, from the report of the polled key up to the
/// command that begins the next tick or ends the run. `key` is the polled
/// code; `waiting` and `sound` are what the interpreter reports if the pump
/// asks for its status; `dirty` is what it reports if the pump lets it step.
#[verifier::opaque]
pub open spec fn tick(key: u8, waiting: bool, sound: u64, dirty: bool) -> Seq<Command> {
    let sampled = react(Phase::Sampling, Event::Key(key)).unwrap();
    if sampled.0 != Phase::Gating {
        sampled.1
    } else {
        let gated = react(Phase::Gating, Event::Status { waiting, sound }).unwrap();
        if gated.0 != Phase::Stepping {
            sampled.1 + gated.1
        } else {
            let stepped = react(Phase::Stepping, Event::Stepped { dirty }).unwrap();
            sampled.1 + gated.1 + stepped.1
        }
    }
}

/// Whether a tick with these reports lets the interpreter step: the key is
/// not Escape and the interpreter is not blocked on a key press.
pub open spec fn steps(key: u8, waiting: bool) -> bool {
    key != EXIT_KEY && !waiting
}

/// How often `command` is issued in a tick.
pub open spec fn tick_count(
    key: u8,
    waiting: bool,
    sound: u64,
    dirty: bool,
    command: Command,
) -> nat {
    let issued = match command {
        Command::EnterDisplay => false,
        Command::RestoreDisplay => key == EXIT_KEY,
        Command::PressKey(code) => key != EXIT_KEY && is_keypad_code(key) && code == key,
        Command::ReportStatus => key != EXIT_KEY,
        Command::Bell => steps(key, waiting) && sound > 0,
        Command::ResetSound => steps(key, waiting) && sound > 0,
        Command::Step => steps(key, waiting),
        Command::ReportDirty => steps(key, waiting),
        Command::Render => steps(key, waiting) && dirty,
        Command::ClearDirty => steps(key, waiting) && dirty,
        Command::Pace => key != EXIT_KEY,
        Command::PollKey => key != EXIT_KEY,
    };
    if issued {
        1
    } else {
        0
    }
}

/// Whether, if `first` stands at index `i` of `commands`, `second` stands
/// right behind it.
pub open spec fn followed_at(commands: Seq<Command>, i: int, first: Command, second: Command) -> bool {
    commands[i] == first ==> i + 1 < commands.len() && commands[i + 1] == second
}

/// Whether `first` stands in `commands` with `second` right behind it,
/// wherever `first` stands.
pub open spec fn always_followed_by(commands: Seq<Command>, first: Command, second: Command) -> bool {
    forall|i: int| 0 <= i < commands.len() ==> #[trigger] followed_at(commands, i, first, second)
}

/// Whether every `earlier` in `commands` stands before every `later`.
pub open spec fn all_before(commands: Seq<Command>, earlier: Command, later: Command) -> bool {
    forall|i: int, j: int|
        0 <= i < commands.len() && 0 <= j < commands.len() && commands[i] == earlier && commands[j]
            == later ==> i < j
}

/// A tick is what a run issues from `Sampling` when the three reports of the
/// tick are made in order; the reports that the pump did not ask for are
/// refused. The run ends stopped if the key was Escape, and else at the
/// beginning of the next tick.
pub proof fn lemma_tick_is_a_run(key: u8, waiting: bool, sound: u64, dirty: bool)
    ensures
        run(
            Phase::Sampling,
            seq![Event::Key(key), Event::Status { waiting, sound }, Event::Stepped { dirty }],
        ) == (
            if key == EXIT_KEY {
                Phase::Stopped
            } else {
                Phase::Sampling
            },
            tick(key, waiting, sound, dirty),
        ),
{
    reveal(tick);
    let events = seq![Event::Key(key), Event::Status { waiting, sound }, Event::Stepped { dirty }];
    let after_one = events.drop_first();
    let after_two = after_one.drop_first();
    let after_three = after_two.drop_first();
    let sampled = react(Phase::Sampling, Event::Key(key)).unwrap();
    assert(run(sampled.0, after_three).1 =~= Seq::<Command>::empty());
    if sampled.0 == Phase::Gating {
        let gated = react(Phase::Gating, Event::Status { waiting, sound }).unwrap();
        assert(run(gated.0, after_three).1 =~= Seq::<Command>::empty());
        if gated.0 == Phase::Stepping {
            let stepped = react(Phase::Stepping, Event::Stepped { dirty }).unwrap();
            assert(run(stepped.0, after_three).1 =~= Seq::<Command>::empty());
            assert(run(Phase::Stepping, after_two).1 =~= stepped.1);
            assert(run(Phase::Gating, after_one).1 =~= gated.1 + stepped.1);
        } else {
            assert(run(Phase::Sampling, after_two).1 =~= Seq::<Command>::empty());
            assert(run(Phase::Gating, after_one).1 =~= gated.1);
        }
    } else {
        assert(run(Phase::Stopped, after_two).1 =~= Seq::<Command>::empty());
        assert(run(Phase::Stopped, after_one).1 =~= Seq::<Command>::empty());
    }
}

/// A tick issues each command as often as `tick_count` says: once or not at
/// all.
pub proof fn lemma_tick_counts(key: u8, waiting: bool, sound: u64, dirty: bool, command: Command)
    ensures
        count(tick(key, waiting, sound, dirty), command) == tick_count(
            key,
            waiting,
            sound,
            dirty,
            command,
        ),
        tick(key, waiting, sound, dirty).contains(command) <==> tick_count(
            key,
            waiting,
            sound,
            dirty,
            command,
        ) == 1,
{
    reveal(tick);
    let sampled = react(Phase::Sampling, Event::Key(key)).unwrap();
    lemma_count_up_to_four(sampled.1, command);
    if sampled.0 == Phase::Gating {
        let gated = react(Phase::Gating, Event::Status { waiting, sound }).unwrap();
        lemma_count_up_to_four(gated.1, command);
        lemma_count_concat(sampled.1, gated.1, command);
        if gated.0 == Phase::Stepping {
            let stepped = react(Phase::Stepping, Event::Stepped { dirty }).unwrap();
            lemma_count_up_to_four(stepped.1, command);
            lemma_count_concat(sampled.1 + gated.1, stepped.1, command);
        }
    }
    lemma_count_zero(tick(key, waiting, sound, dirty), command);
}

/// The commands of a started pump are in order.
proof fn lemma_started_in_order()
    ensures
        in_order(Phase::Sampling, seq![Command::EnterDisplay, Command::Pace, Command::PollKey]),
{
}

/// The later part of commands that are in order is in order by itself, and
/// begins with a command that may follow the last of the earlier part.
proof fn lemma_later_part_in_order(phase: Phase, before: Seq<Command>, later: Seq<Command>)
    requires
        in_order(phase, before + later),
        before.len() > 0,
        later.len() > 0,
    ensures
        may_follow(before.last(), later.first()),
        forall|i: int| 1 <= i < later.len() ==> #[trigger] follows_at(later, i),
        awaited_after(phase) == Some(later.last()),
{
    let all = before + later;
    assert(follows_at(all, before.len() as int));
    assert forall|i: int| 1 <= i < later.len() implies #[trigger] follows_at(later, i) by {
        assert(follows_at(all, i + before.len()));
    }
}

/// Within a tick each command may follow the one before it. The first may
/// follow the poll that began the tick, and the last is the poll that begins
/// the next tick or, after Escape, the restoring of the terminal.
pub proof fn lemma_tick_is_in_order(key: u8, waiting: bool, sound: u64, dirty: bool)
    ensures
        ({
            let t = tick(key, waiting, sound, dirty);
            &&& t.len() > 0
            &&& may_follow(Command::PollKey, t.first())
            &&& forall|i: int| 1 <= i < t.len() ==> #[trigger] follows_at(t, i)
            &&& t.last() == if key == EXIT_KEY {
                Command::RestoreDisplay
            } else {
                Command::PollKey
            }
        }),
{
    let t = tick(key, waiting, sound, dirty);
    let before = seq![Command::EnterDisplay, Command::Pace, Command::PollKey];
    let events = seq![Event::Key(key), Event::Status { waiting, sound }, Event::Stepped { dirty }];
    lemma_tick_counts(key, waiting, sound, dirty, Command::ReportStatus);
    lemma_tick_counts(key, waiting, sound, dirty, Command::RestoreDisplay);
    lemma_tick_is_a_run(key, waiting, sound, dirty);
    lemma_started_in_order();
    lemma_run_keeps_order(Phase::Sampling, before, events);
    lemma_later_part_in_order(run(Phase::Sampling, events).0, before, t);
}

/// While the interpreter is blocked on a key press, a tick neither steps it,
/// nor paints, nor rings the bell.
pub proof fn lemma_waiting_tick_is_quiet(key: u8, sound: u64, dirty: bool)
    ensures
        !tick(key, true, sound, dirty).contains(Command::Step),
        !tick(key, true, sound, dirty).contains(Command::Render),
        !tick(key, true, sound, dirty).contains(Command::Bell),
{
    lemma_tick_counts(key, true, sound, dirty, Command::Step);
    lemma_tick_counts(key, true, sound, dirty, Command::Render);
    lemma_tick_counts(key, true, sound, dirty, Command::Bell);
}

/// A tick steps the interpreter exactly when the key was not Escape and the
/// interpreter is not blocked on a key press. It then steps it once, and asks
/// for the dirty flag right after the step. So the interpreter runs on, tick
/// by tick, also when no key is ever pressed.
pub proof fn lemma_step_iff_running(key: u8, waiting: bool, sound: u64, dirty: bool)
    ensures
        tick(key, waiting, sound, dirty).contains(Command::Step) <==> key != EXIT_KEY && !waiting,
        count(tick(key, waiting, sound, dirty), Command::Step) <= 1,
        always_followed_by(tick(key, waiting, sound, dirty), Command::Step, Command::ReportDirty),
{
    let t = tick(key, waiting, sound, dirty);
    lemma_tick_counts(key, waiting, sound, dirty, Command::Step);
    lemma_tick_is_in_order(key, waiting, sound, dirty);
    assert forall|i: int| 0 <= i < t.len() implies #[trigger] followed_at(
        t,
        i,
        Command::Step,
        Command::ReportDirty,
    ) by {
        if i + 1 < t.len() {
            assert(follows_at(t, i + 1));
        }
    }
}

/// A tick paints exactly when it stepped the interpreter and the dirty flag
/// was set right after that step. It paints once, after the step, and clears
/// the flag right after painting; it clears the flag at no other time.
pub proof fn lemma_render_iff_dirty_after_step(key: u8, waiting: bool, sound: u64, dirty: bool)
    ensures
        tick(key, waiting, sound, dirty).contains(Command::Render) <==> tick(
            key,
            waiting,
            sound,
            dirty,
        ).contains(Command::Step) && dirty,
        count(tick(key, waiting, sound, dirty), Command::Render) <= 1,
        all_before(tick(key, waiting, sound, dirty), Command::Step, Command::Render),
        always_followed_by(tick(key, waiting, sound, dirty), Command::Render, Command::ClearDirty),
        count(tick(key, waiting, sound, dirty), Command::ClearDirty) == count(
            tick(key, waiting, sound, dirty),
            Command::Render,
        ),
{
    let t = tick(key, waiting, sound, dirty);
    lemma_tick_counts(key, waiting, sound, dirty, Command::Render);
    lemma_tick_counts(key, waiting, sound, dirty, Command::Step);
    lemma_tick_counts(key, waiting, sound, dirty, Command::ClearDirty);
    lemma_tick_is_in_order(key, waiting, sound, dirty);
    assert forall|i: int| 0 <= i < t.len() implies #[trigger] followed_at(
        t,
        i,
        Command::Render,
        Command::ClearDirty,
    ) by {
        if i + 1 < t.len() {
            assert(follows_at(t, i + 1));
        }
    }
    assert forall|i: int, j: int|
        0 <= i < t.len() && 0 <= j < t.len() && t[i] == Command::Step && t[j]
            == Command::Render implies i < j by {
        if j >= 1 {
            assert(follows_at(t, j));
        }
        if j >= 2 {
            assert(follows_at(t, j - 1));
            lemma_count_once(t, Command::Step, i, j - 2);
        }
    }
}

/// A tick rings the bell exactly when it steps the interpreter and the count
/// of requested sounds is above zero. It rings once, whatever the count, before
/// the step, and sets the count to zero right after ringing; it resets the
/// count at no other time.
pub proof fn lemma_bell_iff_sound_requested(key: u8, waiting: bool, sound: u64, dirty: bool)
    ensures
        tick(key, waiting, sound, dirty).contains(Command::Bell) <==> tick(
            key,
            waiting,
            sound,
            dirty,
        ).contains(Command::Step) && sound > 0,
        count(tick(key, waiting, sound, dirty), Command::Bell) <= 1,
        all_before(tick(key, waiting, sound, dirty), Command::Bell, Command::Step),
        always_followed_by(tick(key, waiting, sound, dirty), Command::Bell, Command::ResetSound),
        count(tick(key, waiting, sound, dirty), Command::ResetSound) == count(
            tick(key, waiting, sound, dirty),
            Command::Bell,
        ),
{
    let t = tick(key, waiting, sound, dirty);
    lemma_tick_counts(key, waiting, sound, dirty, Command::Bell);
    lemma_tick_counts(key, waiting, sound, dirty, Command::Step);
    lemma_tick_counts(key, waiting, sound, dirty, Command::ResetSound);
    lemma_tick_is_in_order(key, waiting, sound, dirty);
    assert forall|i: int| 0 <= i < t.len() implies #[trigger] followed_at(
        t,
        i,
        Command::Bell,
        Command::ResetSound,
    ) by {
        if i + 1 < t.len() {
            assert(follows_at(t, i + 1));
        }
    }
    assert forall|i: int, j: int|
        0 <= i < t.len() && 0 <= j < t.len() && t[i] == Command::Bell && t[j]
            == Command::Step implies i < j by {
        if i + 1 < t.len() {
            assert(follows_at(t, i + 1));
        }
        if i + 2 < t.len() {
            assert(follows_at(t, i + 2));
            lemma_count_once(t, Command::Step, i + 2, j);
        }
    }
}

/// A tick forwards the polled key to the interpreter exactly when its code
/// is a keypad code: once, under that code, as its first command.
pub proof fn lemma_key_forwarded_iff_keypad(
    key: u8,
    waiting: bool,
    sound: u64,
    dirty: bool,
    code: u8,
)
    ensures
        tick(key, waiting, sound, dirty).contains(Command::PressKey(code)) <==> code == key
            && is_keypad_code(key),
        count(tick(key, waiting, sound, dirty), Command::PressKey(code)) <= 1,
        forall|i: int|
            0 <= i < tick(key, waiting, sound, dirty).len() && #[trigger] tick(
                key,
                waiting,
                sound,
                dirty,
            )[i] == Command::PressKey(code) ==> i == 0,
{
    let t = tick(key, waiting, sound, dirty);
    lemma_tick_counts(key, waiting, sound, dirty, Command::PressKey(code));
    lemma_tick_counts(key, waiting, sound, dirty, Command::PollKey);
    lemma_tick_is_in_order(key, waiting, sound, dirty);
    assert forall|i: int| 0 <= i < t.len() && #[trigger] t[i] == Command::PressKey(
        code,
    ) implies i == 0 by {
        if i > 0 {
            assert(follows_at(t, i));
            lemma_count_once(t, Command::PollKey, i - 1, t.len() - 1);
        }
    }
}

/// Escape ends the run: the tick restores the terminal and does nothing else.
/// Every other tick leaves the terminal mode alone and ends by one pause and
/// one poll, in that order, for the next tick.
pub proof fn lemma_tick_ends(key: u8, waiting: bool, sound: u64, dirty: bool)
    ensures
        key == EXIT_KEY ==> tick(key, waiting, sound, dirty) == seq![Command::RestoreDisplay],
        key != EXIT_KEY ==> {
            let t = tick(key, waiting, sound, dirty);
            &&& t.len() >= 2
            &&& t[t.len() - 2] == Command::Pace
            &&& t.last() == Command::PollKey
            &&& count(t, Command::Pace) == 1
            &&& count(t, Command::PollKey) == 1
            &&& !t.contains(Command::RestoreDisplay)
            &&& !t.contains(Command::EnterDisplay)
        },
{
    let t = tick(key, waiting, sound, dirty);
    lemma_tick_counts(key, waiting, sound, dirty, Command::Pace);
    lemma_tick_counts(key, waiting, sound, dirty, Command::PollKey);
    lemma_tick_counts(key, waiting, sound, dirty, Command::RestoreDisplay);
    lemma_tick_counts(key, waiting, sound, dirty, Command::EnterDisplay);
    lemma_tick_is_in_order(key, waiting, sound, dirty);
    if key != EXIT_KEY {
        // A poll cannot follow the poll that began the tick, so the last
        // command is not the first, and what it follows is the pause.
        assert(t.len() >= 2);
        assert(follows_at(t, t.len() - 1));
    } else {
        assert(t =~= seq![Command::RestoreDisplay]) by {
            reveal(tick);
        }
    }
}

} // verus!
