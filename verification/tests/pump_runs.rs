use chip8_term::driver::IODriver;
use chip8_term::keys::{Key, KeyPoll};
use chip8_term::pump::{Command, Event, Pump};

/// An interpreter that does what its script says.
struct Machine {
    waiting: Vec<bool>,
    sound: u64,
    sound_on_tick: Vec<u64>,
    dirty: bool,
    dirty_on_step: Vec<bool>,
    pressed: Vec<u8>,
    steps: usize,
    ticks: usize,
}

impl Machine {
    fn quiet() -> Machine {
        Machine {
            waiting: Vec::new(),
            sound: 0,
            sound_on_tick: Vec::new(),
            dirty: false,
            dirty_on_step: Vec::new(),
            pressed: Vec::new(),
            steps: 0,
            ticks: 0,
        }
    }
}

/// What the terminal saw.
#[derive(Debug, Default, PartialEq)]
struct Seen {
    entered: usize,
    restored: usize,
    pauses: usize,
    polls: usize,
    bells: usize,
    renders: usize,
    written: Vec<String>,
    steps_at_render: Vec<usize>,
    steps_at_bell: Vec<usize>,
}

/// Runs the pump against `machine`, answering polls from `keys`; when the
/// keys run out, Escape is pressed.
fn drive(keys: &[KeyPoll], machine: &mut Machine) -> Seen {
    let driver = IODriver::new();
    let vram = [[false; 64]; 32];
    let mut seen = Seen::default();
    let mut pump = Pump::new();
    let mut commands = pump.advance(Event::Start).unwrap();
    let mut polled = 0;
    loop {
        let mut report = None;
        for command in commands {
            assert!(report.is_none(), "a command after a request for a report");
            match command {
                Command::EnterDisplay => {
                    seen.entered += 1;
                    seen.written.push(driver.display_clear());
                }
                Command::Pace => seen.pauses += 1,
                Command::PollKey => {
                    seen.polls += 1;
                    let poll = if polled < keys.len() {
                        keys[polled]
                    } else {
                        KeyPoll::Pressed(Key::Esc)
                    };
                    polled += 1;
                    if machine.ticks < machine.sound_on_tick.len() {
                        machine.sound = machine.sound_on_tick[machine.ticks];
                    }
                    machine.ticks += 1;
                    report = Some(Event::Key(driver.get_key(poll)));
                }
                Command::PressKey(code) => machine.pressed.push(code),
                Command::ReportStatus => {
                    let tick = machine.ticks - 1;
                    let waiting = tick < machine.waiting.len() && machine.waiting[tick];
                    report = Some(Event::Status { waiting, sound: machine.sound });
                }
                Command::Bell => {
                    seen.bells += 1;
                    seen.steps_at_bell.push(machine.steps);
                    seen.written.push(driver.sound());
                }
                Command::ResetSound => machine.sound = 0,
                Command::Step => {
                    if machine.steps < machine.dirty_on_step.len()
                        && machine.dirty_on_step[machine.steps]
                    {
                        machine.dirty = true;
                    }
                    machine.steps += 1;
                }
                Command::ReportDirty => report = Some(Event::Stepped { dirty: machine.dirty }),
                Command::Render => {
                    seen.renders += 1;
                    seen.steps_at_render.push(machine.steps);
                    seen.written.push(driver.display_draw(&vram));
                }
                Command::ClearDirty => machine.dirty = false,
                Command::RestoreDisplay => {
                    seen.restored += 1;
                    seen.written.push(driver.display_restore());
                }
            }
        }
        match report {
            Some(event) => commands = pump.advance(event).unwrap(),
            None => break,
        }
    }
    assert!(pump.is_stopped());
    seen
}

#[test]
fn one_key_then_idle_then_escape() {
    let mut machine = Machine::quiet();
    let keys = [KeyPoll::Pressed(Key::Char('1')), KeyPoll::Idle, KeyPoll::Pressed(Key::Esc)];
    let seen = drive(&keys, &mut machine);
    assert_eq!(machine.pressed, vec![0x01]);
    assert_eq!(seen.renders, 0);
    assert_eq!(seen.bells, 0);
    assert_eq!(seen.polls, 3);
    assert_eq!(seen.pauses, 3);
    assert_eq!(machine.steps, 2);
    assert_eq!(seen.entered, 1);
    assert_eq!(seen.restored, 1);
    assert_eq!(seen.written, vec!["\x1b[2J\x1b[?25l", "\x1b[2J\x1b[1;1H\x1b[?25h"]);
}

#[test]
fn sound_count_of_three_rings_once_and_is_reset() {
    let mut machine = Machine::quiet();
    machine.sound_on_tick = vec![3];
    let keys = [KeyPoll::Idle, KeyPoll::Idle, KeyPoll::Idle];
    let seen = drive(&keys, &mut machine);
    assert_eq!(seen.bells, 1);
    assert_eq!(seen.steps_at_bell, vec![0]);
    assert_eq!(machine.sound, 0);
    assert_eq!(machine.steps, 3);
    assert_eq!(seen.written[1], "\x07");
}

#[test]
fn sound_requested_again_rings_again() {
    let mut machine = Machine::quiet();
    machine.sound_on_tick = vec![0, 2, 0, 7];
    let keys = [KeyPoll::Idle; 5];
    let seen = drive(&keys, &mut machine);
    assert_eq!(seen.bells, 2);
    assert_eq!(seen.steps_at_bell, vec![1, 3]);
    assert_eq!(machine.sound, 0);
}

#[test]
fn waiting_tick_neither_steps_nor_paints_nor_rings() {
    let mut machine = Machine::quiet();
    machine.waiting = vec![true, true, true];
    machine.sound_on_tick = vec![5, 5, 5];
    machine.dirty = true;
    let keys = [KeyPoll::Idle, KeyPoll::Pressed(Key::Char('z')), KeyPoll::Idle];
    let seen = drive(&keys, &mut machine);
    assert_eq!(machine.steps, 0);
    assert_eq!(seen.renders, 0);
    assert_eq!(seen.bells, 0);
    assert_eq!(machine.pressed, vec![0x0A]);
    assert_eq!(machine.sound, 5);
    assert!(machine.dirty);
    assert_eq!(seen.polls, 4);
}

#[test]
fn waiting_ends_and_the_tick_runs_again() {
    let mut machine = Machine::quiet();
    machine.waiting = vec![true, false];
    machine.sound_on_tick = vec![4, 4];
    machine.dirty_on_step = vec![true];
    let keys = [KeyPoll::Idle, KeyPoll::Idle];
    let seen = drive(&keys, &mut machine);
    assert_eq!(machine.steps, 1);
    assert_eq!(seen.bells, 1);
    assert_eq!(seen.renders, 1);
}

#[test]
fn frame_is_painted_only_after_a_step_that_set_the_flag() {
    let mut machine = Machine::quiet();
    machine.dirty_on_step = vec![false, true, false, true, true];
    let keys = [KeyPoll::Idle; 6];
    let seen = drive(&keys, &mut machine);
    assert_eq!(machine.steps, 6);
    assert_eq!(seen.renders, 3);
    assert_eq!(seen.steps_at_render, vec![2, 4, 5]);
    assert!(!machine.dirty);
}

#[test]
fn machine_runs_without_any_input() {
    let mut machine = Machine::quiet();
    let keys = [KeyPoll::Idle; 10];
    let seen = drive(&keys, &mut machine);
    assert_eq!(machine.steps, 10);
    assert_eq!(seen.polls, 11);
    assert_eq!(seen.pauses, 11);
    assert!(machine.pressed.is_empty());
}

#[test]
fn unmapped_and_malformed_input_is_ignored() {
    let mut machine = Machine::quiet();
    let keys = [
        KeyPoll::Pressed(Key::Char('p')),
        KeyPoll::Malformed,
        KeyPoll::Pressed(Key::Char('\n')),
        KeyPoll::Pressed(Key::Ctrl('c')),
        KeyPoll::Pressed(Key::Char('v')),
    ];
    let seen = drive(&keys, &mut machine);
    assert_eq!(machine.pressed, vec![0x0F]);
    assert_eq!(machine.steps, 5);
    assert_eq!(seen.restored, 1);
}

#[test]
fn escape_at_once_only_enters_and_restores() {
    let mut machine = Machine::quiet();
    machine.sound = 9;
    machine.dirty = true;
    let seen = drive(&[], &mut machine);
    assert_eq!(machine.steps, 0);
    assert_eq!(seen.bells, 0);
    assert_eq!(seen.renders, 0);
    assert_eq!(seen.entered, 1);
    assert_eq!(seen.restored, 1);
    assert_eq!(seen.polls, 1);
    assert_eq!(seen.written.len(), 2);
}

#[test]
fn every_key_press_is_forwarded_once_in_order() {
    let mut machine = Machine::quiet();
    let keys = [
        KeyPoll::Pressed(Key::Char('x')),
        KeyPoll::Pressed(Key::Char('x')),
        KeyPoll::Idle,
        KeyPoll::Pressed(Key::Char('4')),
    ];
    drive(&keys, &mut machine);
    assert_eq!(machine.pressed, vec![0x00, 0x00, 0x0C]);
}
