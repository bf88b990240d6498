use chip8_term::pump::{Command, Event, Phase, Pump, PumpError, PACE_MILLIS};

fn started() -> Pump {
    let mut pump = Pump::new();
    pump.advance(Event::Start).unwrap();
    pump
}

fn gating(key: u8) -> Pump {
    let mut pump = started();
    pump.advance(Event::Key(key)).unwrap();
    pump
}

fn stepping() -> Pump {
    let mut pump = gating(0xFF);
    pump.advance(Event::Status { waiting: false, sound: 0 }).unwrap();
    pump
}

#[test]
fn pause_is_one_millisecond() {
    assert_eq!(PACE_MILLIS, 1);
}

#[test]
fn new_pump_is_idle() {
    let pump = Pump::new();
    assert_eq!(pump.phase(), Phase::Idle);
    assert!(!pump.is_stopped());
}

#[test]
fn start_enters_display_mode_and_begins_a_tick() {
    let mut pump = Pump::new();
    let commands = pump.advance(Event::Start).unwrap();
    assert_eq!(commands, vec![Command::EnterDisplay, Command::Pace, Command::PollKey]);
    assert_eq!(pump.phase(), Phase::Sampling);
}

#[test]
fn keypad_codes_are_forwarded() {
    for code in 0x00u8..=0x0F {
        let mut pump = started();
        let commands = pump.advance(Event::Key(code)).unwrap();
        assert_eq!(commands, vec![Command::PressKey(code), Command::ReportStatus]);
        assert_eq!(pump.phase(), Phase::Gating);
    }
}

#[test]
fn escape_stops_the_run_and_restores_the_terminal() {
    let mut pump = started();
    let commands = pump.advance(Event::Key(0xFE)).unwrap();
    assert_eq!(commands, vec![Command::RestoreDisplay]);
    assert_eq!(pump.phase(), Phase::Stopped);
    assert!(pump.is_stopped());
}

#[test]
fn other_codes_are_not_forwarded() {
    for code in 0x10u8..=0xFF {
        if code == 0xFE {
            continue;
        }
        let mut pump = started();
        let commands = pump.advance(Event::Key(code)).unwrap();
        assert_eq!(commands, vec![Command::ReportStatus], "code {:#x}", code);
        assert_eq!(pump.phase(), Phase::Gating);
    }
}

#[test]
fn confirm_code_has_no_effect() {
    let mut pump = started();
    assert_eq!(pump.advance(Event::Key(0xFD)).unwrap(), vec![Command::ReportStatus]);
}

#[test]
fn waiting_interpreter_skips_the_rest_of_the_tick() {
    for sound in [0u64, 1, 3, u64::MAX] {
        let mut pump = gating(0x05);
        let commands = pump.advance(Event::Status { waiting: true, sound }).unwrap();
        assert_eq!(commands, vec![Command::Pace, Command::PollKey]);
        assert_eq!(pump.phase(), Phase::Sampling);
    }
}

#[test]
fn silent_interpreter_steps_without_a_bell() {
    let mut pump = gating(0xFF);
    let commands = pump.advance(Event::Status { waiting: false, sound: 0 }).unwrap();
    assert_eq!(commands, vec![Command::Step, Command::ReportDirty]);
    assert_eq!(pump.phase(), Phase::Stepping);
}

#[test]
fn any_sound_count_above_zero_is_one_bell() {
    for sound in [1u64, 2, 3, 255, u64::MAX] {
        let mut pump = gating(0xFF);
        let commands = pump.advance(Event::Status { waiting: false, sound }).unwrap();
        assert_eq!(
            commands,
            vec![Command::Bell, Command::ResetSound, Command::Step, Command::ReportDirty]
        );
        assert_eq!(pump.phase(), Phase::Stepping);
    }
}

#[test]
fn dirty_flag_after_a_step_is_painted_and_cleared() {
    let mut pump = stepping();
    let commands = pump.advance(Event::Stepped { dirty: true }).unwrap();
    assert_eq!(
        commands,
        vec![Command::Render, Command::ClearDirty, Command::Pace, Command::PollKey]
    );
    assert_eq!(pump.phase(), Phase::Sampling);
}

#[test]
fn clean_flag_after_a_step_paints_nothing() {
    let mut pump = stepping();
    let commands = pump.advance(Event::Stepped { dirty: false }).unwrap();
    assert_eq!(commands, vec![Command::Pace, Command::PollKey]);
    assert_eq!(pump.phase(), Phase::Sampling);
}

#[test]
fn events_out_of_turn_are_refused_and_change_nothing() {
    let all = [
        Event::Start,
        Event::Key(0x01),
        Event::Key(0xFE),
        Event::Status { waiting: false, sound: 1 },
        Event::Status { waiting: true, sound: 0 },
        Event::Stepped { dirty: true },
        Event::Stepped { dirty: false },
    ];
    for event in all {
        let mut idle = Pump::new();
        if event != Event::Start {
            assert_eq!(idle.advance(event), Err(PumpError::OutOfTurn));
            assert_eq!(idle.phase(), Phase::Idle);
        }
        let mut sampling = started();
        if !matches!(event, Event::Key(_)) {
            assert_eq!(sampling.advance(event), Err(PumpError::OutOfTurn));
            assert_eq!(sampling.phase(), Phase::Sampling);
        }
        let mut gate = gating(0x01);
        if !matches!(event, Event::Status { .. }) {
            assert_eq!(gate.advance(event), Err(PumpError::OutOfTurn));
            assert_eq!(gate.phase(), Phase::Gating);
        }
        let mut step = stepping();
        if !matches!(event, Event::Stepped { .. }) {
            assert_eq!(step.advance(event), Err(PumpError::OutOfTurn));
            assert_eq!(step.phase(), Phase::Stepping);
        }
    }
}

#[test]
fn stopped_pump_accepts_nothing() {
    let all = [
        Event::Start,
        Event::Key(0x01),
        Event::Key(0xFE),
        Event::Status { waiting: false, sound: 1 },
        Event::Stepped { dirty: true },
    ];
    for event in all {
        let mut pump = started();
        pump.advance(Event::Key(0xFE)).unwrap();
        assert_eq!(pump.advance(event), Err(PumpError::OutOfTurn));
        assert!(pump.is_stopped());
    }
}

#[test]
fn refused_event_does_not_disturb_the_tick() {
    let mut pump = gating(0x02);
    assert_eq!(pump.advance(Event::Key(0x03)), Err(PumpError::OutOfTurn));
    let commands = pump.advance(Event::Status { waiting: false, sound: 0 }).unwrap();
    assert_eq!(commands, vec![Command::Step, Command::ReportDirty]);
}
