use terminal_display::terminal::{TerminalAction, TerminalMode, TerminalModes, TerminalSession};

const SETUP: [TerminalMode; 4] = [
    TerminalMode::RawMode,
    TerminalMode::AlternateScreen,
    TerminalMode::MouseCapture,
    TerminalMode::KeyboardEnhancement,
];

/// Enters the first `steps` modes of the setup on a simulated terminal.
fn set_up(steps: usize) -> (TerminalModes, TerminalSession) {
    let mut modes = TerminalModes::new();
    let mut session = TerminalSession::new();
    for action in TerminalSession::setup_plan().into_iter().take(steps) {
        modes.apply(action);
        if let TerminalAction::Enter(mode) = action {
            assert!(session.record_entered(mode));
        }
    }
    (modes, session)
}

#[test]
fn setup_enters_the_four_modes_in_order() {
    assert_eq!(
        TerminalSession::setup_plan(),
        vec![
            TerminalAction::Enter(TerminalMode::RawMode),
            TerminalAction::Enter(TerminalMode::AlternateScreen),
            TerminalAction::Enter(TerminalMode::MouseCapture),
            TerminalAction::Enter(TerminalMode::KeyboardEnhancement),
        ]
    );
}

#[test]
fn setup_switches_every_mode_on() {
    let (modes, session) = set_up(4);
    assert_eq!(
        modes,
        TerminalModes {
            raw_mode: true,
            alternate_screen: true,
            mouse_capture: true,
            keyboard_enhancement: true,
        }
    );
    for mode in SETUP {
        assert!(session.has_entered(mode));
    }
    assert!(!session.is_restored());
}

#[test]
fn teardown_reverses_the_setup_and_flushes() {
    let (_, mut session) = set_up(4);
    assert_eq!(
        session.teardown(),
        vec![
            TerminalAction::Leave(TerminalMode::KeyboardEnhancement),
            TerminalAction::Leave(TerminalMode::MouseCapture),
            TerminalAction::Leave(TerminalMode::AlternateScreen),
            TerminalAction::Leave(TerminalMode::RawMode),
            TerminalAction::Flush,
        ]
    );
    assert!(session.is_restored());
}

#[test]
fn teardown_happens_once() {
    let (_, mut session) = set_up(4);
    assert_eq!(session.teardown().len(), 5);
    assert_eq!(session.teardown(), Vec::new());
    assert_eq!(session.teardown(), Vec::new());
}

#[test]
fn teardown_of_an_untouched_terminal_does_nothing() {
    let mut session = TerminalSession::new();
    assert!(session.is_restored());
    assert_eq!(session.teardown(), Vec::new());
}

#[test]
fn teardown_after_a_partial_setup_leaves_what_was_entered() {
    let (_, mut session) = set_up(2);
    assert!(!session.has_entered(TerminalMode::MouseCapture));
    assert_eq!(
        session.teardown(),
        vec![
            TerminalAction::Leave(TerminalMode::AlternateScreen),
            TerminalAction::Leave(TerminalMode::RawMode),
            TerminalAction::Flush,
        ]
    );
}

#[test]
fn termination_at_any_point_restores_the_terminal() {
    for steps in 0..=4 {
        let (mut modes, mut session) = set_up(steps);
        assert_eq!(modes.is_pristine(), steps == 0);
        modes.apply_all(&session.teardown());
        assert!(modes.is_pristine(), "after {} setup steps", steps);
        assert!(!modes.raw_mode);
        assert!(!modes.alternate_screen);
        assert!(session.is_restored());
        // A failure while restoring asks for teardown again: nothing is left to do.
        modes.apply_all(&session.teardown());
        assert!(modes.is_pristine());
    }
}

#[test]
fn termination_before_a_mode_was_recorded_still_restores_the_rest() {
    // The terminal went down between entering a mode and recording it: only
    // the recorded modes are left, and they all are.
    let (mut modes, mut session) = set_up(3);
    modes.apply_all(&session.teardown());
    assert!(modes.is_pristine());
}

#[test]
fn a_mode_is_recorded_once() {
    let mut session = TerminalSession::new();
    assert!(session.record_entered(TerminalMode::RawMode));
    assert!(!session.record_entered(TerminalMode::RawMode));
    assert!(session.record_entered(TerminalMode::MouseCapture));
    assert_eq!(
        session.teardown(),
        vec![
            TerminalAction::Leave(TerminalMode::MouseCapture),
            TerminalAction::Leave(TerminalMode::RawMode),
            TerminalAction::Flush,
        ]
    );
}

#[test]
fn teardown_follows_the_order_of_entering() {
    let mut session = TerminalSession::new();
    session.record_entered(TerminalMode::AlternateScreen);
    session.record_entered(TerminalMode::KeyboardEnhancement);
    session.record_entered(TerminalMode::RawMode);
    assert_eq!(
        session.teardown(),
        vec![
            TerminalAction::Leave(TerminalMode::RawMode),
            TerminalAction::Leave(TerminalMode::KeyboardEnhancement),
            TerminalAction::Leave(TerminalMode::AlternateScreen),
            TerminalAction::Flush,
        ]
    );
}

#[test]
fn actions_switch_single_modes() {
    let mut modes = TerminalModes::new();
    assert!(modes.is_pristine());
    modes.apply(TerminalAction::Enter(TerminalMode::MouseCapture));
    assert_eq!(modes, TerminalModes { mouse_capture: true, ..TerminalModes::new() });
    modes.apply(TerminalAction::Flush);
    assert_eq!(modes, TerminalModes { mouse_capture: true, ..TerminalModes::new() });
    modes.apply(TerminalAction::Leave(TerminalMode::RawMode));
    assert_eq!(modes, TerminalModes { mouse_capture: true, ..TerminalModes::new() });
    modes.apply(TerminalAction::Leave(TerminalMode::MouseCapture));
    assert!(modes.is_pristine());
}

#[test]
fn a_failing_step_does_not_stop_the_others() {
    let (mut modes, mut session) = set_up(4);
    let plan = session.teardown();
    // Popping the keyboard flags is the first step; this terminal cannot do it.
    assert_eq!(plan[0], TerminalAction::Leave(TerminalMode::KeyboardEnhancement));
    modes.apply_attempts(&plan, &vec![false, true, true, true, true]);
    assert_eq!(modes, TerminalModes { keyboard_enhancement: true, ..TerminalModes::new() });
    assert!(!modes.raw_mode);
    assert!(!modes.alternate_screen);
}

#[test]
fn whichever_step_fails_the_others_take_effect() {
    for failing in 0..4 {
        let (mut modes, mut session) = set_up(4);
        let plan = session.teardown();
        let done: Vec<bool> = (0..plan.len()).map(|step| step != failing).collect();
        modes.apply_attempts(&plan, &done);
        for (step, mode) in SETUP.iter().rev().enumerate() {
            let on = match mode {
                TerminalMode::RawMode => modes.raw_mode,
                TerminalMode::AlternateScreen => modes.alternate_screen,
                TerminalMode::MouseCapture => modes.mouse_capture,
                TerminalMode::KeyboardEnhancement => modes.keyboard_enhancement,
            };
            assert_eq!(on, step == failing);
        }
    }
}

#[test]
fn attempts_without_outcomes_count_as_failed() {
    let (mut modes, mut session) = set_up(2);
    let before = modes;
    let plan = session.teardown();
    modes.apply_attempts(&plan, &Vec::new());
    assert_eq!(modes, before);
    modes.apply_attempts(&plan, &vec![true]);
    assert_eq!(modes, TerminalModes { raw_mode: true, ..TerminalModes::new() });
}
