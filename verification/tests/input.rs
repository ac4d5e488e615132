use crossterm::event::{KeyCode, KeyModifiers, MouseButton, MouseEvent, MouseEventKind};
use terminal_display::input::events::{translate, KeyPhase, RawEvent, TerminalInputEvent};
use terminal_display::input::resources::EventQueue;
use terminal_display::input::systems::{
    dedupe_resizes, find_latest_resize, input_handling, poll_and_translate, translate_all,
};

fn key(c: char, phase: KeyPhase) -> RawEvent {
    RawEvent::Key { code: KeyCode::Char(c), modifiers: KeyModifiers::NONE, phase }
}

fn press(c: char) -> TerminalInputEvent {
    TerminalInputEvent::KeyPress { code: KeyCode::Char(c), modifiers: KeyModifiers::NONE }
}

fn release(c: char) -> TerminalInputEvent {
    TerminalInputEvent::KeyRelease { code: KeyCode::Char(c), modifiers: KeyModifiers::NONE }
}

fn click(column: u16, row: u16) -> MouseEvent {
    MouseEvent {
        kind: MouseEventKind::Down(MouseButton::Left),
        column,
        row,
        modifiers: KeyModifiers::SHIFT,
    }
}

#[test]
fn key_press_and_repeat_become_presses() {
    assert_eq!(translate(&key('a', KeyPhase::Press)), Some(press('a')));
    assert_eq!(translate(&key('a', KeyPhase::Repeat)), Some(press('a')));
}

#[test]
fn key_release_becomes_a_release() {
    assert_eq!(translate(&key('a', KeyPhase::Release)), Some(release('a')));
}

#[test]
fn key_keeps_code_and_modifiers() {
    let raw = RawEvent::Key {
        code: KeyCode::F(5),
        modifiers: KeyModifiers::CONTROL | KeyModifiers::ALT,
        phase: KeyPhase::Press,
    };
    assert_eq!(
        translate(&raw),
        Some(TerminalInputEvent::KeyPress {
            code: KeyCode::F(5),
            modifiers: KeyModifiers::CONTROL | KeyModifiers::ALT,
        })
    );
}

#[test]
fn mouse_and_resize_pass_through() {
    assert_eq!(
        translate(&RawEvent::Mouse(click(3, 4))),
        Some(TerminalInputEvent::Mouse(click(3, 4)))
    );
    assert_eq!(translate(&RawEvent::Resize(80, 24)), Some(TerminalInputEvent::Resize(80, 24)));
}

#[test]
fn focus_changes_and_paste_are_dropped() {
    assert_eq!(translate(&RawEvent::FocusGained), None);
    assert_eq!(translate(&RawEvent::FocusLost), None);
    assert_eq!(translate(&RawEvent::Paste("text".to_string())), None);
}

#[test]
fn resize_is_recognised() {
    assert!(TerminalInputEvent::Resize(1, 1).reports_resize());
    assert!(!press('a').reports_resize());
    assert!(!release('a').reports_resize());
    assert!(!TerminalInputEvent::Mouse(click(0, 0)).reports_resize());
}

#[test]
fn translate_all_keeps_arrival_order() {
    let raw = vec![
        key('a', KeyPhase::Press),
        RawEvent::FocusLost,
        RawEvent::Mouse(click(1, 2)),
        key('a', KeyPhase::Release),
        RawEvent::Paste("p".to_string()),
        RawEvent::Resize(10, 5),
        key('b', KeyPhase::Repeat),
    ];
    assert_eq!(
        translate_all(&raw),
        vec![
            press('a'),
            TerminalInputEvent::Mouse(click(1, 2)),
            release('a'),
            TerminalInputEvent::Resize(10, 5),
            press('b'),
        ]
    );
}

#[test]
fn latest_resize_is_found() {
    assert_eq!(find_latest_resize(&Vec::new()), None);
    assert_eq!(find_latest_resize(&vec![press('a'), release('a')]), None);
    let events = vec![
        TerminalInputEvent::Resize(1, 1),
        press('a'),
        TerminalInputEvent::Resize(2, 2),
        press('b'),
    ];
    assert_eq!(find_latest_resize(&events), Some(2));
}

#[test]
fn only_the_latest_resize_survives() {
    let events = vec![
        TerminalInputEvent::Resize(1, 1),
        press('a'),
        TerminalInputEvent::Resize(2, 2),
        press('b'),
        TerminalInputEvent::Resize(3, 3),
        press('c'),
    ];
    assert_eq!(
        dedupe_resizes(&events),
        vec![press('a'), press('b'), TerminalInputEvent::Resize(3, 3), press('c')]
    );
}

#[test]
fn a_single_resize_stays_in_place() {
    let events = vec![press('a'), TerminalInputEvent::Resize(2, 2), press('b')];
    assert_eq!(dedupe_resizes(&events), events);
}

#[test]
fn equal_resizes_are_deduplicated_too() {
    let events = vec![
        TerminalInputEvent::Resize(2, 2),
        TerminalInputEvent::Resize(2, 2),
        TerminalInputEvent::Resize(2, 2),
    ];
    assert_eq!(dedupe_resizes(&events), vec![TerminalInputEvent::Resize(2, 2)]);
}

#[test]
fn events_without_resize_are_untouched() {
    let events = vec![press('a'), TerminalInputEvent::Mouse(click(0, 0)), release('a')];
    assert_eq!(dedupe_resizes(&events), events);
    assert_eq!(dedupe_resizes(&Vec::new()), Vec::new());
}

#[test]
fn poll_without_pending_events_is_empty() {
    assert_eq!(poll_and_translate(&Vec::new()), Vec::new());
    assert_eq!(poll_and_translate(&vec![RawEvent::FocusGained, RawEvent::FocusLost]), Vec::new());
}

#[test]
fn poll_translates_and_deduplicates() {
    let pending = vec![
        RawEvent::Resize(80, 24),
        key('q', KeyPhase::Press),
        RawEvent::FocusGained,
        RawEvent::Resize(100, 30),
        key('q', KeyPhase::Release),
        RawEvent::Resize(120, 40),
    ];
    assert_eq!(
        poll_and_translate(&pending),
        vec![press('q'), release('q'), TerminalInputEvent::Resize(120, 40)]
    );
}

#[test]
fn queue_is_first_in_first_out() {
    let mut queue = EventQueue::new();
    assert!(queue.is_empty());
    queue.publish(vec![press('a'), press('b')]);
    queue.publish(Vec::new());
    queue.publish(vec![press('c')]);
    assert_eq!(queue.len(), 3);
    assert_eq!(queue.drain(), vec![press('a'), press('b'), press('c')]);
    assert!(queue.is_empty());
    assert_eq!(queue.drain(), Vec::new());
}

#[test]
fn default_queue_is_empty() {
    let mut queue = EventQueue::default();
    assert_eq!(queue.len(), 0);
    assert_eq!(queue.drain(), Vec::new());
}

#[test]
fn input_handling_publishes_behind_waiting_events() {
    let mut queue = EventQueue::new();
    queue.publish(vec![TerminalInputEvent::Resize(1, 1), press('x')]);
    input_handling(
        &mut queue,
        &vec![key('y', KeyPhase::Press), RawEvent::Resize(2, 2), RawEvent::Resize(3, 3)],
    );
    assert_eq!(
        queue.drain(),
        vec![
            TerminalInputEvent::Resize(1, 1),
            press('x'),
            press('y'),
            TerminalInputEvent::Resize(3, 3),
        ]
    );
}
