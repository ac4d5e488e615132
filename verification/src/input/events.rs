use crossterm::event::{KeyCode, KeyModifiers, MouseEvent};
use vstd::prelude::*;

verus! {

/// The key type of `crossterm`. The library hands a key on to the widgets
/// without looking at it.
#[verifier::external_type_specification]
#[verifier::external_body]
pub struct ExKeyCode(crossterm::event::KeyCode);

/// The modifier set of `crossterm`, handed on like the key it came with.
#[verifier::external_type_specification]
#[verifier::external_body]
pub struct ExKeyModifiers(crossterm::event::KeyModifiers);

/// The mouse event of `crossterm`: kind, position and modifiers, handed on
/// as one value.
#[verifier::external_type_specification]
#[verifier::external_body]
pub struct ExMouseEvent(crossterm::event::MouseEvent);

/// What happened to a key.
#[derive(Clone, Copy, Debug, PartialEq, Eq, Structural)]
pub enum KeyPhase {
    /// The key went down.
    Press,
    /// The key is held and repeats.
    Repeat,
    /// The key came up.
    Release,
}

/// An event as the terminal reports it.
#[derive(Debug, PartialEq, Eq)]
pub enum RawEvent {
    /// The terminal gained focus.
    FocusGained,
    /// The terminal lost focus.
    FocusLost,
    /// A key changed state.
    Key {
        /// The key.
        code: KeyCode,
        /// Modifiers held with it.
        modifiers: KeyModifiers,
        /// What happened to the key.
        phase: KeyPhase,
    },
    /// The mouse did something.
    Mouse(MouseEvent),
    /// Text was pasted into the terminal.
    Paste(String),
    /// The terminal now has this many columns and lines.
    Resize(u16, u16),
}

/// A terminal event in the normalized form that widgets and handlers see.
#[derive(Clone, Copy, Debug, PartialEq, Eq)]
pub enum TerminalInputEvent {
    /// A key went down, or repeats while held.
    KeyPress {
        /// The key.
        code: KeyCode,
        /// Modifiers held with it.
        modifiers: KeyModifiers,
    },
    /// A key came up.
    KeyRelease {
        /// The key.
        code: KeyCode,
        /// Modifiers held with it.
        modifiers: KeyModifiers,
    },
    /// The mouse did something.
    Mouse(MouseEvent),
    /// The terminal now has this many columns and lines.
    Resize(u16, u16),
}

impl TerminalInputEvent {
    /// Whether the event reports a new size of the terminal.
    pub open spec fn is_resize(self) -> bool {
        self is Resize
    }

    /// Whether the event reports a new size of the terminal.
    pub fn reports_resize(&self) -> (resize: bool)
        ensures
            resize == self.is_resize(),
    {
        match self {
            TerminalInputEvent::Resize(_, _) => true,
            _ => false,
        }
    }
}

/// The normalized form of a raw event. A repeating key counts as pressed.
/// Focus changes and pasted text have no normalized form.
pub open spec fn translated(raw: RawEvent) -> Option<TerminalInputEvent> {
    match raw {
        RawEvent::Key { code, modifiers, phase } => Some(
            if phase == KeyPhase::Release {
                TerminalInputEvent::KeyRelease { code, modifiers }
            } else {
                TerminalInputEvent::KeyPress { code, modifiers }
            },
        ),
        RawEvent::Mouse(mouse) => Some(TerminalInputEvent::Mouse(mouse)),
        RawEvent::Resize(cols, rows) => Some(TerminalInputEvent::Resize(cols, rows)),
        RawEvent::FocusGained => None,
        RawEvent::FocusLost => None,
        RawEvent::Paste(_) => None,
    }
}

/// Normalizes one raw event.
pub fn translate(raw: &RawEvent) -> (event: Option<TerminalInputEvent>)
    ensures
        event == translated(*raw),
{
    match raw {
        RawEvent::Key { code, modifiers, phase } => {
            match phase {
                KeyPhase::Release => Some(
                    TerminalInputEvent::KeyRelease { code: *code, modifiers: *modifiers },
                ),
                _ => Some(TerminalInputEvent::KeyPress { code: *code, modifiers: *modifiers }),
            }
        },
        RawEvent::Mouse(mouse) => Some(TerminalInputEvent::Mouse(*mouse)),
        RawEvent::Resize(cols, rows) => Some(TerminalInputEvent::Resize(*cols, *rows)),
        RawEvent::FocusGained => None,
        RawEvent::FocusLost => None,
        RawEvent::Paste(_) => None,
    }
}

} // verus!
