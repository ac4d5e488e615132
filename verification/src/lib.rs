//! Terminal display core.
//!
//! A rendered scene arrives as a quantized single-channel luminance image.
//! The display driver maps blocks of pixels to styled terminal cells, overlay
//! widgets are composited on top, and the input pipeline routes terminal
//! events to the one widget that holds focus.

use vstd::prelude::*;

pub use crossterm;
pub use ratatui;

/// Capture of the rendered scene and its conversion to terminal cells.
pub mod display;

/// Terminal events: their normalized form, translation and queueing.
pub mod input;

/// The clock that widgets are updated with.
pub mod time;

/// Overlay widgets: their registry, focus and per-cycle dispatch.
pub mod widgets;

/// Entering and leaving the terminal modes the display needs.
pub mod terminal;

/// One turn of the frame loop, from the pending input to the composed frame.
pub mod cycle;

verus! {

/// Settings of the plugin that provides terminal display functionality
#[derive(Debug)]
pub struct TerminalDisplayPlugin {
    /// Path to redirect tracing logs to. Defaults to "debug.log"
    pub log_path: String,
}

impl Default for TerminalDisplayPlugin {
    fn default() -> (plugin: Self)
        ensures
            plugin.log_path@ == "debug.log"@,
    {
        TerminalDisplayPlugin { log_path: "debug.log".to_owned() }
    }
}

} // verus!
