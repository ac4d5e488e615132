use crate::display::frame::{CellGrid, Region, TerminalFrameBuffer};
use crate::input::events::TerminalInputEvent;
use crate::time::Time;
use crate::widgets::commands::{Commands, WidgetCommand};
use vstd::prelude::*;

/// Components for this module
pub mod components;

/// Resources for this module
pub mod resources;

/// Systems for this module
pub mod systems;

/// Commands for this module
pub mod commands;

verus! {

/// Trait which defines an interface for terminal widgets
///
/// Each of the three calls has a predicate beside it that relates the widget
/// after the call to the widget before it. The predicates are the
/// implementation's own: one that defines them says what its calls do, and
/// what it says is carried through the systems that make the calls; one that
/// leaves them as they are says nothing. The systems rely on none of it.
pub trait TerminalWidget {
    /// Whether `render` may turn the widget `before` into this one while it
    /// is given the frame `canvas` to draw on over `region` and leaves `drawn`
    /// there.
    open spec fn has_rendered(
        &self,
        before: &Self,
        canvas: CellGrid,
        region: Region,
        drawn: CellGrid,
    ) -> bool {
        true
    }

    /// Whether `handle_events` may turn the widget `before` into this one
    /// while it is handed `event` with `waiting` in the queue and leaves
    /// `queued` there.
    open spec fn has_handled(
        &self,
        before: &Self,
        event: TerminalInputEvent,
        waiting: Seq<WidgetCommand>,
        queued: Seq<WidgetCommand>,
    ) -> bool {
        true
    }

    /// Whether `update` may turn the widget `before` into this one while it
    /// is updated at `time` with `waiting` in the queue and leaves `queued`
    /// there.
    open spec fn has_updated(
        &self,
        before: &Self,
        time: Time,
        waiting: Seq<WidgetCommand>,
        queued: Seq<WidgetCommand>,
    ) -> bool {
        true
    }

    /// Called every frame to render the widget. `frame` is a frame of the
    /// widget's own, as large as the visible part of the widget's region;
    /// `region` spans it. What the widget leaves in `frame` replaces the
    /// cells of its region on screen.
    fn render(&mut self, frame: &mut TerminalFrameBuffer, region: Region)
        ensures
            final(self).has_rendered(&*old(self), old(frame)@, region, final(frame)@),
    ;

    /// Called when a terminal input event is invoked to update any state accordingly
    ///
    /// A widget that does not define this call ignores the event: it stays
    /// as it is and queues nothing.
    fn handle_events(&mut self, event: &TerminalInputEvent, commands: &mut Commands)
        ensures
            final(self).has_handled(&*old(self), *event, old(commands)@, final(commands)@) || (
            &*final(self) == &*old(self) && final(commands)@ == old(commands)@),
        default_ensures
            &*final(self) == &*old(self),
            final(commands)@ == old(commands)@,
    {
    }

    /// Called every frame during the update phase of the cycle
    ///
    /// A widget that does not define this call has nothing to update: it
    /// stays as it is and queues nothing.
    fn update(&mut self, time: &Time, commands: &mut Commands)
        ensures
            final(self).has_updated(&*old(self), *time, old(commands)@, final(commands)@) || (
            &*final(self) == &*old(self) && final(commands)@ == old(commands)@),
        default_ensures
            &*final(self) == &*old(self),
            final(commands)@ == old(commands)@,
    {
    }
}

impl<T: TerminalWidget + ?Sized> TerminalWidget for Box<T> {
    open spec fn has_rendered(
        &self,
        before: &Self,
        canvas: CellGrid,
        region: Region,
        drawn: CellGrid,
    ) -> bool {
        (**self).has_rendered(&**before, canvas, region, drawn)
    }

    open spec fn has_handled(
        &self,
        before: &Self,
        event: TerminalInputEvent,
        waiting: Seq<WidgetCommand>,
        queued: Seq<WidgetCommand>,
    ) -> bool {
        (**self).has_handled(&**before, event, waiting, queued)
    }

    open spec fn has_updated(
        &self,
        before: &Self,
        time: Time,
        waiting: Seq<WidgetCommand>,
        queued: Seq<WidgetCommand>,
    ) -> bool {
        (**self).has_updated(&**before, time, waiting, queued)
    }

    fn render(&mut self, frame: &mut TerminalFrameBuffer, region: Region) {
        (**self).render(frame, region)
    }

    fn handle_events(&mut self, event: &TerminalInputEvent, commands: &mut Commands) {
        (**self).handle_events(event, commands)
    }

    fn update(&mut self, time: &Time, commands: &mut Commands) {
        (**self).update(time, commands)
    }
}

} // verus!
