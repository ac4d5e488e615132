use crate::widgets::commands::WidgetCommand;
use crate::widgets::components::WidgetId;
use vstd::prelude::*;

verus! {

/// Terminal widget currently focused and handling input.
/// Can be manipulated directly or you can request a widget be focused through
/// the `focus_widget` command.
#[derive(Clone, Copy, Debug, PartialEq, Eq, Structural)]
pub struct FocusedWidget(pub Option<WidgetId>);

/// The focus slot after one command.
pub open spec fn focus_step(slot: Option<WidgetId>, command: WidgetCommand) -> Option<WidgetId> {
    match command {
        WidgetCommand::Focus(widget) => Some(widget),
        WidgetCommand::UnfocusAll => None,
    }
}

/// The focus slot after the commands of `commands` were applied to `slot`,
/// oldest first.
pub open spec fn focus_after(slot: Option<WidgetId>, commands: Seq<WidgetCommand>) -> Option<
    WidgetId,
>
    decreases commands.len(),
{
    if commands.len() == 0 {
        slot
    } else {
        focus_step(focus_after(slot, commands.drop_last()), commands.last())
    }
}

/// Whether the slot says that `widget` holds focus.
pub open spec fn holds_focus(slot: Option<WidgetId>, widget: WidgetId) -> bool {
    slot == Some(widget)
}

/// Whatever was asked for, at most one widget holds focus afterwards.
pub proof fn lemma_at_most_one_focused(
    slot: Option<WidgetId>,
    commands: Seq<WidgetCommand>,
    first: WidgetId,
    second: WidgetId,
)
    requires
        holds_focus(focus_after(slot, commands), first),
        holds_focus(focus_after(slot, commands), second),
    ensures
        first == second,
{
}

/// After any commands, the slot is decided by the last of them alone: it
/// holds the widget that was focused last, or nothing after an unfocus.
pub proof fn lemma_last_command_decides(slot: Option<WidgetId>, commands: Seq<WidgetCommand>)
    requires
        commands.len() > 0,
    ensures
        focus_after(slot, commands) == focus_step(slot, commands.last()),
        commands.last() is UnfocusAll ==> focus_after(slot, commands) is None,
{
}

/// Focusing a widget and then unfocusing leaves no widget focused, whatever
/// came before.
pub proof fn lemma_unfocus_after_focus(
    slot: Option<WidgetId>,
    commands: Seq<WidgetCommand>,
    widget: WidgetId,
)
    ensures
        focus_after(slot, commands.push(WidgetCommand::Focus(widget))) == Some(widget),
        focus_after(
            slot,
            commands.push(WidgetCommand::Focus(widget)).push(WidgetCommand::UnfocusAll),
        ) is None,
{
}

impl Default for FocusedWidget {
    fn default() -> (focused: Self)
        ensures
            focused.0 is None,
    {
        FocusedWidget(None)
    }
}

impl FocusedWidget {
    /// Gives focus to `widget`; whichever widget held it loses it.
    pub fn focus(&mut self, widget: WidgetId)
        ensures
            final(self).0 == Some(widget),
    {
        self.0 = Some(widget);
    }

    /// Takes focus from whichever widget holds it.
    pub fn unfocus_all(&mut self)
        ensures
            final(self).0 is None,
    {
        self.0 = None;
    }

    /// Carries out one command.
    pub fn apply(&mut self, command: WidgetCommand)
        ensures
            final(self).0 == focus_step(old(self).0, command),
    {
        match command {
            WidgetCommand::Focus(widget) => {
                self.0 = Some(widget);
            },
            WidgetCommand::UnfocusAll => {
                self.0 = None;
            },
        }
    }

    /// Whether `widget` holds focus.
    pub fn is_focused(&self, widget: WidgetId) -> (focused: bool)
        ensures
            focused == holds_focus(self.0, widget),
    {
        match self.0 {
            Some(holder) => holder.0 == widget.0,
            None => false,
        }
    }
}

} // verus!
