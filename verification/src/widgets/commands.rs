use crate::widgets::components::WidgetId;
use crate::widgets::resources::{focus_after, FocusedWidget};
use vstd::prelude::*;

verus! {

/// A change of focus that was asked for and is applied later in the cycle.
#[derive(Clone, Copy, Debug, PartialEq, Eq, Structural)]
pub enum WidgetCommand {
    /// Give focus to this widget.
    Focus(WidgetId),
    /// Take focus from whichever widget holds it.
    UnfocusAll,
}

/// The commands that were queued in this cycle, oldest first. Nothing they
/// ask for happens before the queue is applied.
#[derive(Debug)]
pub struct Commands {
    queue: Vec<WidgetCommand>,
}

impl View for Commands {
    type V = Seq<WidgetCommand>;

    closed spec fn view(&self) -> Seq<WidgetCommand> {
        self.queue@
    }
}

/// Command interface for manipulating terminal widget resources
pub trait TerminalWidgetCommands {
    /// Gives focus to the terminal widget with the provided identifier.
    fn focus_widget(&mut self, widget: WidgetId);

    /// Takes focus from whichever widget holds it.
    fn unfocus_all(&mut self);
}

impl TerminalWidgetCommands for Commands {
    fn focus_widget(&mut self, widget: WidgetId)
        ensures
            final(self)@ == old(self)@.push(WidgetCommand::Focus(widget)),
    {
        self.queue.push(WidgetCommand::Focus(widget));
    }

    fn unfocus_all(&mut self)
        ensures
            final(self)@ == old(self)@.push(WidgetCommand::UnfocusAll),
    {
        self.queue.push(WidgetCommand::UnfocusAll);
    }
}

impl Default for Commands {
    fn default() -> (commands: Self)
        ensures
            commands@ == Seq::<WidgetCommand>::empty(),
    {
        Commands { queue: Vec::new() }
    }
}

impl Commands {
    /// Queue without commands.
    pub fn new() -> (commands: Commands)
        ensures
            commands@ == Seq::<WidgetCommand>::empty(),
    {
        Commands { queue: Vec::new() }
    }

    /// Number of commands that wait to be applied.
    pub fn len(&self) -> (count: usize)
        ensures
            count == self@.len(),
    {
        self.queue.len()
    }

    /// Whether no command waits to be applied.
    pub fn is_empty(&self) -> (empty: bool)
        ensures
            empty == (self@.len() == 0),
    {
        self.queue.len() == 0
    }

    /// Moves the commands of `other` behind those that already wait here.
    pub fn absorb(&mut self, other: Commands)
        ensures
            final(self)@ == old(self)@ + other@,
    {
        let mut other = other;
        self.queue.append(&mut other.queue);
    }

    /// Applies the queued commands to the focus slot, oldest first, and
    /// empties the queue. This is the one point of the cycle at which focus
    /// changes that were asked for take effect.
    pub fn apply(&mut self, focused: &mut FocusedWidget)
        ensures
            final(focused).0 == focus_after(old(focused).0, old(self)@),
            final(self)@ == Seq::<WidgetCommand>::empty(),
    {
        let mut i: usize = 0;
        while i < self.queue.len()
            invariant
                i <= self.queue.len(),
                self.queue@ == old(self)@,
                focused.0 == focus_after(old(focused).0, old(self)@.take(i as int)),
            decreases self.queue.len() - i,
        {
            assert(old(self)@.take(i + 1).drop_last() == old(self)@.take(i as int));
            focused.apply(self.queue[i]);
            i = i + 1;
        }
        assert(old(self)@.take(old(self)@.len() as int) == old(self)@);
        self.queue.clear();
    }
}

} // verus!
