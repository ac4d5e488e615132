use crate::input::events::TerminalInputEvent;
use vstd::prelude::*;

verus! {

/// The events that were captured and not yet dispatched, oldest first.
#[derive(Debug)]
pub struct EventQueue {
    events: Vec<TerminalInputEvent>,
}

impl View for EventQueue {
    type V = Seq<TerminalInputEvent>;

    closed spec fn view(&self) -> Seq<TerminalInputEvent> {
        self.events@
    }
}

impl Default for EventQueue {
    fn default() -> (queue: Self)
        ensures
            queue@ == Seq::<TerminalInputEvent>::empty(),
    {
        EventQueue { events: Vec::new() }
    }
}

impl EventQueue {
    /// Queue without events.
    pub fn new() -> (queue: EventQueue)
        ensures
            queue@ == Seq::<TerminalInputEvent>::empty(),
    {
        EventQueue { events: Vec::new() }
    }

    /// Number of events that wait in the queue.
    pub fn len(&self) -> (count: usize)
        ensures
            count == self@.len(),
    {
        self.events.len()
    }

    /// Whether no event waits in the queue.
    pub fn is_empty(&self) -> (empty: bool)
        ensures
            empty == (self@.len() == 0),
    {
        self.events.len() == 0
    }

    /// Appends `events` behind the events that already wait, keeping their
    /// order.
    pub fn publish(&mut self, events: Vec<TerminalInputEvent>)
        ensures
            final(self)@ == old(self)@ + events@,
    {
        let mut events = events;
        self.events.append(&mut events);
    }

    /// Takes every waiting event out of the queue, oldest first, and leaves
    /// the queue empty.
    pub fn drain(&mut self) -> (events: Vec<TerminalInputEvent>)
        ensures
            events@ == old(self)@,
            final(self)@ == Seq::<TerminalInputEvent>::empty(),
    {
        let mut events: Vec<TerminalInputEvent> = Vec::new();
        events.append(&mut self.events);
        assert(events@ =~= old(self)@);
        events
    }
}

/// Events leave the queue in the order in which they were published: what
/// is drained after two publications is the first batch followed by the
/// second.
pub proof fn lemma_queue_is_first_in_first_out(
    waiting: Seq<TerminalInputEvent>,
    first: Seq<TerminalInputEvent>,
    second: Seq<TerminalInputEvent>,
    i: int,
    j: int,
)
    requires
        0 <= i < first.len(),
        0 <= j < second.len(),
    ensures
        ((waiting + first) + second)[waiting.len() + i] == first[i],
        ((waiting + first) + second)[waiting.len() + first.len() + j] == second[j],
        waiting.len() + i < waiting.len() + first.len() + j,
{
}

} // verus!
