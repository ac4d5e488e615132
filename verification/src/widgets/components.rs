use crate::display::frame::{Region, TerminalFrameBuffer};
use crate::input::events::TerminalInputEvent;
use crate::time::Time;
use crate::display::frame::CellGrid;
use crate::widgets::commands::{Commands, WidgetCommand};
use crate::widgets::TerminalWidget;
use vstd::prelude::*;

verus! {

/// Identifier of a registered widget.
#[derive(Clone, Copy, Debug, PartialEq, Eq, Hash, Structural)]
pub struct WidgetId(pub u64);

/// An overlay element: its behaviour, whether it takes input, and the part
/// of the screen it draws on.
pub struct Widget<W> {
    /// The widget's rendering, update and event handling.
    pub widget: W,
    /// Whether input events reach the widget while it holds focus. A
    /// disabled widget is still updated and rendered.
    pub enabled: bool,
    /// The region of the screen the widget is composited over.
    pub region: Region,
}

/// A widget together with the identifier it was registered under.
pub struct Registered<W> {
    /// Identifier of the widget.
    pub id: WidgetId,
    /// The widget.
    pub widget: Widget<W>,
}

/// Where a widget stands with regard to input.
#[derive(Clone, Copy, Debug, PartialEq, Eq, Structural)]
pub enum WidgetState {
    /// The widget takes no input.
    Disabled,
    /// The widget would take input but does not hold focus.
    EnabledUnfocused,
    /// The widget holds focus and receives the input events.
    EnabledFocused,
}

/// One call of `handle_events` with an empty queue, seen from outside: the
/// widget `before` was handed `event` and came out as `after`, having queued
/// `queued`. Either the widget's own account of the call holds, or the
/// widget ignored the event, stayed as it was and queued nothing.
pub open spec fn handled_step<W: TerminalWidget>(
    before: W,
    event: TerminalInputEvent,
    after: W,
    queued: Seq<WidgetCommand>,
) -> bool {
    ||| after.has_handled(&before, event, Seq::empty(), queued)
    ||| (after == before && queued.len() == 0)
}

/// One call of `update` with an empty queue, seen from outside: the widget
/// `before` was updated at `time` and came out as `after`, having queued
/// `queued`. Either the widget's own account of the call holds, or the
/// widget had nothing to update, stayed as it was and queued nothing.
pub open spec fn updated_step<W: TerminalWidget>(
    before: W,
    time: Time,
    after: W,
    queued: Seq<WidgetCommand>,
) -> bool {
    ||| after.has_updated(&before, time, Seq::empty(), queued)
    ||| (after == before && queued.len() == 0)
}

/// One call of `render`, seen from outside: the widget `before` was given the
/// frame `canvas` to draw on over `region` and came out as `after`, having
/// left `drawn` in the frame.
pub open spec fn rendered_step<W: TerminalWidget>(
    before: W,
    canvas: CellGrid,
    region: Region,
    after: W,
    drawn: CellGrid,
) -> bool {
    after.has_rendered(&before, canvas, region, drawn)
}

/// Position of the first widget registered under `id`, if there is one.
pub open spec fn position<W>(entries: Seq<Registered<W>>, id: WidgetId) -> Option<int>
    decreases entries.len(),
{
    if entries.len() == 0 {
        None
    } else {
        match position(entries.drop_last(), id) {
            Some(index) => Some(index),
            None => if entries.last().id == id {
                Some(entries.len() - 1)
            } else {
                None
            },
        }
    }
}

/// No two widgets are registered under one identifier.
pub open spec fn distinct_ids<W>(entries: Seq<Registered<W>>) -> bool {
    forall|i: int, j: int|
        0 <= i < j < entries.len() ==> (#[trigger] entries[i]).id != (#[trigger] entries[j]).id
}

/// One more than the largest identifier in use, or 0 where none is.
pub open spec fn id_bound<W>(entries: Seq<Registered<W>>) -> int
    decreases entries.len(),
{
    if entries.len() == 0 {
        0
    } else if entries.last().id.0 + 1 > id_bound(entries.drop_last()) {
        entries.last().id.0 + 1
    } else {
        id_bound(entries.drop_last())
    }
}

/// The same widgets in the same order, with the same identifiers, enabled
/// flags and regions; what the widgets hold inside may differ.
pub open spec fn same_layout<W>(before: Seq<Registered<W>>, after: Seq<Registered<W>>) -> bool {
    &&& after.len() == before.len()
    &&& forall|i: int|
        0 <= i < before.len() ==> {
            &&& (#[trigger] after[i]).id == before[i].id
            &&& after[i].widget.enabled == before[i].widget.enabled
            &&& after[i].widget.region == before[i].widget.region
        }
}

/// As `same_layout`, and every widget but the one at `index` is untouched.
pub open spec fn same_except<W>(
    before: Seq<Registered<W>>,
    after: Seq<Registered<W>>,
    index: int,
) -> bool {
    &&& same_layout(before, after)
    &&& forall|i: int| 0 <= i < before.len() && i != index ==> #[trigger] after[i] == before[i]
}

/// Where a widget with these properties stands with regard to input.
pub open spec fn state_of<W>(entry: Registered<W>, focus: Option<WidgetId>) -> WidgetState {
    if !entry.widget.enabled {
        WidgetState::Disabled
    } else if focus == Some(entry.id) {
        WidgetState::EnabledFocused
    } else {
        WidgetState::EnabledUnfocused
    }
}

/// Position of the widget that input events are delivered to: the widget
/// that the focus slot names, provided that it is registered and enabled. A
/// slot that names no registered widget counts as empty.
pub open spec fn delivery_target<W>(focus: Option<WidgetId>, entries: Seq<Registered<W>>) -> Option<
    int,
> {
    match focus {
        None => None,
        Some(id) => match position(entries, id) {
            None => None,
            Some(index) => if entries[index].widget.enabled {
                Some(index)
            } else {
                None
            },
        },
    }
}

/// What `position` finds: the first widget under the identifier, or nothing
/// where no widget is registered under it.
pub proof fn lemma_position<W>(entries: Seq<Registered<W>>, id: WidgetId)
    ensures
        match position(entries, id) {
            Some(index) => {
                &&& 0 <= index < entries.len()
                &&& entries[index].id == id
                &&& forall|j: int| 0 <= j < index ==> (#[trigger] entries[j]).id != id
            },
            None => forall|j: int| 0 <= j < entries.len() ==> (#[trigger] entries[j]).id != id,
        },
    decreases entries.len(),
{
    if entries.len() > 0 {
        let front = entries.drop_last();
        lemma_position(front, id);
        assert forall|j: int| 0 <= j < front.len() implies (#[trigger] entries[j]) == front[j] by {
        }
        match position(front, id) {
            Some(index) => {
                assert forall|j: int| 0 <= j < index implies (#[trigger] entries[j]).id != id by {
                    assert(front[j].id != id);
                }
            },
            None => {
                assert forall|j: int| 0 <= j < front.len() implies (#[trigger] entries[j]).id
                    != id by {
                    assert(front[j].id != id);
                }
            },
        }
    }
}

/// The first widget under an identifier is what `position` finds.
pub proof fn lemma_position_is_first<W>(entries: Seq<Registered<W>>, id: WidgetId, index: int)
    requires
        0 <= index < entries.len(),
        entries[index].id == id,
        forall|j: int| 0 <= j < index ==> (#[trigger] entries[j]).id != id,
    ensures
        position(entries, id) == Some(index),
{
    lemma_position(entries, id);
}

/// Every identifier in use lies below the bound.
pub proof fn lemma_id_bound<W>(entries: Seq<Registered<W>>)
    ensures
        0 <= id_bound(entries) <= u64::MAX + 1,
        forall|j: int| 0 <= j < entries.len() ==> (#[trigger] entries[j]).id.0 < id_bound(entries),
    decreases entries.len(),
{
    if entries.len() > 0 {
        let front = entries.drop_last();
        lemma_id_bound(front);
        assert forall|j: int| 0 <= j < entries.len() implies (#[trigger] entries[j]).id.0
            < id_bound(entries) by {
            if j < front.len() {
                assert(front[j].id.0 < id_bound(front));
            }
        }
    }
}

/// The widget that input is delivered to is enabled and focused, and no
/// other widget is: with identifiers in use once, exactly the target is in
/// the state that receives events.
pub proof fn lemma_delivery_target_is_the_focused<W>(
    focus: Option<WidgetId>,
    entries: Seq<Registered<W>>,
    index: int,
)
    requires
        distinct_ids(entries),
        0 <= index < entries.len(),
    ensures
        state_of(entries[index], focus) == WidgetState::EnabledFocused <==> delivery_target(
            focus,
            entries,
        ) == Some(index),
{
    if focus is Some {
        lemma_position(entries, focus->0);
    }
}

/// Widgets with the same layout are registered under the same identifiers:
/// where none was in use twice before, none is afterwards.
pub proof fn lemma_same_layout_distinct<W>(before: Seq<Registered<W>>, after: Seq<Registered<W>>)
    requires
        same_layout(before, after),
        distinct_ids(before),
    ensures
        distinct_ids(after),
{
    assert forall|i: int, j: int| 0 <= i < j < after.len() implies (#[trigger] after[i]).id != (
    #[trigger] after[j]).id by {
        assert(before[i].id != before[j].id);
    }
}

/// With an empty focus slot no widget is delivered to.
pub proof fn lemma_no_focus_no_delivery<W>(entries: Seq<Registered<W>>)
    ensures
        delivery_target(None, entries) is None,
{
}

/// The registered widgets, in the order of their registration.
pub struct Widgets<W> {
    entries: Vec<Registered<W>>,
    issued: u64,
}

impl<W> View for Widgets<W> {
    type V = Seq<Registered<W>>;

    closed spec fn view(&self) -> Seq<Registered<W>> {
        self.entries@
    }
}

impl<W> Widgets<W> {
    #[verifier::type_invariant]
    spec fn identifiers_in_use_once(&self) -> bool {
        distinct_ids(self.entries@)
    }
}

impl<W: TerminalWidget> Widgets<W> {
    /// Every identifier that a later registration hands out is at least
    /// this large.
    pub closed spec fn issued(&self) -> u64 {
        self.issued
    }

    /// The identifier that the next registration hands out: the smallest
    /// that was never handed out and is larger than all in use.
    pub open spec fn fresh_id(&self) -> int {
        if self.issued() >= id_bound(self@) {
            self.issued() as int
        } else {
            id_bound(self@)
        }
    }

    /// No two widgets of a registry are registered under one identifier.
    pub fn check_distinct(&self)
        ensures
            distinct_ids(self@),
    {
        proof {
            use_type_invariant(self);
        }
    }

    /// Registry without widgets.
    pub fn new() -> (widgets: Widgets<W>)
        ensures
            widgets@ == Seq::<Registered<W>>::empty(),
            widgets.issued() == 0,
    {
        Widgets { entries: Vec::new(), issued: 0 }
    }

    /// Number of registered widgets.
    pub fn len(&self) -> (count: usize)
        ensures
            count == self@.len(),
    {
        self.entries.len()
    }

    /// Whether no widget is registered.
    pub fn is_empty(&self) -> (empty: bool)
        ensures
            empty == (self@.len() == 0),
    {
        self.entries.len() == 0
    }

    /// One more than the largest identifier in use, as far as it fits.
    fn bound(&self) -> (bound: Option<u64>)
        ensures
            match bound {
                Some(value) => value == id_bound(self@),
                None => id_bound(self@) > u64::MAX,
            },
    {
        let mut bound: Option<u64> = Some(0);
        let mut i: usize = 0;
        while i < self.entries.len()
            invariant
                i <= self.entries.len(),
                match bound {
                    Some(value) => value == id_bound(self@.take(i as int)),
                    None => id_bound(self@.take(i as int)) > u64::MAX,
                },
            decreases self.entries.len() - i,
        {
            assert(self@.take(i + 1).drop_last() == self@.take(i as int));
            let id = self.entries[i].id.0;
            bound =
            match bound {
                None => None,
                Some(value) => if id == u64::MAX {
                    None
                } else if id + 1 > value {
                    Some(id + 1)
                } else {
                    Some(value)
                },
            };
            i = i + 1;
        }
        assert(self@.take(self.entries.len() as int) == self@);
        bound
    }

    /// Registers a widget and returns the identifier it is known by from now
    /// on. The identifier was never handed out before and is not in use.
    /// `None`, with the registry unchanged, exactly where the identifiers
    /// are used up: the largest number is never handed out.
    pub fn register(&mut self, widget: W, enabled: bool, region: Region)
        -> (id: Option<WidgetId>)
        ensures
            id is Some <==> old(self).fresh_id() < u64::MAX,
            match id {
                Some(id) => {
                    &&& id.0 == old(self).fresh_id()
                    &&& position(old(self)@, id) is None
                    &&& final(self)@ == old(self)@.push(
                        Registered { id, widget: Widget { widget, enabled, region } },
                    )
                    &&& final(self).issued() > id.0
                },
                None => final(self)@ == old(self)@ && final(self).issued() == old(self).issued(),
            },
            distinct_ids(old(self)@),
            distinct_ids(final(self)@),
    {
        proof {
            use_type_invariant(&*self);
        }
        let bound = self.bound();
        let fresh: u64 = match bound {
            None => {
                return None;
            },
            Some(value) => if self.issued >= value {
                self.issued
            } else {
                value
            },
        };
        if fresh == u64::MAX {
            return None;
        }
        let id = WidgetId(fresh);
        proof {
            lemma_id_bound(self@);
            lemma_position(self@, id);
        }
        let ghost before = self@;
        let mut entries: Vec<Registered<W>> = Vec::new();
        core::mem::swap(&mut self.entries, &mut entries);
        entries.push(Registered { id, widget: Widget { widget, enabled, region } });
        proof {
            let after = entries@;
            assert forall|i: int, j: int| 0 <= i < j < after.len() implies (#[trigger] after[i]).id
                != (#[trigger] after[j]).id by {
                assert(after[i] == before[i]);
                if j < before.len() {
                    assert(after[j] == before[j]);
                }
            }
        }
        core::mem::swap(&mut self.entries, &mut entries);
        self.issued = fresh + 1;
        Some(id)
    }

    /// Position of the widget registered under `id`, if there is one.
    pub fn find(&self, id: WidgetId) -> (index: Option<usize>)
        ensures
            match index {
                Some(index) => position(self@, id) == Some(index as int) && index < self@.len(),
                None => position(self@, id) is None,
            },
    {
        let mut i: usize = 0;
        while i < self.entries.len()
            invariant
                i <= self.entries.len(),
                forall|j: int| 0 <= j < i ==> (#[trigger] self@[j]).id != id,
            decreases self.entries.len() - i,
        {
            if self.entries[i].id == id {
                proof {
                    lemma_position_is_first(self@, id, i as int);
                }
                return Some(i);
            }
            i = i + 1;
        }
        proof {
            lemma_position(self@, id);
        }
        None
    }

    /// Whether a widget is registered under `id`.
    pub fn contains(&self, id: WidgetId) -> (live: bool)
        ensures
            live == position(self@, id) is Some,
    {
        self.find(id).is_some()
    }

    /// Identifier of the widget at `index` in registration order.
    pub fn id_at(&self, index: usize) -> (id: Option<WidgetId>)
        ensures
            id == (if index < self@.len() {
                Some(self@[index as int].id)
            } else {
                None
            }),
    {
        if index < self.entries.len() {
            Some(self.entries[index].id)
        } else {
            None
        }
    }

    /// Region of the widget at `index` in registration order.
    pub fn region_at(&self, index: usize) -> (region: Option<Region>)
        ensures
            region == (if index < self@.len() {
                Some(self@[index as int].widget.region)
            } else {
                None
            }),
    {
        if index < self.entries.len() {
            Some(self.entries[index].widget.region)
        } else {
            None
        }
    }

    /// Whether the widget registered under `id` takes input.
    pub fn is_enabled(&self, id: WidgetId) -> (enabled: Option<bool>)
        ensures
            enabled == (match position(self@, id) {
                Some(index) => Some(self@[index].widget.enabled),
                None => None,
            }),
    {
        match self.find(id) {
            Some(index) => Some(self.entries[index].widget.enabled),
            None => None,
        }
    }

    /// The region of the widget registered under `id`.
    pub fn region_of(&self, id: WidgetId) -> (region: Option<Region>)
        ensures
            region == (match position(self@, id) {
                Some(index) => Some(self@[index].widget.region),
                None => None,
            }),
    {
        match self.find(id) {
            Some(index) => Some(self.entries[index].widget.region),
            None => None,
        }
    }

    /// Where the widget registered under `id` stands with regard to input.
    pub fn state(&self, id: WidgetId, focus: Option<WidgetId>) -> (state: Option<WidgetState>)
        ensures
            state == (match position(self@, id) {
                Some(index) => Some(state_of(self@[index], focus)),
                None => None,
            }),
    {
        match self.find(id) {
            Some(index) => {
                proof {
                    lemma_position(self@, id);
                }
                let holds = match focus {
                    Some(holder) => holder == id,
                    None => false,
                };
                if !self.entries[index].widget.enabled {
                    Some(WidgetState::Disabled)
                } else if holds {
                    Some(WidgetState::EnabledFocused)
                } else {
                    Some(WidgetState::EnabledUnfocused)
                }
            },
            None => None,
        }
    }

    /// Position of the widget that input events are delivered to under the
    /// focus `focus`, if there is one.
    pub fn target(&self, focus: Option<WidgetId>) -> (index: Option<usize>)
        ensures
            match index {
                Some(index) => delivery_target(focus, self@) == Some(index as int) && index
                    < self@.len(),
                None => delivery_target(focus, self@) is None,
            },
    {
        match focus {
            None => None,
            Some(id) => match self.find(id) {
                None => None,
                Some(index) => {
                    proof {
                        lemma_position(self@, id);
                    }
                    if self.entries[index].widget.enabled {
                        Some(index)
                    } else {
                        None
                    }
                },
            },
        }
    }

    /// Enables or disables the widget registered under `id`. Returns whether
    /// there is such a widget; nothing else about the registry changes.
    pub fn set_enabled(&mut self, id: WidgetId, enabled: bool) -> (found: bool)
        ensures
            found == position(old(self)@, id) is Some,
            final(self).issued() == old(self).issued(),
            final(self)@.len() == old(self)@.len(),
            forall|i: int|
                0 <= i < old(self)@.len() ==> {
                    &&& (#[trigger] final(self)@[i]).id == old(self)@[i].id
                    &&& final(self)@[i].widget.widget == old(self)@[i].widget.widget
                    &&& final(self)@[i].widget.region == old(self)@[i].widget.region
                    &&& final(self)@[i].widget.enabled == (if position(old(self)@, id) == Some(i) {
                        enabled
                    } else {
                        old(self)@[i].widget.enabled
                    })
                },
    {
        proof {
            use_type_invariant(&*self);
        }
        match self.find(id) {
            Some(index) => {
                let mut entries: Vec<Registered<W>> = Vec::new();
                core::mem::swap(&mut self.entries, &mut entries);
                entries[index].widget.enabled = enabled;
                proof {
                    let before = old(self)@;
                    let after = entries@;
                    assert forall|i: int, j: int| 0 <= i < j < after.len() implies (
                    #[trigger] after[i]).id != (#[trigger] after[j]).id by {
                        assert(before[i].id != before[j].id);
                    }
                }
                core::mem::swap(&mut self.entries, &mut entries);
                true
            },
            None => false,
        }
    }

    /// Assigns the widget registered under `id` a new region. Returns
    /// whether there is such a widget; nothing else about the registry
    /// changes.
    pub fn set_region(&mut self, id: WidgetId, region: Region) -> (found: bool)
        ensures
            found == position(old(self)@, id) is Some,
            final(self).issued() == old(self).issued(),
            final(self)@.len() == old(self)@.len(),
            forall|i: int|
                0 <= i < old(self)@.len() ==> {
                    &&& (#[trigger] final(self)@[i]).id == old(self)@[i].id
                    &&& final(self)@[i].widget.widget == old(self)@[i].widget.widget
                    &&& final(self)@[i].widget.enabled == old(self)@[i].widget.enabled
                    &&& final(self)@[i].widget.region == (if position(old(self)@, id) == Some(i) {
                        region
                    } else {
                        old(self)@[i].widget.region
                    })
                },
    {
        proof {
            use_type_invariant(&*self);
        }
        match self.find(id) {
            Some(index) => {
                let mut entries: Vec<Registered<W>> = Vec::new();
                core::mem::swap(&mut self.entries, &mut entries);
                entries[index].widget.region = region;
                proof {
                    let before = old(self)@;
                    let after = entries@;
                    assert forall|i: int, j: int| 0 <= i < j < after.len() implies (
                    #[trigger] after[i]).id != (#[trigger] after[j]).id by {
                        assert(before[i].id != before[j].id);
                    }
                }
                core::mem::swap(&mut self.entries, &mut entries);
                true
            },
            None => false,
        }
    }

    /// Takes the widget registered under `id` out of the registry and hands
    /// it back. Its identifier is not handed out again.
    pub fn remove(&mut self, id: WidgetId) -> (removed: Option<Widget<W>>)
        ensures
            final(self).issued() == old(self).issued(),
            match position(old(self)@, id) {
                Some(index) => {
                    &&& removed == Some(old(self)@[index].widget)
                    &&& final(self)@ == old(self)@.remove(index)
                },
                None => removed is None && final(self)@ == old(self)@,
            },
            distinct_ids(final(self)@),
            position(final(self)@, id) is None,
    {
        proof {
            use_type_invariant(&*self);
        }
        match self.find(id) {
            Some(index) => {
                let ghost before = self@;
                proof {
                    lemma_position(before, id);
                }
                let mut entries: Vec<Registered<W>> = Vec::new();
                core::mem::swap(&mut self.entries, &mut entries);
                let entry = entries.remove(index);
                proof {
                    let after = entries@;
                    assert forall|i: int, j: int| 0 <= i < j < after.len() implies (
                    #[trigger] after[i]).id != (#[trigger] after[j]).id by {
                        let from_i = if i < index { i } else { i + 1 };
                        let from_j = if j < index { j } else { j + 1 };
                        assert(after[i] == before[from_i]);
                        assert(after[j] == before[from_j]);
                    }
                    assert forall|j: int| 0 <= j < after.len() implies (#[trigger] after[j]).id
                        != id by {
                        let from_j = if j < index { j } else { j + 1 };
                        assert(after[j] == before[from_j]);
                        assert(before[index as int].id == id);
                    }
                    lemma_position(after, id);
                }
                core::mem::swap(&mut self.entries, &mut entries);
                Some(entry.widget)
            },
            None => None,
        }
    }

    /// Hands one event to the widget at `index`: its `handle_events` is
    /// called with `event` and an empty queue, and what the widget leaves in
    /// that queue is appended to `commands`. Only that widget can change by
    /// it.
    pub(crate) fn deliver(
        &mut self,
        index: usize,
        event: &TerminalInputEvent,
        commands: &mut Commands,
    )
        requires
            index < old(self)@.len(),
        ensures
            same_except(old(self)@, final(self)@, index as int),
            final(self).issued() == old(self).issued(),
            old(commands)@.is_prefix_of(final(commands)@),
            handled_step(
                old(self)@[index as int].widget.widget,
                *event,
                final(self)@[index as int].widget.widget,
                final(commands)@.skip(old(commands)@.len() as int),
            ),
    {
        proof {
            use_type_invariant(&*self);
        }
        let mut queued = Commands::new();
        let mut entries: Vec<Registered<W>> = Vec::new();
        core::mem::swap(&mut self.entries, &mut entries);
        entries[index].widget.widget.handle_events(event, &mut queued);
        proof {
            lemma_same_layout_distinct(old(self)@, entries@);
        }
        core::mem::swap(&mut self.entries, &mut entries);
        let ghost asked = queued@;
        commands.absorb(queued);
        assert(commands@.skip(old(commands)@.len() as int) =~= asked);
    }

    /// Lets the widget at `index` update itself: its `update` is called with
    /// `time` and an empty queue, and what the widget leaves in that queue is
    /// appended to `commands`. Only that widget can change by it.
    pub(crate) fn update_at(&mut self, index: usize, time: &Time, commands: &mut Commands)
        requires
            index < old(self)@.len(),
        ensures
            same_except(old(self)@, final(self)@, index as int),
            final(self).issued() == old(self).issued(),
            old(commands)@.is_prefix_of(final(commands)@),
            updated_step(
                old(self)@[index as int].widget.widget,
                *time,
                final(self)@[index as int].widget.widget,
                final(commands)@.skip(old(commands)@.len() as int),
            ),
    {
        proof {
            use_type_invariant(&*self);
        }
        let mut queued = Commands::new();
        let mut entries: Vec<Registered<W>> = Vec::new();
        core::mem::swap(&mut self.entries, &mut entries);
        entries[index].widget.widget.update(time, &mut queued);
        proof {
            lemma_same_layout_distinct(old(self)@, entries@);
        }
        core::mem::swap(&mut self.entries, &mut entries);
        let ghost asked = queued@;
        commands.absorb(queued);
        assert(commands@.skip(old(commands)@.len() as int) =~= asked);
    }

    /// Lets the widget at `index` render: its `render` is called with
    /// `frame` and `region`, and `frame` comes back as the widget left it.
    /// Only that widget can change by it.
    pub(crate) fn render_at(
        &mut self,
        index: usize,
        frame: &mut TerminalFrameBuffer,
        region: Region,
    )
        requires
            index < old(self)@.len(),
        ensures
            same_except(old(self)@, final(self)@, index as int),
            final(self).issued() == old(self).issued(),
            rendered_step(
                old(self)@[index as int].widget.widget,
                old(frame)@,
                region,
                final(self)@[index as int].widget.widget,
                final(frame)@,
            ),
    {
        proof {
            use_type_invariant(&*self);
        }
        let mut entries: Vec<Registered<W>> = Vec::new();
        core::mem::swap(&mut self.entries, &mut entries);
        entries[index].widget.widget.render(frame, region);
        proof {
            lemma_same_layout_distinct(old(self)@, entries@);
        }
        core::mem::swap(&mut self.entries, &mut entries);
    }
}

} // verus!


