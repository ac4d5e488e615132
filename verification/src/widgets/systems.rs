use crate::display::frame::{
    composited, lemma_composited_keeps_outside, lemma_composited_replaces_region, Cell, CellGrid,
    Region, TerminalFrameBuffer,
};
use crate::input::events::TerminalInputEvent;
use crate::time::Time;
use crate::widgets::commands::{Commands, WidgetCommand};
use crate::widgets::components::{
    delivery_target, distinct_ids, handled_step, lemma_delivery_target_is_the_focused,
    lemma_same_layout_distinct, rendered_step, same_except, same_layout, state_of, updated_step,
    Registered, WidgetId, WidgetState, Widgets,
};
use crate::widgets::resources::{focus_after, FocusedWidget};
use crate::widgets::TerminalWidget;
use vstd::prelude::*;

verus! {

/// The events that are handed to a widget in one cycle, in the order in
/// which they are handed over: every event of the cycle, in arrival order,
/// where the focus slot names a registered, enabled widget; none otherwise.
pub open spec fn deliveries<W>(
    focus: Option<WidgetId>,
    entries: Seq<Registered<W>>,
    events: Seq<TerminalInputEvent>,
) -> Seq<TerminalInputEvent> {
    if delivery_target(focus, entries) is Some {
        events
    } else {
        Seq::empty()
    }
}

/// The regions of the registered widgets, in registration order.
pub open spec fn regions_of<W>(entries: Seq<Registered<W>>) -> Seq<Region> {
    Seq::new(entries.len(), |i: int| entries[i].widget.region)
}

/// The frame `base` with one patch per region composited over it, in the
/// order of `regions`: `patches[i]` is painted over `regions[i]`, later ones
/// over earlier ones.
pub open spec fn overlaid(base: CellGrid, regions: Seq<Region>, patches: Seq<CellGrid>, fill: Cell)
    -> CellGrid
    decreases regions.len(),
{
    if regions.len() == 0 {
        base
    } else {
        composited(
            overlaid(base, regions.drop_last(), patches, fill),
            regions.last(),
            patches[regions.len() - 1],
            fill,
        )
    }
}

/// The commands of `queues`, one queue after the other.
pub open spec fn joined(queues: Seq<Seq<WidgetCommand>>) -> Seq<WidgetCommand>
    decreases queues.len(),
{
    if queues.len() == 0 {
        Seq::empty()
    } else {
        joined(queues.drop_last()) + queues.last()
    }
}

/// The widget as it stood before the call numbered `i` of a run of calls
/// that began with the widget `first` and left the widget `states[k]` after
/// the call numbered `k`.
pub open spec fn state_before<W>(first: W, states: Seq<W>, i: int) -> W {
    if i == 0 {
        first
    } else {
        states[i - 1]
    }
}

/// The widget as a run of calls left it that began with the widget `first`.
pub open spec fn last_state<W>(first: W, states: Seq<W>) -> W {
    if states.len() == 0 {
        first
    } else {
        states.last()
    }
}

/// The record of one widget handling `events` one by one, beginning as
/// `first`: the call numbered `i` was handed `events[i]` and an empty queue,
/// found the widget as the call before had left it, left it as `states[i]`
/// and left `queues[i]` in the queue. There is one call for each event, in
/// the order of the events, and none besides.
pub open spec fn handled_in_order<W: TerminalWidget>(
    first: W,
    events: Seq<TerminalInputEvent>,
    states: Seq<W>,
    queues: Seq<Seq<WidgetCommand>>,
) -> bool {
    &&& states.len() == events.len()
    &&& queues.len() == events.len()
    &&& forall|i: int|
        0 <= i < events.len() ==> handled_step(
            state_before(first, states, i),
            events[i],
            #[trigger] states[i],
            queues[i],
        )
}

/// The record of every widget being updated once: the widget at `i` was
/// found as `before[i]` holds it, was updated at `time` with an empty queue,
/// was left as `after[i]` holds it and left `queues[i]` in the queue.
pub open spec fn updated_all<W: TerminalWidget>(
    before: Seq<Registered<W>>,
    after: Seq<Registered<W>>,
    time: Time,
    queues: Seq<Seq<WidgetCommand>>,
) -> bool {
    &&& after.len() == before.len()
    &&& queues.len() == before.len()
    &&& forall|i: int|
        0 <= i < before.len() ==> updated_step(
            before[i].widget.widget,
            time,
            (#[trigger] after[i]).widget.widget,
            queues[i],
        )
}

/// The region that a widget with region `region` is given to draw on in a
/// frame of its own: as large as the part of `region` inside `base`, with
/// its corner at the origin.
pub open spec fn canvas_region(base: CellGrid, region: Region) -> Region {
    Region {
        x: 0,
        y: 0,
        width: region.intersect(base.area()).width,
        height: region.intersect(base.area()).height,
    }
}

/// The record of every widget being rendered once: the widget at `i` was
/// found as `before[i]` holds it, was given a frame of its own, filled with
/// `fill` and as large as the visible part of its region, was left as
/// `after[i]` holds it and left `patches[i]` in that frame.
pub open spec fn rendered_all<W: TerminalWidget>(
    before: Seq<Registered<W>>,
    after: Seq<Registered<W>>,
    base: CellGrid,
    fill: Cell,
    patches: Seq<CellGrid>,
) -> bool {
    &&& after.len() == before.len()
    &&& patches.len() == before.len()
    &&& forall|i: int|
        0 <= i < before.len() ==> rendered_step(
            before[i].widget.widget,
            CellGrid::filled(
                canvas_region(base, before[i].widget.region).width as nat,
                canvas_region(base, before[i].widget.region).height as nat,
                fill,
            ),
            canvas_region(base, before[i].widget.region),
            (#[trigger] after[i]).widget.widget,
            patches[i],
        )
}

/// Whether the cell at column `x` of line `y` lies in one of the regions.
pub open spec fn covered(regions: Seq<Region>, x: int, y: int) -> bool {
    exists|i: int| 0 <= i < regions.len() && (#[trigger] regions[i]).covers(x, y)
}

/// `same_layout` carries over a chain of changes.
pub proof fn lemma_same_layout_transitive<W>(
    first: Seq<Registered<W>>,
    second: Seq<Registered<W>>,
    third: Seq<Registered<W>>,
)
    requires
        same_layout(first, second),
        same_layout(second, third),
    ensures
        same_layout(first, third),
{
    assert forall|i: int| 0 <= i < first.len() implies {
        &&& (#[trigger] third[i]).id == first[i].id
        &&& third[i].widget.enabled == first[i].widget.enabled
        &&& third[i].widget.region == first[i].widget.region
    } by {
        assert(second[i].id == first[i].id);
    }
}

/// Changes that each touch only the widget at `index` touch only that widget
/// when taken together.
pub proof fn lemma_same_except_transitive<W>(
    first: Seq<Registered<W>>,
    second: Seq<Registered<W>>,
    third: Seq<Registered<W>>,
    index: int,
)
    requires
        same_except(first, second, index),
        same_except(second, third, index),
    ensures
        same_except(first, third, index),
{
    lemma_same_layout_transitive(first, second, third);
    assert forall|i: int| 0 <= i < first.len() && i != index implies #[trigger] third[i]
        == first[i] by {
        assert(second[i] == first[i]);
    }
}

/// Widgets with the same layout have the same regions.
pub proof fn lemma_same_layout_same_regions<W>(
    before: Seq<Registered<W>>,
    after: Seq<Registered<W>>,
)
    requires
        same_layout(before, after),
    ensures
        regions_of(after) == regions_of(before),
{
    assert forall|i: int| 0 <= i < before.len() implies regions_of(after)[i] == regions_of(
        before,
    )[i] by {
        assert(after[i].id == before[i].id);
    }
    assert(regions_of(after) =~= regions_of(before));
}

/// Compositing keeps the extent of the frame.
pub proof fn lemma_overlaid_extent(
    base: CellGrid,
    regions: Seq<Region>,
    patches: Seq<CellGrid>,
    fill: Cell,
)
    requires
        base.well_formed(),
    ensures
        overlaid(base, regions, patches, fill).cols == base.cols,
        overlaid(base, regions, patches, fill).rows() == base.rows(),
        overlaid(base, regions, patches, fill).well_formed(),
    decreases regions.len(),
{
    if regions.len() > 0 {
        lemma_overlaid_extent(base, regions.drop_last(), patches, fill);
    }
}

/// Only the patches that belong to a region matter.
proof fn lemma_overlaid_ignores_tail(
    base: CellGrid,
    regions: Seq<Region>,
    patches: Seq<CellGrid>,
    longer: Seq<CellGrid>,
    fill: Cell,
)
    requires
        regions.len() <= patches.len() <= longer.len(),
        forall|i: int| 0 <= i < regions.len() ==> patches[i] == longer[i],
    ensures
        overlaid(base, regions, patches, fill) == overlaid(base, regions, longer, fill),
    decreases regions.len(),
{
    if regions.len() > 0 {
        lemma_overlaid_ignores_tail(base, regions.drop_last(), patches, longer, fill);
    }
}

/// Widgets are painted after the scene and over it: a cell that lies in no
/// widget's region shows the scene as it was.
pub proof fn lemma_overlaid_keeps_uncovered(
    base: CellGrid,
    regions: Seq<Region>,
    patches: Seq<CellGrid>,
    fill: Cell,
    x: int,
    y: int,
)
    requires
        base.well_formed(),
        base.in_bounds(x, y),
        !covered(regions, x, y),
    ensures
        overlaid(base, regions, patches, fill).at(x, y) == base.at(x, y),
    decreases regions.len(),
{
    if regions.len() > 0 {
        let front = regions.drop_last();
        assert(regions[regions.len() - 1] == regions.last());
        assert(!regions.last().covers(x, y));
        assert(!covered(front, x, y)) by {
            if covered(front, x, y) {
                let i = choose|i: int| 0 <= i < front.len() && (#[trigger] front[i]).covers(x, y);
                assert(regions[i] == front[i]);
            }
        }
        lemma_overlaid_keeps_uncovered(base, front, patches, fill, x, y);
        lemma_overlaid_extent(base, front, patches, fill);
        lemma_composited_keeps_outside(
            overlaid(base, front, patches, fill),
            regions.last(),
            patches[regions.len() - 1],
            fill,
            x,
            y,
        );
    }
}

/// A cell that lies in a widget's region shows nothing of the scene: what
/// it shows after compositing is the same whatever the frame held before.
pub proof fn lemma_overlaid_replaces_covered(
    first: CellGrid,
    second: CellGrid,
    regions: Seq<Region>,
    patches: Seq<CellGrid>,
    fill: Cell,
    x: int,
    y: int,
)
    requires
        first.well_formed(),
        second.well_formed(),
        first.cols == second.cols,
        first.rows() == second.rows(),
        first.in_bounds(x, y),
        covered(regions, x, y),
    ensures
        overlaid(first, regions, patches, fill).at(x, y) == overlaid(
            second,
            regions,
            patches,
            fill,
        ).at(x, y),
    decreases regions.len(),
{
    if regions.len() > 0 {
        let front = regions.drop_last();
        let below_first = overlaid(first, front, patches, fill);
        let below_second = overlaid(second, front, patches, fill);
        lemma_overlaid_extent(first, front, patches, fill);
        lemma_overlaid_extent(second, front, patches, fill);
        if regions.last().covers(x, y) {
            lemma_composited_replaces_region(
                below_first,
                below_second,
                regions.last(),
                patches[regions.len() - 1],
                fill,
                x,
                y,
            );
        } else {
            let i = choose|i: int| 0 <= i < regions.len() && (#[trigger] regions[i]).covers(x, y);
            assert(front[i] == regions[i]);
            assert(covered(front, x, y));
            lemma_overlaid_replaces_covered(first, second, front, patches, fill, x, y);
            lemma_composited_keeps_outside(
                below_first,
                regions.last(),
                patches[regions.len() - 1],
                fill,
                x,
                y,
            );
            lemma_composited_keeps_outside(
                below_second,
                regions.last(),
                patches[regions.len() - 1],
                fill,
                x,
                y,
            );
        }
    }
}

/// The last widget to cover a cell decides what the cell shows: the cell of
/// that widget's patch at the same offset from the corner of its region.
pub proof fn lemma_overlaid_last_writer_wins(
    base: CellGrid,
    regions: Seq<Region>,
    patches: Seq<CellGrid>,
    fill: Cell,
    writer: int,
    x: int,
    y: int,
)
    requires
        base.well_formed(),
        base.in_bounds(x, y),
        0 <= writer < regions.len(),
        regions[writer].covers(x, y),
        forall|later: int| writer < later < regions.len() ==> !(#[trigger] regions[later]).covers(x, y),
    ensures
        overlaid(base, regions, patches, fill).at(x, y) == patches[writer].cell_or(
            x - regions[writer].x,
            y - regions[writer].y,
            fill,
        ),
    decreases regions.len(),
{
    let front = regions.drop_last();
    lemma_overlaid_extent(base, front, patches, fill);
    if writer == regions.len() - 1 {
    } else {
        assert(!regions[regions.len() - 1].covers(x, y));
        assert(front[writer] == regions[writer]);
        assert forall|later: int| writer < later < front.len() implies !(#[trigger] front[later]).covers(
            x,
            y,
        ) by {
            assert(front[later] == regions[later]);
        }
        lemma_overlaid_last_writer_wins(base, front, patches, fill, writer, x, y);
        lemma_composited_keeps_outside(
            overlaid(base, front, patches, fill),
            regions.last(),
            patches[regions.len() - 1],
            fill,
            x,
            y,
        );
    }
}

/// A record of calls goes on by one call: the call finds the widget as the
/// record left it and is written down behind the others.
proof fn lemma_handled_one_more<W: TerminalWidget>(
    first: W,
    events: Seq<TerminalInputEvent>,
    states: Seq<W>,
    queues: Seq<Seq<WidgetCommand>>,
    event: TerminalInputEvent,
    after: W,
    queued: Seq<WidgetCommand>,
)
    requires
        handled_in_order(first, events, states, queues),
        handled_step(last_state(first, states), event, after, queued),
    ensures
        handled_in_order(first, events.push(event), states.push(after), queues.push(queued)),
        last_state(first, states.push(after)) == after,
        joined(queues.push(queued)) == joined(queues) + queued,
{
    let more_events = events.push(event);
    let more_states = states.push(after);
    let more_queues = queues.push(queued);
    assert(more_queues.drop_last() == queues);
    assert forall|i: int| 0 <= i < more_events.len() implies handled_step(
        state_before(first, more_states, i),
        more_events[i],
        #[trigger] more_states[i],
        more_queues[i],
    ) by {
        if i < events.len() {
            assert(more_states[i] == states[i]);
            assert(handled_step(state_before(first, states, i), events[i], states[i], queues[i]));
            if i > 0 {
                assert(more_states[i - 1] == states[i - 1]);
            }
        }
    }
}

/// After any sequence of focus changes at most one registered widget is in
/// the focused state.
pub proof fn lemma_single_focused_widget<W>(
    slot: Option<WidgetId>,
    commands: Seq<WidgetCommand>,
    entries: Seq<Registered<W>>,
    first: int,
    second: int,
)
    requires
        distinct_ids(entries),
        0 <= first < entries.len(),
        0 <= second < entries.len(),
        state_of(entries[first], focus_after(slot, commands)) == WidgetState::EnabledFocused,
        state_of(entries[second], focus_after(slot, commands)) == WidgetState::EnabledFocused,
    ensures
        first == second,
{
    let focus = focus_after(slot, commands);
    lemma_delivery_target_is_the_focused(focus, entries, first);
    lemma_delivery_target_is_the_focused(focus, entries, second);
}

/// An unfocus after focusing a widget leaves no widget that events are
/// delivered to, whatever was asked for before and whichever widgets are
/// registered: every event of the cycle goes to no one.
pub proof fn lemma_unfocus_silences<W>(
    slot: Option<WidgetId>,
    commands: Seq<WidgetCommand>,
    widget: WidgetId,
    entries: Seq<Registered<W>>,
    events: Seq<TerminalInputEvent>,
)
    ensures
        delivery_target(
            focus_after(
                slot,
                commands.push(WidgetCommand::Focus(widget)).push(WidgetCommand::UnfocusAll),
            ),
            entries,
        ) is None,
        deliveries(
            focus_after(
                slot,
                commands.push(WidgetCommand::Focus(widget)).push(WidgetCommand::UnfocusAll),
            ),
            entries,
            events,
        ).len() == 0,
{
}

/// Events reach the focused widget in the order in which they were
/// published: where a registered, enabled widget holds focus, what is handed
/// to it is the queue as it was drained, so that of two events the one
/// published first is handed over first.
pub proof fn lemma_deliveries_keep_order<W>(
    focus: Option<WidgetId>,
    entries: Seq<Registered<W>>,
    waiting: Seq<TerminalInputEvent>,
    published: Seq<TerminalInputEvent>,
    i: int,
    j: int,
)
    requires
        delivery_target(focus, entries) is Some,
        0 <= i < j < published.len(),
    ensures
        deliveries(focus, entries, waiting + published) == waiting + published,
        deliveries(focus, entries, waiting + published)[waiting.len() + i] == published[i],
        deliveries(focus, entries, waiting + published)[waiting.len() + j] == published[j],
{
}

/// Invokes focused widget's `handle_events` methods for each incoming input event
///
/// The events go to the widget that `focused_widget` names, in the order of
/// `events`, provided that it is registered and enabled; to no widget
/// otherwise. The focus slot is read once: what a widget asks for while it
/// handles events is queued in `commands` and changes nothing before the
/// queue is applied. Returns the number of events that were handed over.
///
/// The target's `handle_events` is called once for each event, in order,
/// each call on the widget as the call before left it and with an empty
/// queue; what the calls queued is appended to `commands`, call after call.
/// Without an event no call is made and no widget changes.
pub fn widget_input_handling<W: TerminalWidget>(
    widgets: &mut Widgets<W>,
    events: &Vec<TerminalInputEvent>,
    commands: &mut Commands,
    focused_widget: &FocusedWidget,
) -> (delivered: usize)
    ensures
        delivered == deliveries(focused_widget.0, old(widgets)@, events@).len(),
        match delivery_target(focused_widget.0, old(widgets)@) {
            Some(index) => {
                &&& same_except(old(widgets)@, final(widgets)@, index)
                &&& exists|states: Seq<W>, queues: Seq<Seq<WidgetCommand>>|
                    {
                        &&& #[trigger] handled_in_order(
                            old(widgets)@[index].widget.widget,
                            deliveries(focused_widget.0, old(widgets)@, events@),
                            states,
                            queues,
                        )
                        &&& final(widgets)@[index].widget.widget == last_state(
                            old(widgets)@[index].widget.widget,
                            states,
                        )
                        &&& final(commands)@ == old(commands)@ + joined(queues)
                    }
            },
            None => final(widgets)@ == old(widgets)@ && final(commands)@ == old(commands)@,
        },
        events@.len() == 0 ==> final(widgets)@ == old(widgets)@ && final(commands)@ == old(
            commands,
        )@,
        final(widgets).issued() == old(widgets).issued(),
        distinct_ids(final(widgets)@),
        old(commands)@.is_prefix_of(final(commands)@),
{
    widgets.check_distinct();
    match widgets.target(focused_widget.0) {
        None => 0,
        Some(index) => {
            let ghost before = widgets@;
            let ghost first = before[index as int].widget.widget;
            let ghost mut states: Seq<W> = Seq::empty();
            let ghost mut queues: Seq<Seq<WidgetCommand>> = Seq::empty();
            let mut handed: usize = 0;
            assert(commands@ =~= old(commands)@ + joined(queues));
            while handed < events.len()
                invariant
                    handed <= events.len(),
                    index < before.len(),
                    before == old(widgets)@,
                    first == before[index as int].widget.widget,
                    same_except(before, widgets@, index as int),
                    widgets.issued() == old(widgets).issued(),
                    old(commands)@.is_prefix_of(commands@),
                    handled_in_order(first, events@.take(handed as int), states, queues),
                    widgets@[index as int].widget.widget == last_state(first, states),
                    handed == 0 ==> widgets@ == before,
                    commands@ == old(commands)@ + joined(queues),
                decreases events.len() - handed,
            {
                let ghost previous = widgets@;
                let ghost waiting = commands@;
                widgets.deliver(index, &events[handed], commands);
                proof {
                    lemma_same_except_transitive(before, previous, widgets@, index as int);
                    let asked = commands@.skip(waiting.len() as int);
                    let after = widgets@[index as int].widget.widget;
                    assert(commands@ =~= waiting + asked);
                    assert(events@.take(handed + 1) == events@.take(handed as int).push(
                        events@[handed as int],
                    ));
                    lemma_handled_one_more(
                        first,
                        events@.take(handed as int),
                        states,
                        queues,
                        events@[handed as int],
                        after,
                        asked,
                    );
                    states = states.push(after);
                    queues = queues.push(asked);
                    assert(commands@ =~= old(commands)@ + joined(queues));
                }
                handed = handed + 1;
            }
            assert(events@.take(events.len() as int) == events@);
            assert(handled_in_order(first, events@, states, queues));
            proof {
                lemma_same_layout_distinct(before, widgets@);
            }
            handed
        },
    }
}

/// Calls `update` on every registered widget, in registration order, whether
/// or not it is enabled or focused. What the widgets ask for is queued in
/// `commands`. Returns the number of widgets that were updated.
///
/// Each widget's `update` is called once, on the widget as it stood when the
/// system began, with `time` and an empty queue; what the calls queued is
/// appended to `commands` in registration order.
pub fn update_widgets<W: TerminalWidget>(
    widgets: &mut Widgets<W>,
    time: &Time,
    commands: &mut Commands,
) -> (updated: usize)
    ensures
        updated == old(widgets)@.len(),
        same_layout(old(widgets)@, final(widgets)@),
        final(widgets).issued() == old(widgets).issued(),
        distinct_ids(final(widgets)@),
        old(commands)@.is_prefix_of(final(commands)@),
        exists|queues: Seq<Seq<WidgetCommand>>|
            {
                &&& #[trigger] updated_all(old(widgets)@, final(widgets)@, *time, queues)
                &&& final(commands)@ == old(commands)@ + joined(queues)
            },
{
    let ghost before = widgets@;
    let ghost mut queues: Seq<Seq<WidgetCommand>> = Seq::empty();
    let count = widgets.len();
    let mut index: usize = 0;
    assert(commands@ =~= old(commands)@ + joined(queues));
    while index < count
        invariant
            index <= count,
            count == before.len(),
            before == old(widgets)@,
            same_layout(before, widgets@),
            widgets.issued() == old(widgets).issued(),
            old(commands)@.is_prefix_of(commands@),
            updated_all(before.take(index as int), widgets@.take(index as int), *time, queues),
            forall|j: int| index <= j < count ==> #[trigger] widgets@[j] == before[j],
            commands@ == old(commands)@ + joined(queues),
        decreases count - index,
    {
        let ghost previous = widgets@;
        let ghost waiting = commands@;
        widgets.update_at(index, time, commands);
        proof {
            lemma_same_layout_transitive(before, previous, widgets@);
            let asked = commands@.skip(waiting.len() as int);
            let more_queues = queues.push(asked);
            assert(more_queues.drop_last() == queues);
            assert(commands@ =~= waiting + asked);
            assert(commands@ =~= old(commands)@ + joined(more_queues));
            assert(previous[index as int] == before[index as int]);
            assert forall|i: int| 0 <= i < index + 1 implies updated_step(
                before.take(index + 1)[i].widget.widget,
                *time,
                (#[trigger] widgets@.take(index + 1)[i]).widget.widget,
                more_queues[i],
            ) by {
                if i < index {
                    assert(widgets@[i] == previous[i]);
                    assert(previous.take(index as int)[i] == previous[i]);
                    assert(before.take(index as int)[i] == before[i]);
                }
            }
            assert forall|j: int| index + 1 <= j < count implies #[trigger] widgets@[j]
                == before[j] by {
                assert(widgets@[j] == previous[j]);
            }
            queues = more_queues;
        }
        index = index + 1;
    }
    assert(widgets@.take(count as int) == widgets@);
    assert(before.take(count as int) == before);
    widgets.check_distinct();
    index
}

/// Calls `render` on every registered widget, in registration order, and
/// composites what each one drew over its region of `frame`. Each widget
/// draws on a frame of its own, as large as the part of its region that lies
/// inside `frame` and filled with `fill`; what it leaves there replaces the
/// cells of its region, so that nothing of the scene or of an earlier widget
/// shows through. Cells that lie in no region stay as they are.
///
/// Each widget's `render` is called once, on the widget as it stood when the
/// system began.
pub fn render_widgets<W: TerminalWidget>(
    widgets: &mut Widgets<W>,
    frame: &mut TerminalFrameBuffer,
    fill: Cell,
)
    ensures
        same_layout(old(widgets)@, final(widgets)@),
        final(widgets).issued() == old(widgets).issued(),
        distinct_ids(final(widgets)@),
        exists|patches: Seq<CellGrid>|
            {
                &&& patches.len() == old(widgets)@.len()
                &&& final(frame)@ == #[trigger] overlaid(
                    old(frame)@,
                    regions_of(old(widgets)@),
                    patches,
                    fill,
                )
                &&& rendered_all(old(widgets)@, final(widgets)@, old(frame)@, fill, patches)
            },
        final(frame)@.cols == old(frame)@.cols,
        final(frame)@.rows() == old(frame)@.rows(),
        forall|x: int, y: int|
            old(frame)@.in_bounds(x, y) && !covered(regions_of(old(widgets)@), x, y)
                ==> #[trigger] final(frame)@.at(x, y) == old(frame)@.at(x, y),
{
    let ghost before = widgets@;
    let ghost base = frame@;
    let ghost regions = regions_of(before);
    let ghost mut patches: Seq<CellGrid> = Seq::empty();
    let count = widgets.len();
    let mut index: usize = 0;
    while index < count
        invariant
            index <= count,
            count == before.len(),
            before == old(widgets)@,
            base == old(frame)@,
            regions == regions_of(before),
            same_layout(before, widgets@),
            widgets.issued() == old(widgets).issued(),
            patches.len() == index,
            frame@ == overlaid(base, regions.take(index as int), patches, fill),
            frame@.cols == base.cols,
            frame@.rows() == base.rows(),
            rendered_all(
                before.take(index as int),
                widgets@.take(index as int),
                base,
                fill,
                patches,
            ),
            forall|j: int| index <= j < count ==> #[trigger] widgets@[j] == before[j],
        decreases count - index,
    {
        let ghost previous = widgets@;
        let ghost painted = frame@;
        let region = match widgets.region_at(index) {
            Some(region) => region,
            None => Region::new(0, 0, 0, 0),
        };
        assert(region == regions[index as int]);
        let visible = frame.clip(region);
        let mut canvas = TerminalFrameBuffer::new(visible.width, visible.height, fill);
        widgets.render_at(index, &mut canvas, Region::new(0, 0, visible.width, visible.height));
        frame.paint(region, &canvas, fill);
        proof {
            lemma_same_layout_transitive(before, previous, widgets@);
            let longer = patches.push(canvas@);
            let shorter = regions.take(index as int);
            let next = regions.take(index + 1);
            assert(next.drop_last() == shorter);
            assert(next.last() == region);
            lemma_overlaid_ignores_tail(base, shorter, patches, longer, fill);
            assert(painted.area() == base.area());
            assert(previous[index as int] == before[index as int]);
            assert forall|i: int| 0 <= i < index + 1 implies rendered_step(
                before.take(index + 1)[i].widget.widget,
                CellGrid::filled(
                    canvas_region(base, before.take(index + 1)[i].widget.region).width as nat,
                    canvas_region(base, before.take(index + 1)[i].widget.region).height as nat,
                    fill,
                ),
                canvas_region(base, before.take(index + 1)[i].widget.region),
                (#[trigger] widgets@.take(index + 1)[i]).widget.widget,
                longer[i],
            ) by {
                if i < index {
                    assert(widgets@[i] == previous[i]);
                    assert(previous.take(index as int)[i] == previous[i]);
                    assert(before.take(index as int)[i] == before[i]);
                } else {
                    assert(before[i].widget.region == region);
                }
            }
            assert forall|j: int| index + 1 <= j < count implies #[trigger] widgets@[j]
                == before[j] by {
                assert(widgets@[j] == previous[j]);
            }
            patches = longer;
        }
        index = index + 1;
    }
    proof {
        assert(regions.take(count as int) == regions);
        assert(widgets@.take(count as int) == widgets@);
        assert(before.take(count as int) == before);
        frame.lemma_view_well_formed();
        old(frame).lemma_view_well_formed();
        lemma_overlaid_extent(base, regions, patches, fill);
        assert forall|x: int, y: int|
            base.in_bounds(x, y) && !covered(regions, x, y) implies #[trigger] frame@.at(x, y)
            == base.at(x, y) by {
            lemma_overlaid_keeps_uncovered(base, regions, patches, fill, x, y);
        }
    }
    widgets.check_distinct();
}

} // verus!
