use crate::display::components::{
    initialized, DisplayError, RenderSurface, SurfaceHandle, SurfaceModel, TerminalDisplay,
    CELL_HEIGHT, CELL_WIDTH,
};
use crate::display::frame::{Cell, CellGrid, Region, TerminalFrameBuffer};
use crate::display::pixels::PixelGrid;
use crate::display::systems::{
    presented, present_surface, reallocated_by, resize_handling, resized_by,
};
use crate::input::events::{RawEvent, TerminalInputEvent};
use crate::input::resources::EventQueue;
use crate::input::systems::{
    input_handling, lemma_latest_resize_only_keeps_others, normalized, polled, without_resizes,
};
use crate::time::Time;
use crate::widgets::commands::{Commands, TerminalWidgetCommands, WidgetCommand};
use crate::widgets::components::{
    delivery_target, distinct_ids, position, same_except, same_layout, Registered, Widget,
    WidgetId, Widgets,
};
use crate::widgets::resources::{focus_after, FocusedWidget};
use crate::widgets::systems::{
    deliveries, handled_in_order, joined, last_state, lemma_same_layout_same_regions,
    lemma_same_layout_transitive, overlaid, regions_of, render_widgets, rendered_all,
    update_widgets, updated_all, widget_input_handling,
};
use crate::widgets::TerminalWidget;
use ratatui::style::Style;
use vstd::prelude::*;

verus! {

/// Everything that lives from one cycle of the frame loop to the next.
pub struct DisplayLoop<W> {
    /// Settings of the display.
    pub display: TerminalDisplay,
    /// The surface the scene is rendered to.
    pub surface: RenderSurface,
    /// Events that were captured and not yet dispatched.
    pub queue: EventQueue,
    /// The widget that holds focus, if any.
    pub focused: FocusedWidget,
    /// The registered widgets.
    pub widgets: Widgets<W>,
    /// Focus changes that were asked for and not yet applied.
    pub commands: Commands,
    /// The clock of the loop.
    pub time: Time,
    /// The frame that was presented last.
    pub frame: TerminalFrameBuffer,
}

/// What one cycle did.
pub struct CycleReport {
    /// The events of the cycle, in arrival order, for the handlers that come
    /// after the widgets.
    pub events: Vec<TerminalInputEvent>,
    /// How many events were handed to the focused widget.
    pub delivered: usize,
    /// Whether the surface was allocated anew, so that the camera has to be
    /// pointed at it again.
    pub reallocated: bool,
    /// Whether a new frame was composed. Where none was, the frame of the
    /// cycle before stands.
    pub presented: bool,
}

/// The cell that an empty position of a frame holds: a blank in the style
/// of the display.
pub open spec fn blank_cell(style: Style) -> Cell {
    Cell { glyph: ' ', style }
}

/// The image that arrived from the rendering side, if it fits the surface.
pub open spec fn accepted(surface: SurfaceModel, rendered: Option<Vec<u8>>) -> Option<PixelGrid> {
    match rendered {
        Some(data) => if data@.len() == surface.pixels.width * surface.pixels.height {
            Some(PixelGrid { data: data@, ..surface.pixels })
        } else {
            None
        },
        None => None,
    }
}

/// What the widgets did before the frame of a cycle was composed. Where a
/// registered, enabled widget held focus, `states` and `handled` record how
/// it handled `events` one by one, beginning as `before` holds it; otherwise
/// no widget handled anything. `heard` are the widgets after that. `updated`
/// are the widgets as one update each at `time` turned them from what `heard`
/// holds, and `asked` is what each of them queued while it was updated.
pub open spec fn dispatched<W: TerminalWidget>(
    focus: Option<WidgetId>,
    before: Seq<Registered<W>>,
    events: Seq<TerminalInputEvent>,
    time: Time,
    states: Seq<W>,
    handled: Seq<Seq<WidgetCommand>>,
    heard: Seq<Registered<W>>,
    updated: Seq<Registered<W>>,
    asked: Seq<Seq<WidgetCommand>>,
) -> bool {
    &&& match delivery_target(focus, before) {
        Some(index) => {
            &&& same_except(before, heard, index)
            &&& handled_in_order(before[index].widget.widget, events, states, handled)
            &&& heard[index].widget.widget == last_state(before[index].widget.widget, states)
        },
        None => heard == before && handled.len() == 0,
    }
    &&& updated_all(heard, updated, time, asked)
}

/// From capture to delivery the order of events is kept. Where a registered,
/// enabled widget holds focus, it is handed what waited in the queue followed
/// by what this cycle's poll delivered; and leaving resizes aside, what the
/// poll delivered is what was captured, normalized, in the order of capture.
pub proof fn lemma_capture_order_is_delivery_order<W>(
    focus: Option<WidgetId>,
    entries: Seq<Registered<W>>,
    waiting: Seq<TerminalInputEvent>,
    captured: Seq<RawEvent>,
)
    requires
        delivery_target(focus, entries) is Some,
    ensures
        deliveries(focus, entries, waiting + polled(captured)) == waiting + polled(captured),
        without_resizes(polled(captured)) == without_resizes(normalized(captured)),
{
    lemma_latest_resize_only_keeps_others(normalized(captured));
}

impl<W: TerminalWidget> DisplayLoop<W> {
    /// Creates a display with the given settings for a terminal of the given
    /// size. Fails as `RenderSurface::initialize` does. The new display has
    /// no widget, no focus, no pending event, a clock at zero and a blank
    /// frame as large as the terminal.
    pub fn create_display(
        dither_level: u32,
        style: Style,
        terminal_size: Option<(u16, u16)>,
        handle: SurfaceHandle,
        camera_present: bool,
    ) -> (created: Result<DisplayLoop<W>, DisplayError>)
        ensures
            match created {
                Ok(state) => {
                    &&& initialized(terminal_size, handle, camera_present) == Ok::<
                        SurfaceModel,
                        DisplayError,
                    >(state.surface@)
                    &&& state.surface@.well_formed()
                    &&& state.display == (TerminalDisplay { dither_level, style })
                    &&& state.queue@.len() == 0
                    &&& state.commands@.len() == 0
                    &&& state.focused.0 is None
                    &&& state.widgets@.len() == 0
                    &&& state.time == (Time { delta_nanos: 0, elapsed_nanos: 0 })
                    &&& state.frame@ == CellGrid::filled(
                        state.surface@.cols as nat,
                        state.surface@.rows as nat,
                        blank_cell(style),
                    )
                },
                Err(error) => initialized(terminal_size, handle, camera_present) == Err::<
                    SurfaceModel,
                    DisplayError,
                >(error),
            },
    {
        match RenderSurface::initialize(terminal_size, handle, camera_present) {
            Err(error) => Err(error),
            Ok(surface) => {
                let frame = TerminalFrameBuffer::new(
                    surface.cols(),
                    surface.rows(),
                    Cell { glyph: ' ', style },
                );
                Ok(
                    DisplayLoop {
                        display: TerminalDisplay::new(dither_level, style),
                        surface,
                        queue: EventQueue::new(),
                        focused: FocusedWidget(None),
                        widgets: Widgets::new(),
                        commands: Commands::new(),
                        time: Time::new(),
                        frame,
                    },
                )
            },
        }
    }

    /// Registers a widget that is composited over `region`. See
    /// `Widgets::register`.
    pub fn register_widget(&mut self, widget: W, initially_enabled: bool, region: Region) -> (id:
        Option<WidgetId>)
        ensures
            id is Some <==> old(self).widgets.fresh_id() < u64::MAX,
            match id {
                Some(id) => {
                    &&& id.0 == old(self).widgets.fresh_id()
                    &&& position(old(self).widgets@, id) is None
                    &&& final(self).widgets@ == old(self).widgets@.push(
                        Registered {
                            id,
                            widget: Widget { widget, enabled: initially_enabled, region },
                        },
                    )
                    &&& final(self).widgets.issued() > id.0
                },
                None => {
                    &&& final(self).widgets@ == old(self).widgets@
                    &&& final(self).widgets.issued() == old(self).widgets.issued()
                },
            },
            distinct_ids(old(self).widgets@),
            distinct_ids(final(self).widgets@),
            final(self).display == old(self).display,
            final(self).surface == old(self).surface,
            final(self).queue == old(self).queue,
            final(self).focused == old(self).focused,
            final(self).commands == old(self).commands,
            final(self).time == old(self).time,
            final(self).frame == old(self).frame,
    {
        self.widgets.register(widget, initially_enabled, region)
    }

    /// Asks for `widget` to be given focus. Focus changes when the commands
    /// are applied in the next cycle, not before.
    pub fn focus_widget(&mut self, widget: WidgetId)
        ensures
            final(self).commands@ == old(self).commands@.push(WidgetCommand::Focus(widget)),
            final(self).focused == old(self).focused,
            final(self).display == old(self).display,
            final(self).surface == old(self).surface,
            final(self).queue == old(self).queue,
            final(self).widgets == old(self).widgets,
            final(self).time == old(self).time,
            final(self).frame == old(self).frame,
    {
        self.commands.focus_widget(widget);
    }

    /// Asks for focus to be taken from whichever widget holds it. Focus
    /// changes when the commands are applied in the next cycle, not before.
    pub fn unfocus_all(&mut self)
        ensures
            final(self).commands@ == old(self).commands@.push(WidgetCommand::UnfocusAll),
            final(self).focused == old(self).focused,
            final(self).display == old(self).display,
            final(self).surface == old(self).surface,
            final(self).queue == old(self).queue,
            final(self).widgets == old(self).widgets,
            final(self).time == old(self).time,
            final(self).frame == old(self).frame,
    {
        self.commands.unfocus_all();
    }

    /// Runs one cycle. `pending` holds the raw events that the terminal had
    /// ready, `delta_nanos` the time since the cycle before, `rendered` the
    /// image that the rendering side produced for the surface, or `None`
    /// where it could not be read.
    ///
    /// In order: the pending events are translated and published; the queue
    /// is drained; the surface follows the resizes among the events; the
    /// events go to the focused widget; the clock advances; every widget is
    /// updated; the focus changes that were asked for are applied; and, where
    /// the image fits the surface, it is converted to cells and the widgets
    /// are composited over it. Where no image arrived, or one of the wrong
    /// size, no frame is composed and the frame of the cycle before stands.
    pub fn tick(&mut self, pending: &Vec<RawEvent>, delta_nanos: u64, rendered: Option<Vec<u8>>)
        -> (report: CycleReport)
        ensures
            report.events@ == old(self).queue@ + polled(pending@),
            final(self).queue@.len() == 0,
            final(self).display == old(self).display,
            final(self).time == old(self).time.advanced(delta_nanos),
            report.reallocated == reallocated_by(old(self).surface@, report.events@),
            report.delivered == deliveries(
                old(self).focused.0,
                old(self).widgets@,
                report.events@,
            ).len(),
            same_layout(old(self).widgets@, final(self).widgets@),
            final(self).widgets.issued() == old(self).widgets.issued(),
            distinct_ids(final(self).widgets@),
            final(self).commands@.len() == 0,
            exists|
                states: Seq<W>,
                handled: Seq<Seq<WidgetCommand>>,
                heard: Seq<Registered<W>>,
                updated: Seq<Registered<W>>,
                asked: Seq<Seq<WidgetCommand>>,
            |
                {
                    &&& #[trigger] dispatched(
                        old(self).focused.0,
                        old(self).widgets@,
                        report.events@,
                        final(self).time,
                        states,
                        handled,
                        heard,
                        updated,
                        asked,
                    )
                    &&& final(self).focused.0 == focus_after(
                        old(self).focused.0,
                        old(self).commands@ + joined(handled) + joined(asked),
                    )
                    &&& match accepted(
                        resized_by(old(self).surface@, report.events@),
                        rendered,
                    ) {
                        Some(image) => exists|patches: Seq<CellGrid>|
                            {
                                &&& patches.len() == old(self).widgets@.len()
                                &&& final(self).frame@ == #[trigger] overlaid(
                                    presented(
                                        image,
                                        CELL_WIDTH,
                                        CELL_HEIGHT,
                                        old(self).display.style,
                                    ),
                                    regions_of(old(self).widgets@),
                                    patches,
                                    blank_cell(old(self).display.style),
                                )
                                &&& rendered_all(
                                    updated,
                                    final(self).widgets@,
                                    presented(
                                        image,
                                        CELL_WIDTH,
                                        CELL_HEIGHT,
                                        old(self).display.style,
                                    ),
                                    blank_cell(old(self).display.style),
                                    patches,
                                )
                            },
                        None => final(self).widgets@ == updated,
                    }
                },
            final(self).surface@.well_formed(),
            final(self).surface@.handle == old(self).surface@.handle,
            match accepted(resized_by(old(self).surface@, report.events@), rendered) {
                Some(image) => {
                    &&& report.presented
                    &&& final(self).surface@ == (SurfaceModel {
                        pixels: image,
                        ..resized_by(old(self).surface@, report.events@)
                    })
                },
                None => {
                    &&& !report.presented
                    &&& final(self).surface@ == resized_by(old(self).surface@, report.events@)
                    &&& final(self).frame@ == old(self).frame@
                },
            },
    {
        input_handling(&mut self.queue, pending);
        let events = self.queue.drain();
        let reallocated = resize_handling(&mut self.surface, &events);
        let delivered = widget_input_handling(
            &mut self.widgets,
            &events,
            &mut self.commands,
            &self.focused,
        );
        let ghost heard = self.widgets@;
        let ghost waiting = self.commands@;
        let ghost states: Seq<W>;
        let ghost handled: Seq<Seq<WidgetCommand>>;
        proof {
            let target = delivery_target(old(self).focused.0, old(self).widgets@);
            if target is Some {
                let index = target->0;
                let first = old(self).widgets@[index].widget.widget;
                let (found_states, found_queues) = choose|
                    states: Seq<W>,
                    queues: Seq<Seq<WidgetCommand>>,
                |
                    #[trigger] handled_in_order(
                        first,
                        deliveries(old(self).focused.0, old(self).widgets@, events@),
                        states,
                        queues,
                    ) && heard[index].widget.widget == last_state(first, states) && waiting
                        == old(self).commands@ + joined(queues);
                states = found_states;
                handled = found_queues;
            } else {
                states = Seq::empty();
                handled = Seq::empty();
                assert(waiting =~= old(self).commands@ + joined(handled));
            }
        }
        self.time.advance(delta_nanos);
        let time = self.time;
        update_widgets(&mut self.widgets, &time, &mut self.commands);
        let ghost updated = self.widgets@;
        let ghost applied = self.commands@;
        let ghost asked = choose|queues: Seq<Seq<WidgetCommand>>|
            #[trigger] updated_all(heard, updated, time, queues) && applied == waiting + joined(
                queues,
            );
        self.commands.apply(&mut self.focused);
        proof {
            lemma_same_layout_transitive(old(self).widgets@, heard, updated);
            assert(dispatched(
                old(self).focused.0,
                old(self).widgets@,
                events@,
                time,
                states,
                handled,
                heard,
                updated,
                asked,
            ));
        }
        let presented = match rendered {
            Some(data) => self.surface.load(data),
            None => false,
        };
        if presented {
            let mut frame = present_surface(&self.display, &self.surface);
            let ghost scene = frame@;
            let blank = Cell { glyph: ' ', style: self.display.style };
            render_widgets(&mut self.widgets, &mut frame, blank);
            proof {
                lemma_same_layout_transitive(old(self).widgets@, updated, self.widgets@);
                lemma_same_layout_same_regions(old(self).widgets@, updated);
                let patches = choose|patches: Seq<CellGrid>|
                    patches.len() == updated.len() && frame@ == #[trigger] overlaid(
                        scene,
                        regions_of(updated),
                        patches,
                        blank,
                    ) && rendered_all(updated, self.widgets@, scene, blank, patches);
                assert(frame@ == overlaid(
                    scene,
                    regions_of(old(self).widgets@),
                    patches,
                    blank_cell(old(self).display.style),
                ));
            }
            self.frame = frame;
        }
        proof {
            assert(dispatched(
                old(self).focused.0,
                old(self).widgets@,
                events@,
                self.time,
                states,
                handled,
                heard,
                updated,
                asked,
            ));
            assert(self.focused.0 == focus_after(
                old(self).focused.0,
                old(self).commands@ + joined(handled) + joined(asked),
            ));
            assert(!presented ==> self.widgets@ == updated);
        }
        self.widgets.check_distinct();
        CycleReport { events, delivered, reallocated, presented }
    }
}

} // verus!
