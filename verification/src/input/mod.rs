/// Raw and normalized terminal events.
pub mod events;

/// The queue that carries events from capture to dispatch.
pub mod resources;

/// Translation of the events polled in one cycle.
pub mod systems;
