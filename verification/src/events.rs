//! The run loop's decision kernel: what one window event means for the
//! frame. The surrounding loop performs the waiting, waking, laying out
//! and drawing; this module only decides, so the decisions are verified.

use vstd::prelude::*;

use crate::geometry::Size;

verus! {

/// One event as the windowing collaborator reports it.
#[derive(Clone, Copy, Debug)]
pub enum WindowEvent {
    /// The event loop was woken explicitly: the current batch of events is
    /// complete and the pending work should run.
    Awakened,
    /// The window was closed.
    Closed,
    /// The window asks to be repainted.
    Refresh,
    /// The window was resized to the given width and height.
    Resized(i64, i64),
    /// Anything else; ignored.
    Other,
}

/// What the loop is to do in response to one event.
#[derive(Clone, Copy, Debug, PartialEq, Eq, Structural)]
pub struct EventOutcome {
    /// Stop reading the current batch of events and run the pending work.
    pub end_batch: bool,
    /// Leave the run loop for good.
    pub exit: bool,
    /// A fresh layout pass is needed before the next frame.
    pub layout: bool,
    /// A fresh render pass is needed.
    pub render: bool,
    /// The new available size, on a resize.
    pub resize: Option<Size>,
    /// Wake the event loop so the pending work runs promptly.
    pub wake: bool,
}

/// Decides what one event means for the frame: closing exits; a refresh
/// requests a render; a resize records the new size and requests layout
/// and render; an awakening ends the batch; anything else does nothing.
pub fn handle_event(event: &WindowEvent) -> (r: EventOutcome)
    ensures
        r.end_batch == (*event is Awakened),
        r.exit == (*event is Closed),
        r.layout == (*event is Resized),
        r.render == (*event is Refresh || *event is Resized),
        r.wake == (*event is Refresh || *event is Resized),
        (match *event {
            WindowEvent::Resized(w, h) => r.resize == Some(Size { w, h }),
            _ => r.resize is None,
        }),
{
    match *event {
        WindowEvent::Awakened => EventOutcome {
            end_batch: true,
            exit: false,
            layout: false,
            render: false,
            resize: None,
            wake: false,
        },
        WindowEvent::Closed => EventOutcome {
            end_batch: false,
            exit: true,
            layout: false,
            render: false,
            resize: None,
            wake: false,
        },
        WindowEvent::Refresh => EventOutcome {
            end_batch: false,
            exit: false,
            layout: false,
            render: true,
            resize: None,
            wake: true,
        },
        WindowEvent::Resized(w, h) => EventOutcome {
            end_batch: false,
            exit: false,
            layout: true,
            render: true,
            resize: Some(Size::new(w, h)),
            wake: true,
        },
        WindowEvent::Other => EventOutcome {
            end_batch: false,
            exit: false,
            layout: false,
            render: false,
            resize: None,
            wake: false,
        },
    }
}

} // verus!
