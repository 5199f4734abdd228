use vstd::prelude::*;

verus! {

/// What the event loop does once it has seen an event.
#[derive(Clone, Copy, Debug, PartialEq, Eq, Structural)]
pub enum FrameStep {
    /// More events are pending: wait for them before updating.
    Wait,
    /// Update the application and draw a frame.
    Update,
    /// Stop the application and leave the loop.
    Exit,
}

pub open spec fn frame_step_spec(processed_all_events: bool, quit: bool) -> FrameStep {
    if !processed_all_events {
        FrameStep::Wait
    } else if quit {
        FrameStep::Exit
    } else {
        FrameStep::Update
    }
}

/// Decides the loop's next step once the input helper has seen an event.
pub fn frame_step(processed_all_events: bool, quit: bool) -> (r: FrameStep)
    ensures
        r == frame_step_spec(processed_all_events, quit),
{
    if !processed_all_events {
        FrameStep::Wait
    } else if quit {
        FrameStep::Exit
    } else {
        FrameStep::Update
    }
}

/// The size in pixels that the drawing surface is configured with.
#[derive(Clone, Copy, Debug, PartialEq, Eq, Structural)]
pub struct SurfaceSize {
    pub width: u32,
    pub height: u32,
}

impl SurfaceSize {
    /// Takes a new size; a size with a zero side (a minimised window) is ignored.
    /// Returns whether the surface must be configured again.
    pub fn resize(&mut self, width: u32, height: u32) -> (applied: bool)
        ensures
            applied == (width > 0 && height > 0),
            applied ==> *final(self) == (SurfaceSize { width, height }),
            !applied ==> *final(self) == *old(self),
    {
        if width > 0 && height > 0 {
            self.width = width;
            self.height = height;
            true
        } else {
            false
        }
    }
}

} // verus!
