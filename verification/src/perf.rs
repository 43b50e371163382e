//! Counters that track what kept the host busy between two log flushes.

use vstd::prelude::*;

verus! {

/// Saturating increment, so that counting can never fail.
pub open spec fn spec_bump(n: u64) -> u64 {
    if n < u64::MAX {
        (n + 1) as u64
    } else {
        n
    }
}

fn bump(n: u64) -> (r: u64)
    ensures
        r == spec_bump(n),
{
    if n < u64::MAX {
        n + 1
    } else {
        n
    }
}

/// Performance tracking counters for one measurement window.
pub struct PerfStats {
    /// Number of frames rendered in this window.
    pub frame_count: u64,
    /// Number of PTY events processed.
    pub pty_events: u64,
    /// Number of IPC requests processed.
    pub ipc_requests: u64,
    /// Frames where scroll animation was active.
    pub scroll_animation_frames: u64,
    /// Frames while minimized.
    pub minimized_frames: u64,
    /// Frames with pointer activity.
    pub pointer_frames: u64,
    /// Frames with keyboard activity.
    pub keyboard_frames: u64,
    /// Frames where the window has focus.
    pub focused_frames: u64,
}

impl PerfStats {
    /// A window with every counter at zero.
    pub fn new() -> (r: PerfStats)
        ensures
            r.frame_count == 0,
            r.pty_events == 0,
            r.ipc_requests == 0,
            r.scroll_animation_frames == 0,
            r.minimized_frames == 0,
            r.pointer_frames == 0,
            r.keyboard_frames == 0,
            r.focused_frames == 0,
    {
        PerfStats {
            frame_count: 0,
            pty_events: 0,
            ipc_requests: 0,
            scroll_animation_frames: 0,
            minimized_frames: 0,
            pointer_frames: 0,
            keyboard_frames: 0,
            focused_frames: 0,
        }
    }

    /// Record a frame spent minimized.
    pub fn on_minimized(&mut self)
        ensures
            *final(self) == (PerfStats { minimized_frames: spec_bump(old(self).minimized_frames), ..*old(self) }),
    {
        self.minimized_frames = bump(self.minimized_frames);
    }

    /// Record a frame spent animating a scroll.
    pub fn on_scroll_anim(&mut self)
        ensures
            *final(self) == (PerfStats {
                scroll_animation_frames: spec_bump(old(self).scroll_animation_frames),
                ..*old(self)
            }),
    {
        self.scroll_animation_frames = bump(self.scroll_animation_frames);
    }

    /// Record one processed PTY event.
    pub fn on_pty_event(&mut self)
        ensures
            *final(self) == (PerfStats { pty_events: spec_bump(old(self).pty_events), ..*old(self) }),
    {
        self.pty_events = bump(self.pty_events);
    }

    /// Record one processed IPC request.
    pub fn on_ipc_request(&mut self)
        ensures
            *final(self) == (PerfStats { ipc_requests: spec_bump(old(self).ipc_requests), ..*old(self) }),
    {
        self.ipc_requests = bump(self.ipc_requests);
    }
}

} // verus!
