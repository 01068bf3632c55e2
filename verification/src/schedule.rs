//! When the window draws next.
//!
//! A frame that moves something is drawn again at once, but no sooner than a
//! floor after the last; one that does not waits for its deadline. A hidden
//! window never presents, so nothing paces it but the clock: it only ticks
//! over. Moments are nanoseconds since the program started.

use crate::units::TIME_LIMIT;
use vstd::prelude::*;

verus! {

/// Frames are at least this far apart.
pub const MIN_FRAME: u64 = 4_000_000;

/// A window with nothing to draw looks up this often.
pub const IDLE: u64 = 100_000_000;

/// What the loop does next.
#[derive(Debug, Clone, Copy, PartialEq, Eq, Structural)]
pub enum NextFrame {
    /// Draw now, and keep turning where `poll` is set.
    Now { poll: bool },
    /// Sleep until then.
    At(u64),
}

/// When the next frame is due.
pub open spec fn due(animating: bool, occluded: bool, redraw_at: Option<u64>, last_frame: u64) -> int {
    let idle = last_frame + IDLE;
    if occluded {
        idle
    } else if animating {
        last_frame + MIN_FRAME
    } else {
        match redraw_at {
            Some(at) => if at < idle { at as int } else { idle },
            None => idle,
        }
    }
}

/// Decides what comes next, at the moment `now`.
pub fn next_frame(
    animating: bool,
    occluded: bool,
    redraw_at: Option<u64>,
    last_frame: u64,
    now: u64,
) -> (r: NextFrame)
    requires
        last_frame <= TIME_LIMIT,
    ensures
        r == ({
            let at = due(animating, occluded, redraw_at, last_frame);
            if now >= at {
                NextFrame::Now { poll: animating && !occluded }
            } else {
                NextFrame::At(at as u64)
            }
        }),
{
    let idle: u64 = last_frame + IDLE;
    let at: u64 = if occluded {
        idle
    } else if animating {
        last_frame + MIN_FRAME
    } else {
        match redraw_at {
            Some(at) => if at < idle {
                at
            } else {
                idle
            },
            None => idle,
        }
    };
    if now >= at {
        NextFrame::Now { poll: animating && !occluded }
    } else {
        NextFrame::At(at)
    }
}

/// A hidden window never spins: whatever it has to show, it is drawn no
/// sooner than an idle tick after the last frame, and the loop sleeps.
pub proof fn a_hidden_window_never_spins(
    animating: bool,
    redraw_at: Option<u64>,
    last_frame: u64,
    now: u64,
)
    requires
        now < last_frame + IDLE,
    ensures
        due(animating, true, redraw_at, last_frame) > now,
{
}

/// An idle window is never left alone for longer than a tick, nor past a
/// deadline it has.
pub proof fn an_idle_window_keeps_its_deadline(
    occluded: bool,
    redraw_at: Option<u64>,
    last_frame: u64,
)
    ensures
        due(false, occluded, redraw_at, last_frame) <= last_frame + IDLE,
        !occluded && redraw_at is Some ==> due(false, occluded, redraw_at, last_frame)
            <= redraw_at->0,
{
}

/// Frames that move something keep their distance.
pub proof fn frames_keep_their_distance(redraw_at: Option<u64>, last_frame: u64)
    ensures
        due(true, false, redraw_at, last_frame) == last_frame + MIN_FRAME,
{
}

} // verus!
