//! What the window loop remembers between events: whether it is awake, when
//! it drew last, and the files a gesture has brought so far.
//!
//! Files arrive one event at a time with no mark at the end, so they collect
//! here and are taken as one gesture when the loop is about to wait: two
//! clips dropped together land as a pair. Files opened through the system
//! take the same way, but always add to the set.

use crate::runner::texts;
use crate::schedule::{due, next_frame, NextFrame};
use crate::units::{PX, TIME_LIMIT};
use vstd::prelude::*;

verus! {

/// A frame never advances the clock by more than this.
pub const LONGEST_STEP: u32 = 50_000_000;

/// How far a wheel scrolls by line.
pub const LINE_SCROLL: i64 = 40 * PX;

/// The files one gesture brought.
pub struct Gesture {
    pub paths: Vec<String>,
    /// They take the place of the set rather than joining it.
    pub replace: bool,
}

/// A gesture's content.
pub struct GestureState {
    pub paths: Seq<Seq<char>>,
    pub replace: bool,
}

impl View for Gesture {
    type V = GestureState;

    open spec fn view(&self) -> GestureState {
        GestureState { paths: texts(self.paths@), replace: self.replace }
    }
}

pub struct Pace {
    pub animating: bool,
    pub occluded: bool,
    pub redraw_at: Option<u64>,
    pub last_frame: u64,
    pub dropped: Vec<String>,
}

/// The loop's memory.
#[verifier::ext_equal]
pub struct PaceState {
    pub animating: bool,
    pub occluded: bool,
    pub redraw_at: Option<u64>,
    pub last_frame: u64,
    pub dropped: Seq<Seq<char>>,
}

impl View for Pace {
    type V = PaceState;

    open spec fn view(&self) -> PaceState {
        PaceState {
            animating: self.animating,
            occluded: self.occluded,
            redraw_at: self.redraw_at,
            last_frame: self.last_frame,
            dropped: texts(self.dropped@),
        }
    }
}

impl PaceState {
    /// At the start.
    pub open spec fn started(now: u64) -> PaceState {
        PaceState {
            animating: true,
            occluded: false,
            redraw_at: None,
            last_frame: now,
            dropped: Seq::empty(),
        }
    }

    /// What the loop wakes to: an interaction keeps it awake for a frame,
    /// and that frame decides whether it stays so.
    pub open spec fn roused(self) -> PaceState {
        PaceState { animating: true, ..self }
    }

    /// The gestures that are complete when the loop is about to wait: what
    /// was dropped, with the replacing key held or not, and what the system
    /// opened.
    pub open spec fn gestures(self, held: bool, opened: Seq<Seq<char>>) -> Seq<GestureState> {
        let dropped = if self.dropped.len() > 0 {
            seq![GestureState { paths: self.dropped, replace: held }]
        } else {
            Seq::empty()
        };
        if opened.len() > 0 {
            dropped.push(GestureState { paths: opened, replace: false })
        } else {
            dropped
        }
    }

    /// After the gestures were taken.
    pub open spec fn emptied(self, opened: Seq<Seq<char>>) -> PaceState {
        PaceState {
            animating: self.animating || self.dropped.len() > 0 || opened.len() > 0,
            dropped: Seq::empty(),
            ..self
        }
    }

    /// How long the frame that begins now has taken, capped.
    pub open spec fn step(self, now: u64) -> int {
        if now <= self.last_frame {
            0
        } else if now - self.last_frame > LONGEST_STEP {
            LONGEST_STEP as int
        } else {
            now - self.last_frame
        }
    }
}

impl Pace {
    pub fn new(now: u64) -> (s: Pace)
        ensures
            s@ == PaceState::started(now),
    {
        let s = Pace {
            animating: true,
            occluded: false,
            redraw_at: None,
            last_frame: now,
            dropped: Vec::new(),
        };
        assert(s@ =~= PaceState::started(now));
        s
    }

    /// A key, the pointer, a resize or a drag wakes the loop.
    pub fn rouse(&mut self)
        ensures
            final(self)@ == old(self)@.roused(),
    {
        self.animating = true;
    }

    /// One file of a drop.
    pub fn file_dropped(&mut self, path: String)
        ensures
            final(self)@ == (PaceState {
                animating: true,
                dropped: old(self)@.dropped.push(path@),
                ..old(self)@
            }),
    {
        self.dropped.push(path);
        self.animating = true;
        assert(texts(self.dropped@) =~= old(self)@.dropped.push(path@));
    }

    /// The window is hidden, or seen again, which wakes it.
    pub fn occlude(&mut self, occluded: bool)
        ensures
            final(self)@ == (PaceState {
                occluded,
                animating: old(self)@.animating || !occluded,
                ..old(self)@
            }),
    {
        self.occluded = occluded;
        if !occluded {
            self.animating = true;
        }
    }

    /// Whether news from a decoder calls for a redraw: one frame services
    /// it, and a hidden window has its idle tick.
    pub fn wakes(&self) -> (r: bool)
        ensures
            r == !self@.occluded,
    {
        !self.occluded
    }

    /// A frame begins: how far the clock moves.
    pub fn begin_frame(&mut self, now: u64) -> (dt: u32)
        ensures
            dt == old(self)@.step(now),
            final(self)@ == (PaceState { last_frame: now, ..old(self)@ }),
    {
        let dt: u32 = if now <= self.last_frame {
            0
        } else if now - self.last_frame > LONGEST_STEP as u64 {
            LONGEST_STEP
        } else {
            (now - self.last_frame) as u32
        };
        self.last_frame = now;
        dt
    }

    /// A frame is done: whether anything moves, and how long the loop may
    /// idle.
    pub fn end_frame(&mut self, animating: bool, redraw_after: Option<i64>)
        requires
            old(self)@.last_frame <= TIME_LIMIT,
            redraw_after matches Some(d) ==> 0 <= d <= TIME_LIMIT,
        ensures
            final(self)@ == (PaceState {
                animating,
                redraw_at: match redraw_after {
                    Some(d) => Some((old(self)@.last_frame + d) as u64),
                    None => None,
                },
                ..old(self)@
            }),
    {
        self.animating = animating;
        self.redraw_at = match redraw_after {
            Some(d) => Some(self.last_frame + d as u64),
            None => None,
        };
    }

    /// Takes the gestures that are complete, each whole; `opened` is what
    /// the system has asked to open meanwhile.
    pub fn take_gestures(&mut self, held: bool, opened: Vec<String>) -> (r: Vec<Gesture>)
        ensures
            r@.len() == old(self)@.gestures(held, texts(opened@)).len(),
            forall|i: int|
                0 <= i < r@.len() ==> (#[trigger] r@[i])@ == old(self)@.gestures(
                    held,
                    texts(opened@),
                )[i],
            final(self)@ == old(self)@.emptied(texts(opened@)),
    {
        let ghost before = self@;
        let mut dropped: Vec<String> = Vec::new();
        std::mem::swap(&mut dropped, &mut self.dropped);
        let mut out: Vec<Gesture> = Vec::new();
        if dropped.len() > 0 {
            out.push(Gesture { paths: dropped, replace: held });
            self.animating = true;
        }
        if opened.len() > 0 {
            out.push(Gesture { paths: opened, replace: false });
            self.animating = true;
        }
        assert(texts(self.dropped@) =~= Seq::empty());
        assert(self@ =~= before.emptied(texts(opened@)));
        out
    }

    /// What the loop does next.
    pub fn next(&self, now: u64) -> (r: NextFrame)
        requires
            self@.last_frame <= TIME_LIMIT,
        ensures
            r == ({
                let s = self@;
                let at = due(s.animating, s.occluded, s.redraw_at, s.last_frame);
                if now >= at {
                    NextFrame::Now { poll: s.animating && !s.occluded }
                } else {
                    NextFrame::At(at as u64)
                }
            }),
    {
        next_frame(self.animating, self.occluded, self.redraw_at, self.last_frame, now)
    }
}

/// What the system opens never replaces the set, whatever keys are held.
pub proof fn an_open_always_adds(s: PaceState, held: bool, opened: Seq<Seq<char>>)
    requires
        opened.len() > 0,
    ensures
        s.gestures(held, opened).last() == (GestureState { paths: opened, replace: false }),
{
}

/// Files dropped together are one gesture, in the order they came, and are
/// taken once.
pub proof fn a_drop_is_one_gesture(s: PaceState, held: bool)
    requires
        s.dropped.len() > 0,
    ensures
        s.gestures(held, Seq::empty()) == seq![GestureState { paths: s.dropped, replace: held }],
        s.emptied(Seq::empty()).gestures(held, Seq::empty()).len() == 0,
{
}

} // verus!
