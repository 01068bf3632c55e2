//! One stream's frame queue: the bounded read-ahead between a decoder and
//! the master clock.
//!
//! The decoder queues `(pts, rgba)` frames; the application owns the clock
//! and pops everything due each frame, newest wins. That makes A/B sync exact
//! by construction (there are no per-stream anchors to drift apart) and
//! pause and framestep trivial: stop advancing the clock, and the full queue
//! stalls the decoder.

use crate::units::{least, max, most, time_ok, TIME_LIMIT};
use std::collections::VecDeque;
use vstd::prelude::*;

verus! {

/// Read-ahead depth: enough to ride out a slow frame, small enough that a
/// paused (undrained) player stalls its decoder almost immediately.
pub const QUEUE_DEPTH: usize = 4;

/// Recycled buffers kept per player: queue depth, one being copied and one
/// at the display.
pub const POOL_CAP: usize = 6;

/// A decoded picture and its presentation time in content-relative time.
pub struct Frame {
    pub pts: i64,
    pub buf: Vec<u8>,
}

/// A frame's content.
pub struct FrameState {
    pub pts: i64,
    pub buf: Seq<u8>,
}

impl View for Frame {
    type V = FrameState;

    open spec fn view(&self) -> FrameState {
        FrameState { pts: self.pts, buf: self.buf@ }
    }
}

pub struct Player {
    pub id: u64,
    pub w: u32,
    pub h: u32,
    /// Decoded frames not yet shown, oldest first.
    pub frames: VecDeque<Frame>,
    /// Raised when the player is dropped: its reader stops.
    pub closed: bool,
    /// Latest seek request (time, exact): newest wins.
    pub cmd: Option<(i64, bool)>,
    /// The pts of the frame most recently taken (on screen), or the seek
    /// target while one is in flight.
    pub position: i64,
    pub failed: bool,
    /// Whether a frame that lands in an empty queue wakes the render loop.
    pub notify: bool,
    /// Recycled frame buffers.
    pub pool: Vec<Vec<u8>>,
}

/// A player's content.
pub struct PlayerState {
    pub id: u64,
    pub w: u32,
    pub h: u32,
    pub frames: Seq<FrameState>,
    pub closed: bool,
    pub cmd: Option<(i64, bool)>,
    pub position: i64,
    pub failed: bool,
    pub notify: bool,
    pub pool: Seq<Seq<u8>>,
}

/// What a decoder may do with its next frame.
#[derive(Debug, Clone, Copy, PartialEq, Eq, Structural)]
pub enum Admit {
    /// The player is gone: unwind.
    Stop,
    /// A seek is waiting and owns what comes next: drop the frame.
    Stale,
    /// The queue is full: wait.
    Full,
    /// There is room.
    Room,
}

/// What became of a frame handed to the queue.
#[derive(Debug, Clone, Copy, PartialEq, Eq, Structural)]
pub enum Pushed {
    Stop,
    Stale,
    /// Queued; `wake` when the render loop may be idling on an empty queue.
    Queued { wake: bool },
}

/// How many frames at the head of the queue are due at `t`.
pub open spec fn due(frames: Seq<FrameState>, t: int) -> nat
    decreases frames.len(),
{
    if frames.len() == 0 || frames[0].pts > t {
        0
    } else {
        1 + due(frames.skip(1), t)
    }
}

/// The buffers of a run of frames.
pub open spec fn buffers(frames: Seq<FrameState>) -> Seq<Seq<u8>> {
    Seq::new(frames.len(), |i: int| frames[i].buf)
}

/// The pool after it was offered `bufs` in turn: full, it takes no more.
pub open spec fn refilled(pool: Seq<Seq<u8>>, bufs: Seq<Seq<u8>>) -> Seq<Seq<u8>> {
    (pool + bufs).take(least((pool + bufs).len() as int, POOL_CAP as int))
}

/// A buffer brought to length `len`, new bytes zero.
pub open spec fn resized(buf: Seq<u8>, len: nat) -> Seq<u8> {
    Seq::new(len, |i: int| if i < buf.len() { buf[i] } else { 0u8 })
}

/// A queue shows its frames in order.
pub open spec fn ascending(frames: Seq<FrameState>) -> bool {
    forall|i: int, j: int| 0 <= i < j < frames.len() ==> frames[i].pts < frames[j].pts
}

impl PlayerState {
    /// The queue and the pool are within their bounds, and every time is in
    /// range.
    pub open spec fn wf(self) -> bool {
        &&& self.frames.len() <= QUEUE_DEPTH
        &&& self.pool.len() <= POOL_CAP
        &&& forall|i: int| 0 <= i < self.frames.len() ==> time_ok(#[trigger] self.frames[i].pts as int)
        &&& self.cmd matches Some(c) ==> 0 <= c.0 <= TIME_LIMIT
        &&& time_ok(self.position as int)
    }

    pub open spec fn spawned(id: u64, w: u32, h: u32) -> PlayerState {
        PlayerState {
            id,
            w: if w < 2 { 2 } else { w },
            h: if h < 2 { 2 } else { h },
            frames: Seq::empty(),
            closed: false,
            cmd: None,
            position: 0,
            failed: false,
            notify: false,
            pool: Seq::empty(),
        }
    }

    /// After a seek: everything queued is stale, the request waits for the
    /// decoder.
    pub open spec fn sought(self, target: int, exact: bool) -> PlayerState {
        let t = most(target, 0) as i64;
        PlayerState {
            cmd: Some((t, exact)),
            frames: Seq::empty(),
            pool: refilled(self.pool, buffers(self.frames)),
            position: t,
            ..self
        }
    }

    /// The frame that taking everything due at `t` yields.
    pub open spec fn newest_due(self, t: int) -> Option<FrameState> {
        let k = due(self.frames, t);
        if k == 0 {
            None
        } else {
            Some(self.frames[k - 1])
        }
    }

    /// After everything due at `t` was taken: the frames the clock ran past
    /// gave their buffers back.
    pub open spec fn drained(self, t: int) -> PlayerState {
        let k = due(self.frames, t);
        if k == 0 {
            self
        } else {
            PlayerState {
                frames: self.frames.skip(k as int),
                pool: refilled(self.pool, buffers(self.frames.take(k - 1))),
                position: self.frames[k - 1].pts,
                ..self
            }
        }
    }

    /// The next queued frame, whatever the clock says.
    pub open spec fn next(self) -> Option<FrameState> {
        if self.frames.len() == 0 {
            None
        } else {
            Some(self.frames[0])
        }
    }

    /// After that frame was taken.
    pub open spec fn advanced(self) -> PlayerState {
        if self.frames.len() == 0 {
            self
        } else {
            PlayerState {
                frames: self.frames.skip(1),
                position: self.frames[0].pts,
                ..self
            }
        }
    }

    pub open spec fn admittance(self) -> Admit {
        if self.closed {
            Admit::Stop
        } else if self.cmd is Some {
            Admit::Stale
        } else if self.frames.len() >= QUEUE_DEPTH {
            Admit::Full
        } else {
            Admit::Room
        }
    }

    pub open spec fn queued(self, frame: FrameState) -> PlayerState {
        if self.closed || self.cmd is Some {
            self
        } else {
            PlayerState { frames: self.frames.push(frame), ..self }
        }
    }

    pub open spec fn outcome_of_push(self) -> Pushed {
        if self.closed {
            Pushed::Stop
        } else if self.cmd is Some {
            Pushed::Stale
        } else {
            Pushed::Queued { wake: self.frames.len() == 0 && self.notify }
        }
    }
}

impl View for Player {
    type V = PlayerState;

    open spec fn view(&self) -> PlayerState {
        PlayerState {
            id: self.id,
            w: self.w,
            h: self.h,
            frames: Seq::new(self.frames@.len(), |i: int| self.frames@[i]@),
            closed: self.closed,
            cmd: self.cmd,
            position: self.position,
            failed: self.failed,
            notify: self.notify,
            pool: Seq::new(self.pool@.len(), |i: int| self.pool@[i]@),
        }
    }
}

/// Every frame counted as due has been reached by the clock, and the one after
/// them has not.
pub proof fn due_frames_are_reached(frames: Seq<FrameState>, t: int)
    ensures
        due(frames, t) <= frames.len(),
        forall|i: int| 0 <= i < due(frames, t) ==> #[trigger] frames[i].pts <= t,
        due(frames, t) < frames.len() ==> frames[due(frames, t) as int].pts > t,
    decreases frames.len(),
{
    if frames.len() > 0 && frames[0].pts <= t {
        let rest = frames.skip(1);
        due_frames_are_reached(rest, t);
        assert forall|i: int| 0 <= i < due(frames, t) implies #[trigger] frames[i].pts <= t by {
            if i > 0 {
                assert(rest[i - 1] == frames[i]);
            }
        }
    }
}

/// The count is pinned by where it stops.
proof fn lemma_due_is(frames: Seq<FrameState>, t: int, k: nat)
    requires
        k <= frames.len(),
        forall|i: int| 0 <= i < k ==> #[trigger] frames[i].pts <= t,
        k < frames.len() ==> frames[k as int].pts > t,
    ensures
        due(frames, t) == k,
{
    due_frames_are_reached(frames, t);
    let d = due(frames, t);
    if d < k {
        assert(frames[d as int].pts <= t);
    }
    if k < d {
        assert(frames[k as int].pts <= t);
    }
}

proof fn lemma_refill_step(pool: Seq<Seq<u8>>, bufs: Seq<Seq<u8>>, buf: Seq<u8>)
    requires
        pool.len() <= POOL_CAP,
    ensures
        refilled(refilled(pool, bufs), seq![buf]) == refilled(pool, bufs.push(buf)),
        refilled(pool, Seq::empty()) == pool,
        refilled(pool, bufs).len() <= POOL_CAP,
{
    assert(refilled(refilled(pool, bufs), seq![buf]) =~= refilled(pool, bufs.push(buf)));
    assert(refilled(pool, Seq::empty()) =~= pool);
}

impl Player {
    /// A player for a stream shown at `w` by `h` (the display dims: rotation
    /// applied), with nothing decoded yet.
    pub fn spawn(id: u64, w: u32, h: u32) -> (r: Player)
        ensures
            r@ == PlayerState::spawned(id, w, h),
            r@.wf(),
    {
        let r = Player {
            id,
            w: if w < 2 {
                2
            } else {
                w
            },
            h: if h < 2 {
                2
            } else {
                h
            },
            frames: VecDeque::new(),
            closed: false,
            cmd: None,
            position: 0,
            failed: false,
            notify: false,
            pool: Vec::new(),
        };
        assert(r@.frames =~= PlayerState::spawned(id, w, h).frames);
        assert(r@.pool =~= PlayerState::spawned(id, w, h).pool);
        r
    }

    /// A buffer of `len` bytes, from the pool where it has one.
    pub fn take_buf(&mut self, len: usize) -> (r: Vec<u8>)
        requires
            old(self)@.wf(),
        ensures
            old(self)@.pool.len() == 0 ==> r@ == resized(Seq::empty(), len as nat) && final(self)@
                == old(self)@,
            old(self)@.pool.len() > 0 ==> r@ == resized(old(self)@.pool.last(), len as nat)
                && final(self)@ == (PlayerState { pool: old(self)@.pool.drop_last(), ..old(self)@ }),
            r@.len() == len,
            final(self)@.wf(),
    {
        let ghost before = self@;
        let mut buf: Vec<u8> = match self.pool.pop() {
            Some(b) => b,
            None => Vec::new(),
        };
        let ghost taken = buf@;
        assert(self@.frames =~= before.frames);
        proof {
            if before.pool.len() == 0 {
                assert(self@.pool =~= before.pool);
            } else {
                assert(self@.pool =~= before.pool.drop_last());
                assert(taken == before.pool.last());
            }
        }
        buf.resize(len, 0);
        assert(buf@ =~= resized(taken, len as nat));
        buf
    }

    /// Hands a presented frame's buffer back for reuse.
    pub fn recycle(&mut self, buf: Vec<u8>)
        requires
            old(self)@.wf(),
        ensures
            final(self)@ == (PlayerState {
                pool: refilled(old(self)@.pool, seq![buf@]),
                ..old(self)@
            }),
            final(self)@.wf(),
    {
        let ghost before = self@;
        let ghost content = buf@;
        if self.pool.len() < POOL_CAP {
            self.pool.push(buf);
        }
        assert(self@.frames =~= before.frames);
        assert(self@.pool =~= refilled(before.pool, seq![content]));
    }

    /// Jump playback. `exact` decodes forward from the preceding keyframe and
    /// discards frames before the target; otherwise the landing keyframe is
    /// delivered. Queued frames are stale the moment this is called: the last
    /// shown frame stays on screen until the new position delivers.
    pub fn seek(&mut self, target: i64, exact: bool)
        requires
            old(self)@.wf(),
            target <= TIME_LIMIT,
        ensures
            final(self)@ == old(self)@.sought(target as int, exact),
            final(self)@.wf(),
    {
        let ghost before = self@;
        let t: i64 = max(target, 0);
        self.cmd = Some((t, exact));
        let ghost mut given: Seq<Seq<u8>> = Seq::empty();
        proof {
            lemma_refill_step(before.pool, given, Seq::empty());
            assert(self@.pool =~= before.pool);
            assert(self@.frames =~= before.frames);
        }
        while self.frames.len() > 0
            invariant
                before.wf(),
                self@.frames == before.frames.skip(before.frames.len() - self.frames@.len()),
                self.frames@.len() <= before.frames.len(),
                given == buffers(before.frames.take(before.frames.len() - self.frames@.len())),
                self@.pool == refilled(before.pool, given),
                self.cmd == Some((t, exact)),
                self.id == before.id,
                self.w == before.w,
                self.h == before.h,
                self.closed == before.closed,
                self.position == before.position,
                self.failed == before.failed,
                self.notify == before.notify,
                self@.wf(),
                0 <= t <= TIME_LIMIT,
            decreases self.frames@.len(),
        {
            let ghost k = before.frames.len() - self.frames@.len();
            let ghost head = self@.frames[0];
            let ghost prev = self@;
            match self.frames.pop_front() {
                Some(f) => {
                    assert(self@.pool =~= prev.pool);
                    assert(self@.frames =~= prev.frames.skip(1));
                    assert(self@.frames =~= before.frames.skip(k + 1));
                    self.recycle(f.buf);
                    proof {
                        lemma_refill_step(before.pool, given, head.buf);
                        given = given.push(head.buf);
                        assert(given =~= buffers(before.frames.take(k + 1)));
                    }
                },
                None => {},
            }
        }
        self.position = t;
        proof {
            assert(before.frames.take(before.frames.len() as int) =~= before.frames);
            assert(self@.frames =~= Seq::empty());
            assert(self@.pool =~= refilled(before.pool, buffers(before.frames)));
        }
    }

    /// Pop every queued frame with `pts <= t`, returning the newest: frames
    /// the clock ran past are dropped, so a slow decoder degrades to a lower
    /// frame rate, never to lag.
    pub fn take_upto(&mut self, t: i64) -> (r: Option<Frame>)
        requires
            old(self)@.wf(),
        ensures
            final(self)@ == old(self)@.drained(t as int),
            match r {
                Some(f) => old(self)@.newest_due(t as int) == Some(f@) && time_ok(f.pts as int),
                None => old(self)@.newest_due(t as int) is None,
            },
            final(self)@.wf(),
    {
        let ghost before = self@;
        let mut out: Option<Frame> = None;
        let ghost mut k: int = 0;
        proof {
            lemma_refill_step(before.pool, Seq::empty(), Seq::empty());
            assert(self@.frames =~= before.frames.skip(0));
        }
        while self.frames.len() > 0 && self.frames[0].pts <= t
            invariant
                before.wf(),
                self@.wf(),
                0 <= k <= before.frames.len(),
                self@.frames == before.frames.skip(k),
                self.frames@.len() == before.frames.len() - k,
                forall|i: int| 0 <= i < k ==> #[trigger] before.frames[i].pts <= t,
                k == 0 ==> out is None && self@ == before,
                k > 0 ==> out is Some && out->0@ == before.frames[k - 1] && self@ == (PlayerState {
                    frames: before.frames.skip(k),
                    pool: refilled(before.pool, buffers(before.frames.take(k - 1))),
                    position: before.frames[k - 1].pts,
                    ..before
                }),
            decreases self.frames@.len(),
        {
            let ghost prev = self@;
            assert(prev.frames[0] == before.frames[k]);
            match self.frames.pop_front() {
                Some(f) => {
                    assert(self@.frames =~= prev.frames.skip(1));
                    assert(self@.frames =~= before.frames.skip(k + 1));
                    assert(self@.pool =~= prev.pool);
                    let ghost queue = self@.frames;
                    assert(f@ == before.frames[k] && f.pts == before.frames[k].pts);
                    assert(time_ok(f.pts as int));
                    self.position = f.pts;
                    assert(self@.frames =~= queue);
                    assert(self@.pool =~= prev.pool);
                    assert forall|i: int| 0 <= i < self@.frames.len() implies time_ok(
                        #[trigger] self@.frames[i].pts as int,
                    ) by {
                        assert(self@.frames[i] == before.frames[k + 1 + i]);
                    }
                    let last = out.take();
                    match last {
                        Some(old_frame) => {
                            let ghost b = old_frame@.buf;
                            self.recycle(old_frame.buf);
                            proof {
                                lemma_refill_step(
                                    before.pool,
                                    buffers(before.frames.take(k - 1)),
                                    b,
                                );
                                assert(buffers(before.frames.take(k - 1)).push(b) =~= buffers(
                                    before.frames.take(k),
                                ));
                            }
                        },
                        None => {
                            proof {
                                assert(k == 0);
                                lemma_refill_step(before.pool, Seq::empty(), Seq::empty());
                                assert(buffers(before.frames.take(0)) =~= Seq::empty());
                            }
                        },
                    }
                    out = Some(f);
                    proof {
                        k = k + 1;
                    }
                },
                None => {},
            }
        }
        proof {
            if k < before.frames.len() {
                assert(self@.frames[0] == before.frames[k]);
            }
            lemma_due_is(before.frames, t as int, k as nat);
        }
        out
    }

    /// Pop the next queued frame regardless of the clock: used right after an
    /// exact seek while paused, when the delivered frame's true pts becomes
    /// the master time.
    pub fn take_next(&mut self) -> (r: Option<Frame>)
        requires
            old(self)@.wf(),
        ensures
            final(self)@ == old(self)@.advanced(),
            match r {
                Some(f) => old(self)@.next() == Some(f@) && time_ok(f.pts as int),
                None => old(self)@.next() is None,
            },
            final(self)@.wf(),
    {
        let ghost before = self@;
        let r = self.frames.pop_front();
        assert(self@.pool =~= before.pool);
        match r {
            Some(f) => {
                self.position = f.pts;
                assert(self@.frames =~= before.frames.skip(1));
                Some(f)
            },
            None => {
                assert(self@.frames =~= before.frames);
                None
            },
        }
    }

    /// Time into the clip: the pts of the frame currently on screen, or the
    /// seek target while one is in flight.
    pub fn position(&self) -> (r: i64)
        ensures
            r == self@.position,
    {
        self.position
    }

    pub fn failed(&self) -> (r: bool)
        ensures
            r == self@.failed,
    {
        self.failed
    }

    pub fn buffered(&self) -> (r: usize)
        ensures
            r == self@.frames.len(),
    {
        self.frames.len()
    }

    /// From now on a frame landing in an empty queue asks for a wake.
    pub fn set_notify(&mut self)
        ensures
            final(self)@ == (PlayerState { notify: true, ..old(self)@ }),
    {
        let ghost before = self@;
        self.notify = true;
        assert(self@.frames =~= before.frames);
        assert(self@.pool =~= before.pool);
    }

    /// The decoder gave up: no frame will come.
    pub fn fail(&mut self)
        ensures
            final(self)@ == (PlayerState { failed: true, ..old(self)@ }),
    {
        let ghost before = self@;
        self.failed = true;
        assert(self@.frames =~= before.frames);
        assert(self@.pool =~= before.pool);
    }

    /// The player is being dropped: whatever its reader asks next is refused.
    pub fn close(&mut self)
        ensures
            final(self)@ == (PlayerState { closed: true, ..old(self)@ }),
    {
        let ghost before = self@;
        self.closed = true;
        assert(self@.frames =~= before.frames);
        assert(self@.pool =~= before.pool);
    }

    /// The waiting seek request, if any: it is the decoder's now.
    pub fn take_cmd(&mut self) -> (r: Option<(i64, bool)>)
        ensures
            r == old(self)@.cmd,
            final(self)@ == (PlayerState { cmd: None, ..old(self)@ }),
    {
        let ghost before = self@;
        let r = self.cmd.take();
        assert(self@.frames =~= before.frames);
        assert(self@.pool =~= before.pool);
        r
    }

    /// Whether the decoder may copy its next frame out. The wait for room
    /// runs before the copy, so a paused player never retains an extra
    /// frame.
    pub fn admission(&self) -> (r: Admit)
        ensures
            r == self@.admittance(),
    {
        if self.closed {
            Admit::Stop
        } else if self.cmd.is_some() {
            Admit::Stale
        } else if self.frames.len() >= QUEUE_DEPTH {
            Admit::Full
        } else {
            Admit::Room
        }
    }

    /// Queues a copied frame, unless the player closed or a seek landed
    /// during the copy.
    pub fn push(&mut self, frame: Frame) -> (r: Pushed)
        requires
            old(self)@.wf(),
            old(self)@.frames.len() < QUEUE_DEPTH,
            time_ok(frame.pts as int),
        ensures
            r == old(self)@.outcome_of_push(),
            final(self)@ == old(self)@.queued(frame@),
            final(self)@.wf(),
    {
        let ghost before = self@;
        let ghost content = frame@;
        if self.closed {
            return Pushed::Stop;
        }
        if self.cmd.is_some() {
            return Pushed::Stale;
        }
        let dry = self.frames.len() == 0;
        self.frames.push_back(frame);
        assert(self@.frames =~= before.frames.push(content));
        assert(self@.pool =~= before.pool);
        Pushed::Queued { wake: dry && self.notify }
    }
}

/// Taking everything due leaves nothing due behind, and shows a frame that
/// the clock has reached, the last such in the queue.
pub proof fn the_newest_due_frame_wins(player: PlayerState, t: int)
    requires
        ascending(player.frames),
    ensures
        player.newest_due(t) matches Some(f) ==> f.pts <= t && forall|i: int|
            0 <= i < player.frames.len() && #[trigger] player.frames[i].pts <= t
                ==> player.frames[i].pts <= f.pts,
        player.newest_due(t) is None ==> forall|i: int|
            0 <= i < player.frames.len() ==> #[trigger] player.frames[i].pts > t,
        forall|i: int|
            0 <= i < player.drained(t).frames.len() ==> #[trigger] player.drained(t).frames[i].pts
                > t,
        ascending(player.drained(t).frames),
{
    due_frames_are_reached(player.frames, t);
    let k = due(player.frames, t);
    if k < player.frames.len() {
        assert forall|i: int| k <= i < player.frames.len() implies #[trigger] player.frames[i].pts
            > t by {
            if i > k {
                assert(player.frames[k as int].pts < player.frames[i].pts);
            }
        }
    }
}

/// Draining twice against the same clock is draining once.
pub proof fn draining_is_idempotent(player: PlayerState, t: int)
    ensures
        player.drained(t).drained(t) == player.drained(t),
        player.drained(t).newest_due(t) is None,
{
    due_frames_are_reached(player.frames, t);
    let k = due(player.frames, t);
    let rest = player.drained(t).frames;
    if k < player.frames.len() {
        if k > 0 {
            assert(rest[0] == player.frames[k as int]);
        }
    }
}

/// The queue holds the frames of `stream` from number `at` on.
pub open spec fn follows(player: PlayerState, stream: Seq<i64>, at: int) -> bool {
    &&& 0 <= at
    &&& at + player.frames.len() <= stream.len()
    &&& forall|i: int|
        0 <= i < player.frames.len() ==> (#[trigger] player.frames[i]).pts == stream[at + i]
}

/// The queue reaches past `t`, so it holds whatever is to be shown then.
pub open spec fn reaches(player: PlayerState, t: int) -> bool {
    player.frames.len() > 0 && player.frames.last().pts > t
}

/// Two players of one stream, drained against one clock, stand at the same
/// frame afterwards, however far ahead either had read and whatever either
/// showed before: the next frame of both is the first the clock has not
/// reached.
pub proof fn players_on_one_clock_show_the_same_frame(
    a: PlayerState,
    b: PlayerState,
    stream: Seq<i64>,
    at_a: int,
    at_b: int,
    t: int,
)
    requires
        forall|i: int, j: int| 0 <= i < j < stream.len() ==> stream[i] < stream[j],
        follows(a, stream, at_a),
        follows(b, stream, at_b),
        reaches(a, t),
        reaches(b, t),
        at_a == 0 || stream[at_a - 1] <= t,
        at_b == 0 || stream[at_b - 1] <= t,
    ensures
        at_a + due(a.frames, t) == at_b + due(b.frames, t),
        follows(a.drained(t), stream, at_a + due(a.frames, t)),
        follows(b.drained(t), stream, at_b + due(b.frames, t)),
        a.newest_due(t) is Some && b.newest_due(t) is Some ==> a.newest_due(t)->0.pts
            == b.newest_due(t)->0.pts,
{
    due_frames_are_reached(a.frames, t);
    due_frames_are_reached(b.frames, t);
    let i = at_a + due(a.frames, t);
    let j = at_b + due(b.frames, t);
    assert(due(a.frames, t) < a.frames.len());
    assert(due(b.frames, t) < b.frames.len());
    assert(stream[i] > t && stream[j] > t);
    assert(i == 0 || stream[i - 1] <= t) by {
        if due(a.frames, t) > 0 {
            assert(a.frames[due(a.frames, t) - 1].pts <= t);
        }
    }
    assert(j == 0 || stream[j - 1] <= t) by {
        if due(b.frames, t) > 0 {
            assert(b.frames[due(b.frames, t) - 1].pts <= t);
        }
    }
    if i < j {
        assert(stream[i] <= stream[j - 1]);
    }
    if j < i {
        assert(stream[j] <= stream[i - 1]);
    }
}

/// A closed player admits nothing, so a stalled reader is released: the next
/// question it asks is answered with `Stop`.
pub proof fn a_closed_player_releases_its_reader(player: PlayerState)
    requires
        player.closed,
    ensures
        player.admittance() == Admit::Stop,
        player.outcome_of_push() == Pushed::Stop,
{
}

} // verus!
