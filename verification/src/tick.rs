//! One step of the master clock: every stream is drained against it.

use crate::app::{clips_ok, fits, video_states, App, AppState, Video, VideoState, WRAP_MARGIN};
use crate::items::{sent, Upload, UploadState};
use crate::paths::{file_name, file_name_of};
use crate::player::{Frame, FrameState};
use crate::units::{least, max, min, most, round_div_bounds, scaled, time_ok, ONE, TIME_LIMIT};
use vstd::prelude::*;
use vstd::string::StringExecFns;

verus! {

/// A frame this little ahead of the clock is due.
pub const DUE_SLACK: i64 = 1_000;

/// What became of the save that is running.
pub enum SaveReply {
    /// It runs on.
    Empty,
    /// The file was written.
    Saved(String),
    Failed(String),
    /// Whoever was to write it is gone.
    Disconnected,
}

/// A reply's content.
pub enum ReplyState {
    Empty,
    Saved(Seq<char>),
    Failed(Seq<char>),
    Disconnected,
}

impl View for SaveReply {
    type V = ReplyState;

    open spec fn view(&self) -> ReplyState {
        match *self {
            SaveReply::Empty => ReplyState::Empty,
            SaveReply::Saved(p) => ReplyState::Saved(p@),
            SaveReply::Failed(e) => ReplyState::Failed(e@),
            SaveReply::Disconnected => ReplyState::Disconnected,
        }
    }
}

/// What the status line says of a reply.
pub open spec fn reply_text(reply: ReplyState, before: Seq<char>) -> Seq<char> {
    match reply {
        ReplyState::Empty => before,
        ReplyState::Saved(p) => "Saved "@ + file_name_of(p),
        ReplyState::Failed(e) => "Save failed: "@ + e,
        ReplyState::Disconnected => "Save failed: worker stopped"@,
    }
}

impl VideoState {
    /// The frame this clip shows next: after a seek while paused whatever
    /// comes first, else the newest the clock has reached.
    pub open spec fn got(self, t: int) -> Option<FrameState> {
        if self.pending {
            self.player.next()
        } else {
            self.player.newest_due(t + DUE_SLACK)
        }
    }

    /// After that frame was taken.
    pub open spec fn taken(self, t: int) -> VideoState {
        let got = self.got(t);
        VideoState {
            player: if self.pending {
                self.player.advanced()
            } else {
                self.player.drained(t + DUE_SLACK)
            },
            pending: self.pending && got is None,
            shown_pts: match got {
                Some(f) => f.pts,
                None => self.shown_pts,
            },
            delivered: self.delivered || got is Some,
            ..self
        }
    }
}

/// The clips after each was drained.
pub open spec fn taken_all(videos: Seq<VideoState>, t: int) -> Seq<VideoState> {
    Seq::new(videos.len(), |i: int| videos[i].taken(t))
}

/// What the first `k` clips have to upload.
pub open spec fn uploads_of(videos: Seq<VideoState>, t: int, k: int) -> Seq<UploadState>
    decreases k,
{
    if k <= 0 {
        Seq::empty()
    } else {
        let v = videos[k - 1];
        match v.got(t) {
            Some(f) => uploads_of(videos, t, k - 1).push(
                UploadState { idx: (k - 1) as usize, w: v.player.w, h: v.player.h, buf: f.buf },
            ),
            None => uploads_of(videos, t, k - 1),
        }
    }
}

/// Every clip has shown a frame, or never will.
pub open spec fn all_delivered(videos: Seq<VideoState>) -> bool {
    forall|i: int| 0 <= i < videos.len() ==> #[trigger] videos[i].delivered || videos[i].player.failed
}

impl AppState {
    /// The window has this size.
    #[verifier::opaque]
    pub open spec fn sized(self, vp: (u32, u32)) -> AppState {
        AppState {
            stroke_last: if self.vp == vp { self.stroke_last } else { None },
            vp,
            ..self
        }
    }

    /// The save that was running has this to say.
    #[verifier::opaque]
    pub open spec fn replied(self, reply: ReplyState) -> AppState {
        AppState {
            mask_status: if self.saving {
                reply_text(reply, self.mask_status)
            } else {
                self.mask_status
            },
            saving: self.saving && reply is Empty,
            ..self
        }
    }

    /// Where the clock stands after `dt`.
    pub open spec fn next_t(self, dt: int) -> int {
        if self.playing && self.started {
            least(self.t + scaled(dt, self.speed as int), TIME_LIMIT as int)
        } else {
            self.t as int
        }
    }

    /// Time passed.
    #[verifier::opaque]
    pub open spec fn clocked(self, dt: int) -> AppState {
        AppState {
            since_pointer: least(self.since_pointer + dt, TIME_LIMIT as int) as i64,
            t: self.next_t(dt) as i64,
            ..self
        }
    }

    /// Whether the clock has run into the loop point.
    pub open spec fn at_end(self) -> bool {
        self.playing && self.started && (self.wrap matches Some(w) && self.t >= w - WRAP_MARGIN)
    }

    /// Playback loops.
    #[verifier::opaque]
    pub open spec fn looped(self) -> AppState {
        if self.at_end() { self.sought(0) } else { self }
    }

    /// Every stream is drained. While paused, the clock is glued to the
    /// active stream's delivered frame.
    #[verifier::opaque]
    pub open spec fn drained(self, dt: int) -> AppState {
        let t = self.t as int;
        let got = self.videos[self.active as int].got(t);
        AppState {
            videos: taken_all(self.videos, t),
            t: if !self.playing && got is Some { got->0.pts } else { self.t },
            started: self.started || all_delivered(taken_all(self.videos, t)),
            badge_flash: most(self.badge_flash - dt, 0) as i64,
            ..self
        }
    }

    /// The state that the streams are drained from.
    pub open spec fn before_drain(self, dt: int, vp: (u32, u32), reply: ReplyState) -> AppState {
        self.sized(vp).replied(reply).clocked(dt).looped()
    }

    /// After one frame.
    pub open spec fn ticked(self, dt: int, vp: (u32, u32), reply: ReplyState) -> AppState {
        if self.is_ready() {
            self.before_drain(dt, vp, reply).drained(dt)
        } else {
            self.sized(vp).replied(reply)
        }
    }
}

/// Takes the frame a clip shows next.
fn drain_one(v: &mut Video, t: i64) -> (r: Option<Frame>)
    requires
        old(v)@.wf(),
        time_ok(t as int),
    ensures
        final(v)@ == old(v)@.taken(t as int),
        final(v)@.wf(),
        match r {
            Some(f) => old(v)@.got(t as int) == Some(f@) && time_ok(f.pts as int),
            None => old(v)@.got(t as int) is None,
        },
{
    let got = if v.pending {
        let g = v.player.take_next();
        if g.is_some() {
            v.pending = false;
        }
        g
    } else {
        v.player.take_upto(t + DUE_SLACK)
    };
    match got {
        Some(f) => {
            v.shown_pts = f.pts;
            v.delivered = true;
            Some(f)
        },
        None => None,
    }
}

/// Takes what every clip shows next; also the time of clip `active`'s frame.
fn drain_each(videos: &mut Vec<Video>, t: i64, active: usize) -> (r: (Vec<Upload>, Option<i64>))
    requires
        time_ok(t as int),
        active < old(videos)@.len(),
        forall|i: int| 0 <= i < old(videos)@.len() ==> (#[trigger] video_states(old(videos)@)[i]).wf(),
    ensures
        video_states(final(videos)@) == taken_all(video_states(old(videos)@), t as int),
        forall|i: int| 0 <= i < final(videos)@.len() ==> (#[trigger] video_states(final(videos)@)[i]).wf(),
        sent(r.0@) == uploads_of(
            video_states(old(videos)@),
            t as int,
            old(videos)@.len() as int,
        ),
        match video_states(old(videos)@)[active as int].got(t as int) {
            Some(f) => r.1 == Some(f.pts) && time_ok(f.pts as int),
            None => r.1 is None,
        },
{
    let ghost before = video_states(videos@);
    let mut uploads: Vec<Upload> = Vec::new();
    let mut adopt: Option<i64> = None;
    let mut i: usize = 0;
    assert(sent(uploads@) =~= uploads_of(before, t as int, 0));
    while i < videos.len()
        invariant
            time_ok(t as int),
            active < before.len(),
            i <= videos@.len(),
            videos@.len() == before.len(),
            forall|k: int| 0 <= k < before.len() ==> (#[trigger] before[k]).wf(),
            forall|k: int|
                0 <= k < before.len() ==> #[trigger] video_states(videos@)[k] == if k < i {
                    before[k].taken(t as int)
                } else {
                    before[k]
                },
            forall|k: int| 0 <= k < before.len() ==> (#[trigger] video_states(videos@)[k]).wf(),
            sent(uploads@) == uploads_of(before, t as int, i as int),
            i <= active ==> adopt is None,
            i > active ==> match before[active as int].got(t as int) {
                Some(f) => adopt == Some(f.pts) && time_ok(f.pts as int),
                None => adopt is None,
            },
        decreases videos@.len() - i,
    {
        let ghost prev = videos@;
        let ghost sofar = uploads@;
        assert(video_states(prev)[i as int] == before[i as int]);
        assert(before[i as int].wf());
        let got = drain_one(&mut videos[i], t);
        assert forall|k: int| 0 <= k < before.len() && k != i implies #[trigger] video_states(videos@)[k]
            == video_states(prev)[k] by {}
        assert(video_states(videos@)[i as int] == before[i as int].taken(t as int));
        match got {
            Some(f) => {
                if i == active {
                    adopt = Some(f.pts);
                }
                let up = Upload { idx: i, w: videos[i].player.w, h: videos[i].player.h, buf: f.buf };
                assert(up.w == before[i as int].player.w && up.h == before[i as int].player.h);
                uploads.push(up);
                assert(sent(uploads@) =~= sent(sofar).push(up@));
            },
            None => {},
        }
        i = i + 1;
    }
    assert(video_states(videos@) =~= taken_all(before, t as int));
    (uploads, adopt)
}

/// Whether every clip has shown a frame, or never will.
fn delivered_all(videos: &Vec<Video>) -> (r: bool)
    ensures
        r == all_delivered(video_states(videos@)),
{
    let mut i: usize = 0;
    while i < videos.len()
        invariant
            i <= videos@.len(),
            forall|k: int|
                0 <= k < i ==> #[trigger] video_states(videos@)[k].delivered || video_states(
                    videos@,
                )[k].player.failed,
        decreases videos@.len() - i,
    {
        assert(video_states(videos@)[i as int] == videos@[i as int]@);
        if !videos[i].delivered && !videos[i].player.failed() {
            assert(!video_states(videos@)[i as int].delivered);
            return false;
        }
        i = i + 1;
    }
    true
}

impl App {
    pub(crate) fn set_size(&mut self, vp: (u32, u32))
        requires
            old(self)@.wf(),
        ensures
            final(self)@ == old(self)@.sized(vp),
            final(self)@.wf(),
            final(self)@.is_ready() == old(self)@.is_ready(),
    {
        proof {
            reveal(AppState::sized);
        }
        let last = if self.vp.0 == vp.0 && self.vp.1 == vp.1 {
            self.stroke_last
        } else {
            None
        };
        self.stroke_last = last;
        self.vp = vp;
    }

    pub(crate) fn take_reply(&mut self, reply: SaveReply)
        requires
            old(self)@.wf(),
        ensures
            final(self)@ == old(self)@.replied(reply@),
            final(self)@.wf(),
            final(self)@.is_ready() == old(self)@.is_ready(),
    {
        let ghost s = self@;
        proof {
            reveal(AppState::replied);
        }
        if !self.saving {
            return;
        }
        match reply {
            SaveReply::Empty => {
                return;
            },
            SaveReply::Saved(path) => {
                let mut text = "Saved ".to_owned();
                text.append(file_name(path.as_str()).as_str());
                self.mask_status = text;
            },
            SaveReply::Failed(error) => {
                let mut text = "Save failed: ".to_owned();
                text.append(error.as_str());
                self.mask_status = text;
            },
            SaveReply::Disconnected => {
                self.mask_status = "Save failed: worker stopped".to_owned();
            },
        }
        self.saving = false;
    }

    pub(crate) fn run_clock(&mut self, dt: u32)
        requires
            old(self)@.wf(),
        ensures
            final(self)@ == old(self)@.clocked(dt as int),
            final(self)@.wf(),
            final(self)@.is_ready() == old(self)@.is_ready(),
    {
        proof {
            reveal(AppState::clocked);
        }
        let still: i64 = min(self.since_pointer + dt as i64, TIME_LIMIT);
        let t: i64 = if self.playing && self.started {
            let step: i64 = crate::units::scale(dt as i64, self.speed);
            proof {
                lemma_step(dt as int, self.speed as int);
            }
            min(self.t + step, TIME_LIMIT)
        } else {
            self.t
        };
        self.since_pointer = still;
        self.t = t;
    }

    pub(crate) fn run_loop(&mut self)
        requires
            old(self)@.wf(),
        ensures
            final(self)@ == old(self)@.looped(),
            final(self)@.wf(),
            final(self)@.is_ready() == old(self)@.is_ready(),
    {
        let ghost s = self@;
        let end = match self.wrap {
            Some(w) => self.playing && self.started && self.t >= w - WRAP_MARGIN,
            None => false,
        };
        if end {
            self.seek_all(0);
            assert(s.looped() == s.sought(0)) by {
                reveal(AppState::looped);
            }
            assert(s.sought(0).videos.len() == s.videos.len()) by {
                reveal(AppState::sought);
            }
            return;
        }
        assert(s.looped() == s) by {
            reveal(AppState::looped);
        }
    }

    #[verifier::spinoff_prover]
    pub(crate) fn drain(&mut self, dt: u32) -> (r: Vec<Upload>)
        requires
            old(self)@.wf(),
            old(self)@.is_ready(),
        ensures
            final(self)@ == old(self)@.drained(dt as int),
            final(self)@.wf(),
            final(self)@.is_ready(),
            sent(r@) == uploads_of(
                old(self)@.videos,
                old(self)@.t as int,
                old(self)@.videos.len() as int,
            ),
    {
        let ghost s = self@;
        proof {
            reveal(AppState::drained);
        }
        assert(forall|i: int|
            0 <= i < self.videos@.len() ==> (#[trigger] video_states(self.videos@)[i]).wf()) by {
            reveal(clips_ok);
        }
        let (uploads, adopt) = drain_each(&mut self.videos, self.t, self.active);
        let t: i64 = match adopt {
            Some(pts) if !self.playing => pts,
            _ => self.t,
        };
        let started = self.started || delivered_all(&self.videos);
        let flash: i64 = max(self.badge_flash - dt as i64, 0);
        self.t = t;
        self.started = started;
        self.badge_flash = flash;
        assert(clips_ok(self@.videos, self@.masks)) by {
            reveal(clips_ok);
            assert forall|i: int| 0 <= i < self@.masks.len() implies fits(
                #[trigger] self@.masks[i],
                self@.videos[i],
            ) by {
                assert(fits(s.masks[i], s.videos[i]));
            }
        }
        uploads
    }
}

pub proof fn lemma_step(dt: int, speed: int)
    requires
        0 <= dt <= 0xffff_ffff,
        0 <= speed <= 4 * ONE,
    ensures
        0 <= scaled(dt, speed) <= 4 * dt,
{
    assert(0 <= dt * speed && dt * speed <= (4 * dt) * ONE) by (nonlinear_arith)
        requires
            0 <= dt,
            0 <= speed <= 4 * ONE,
            ONE == 1_000_000_000,
    ;
    round_div_bounds(dt * speed, ONE as int, 0, 4 * dt);
}

} // verus!
