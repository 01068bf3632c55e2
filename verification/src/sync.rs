//! Frame lock, seen from outside: what one tick shows of every stream.

use crate::app::{AppState, VideoState};
use crate::items::UploadState;
use crate::player::{due, due_frames_are_reached, FrameState};
use crate::tick::{taken_all, uploads_of, ReplyState};
use crate::units::{round_div_is_nearest, ONE, TIME_LIMIT};
use vstd::prelude::*;

verus! {

/// Whether texture `i` is filled by exactly one of the uploads, and with what.
pub open spec fn filled(up: Seq<UploadState>, i: int, w: u32, h: u32, buf: Seq<u8>) -> bool {
    exists|j: int|
        0 <= j < up.len() && only(up, i, j) && (#[trigger] up[j]).w == w && up[j].h == h
            && up[j].buf == buf
}

/// Whether upload `j` is the only one for texture `i`.
pub open spec fn only(up: Seq<UploadState>, i: int, j: int) -> bool {
    forall|m: int| 0 <= m < up.len() ==> ((#[trigger] up[m]).idx == i <==> m == j)
}

/// Whether none of the uploads is for texture `i`.
pub open spec fn left_alone(up: Seq<UploadState>, i: int) -> bool {
    forall|m: int| 0 <= m < up.len() ==> (#[trigger] up[m]).idx != i
}

/// Whether the queue's frame `k` is the newest that the clock has reached: it
/// and all before it are, and the one after it is not.
pub open spec fn is_newest(frames: Seq<FrameState>, k: int, clock: int) -> bool {
    &&& 0 <= k < frames.len()
    &&& forall|j: int| 0 <= j <= k ==> (#[trigger] frames[j]).pts <= clock
    &&& k + 1 < frames.len() ==> frames[k + 1].pts > clock
}

/// What the first `k` clips upload: each clip that delivers, once, in order.
proof fn lemma_uploads(videos: Seq<VideoState>, t: int, k: int)
    requires
        0 <= k <= videos.len() <= usize::MAX,
    ensures
        ({
            let up = uploads_of(videos, t, k);
            &&& forall|m: int| 0 <= m < up.len() ==> (#[trigger] up[m]).idx < k
            &&& forall|i: int|
                0 <= i < k ==> match (#[trigger] videos[i]).got(t) {
                    Some(f) => filled(up, i, videos[i].player.w, videos[i].player.h, f.buf),
                    None => left_alone(up, i),
                }
        }),
    decreases k,
{
    if k > 0 {
        lemma_uploads(videos, t, k - 1);
        let was = uploads_of(videos, t, k - 1);
        let up = uploads_of(videos, t, k);
        let last = videos[k - 1];
        assert forall|i: int| 0 <= i < k implies match (#[trigger] videos[i]).got(t) {
            Some(f) => filled(up, i, videos[i].player.w, videos[i].player.h, f.buf),
            None => left_alone(up, i),
        } by {
            if i < k - 1 {
                if videos[i].got(t) is Some {
                    let f = videos[i].got(t)->0;
                    let (w, h) = (videos[i].player.w, videos[i].player.h);
                    assert(filled(was, i, w, h, f.buf));
                    let j = choose|j: int|
                        0 <= j < was.len() && only(was, i, j) && (#[trigger] was[j]).w == w
                            && was[j].h == h && was[j].buf == f.buf;
                    assert(up[j] == was[j]);
                    assert forall|m: int| 0 <= m < up.len() implies ((#[trigger] up[m]).idx == i
                        <==> m == j) by {
                        if m < was.len() {
                            assert(up[m] == was[m]);
                        }
                    }
                    assert(only(up, i, j));
                } else {
                    assert(left_alone(was, i));
                    assert forall|m: int| 0 <= m < up.len() implies (#[trigger] up[m]).idx != i by {
                        if m < was.len() {
                            assert(up[m] == was[m]);
                        }
                    }
                }
            } else if last.got(t) is Some {
                let j = was.len() as int;
                assert(up[j].idx == i);
                assert forall|m: int| 0 <= m < up.len() implies ((#[trigger] up[m]).idx == i <==> m
                    == j) by {
                    if m < was.len() {
                        assert(up[m] == was[m]);
                        assert(was[m].idx < k - 1);
                    }
                }
                assert(only(up, i, j));
            } else {
                assert forall|m: int| 0 <= m < up.len() implies (#[trigger] up[m]).idx != i by {
                    assert(was[m].idx < k - 1);
                }
            }
        }
    }
}

/// Sizing the window and hearing of a save change nothing of the clock and the
/// streams.
proof fn lemma_clock(s: AppState, dt: int, vp: (u32, u32), reply: ReplyState)
    ensures
        ({
            let b = s.sized(vp).replied(reply).clocked(dt);
            &&& b.t == s.clocked(dt).t
            &&& b.videos == s.videos
            &&& b.playing == s.playing && b.started == s.started && b.wrap == s.wrap
            &&& b.active == s.active
            &&& b.vp == vp
        }),
{
    reveal(AppState::sized);
    reveal(AppState::replied);
    reveal(AppState::clocked);
}

/// Whether a tick of `dt` runs into the loop point: the clock comes within 50
/// milliseconds of it.
pub open spec fn runs_out(s: AppState, dt: int) -> bool {
    s.playing && s.started && (s.wrap matches Some(w) && s.clocked(dt).t >= w - 50_000_000)
}

/// The clock moves by the time passed times the speed, to the nearest
/// billionth of a second, while playback runs; else it stands.
pub proof fn the_clock_runs_at_its_speed(s: AppState, dt: int)
    requires
        s.wf(),
        0 <= dt <= 0xffff_ffff,
    ensures
        ({
            let t = s.clocked(dt).t;
            &&& !(s.playing && s.started) ==> t == s.t
            &&& s.playing && s.started && t < TIME_LIMIT ==> {
                &&& 2 * (1_000_000_000 * (t - s.t)) <= 2 * (dt * s.speed) + 1_000_000_000
                &&& 2 * (dt * s.speed) < 2 * (1_000_000_000 * (t - s.t)) + 1_000_000_000
            }
            &&& s.t <= t <= TIME_LIMIT
        }),
{
    reveal(AppState::clocked);
    crate::tick::lemma_step(dt, s.speed as int);
    round_div_is_nearest(dt * s.speed, ONE as int);
}

/// Each tick shows every stream its newest due frame: the clip's texture gets
/// that frame and no other, and no other clip's texture gets it. Frames up to a
/// microsecond ahead of the clock are due. A clip that waits for the landing
/// frame of a seek takes the first frame that comes.
pub proof fn a_tick_shows_every_stream_its_newest_due_frame(
    s: AppState,
    dt: int,
    vp: (u32, u32),
    reply: ReplyState,
    i: int,
    k: int,
)
    requires
        s.wf(),
        0 <= i < s.videos.len(),
        !runs_out(s, dt),
    ensures
        ({
            let v = s.videos[i];
            let clock = s.clocked(dt).t + 1_000;
            let frames = v.player.frames;
            let after = s.ticked(dt, vp, reply).videos[i];
            let up = s.shown_frame(dt, vp, reply).uploads;
            let due = if v.pending { k == 0 && frames.len() > 0 } else { is_newest(frames, k, clock) };
            let dry = frames.len() == 0 || (!v.pending && frames[0].pts > clock);
            &&& due ==> {
                &&& filled(up, i, v.player.w, v.player.h, frames[k].buf)
                &&& after.shown_pts == frames[k].pts
                &&& after.delivered && !after.pending
                &&& after.player.frames == frames.skip(k + 1)
            }
            &&& dry ==> {
                &&& left_alone(up, i)
                &&& after == v
            }
            &&& after.info == v.info
        }),
{
    lemma_clock(s, dt, vp, reply);
    let b = s.sized(vp).replied(reply).clocked(dt);
    let d = s.before_drain(dt, vp, reply);
    assert(d == b) by {
        reveal(AppState::looped);
    }
    reveal(AppState::drained);
    let t = b.t as int;
    let v = s.videos[i];
    lemma_uploads(b.videos, t, b.videos.len() as int);
    assert(s.ticked(dt, vp, reply).videos[i] == v.taken(t));
    let frames = v.player.frames;
    due_frames_are_reached(frames, t + 1_000);
    let n = due(frames, t + 1_000);
    if is_newest(frames, k, t + 1_000) {
        if n < k + 1 {
            assert(frames[n as int].pts <= t + 1_000);
        }
        if n > k + 1 {
            assert(frames[k + 1].pts <= t + 1_000);
        }
        assert(n == k + 1);
    }
    if n > 0 {
        assert(frames[0].pts <= t + 1_000);
    }
    match b.videos[i].got(t) {
        Some(f) => {
            assert(filled(uploads_of(b.videos, t, b.videos.len() as int), i, v.player.w, v.player.h, f.buf));
        },
        None => {},
    }
}

/// Every upload of a tick is for a clip that is there, and the uploads of two
/// clips are for two textures.
pub proof fn uploads_go_to_their_own_textures(
    s: AppState,
    dt: int,
    vp: (u32, u32),
    reply: ReplyState,
)
    requires
        s.wf(),
    ensures
        ({
            let up = s.shown_frame(dt, vp, reply).uploads;
            &&& forall|m: int| 0 <= m < up.len() ==> (#[trigger] up[m]).idx < s.videos.len()
            &&& forall|m: int, j: int|
                0 <= m < j < up.len() ==> (#[trigger] up[m]).idx != (#[trigger] up[j]).idx
        }),
{
    lemma_clock(s, dt, vp, reply);
    let d = s.before_drain(dt, vp, reply);
    reveal(AppState::looped);
    reveal(AppState::sought);
    assert(d.videos.len() == s.videos.len());
    let up = uploads_of(d.videos, d.t as int, d.videos.len() as int);
    if s.videos.len() > 0 {
        lemma_uploads(d.videos, d.t as int, d.videos.len() as int);
        assert forall|m: int, j: int| 0 <= m < j < up.len() implies (#[trigger] up[m]).idx != (
        #[trigger] up[j]).idx by {
            let i = up[m].idx as int;
            match d.videos[i].got(d.t as int) {
                Some(f) => {
                    let (w, h) = (d.videos[i].player.w, d.videos[i].player.h);
                    assert(filled(up, i, w, h, f.buf));
                },
                None => {
                    assert(left_alone(up, i));
                },
            }
        }
    }
}

/// Where the clock runs out, every stream goes back to 0 and nothing of the old
/// pass is shown; the clock starts again at 0.
pub proof fn a_tick_at_the_loop_point_starts_over(
    s: AppState,
    dt: int,
    vp: (u32, u32),
    reply: ReplyState,
    i: int,
)
    requires
        s.wf(),
        0 <= i < s.videos.len(),
        runs_out(s, dt),
    ensures
        ({
            let after = s.ticked(dt, vp, reply);
            &&& after.t == 0 && after.playing
            &&& after.videos[i].player.cmd == Some((0i64, true))
            &&& after.videos[i].player.frames.len() == 0
            &&& left_alone(s.shown_frame(dt, vp, reply).uploads, i)
        }),
{
    lemma_clock(s, dt, vp, reply);
    let d = s.before_drain(dt, vp, reply);
    reveal(AppState::looped);
    reveal(AppState::sought);
    reveal(AppState::drained);
    lemma_uploads(d.videos, d.t as int, d.videos.len() as int);
    assert(d.videos[i].player.frames.len() == 0);
    assert(d.videos[i].got(d.t as int) is None) by {
        due_frames_are_reached(d.videos[i].player.frames, d.t + 1_000);
    }
    assert(s.ticked(dt, vp, reply).videos[i] == d.videos[i].taken(d.t as int));
}

/// While paused, the clock after a tick is the time of the frame the active
/// clip was given, where it was given one; else the clock stays. While playing
/// it is the running clock.
pub proof fn a_tick_adopts_the_landing_frame_only_while_paused(
    s: AppState,
    dt: int,
    vp: (u32, u32),
    reply: ReplyState,
)
    requires
        s.wf(),
        s.videos.len() > 0,
        !runs_out(s, dt),
    ensures
        ({
            let after = s.ticked(dt, vp, reply);
            let a = s.active as int;
            &&& s.playing ==> after.t == s.clocked(dt).t
            &&& !s.playing && left_alone(s.shown_frame(dt, vp, reply).uploads, a) ==> after.t == s.t
            &&& !s.playing && !left_alone(s.shown_frame(dt, vp, reply).uploads, a) ==> after.t
                == after.videos[a].shown_pts
            &&& after.active == s.active && after.playing == s.playing
        }),
{
    lemma_clock(s, dt, vp, reply);
    let b = s.sized(vp).replied(reply).clocked(dt);
    let d = s.before_drain(dt, vp, reply);
    assert(d == b) by {
        reveal(AppState::looped);
    }
    reveal(AppState::drained);
    reveal(AppState::clocked);
    let a = s.active as int;
    let t = b.t as int;
    lemma_uploads(b.videos, t, b.videos.len() as int);
    assert(s.ticked(dt, vp, reply).videos[a] == b.videos[a].taken(t));
    let up = uploads_of(b.videos, t, b.videos.len() as int);
    match b.videos[a].got(t) {
        Some(f) => {
            let (w, h) = (b.videos[a].player.w, b.videos[a].player.h);
            assert(filled(up, a, w, h, f.buf));
            let j = choose|j: int|
                0 <= j < up.len() && only(up, a, j) && (#[trigger] up[j]).w == w && up[j].h == h
                    && up[j].buf == f.buf;
            assert(up[j].idx == a);
        },
        None => {
            assert(left_alone(up, a));
        },
    }
}

/// The clock starts only when every stream has shown its first frame, or has
/// failed; once started it stays so.
pub proof fn the_clock_waits_for_every_stream(s: AppState, dt: int, vp: (u32, u32), reply: ReplyState)
    requires
        s.wf(),
        s.videos.len() > 0,
    ensures
        ({
            let after = s.ticked(dt, vp, reply);
            after.started <==> s.started || forall|i: int|
                0 <= i < s.videos.len() ==> (#[trigger] after.videos[i]).delivered
                    || after.videos[i].player.failed
        }),
{
    lemma_clock(s, dt, vp, reply);
    reveal(AppState::looped);
    reveal(AppState::sought);
    reveal(AppState::drained);
    let after = s.ticked(dt, vp, reply);
    let d = s.before_drain(dt, vp, reply);
    assert(after.videos =~= taken_all(d.videos, d.t as int));
    assert(after.videos.len() == s.videos.len());
}

/// A frame shows the comparison as it is after its tick, or the launch window
/// where there is none. The loop goes on by itself while something moves:
/// while playing, while a letter flashes, before every stream has started, and
/// while the transport fades; else it looks up again after a tenth of a second.
pub proof fn a_frame_shows_the_state_after_its_tick(
    s: AppState,
    dt: int,
    vp: (u32, u32),
    reply: ReplyState,
)
    ensures
        ({
            let f = s.shown_frame(dt, vp, reply);
            let a = s.ticked(dt, vp, reply);
            let fades = 1_000_000 < a.revealed() < 999_000_000;
            &&& s.videos.len() > 0 ==> {
                &&& f.items == a.scene()
                &&& f.animating <==> a.playing || a.badge_flash > 0 || !a.started || fades
                &&& f.redraw_after == if f.animating { None } else { Some(100_000_000i64) }
            }
            &&& s.videos.len() == 0 ==> {
                &&& f.items == a.launch_items()
                &&& f.uploads.len() == 0
                &&& !f.animating && f.redraw_after is None
            }
        }),
{
}

/// The flash of a letter runs out with the time, and so does the transport's
/// stillness run on.
pub proof fn a_tick_spends_its_time(s: AppState, dt: int, vp: (u32, u32), reply: ReplyState)
    requires
        s.wf(),
        s.videos.len() > 0,
        0 <= dt <= 0xffff_ffff,
    ensures
        ({
            let a = s.ticked(dt, vp, reply);
            &&& a.badge_flash == if s.badge_flash > dt { s.badge_flash - dt } else { 0 }
            &&& s.since_pointer + dt <= TIME_LIMIT ==> a.since_pointer == s.since_pointer + dt
        }),
{
    reveal(AppState::sized);
    reveal(AppState::replied);
    reveal(AppState::clocked);
    reveal(AppState::looped);
    reveal(AppState::sought);
    reveal(AppState::drained);
}

/// What the status line says of a save that has ended: the file's name, or what
/// went wrong. One that runs on says nothing new.
pub proof fn the_end_of_a_save_is_told(s: AppState, path: Seq<char>, error: Seq<char>)
    requires
        s.saving,
    ensures
        s.replied(ReplyState::Saved(path)).mask_status == "Saved "@ + crate::paths::file_name_of(
            path,
        ),
        s.replied(ReplyState::Failed(error)).mask_status == "Save failed: "@ + error,
        s.replied(ReplyState::Disconnected).mask_status == "Save failed: worker stopped"@,
        !s.replied(ReplyState::Saved(path)).saving && !s.replied(ReplyState::Failed(error)).saving,
        !s.replied(ReplyState::Disconnected).saving,
        s.replied(ReplyState::Empty) == s,
{
    reveal(AppState::replied);
}

} // verus!
