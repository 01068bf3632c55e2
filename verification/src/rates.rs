//! The frame rate and the loop point of a comparison: they are its clips', and
//! stay so whatever happens.

use crate::app::{is_known, loop_point, AppState, Key, Mode, VideoState};
use crate::decode::{Reader, SEEK_SLACK};
use crate::ids::Happening;
use crate::input::the_loop_point_is_the_shortest_duration;
use crate::laws::{a_step_lands_on_the_neighbouring_frame, evenly_spaced, half_period, told};
use crate::tick::ReplyState;
use crate::units::{round_div_is_nearest, ONE, TIME_LIMIT};
use vstd::prelude::*;

verus! {

/// Whether a comparison runs at its first clip's frame rate: at the rate that
/// was probed, wherever that is above one frame a second, and at thirty where
/// it is not.
pub open spec fn runs_at_its_rate(s: AppState) -> bool {
    s.videos.len() > 0 ==> s.fps == if s.videos[0].info.fps > 1_000_000_000 {
        s.videos[0].info.fps
    } else {
        30_000_000_000
    }
}

/// Whether a clip is as long as its report says: longer than a tenth of a
/// second, and not endless.
pub open spec fn has_length(v: VideoState) -> bool {
    100_000_000 < v.info.duration < TIME_LIMIT
}

/// Whether a comparison loops at the end of its shortest clip: no clip of known
/// length ends before the loop point, one ends there, and without a clip of
/// known length there is none.
pub open spec fn loops_at_its_shortest(s: AppState) -> bool {
    match s.wrap {
        Some(w) => {
            &&& exists|i: int|
                0 <= i < s.videos.len() && has_length(#[trigger] s.videos[i])
                    && s.videos[i].info.duration == w
            &&& forall|i: int|
                0 <= i < s.videos.len() && has_length(#[trigger] s.videos[i])
                    ==> s.videos[i].info.duration >= w
        },
        None => forall|i: int| 0 <= i < s.videos.len() ==> !has_length(#[trigger] s.videos[i]),
    }
}

proof fn lemma_loop_point(s: AppState)
    requires
        s.wrap == loop_point(s.videos),
        forall|i: int| 0 <= i < s.videos.len() ==> (#[trigger] s.videos[i]).wf(),
    ensures
        loops_at_its_shortest(s),
{
    reveal(loop_point);
    let n = s.videos.len() as int;
    the_loop_point_is_the_shortest_duration(s.videos, n);
    assert forall|i: int| 0 <= i < n implies has_length(#[trigger] s.videos[i]) == is_known(
        s.videos[i].info.duration,
    ) by {}
    if s.wrap is Some {
        let w = s.wrap->0 as int;
        let i = choose|i: int| 0 <= i < n && #[trigger] s.videos[i].info.duration == w;
        assert(has_length(s.videos[i]));
    }
}

/// A fresh comparison runs at its first clip's rate and loops at its shortest
/// clip's end, and starts at the beginning, playing as soon as it can.
pub proof fn a_fresh_comparison_is_its_clips(videos: Seq<VideoState>, mode: Mode)
    requires
        forall|i: int| 0 <= i < videos.len() ==> (#[trigger] videos[i]).wf(),
    ensures
        ({
            let s = AppState::fresh(videos, mode);
            &&& runs_at_its_rate(s)
            &&& loops_at_its_shortest(s)
            &&& s.videos == videos && s.mode == mode && s.active == 0
            &&& s.t == 0 && s.playing && !s.started && s.speed == 1_000_000_000
            &&& s.zoom == 1_000_000_000 && s.center == (500_000_000i64, 500_000_000i64)
            &&& s.show_ui && !s.mask_mode && !s.fullscreen && !s.saving
            &&& s.masks.len() == videos.len()
            &&& forall|i: int| 0 <= i < videos.len() ==> (#[trigger] s.masks[i]) is None
        }),
{
    if videos.len() > 0 {
        assert(videos[0].wf());
    }
    lemma_loop_point(AppState::fresh(videos, mode));
}

/// Clips that join run at the rate of the first of all, and loop at the end of
/// the shortest of all.
pub proof fn a_load_runs_at_the_first_clips_rate(s: AppState, new: Seq<VideoState>, replace: bool)
    requires
        s.wf(),
        new.len() > 0,
        forall|i: int| 0 <= i < new.len() ==> (#[trigger] new[i]).wf(),
    ensures
        ({
            let a = s.joined(new, replace);
            &&& runs_at_its_rate(a)
            &&& loops_at_its_shortest(a)
            &&& replace || s.videos.len() == 0 ==> a.videos[0].info == new[0].info
            &&& !replace && s.videos.len() > 0 ==> a.videos[0].info == s.videos[0].info
        }),
{
    reveal(AppState::joined);
    reveal(AppState::joined_clips);
    reveal(crate::app::clips_ok);
    let a = s.joined(new, replace);
    assert forall|i: int| 0 <= i < a.videos.len() implies (#[trigger] a.videos[i]).wf() by {
        if replace {
            assert(a.videos[i] == new[i]);
        } else if i < s.videos.len() {
            assert(s.videos[i].wf());
        } else {
            assert(a.videos[i] == new[i - s.videos.len()]);
        }
    }
    assert(a.videos[0].wf());
    lemma_loop_point(a);
}

/// What only a load changes: which clips there are, the rate and the loop point.
spec fn same_clips(s: AppState, t: AppState) -> bool {
    &&& t.fps == s.fps && t.wrap == s.wrap
    &&& t.videos.len() == s.videos.len()
    &&& forall|i: int| 0 <= i < s.videos.len() ==> (#[trigger] t.videos[i]).info == s.videos[i].info
}

proof fn lemma_sought(s: AppState, target: int)
    ensures
        same_clips(s, s.sought(target)),
{
    reveal(AppState::sought);
}

proof fn lemma_masked(s: AppState)
    ensures
        same_clips(s, s.with_mask()),
        same_clips(s, s.painted()),
{
    reveal(AppState::with_mask);
    reveal(AppState::painted);
}

proof fn lemma_selected(s: AppState, idx: int)
    ensures
        same_clips(s, s.selected(idx)),
{
    reveal(AppState::selected);
    lemma_masked(
        AppState { active: idx as usize, badge_flash: 1_200_000_000, ..s }.released(),
    );
}

proof fn lemma_stepped(s: AppState, forward: bool)
    ensures
        same_clips(s, s.stepped(forward)),
{
    reveal(AppState::stepped);
    lemma_sought(AppState { playing: false, ..s }, s.step_target(forward));
}

proof fn lemma_escaped(s: AppState, k: Key)
    ensures
        same_clips(s, s.escaped()),
        same_clips(s, s.fullscreen_toggled()),
        same_clips(s, s.launch_keyed(k)),
{
    reveal(AppState::launch_keyed);
    reveal(AppState::escaped);
    reveal(AppState::fullscreen_toggled);
}

proof fn lemma_compare_keyed(s: AppState, k: Key)
    ensures
        same_clips(s, s.compare_keyed(k)),
{
    reveal(AppState::compare_keyed);
    lemma_escaped(s, k);
    match k {
        Key::Enter => lemma_selected(
            s,
            crate::app::following(s.active as int, s.videos.len() as int),
        ),
        Key::Char(c) => {
            reveal(AppState::char_keyed);
            reveal(AppState::adjusted);
            lemma_selected(s, c as int - '1' as int);
            lemma_stepped(s, true);
            lemma_stepped(s, false);
        },
        _ => {
            reveal(AppState::nudged);
            reveal(AppState::sought);
        },
    }
}

proof fn lemma_keyed(s: AppState, k: Key)
    ensures
        same_clips(s, s.keyed(k)),
{
    lemma_escaped(s, k);
    lemma_compare_keyed(s, k);
    lemma_compare_keyed(AppState { stroke_last: None, ..s }, k);
    reveal(AppState::mask_toggled);
    lemma_masked(
        AppState { playing: false, ..AppState { mask_mode: !s.mask_mode, ..s }.released() },
    );
    reveal(AppState::mask_keyed);
    reveal(AppState::brush_resized);
    reveal(AppState::saved);
}

proof fn lemma_scrubbed(s: AppState, x: int)
    ensures
        same_clips(s, s.scrubbed(x)),
{
    reveal(AppState::scrubbed);
    reveal(AppState::sought);
}

proof fn lemma_pressed(s: AppState, x: i32, y: i32)
    ensures
        same_clips(s, s.pressed(x, y)),
{
    reveal(AppState::pressed);
    if s.mask_mode {
        reveal(AppState::brush_down);
        reveal(AppState::hovering);
        let h = s.hovering(x, y);
        lemma_masked(AppState { painting: h.brush_visible(), stroke_last: None, ..h });
    } else {
        let t = AppState { since_pointer: 0, ..s };
        lemma_stepped(t, true);
        lemma_stepped(t, false);
        lemma_scrubbed(AppState { scrubbing: true, ..t }, x as int);
    }
}

proof fn lemma_moved(s: AppState, x: i32, y: i32)
    ensures
        same_clips(s, s.moved(x, y)),
{
    reveal(AppState::moved);
    reveal(AppState::hovering);
    reveal(AppState::dragged);
    lemma_masked(s.hovering(x, y));
    lemma_scrubbed(
        AppState { cursor_inside: true, since_pointer: 0, cursor: (x, y), ..s },
        x as int,
    );
}

proof fn lemma_ticked(s: AppState, dt: int, vp: (u32, u32), reply: ReplyState)
    ensures
        same_clips(s, s.ticked(dt, vp, reply)),
{
    reveal(AppState::sized);
    reveal(AppState::replied);
    reveal(AppState::clocked);
    reveal(AppState::looped);
    reveal(AppState::drained);
    lemma_sought(s.sized(vp).replied(reply).clocked(dt), 0);
}

/// Whatever happens to a comparison, it runs at its first clip's rate and loops
/// at its shortest clip's end.
pub proof fn a_comparison_keeps_its_rate_and_loop(s: AppState, h: Happening)
    requires
        s.wf(),
        runs_at_its_rate(s),
        loops_at_its_shortest(s),
        h matches Happening::Joined(new, _) ==> forall|i: int|
            0 <= i < new.len() ==> (#[trigger] new[i]).wf(),
    ensures
        runs_at_its_rate(s.after(h)),
        loops_at_its_shortest(s.after(h)),
{
    let t = s.after(h);
    match h {
        Happening::Joined(new, replace) => {
            if new.len() > 0 {
                a_load_runs_at_the_first_clips_rate(s, new, replace);
            } else {
                reveal(AppState::joined);
            }
        },
        Happening::Keyed(k) => lemma_keyed(s, k),
        Happening::Pressed(x, y) => lemma_pressed(s, x, y),
        Happening::Moved(x, y) => lemma_moved(s, x, y),
        Happening::Scrolled(_, _) => reveal(AppState::scrolled),
        Happening::Pinched(_) => reveal(AppState::pinched),
        Happening::Ticked(dt, vp, reply) => lemma_ticked(s, dt, vp, reply),
        _ => {},
    }
    if !(h is Joined) {
        assert(same_clips(s, t));
        assert forall|i: int| 0 <= i < s.videos.len() implies has_length(#[trigger] t.videos[i])
            == has_length(s.videos[i]) by {}
        if s.wrap is Some {
            let i = choose|i: int|
                0 <= i < s.videos.len() && has_length(#[trigger] s.videos[i])
                    && s.videos[i].info.duration == s.wrap->0;
            assert(has_length(t.videos[i]));
        }
    }
}

/// Whether frames lie one period of a rate apart, to within a unit.
pub open spec fn spaced_at(fps: int, stream: Seq<i64>) -> bool {
    forall|i: int, j: int|
        #![trigger stream[i], stream[j]]
        0 <= i && j == i + 1 && j < stream.len() ==> {
            let d = stream[j] - stream[i];
            &&& fps * d <= 1_000_000_000 * 1_000_000_000 + fps
            &&& 1_000_000_000 * 1_000_000_000 <= fps * d + fps
        }
}

/// A step moves one frame of the first clip, at that clip's own rate: every
/// stream is sent where its reader drops all the frames up to the one on screen
/// and delivers the next; backwards it drops all before the previous one and
/// delivers that. (The clip has more than one frame a second and fewer than
/// five hundred.)
pub proof fn a_step_moves_one_frame_of_the_clip(
    s: AppState,
    r: Reader,
    stream: Seq<i64>,
    k: int,
    i: int,
)
    requires
        s.wf(),
        runs_at_its_rate(s),
        s.videos.len() > 0,
        1_000_000_000 < s.videos[0].info.fps < 499_000_000_000,
        forall|a: int, b: int| 0 <= a < b < stream.len() ==> stream[a] < stream[b],
        spaced_at(s.videos[0].info.fps, stream),
        0 <= k < stream.len(),
        s.t == stream[k],
        0 <= s.t <= TIME_LIMIT - ONE,
        stream[0] >= 0,
        0 <= i < s.videos.len(),
    ensures
        ({
            let a = s.keyed(Key::Char('.'));
            &&& !s.mask_mode ==> {
                &&& !a.playing && a.videos[i].pending
                &&& a.videos[i].player.cmd matches Some(c)
                &&& c.1
                &&& forall|f: int| 0 <= f <= k ==> told(r, c.0 as int).skips(Some(#[trigger] stream[f]))
                &&& k + 1 < stream.len() ==> !told(r, c.0 as int).skips(Some(stream[k + 1]))
            }
        }),
        ({
            let a = s.keyed(Key::Char(','));
            &&& !s.mask_mode && k > 0 ==> {
                &&& !a.playing && a.videos[i].pending
                &&& a.videos[i].player.cmd matches Some(c)
                &&& c.1
                &&& forall|f: int|
                    0 <= f < k - 1 ==> told(r, c.0 as int).skips(Some(#[trigger] stream[f]))
                &&& !told(r, c.0 as int).skips(Some(stream[k - 1]))
            }
        }),
{
    let fps = s.videos[0].info.fps;
    let one = ONE as int;
    let q = half_period(s);
    round_div_is_nearest(one * one, 2 * fps);
    assert(one * one == 1_000_000_000_000_000_000);
    assert(q > SEEK_SLACK + 6) by (nonlinear_arith)
        requires
            2 * (one * one) + 2 * fps < 2 * (2 * fps) * q + 2 * (2 * fps),
            one * one == 1_000_000_000_000_000_000,
            1_000_000_000 < fps < 499_000_000_000,
            SEEK_SLACK == crate::decode::SEEK_SLACK,
            SEEK_SLACK <= 1_000_000,
    ;
    assert forall|a: int, b: int|
        #![trigger stream[a], stream[b]]
        0 <= a && b == a + 1 && b < stream.len() implies -2 <= stream[b] - stream[a] - 2 * q <= 2 by {
        let d = stream[b] - stream[a];
        let oo = one * one;
        assert(-2 <= d - 2 * q <= 2) by (nonlinear_arith)
            requires
                2 * (2 * fps) * q <= 2 * oo + 2 * fps,
                2 * oo + 2 * fps < 2 * (2 * fps) * q + 2 * (2 * fps),
                fps * d <= oo + fps,
                oo <= fps * d + fps,
                fps > 0,
        ;
    }
    assert(evenly_spaced(s, stream));
    a_step_lands_on_the_neighbouring_frame(s, r, stream, k, i);
    reveal(AppState::compare_keyed);
    reveal(AppState::char_keyed);
    reveal(AppState::stepped);
    reveal(AppState::sought);
    if k > 0 {
        assert(stream[0] <= stream[k - 1]);
    }
}

} // verus!
