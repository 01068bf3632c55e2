//! What holds of the application as a whole.

use crate::app::{
    clip_ok, following, half_more, hits, ids_ok, quarter_more, AppState, Cmd, Key, Mode, Target, VideoState,
    MIDDLE,
};
use crate::decode::{Event, Reader, SEEK_SLACK};
use crate::geometry::{
    a_zoom_holds_the_point_under_the_pointer, cell_ok, cell_width, center_for, fit, half, half_view,
    lemma_half_view, lemma_zoomed_bounds, rect, the_fit_stays_inside, whole_window, zoom_ok, zoomed,
};
use crate::player::{
    due, due_frames_are_reached, follows, players_on_one_clock_show_the_same_frame, reaches,
};
use crate::pointer::{lemma_cell_under, lemma_cells};
use crate::tick::{ReplyState, DUE_SLACK};
use crate::units::{
    least, most, round_div, round_div_bounds, round_div_is_nearest, round_div_sign, scaled, ONE, PX,
    TIME_LIMIT,
};
use crate::zoom::a_zoom_in_holds_the_point_under_the_pointer;
use vstd::prelude::*;

verus! {

/// Whether a key shows another clip: Enter, or a clip's number.
pub open spec fn is_flip(k: Key) -> bool {
    k == Key::Enter || (k matches Key::Char(c) && '1' <= c && c <= '9')
}

/// Flipping the displayed clip switches pictures, not players: the clock and
/// every stream stay as they are, so time never jumps.
pub proof fn flipping_never_moves_the_clock(s: AppState, k: Key)
    requires
        s.wf(),
        is_flip(k),
    ensures
        s.keyed(k).t == s.t,
        s.keyed(k).videos == s.videos,
        s.keyed(k).playing == s.playing,
        s.keyed(k).mode == s.mode,
        s.keyed(k).zoom == s.zoom && s.keyed(k).center == s.center,
{
    if !s.is_ready() {
        reveal(AppState::launch_keyed);
    } else {
        let base = if s.mask_mode { AppState { stroke_last: None, ..s } } else { s };
        reveal(AppState::compare_keyed);
        match k {
            Key::Char(c) => {
                reveal(AppState::char_keyed);
                lemma_selecting_keeps_the_rest(base, c as int - '1' as int);
            },
            _ => {
                lemma_selecting_keeps_the_rest(
                    base,
                    following(base.active as int, base.videos.len() as int),
                );
            },
        }
    }
}

/// Showing a clip touches neither the streams, the clock nor the view.
proof fn lemma_selecting_keeps_the_rest(s: AppState, idx: int)
    ensures
        s.selected(idx).t == s.t,
        s.selected(idx).videos == s.videos,
        s.selected(idx).playing == s.playing,
        s.selected(idx).mode == s.mode,
        s.selected(idx).zoom == s.zoom && s.selected(idx).center == s.center,
        s.selected(idx).active == idx as usize,
        s.selected(idx).badge_flash > 0,
{
    reveal(AppState::selected);
    reveal(AppState::with_mask);
}

/// Enter goes round: it shows the clip after the active one, and the first
/// after the last.
pub proof fn enter_goes_round(s: AppState)
    requires
        s.wf(),
        s.is_ready(),
    ensures
        s.keyed(Key::Enter).active == if s.active + 1 < s.videos.len() { s.active + 1 } else { 0 },
{
    reveal(AppState::compare_keyed);
    let base = if s.mask_mode { AppState { stroke_last: None, ..s } } else { s };
    lemma_selecting_keeps_the_rest(base, following(s.active as int, s.videos.len() as int));
}

/// A clip's number key shows that clip; the number of a clip that isn't there
/// does nothing to which one is shown.
pub proof fn number_keys_pick_clips(s: AppState, c: char)
    requires
        s.wf(),
        s.is_ready(),
        '1' <= c && c <= '9',
    ensures
        s.keyed(Key::Char(c)).active == if (c as int - '1' as int) < s.videos.len() {
            c as int - '1' as int
        } else {
            s.active as int
        },
{
    reveal(AppState::compare_keyed);
    reveal(AppState::char_keyed);
    let base = if s.mask_mode { AppState { stroke_last: None, ..s } } else { s };
    lemma_selecting_keeps_the_rest(base, c as int - '1' as int);
}

/// Every load rewinds all streams to 0: clips that were there are sought to
/// the start with nothing queued, the clock stands at 0 and waits for every
/// stream's first frame, and the arrivals come after them in their order.
pub proof fn every_load_rewinds_all_streams(s: AppState, new: Seq<VideoState>, replace: bool)
    requires
        s.wf(),
        new.len() > 0,
    ensures
        ({
            let a = s.joined(new, replace);
            let kept = if replace { 0 } else { s.videos.len() as int };
            &&& a.t == 0 && !a.started && a.playing && a.active == 0
            &&& a.videos.len() == kept + new.len()
            &&& forall|i: int|
                0 <= i < kept ==> {
                    &&& (#[trigger] a.videos[i]).player.cmd == Some((0i64, true))
                    &&& a.videos[i].player.frames.len() == 0
                    &&& a.videos[i].player.position == 0
                    &&& !a.videos[i].delivered && !a.videos[i].pending
                    &&& a.videos[i].info == s.videos[i].info
                }
            &&& forall|i: int| 0 <= i < new.len() ==> a.videos[kept + i] == #[trigger] new[i]
        }),
{
    reveal(AppState::joined);
    reveal(AppState::joined_clips);
}

/// Masks outlive the arrival of further clips; replacing the set clears them.
pub proof fn masks_persist_until_the_set_is_replaced(
    s: AppState,
    new: Seq<VideoState>,
    replace: bool,
    i: int,
)
    requires
        s.wf(),
        new.len() > 0,
    ensures
        !replace && 0 <= i < s.masks.len() ==> s.joined(new, replace).masks[i] == s.masks[i],
        replace && 0 <= i < new.len() ==> s.joined(new, replace).masks[i] is None,
        !s.joined(new, replace).mask_mode,
{
    reveal(AppState::joined);
    reveal(AppState::joined_masks);
}

/// A seek sends every stream to the same instant.
pub proof fn a_seek_keeps_the_streams_together(s: AppState, target: int, i: int)
    requires
        s.wf(),
        0 <= i < s.videos.len(),
        -TIME_LIMIT <= target <= TIME_LIMIT,
    ensures
        s.sought(target).t == target,
        s.sought(target).videos[i].player.cmd == Some((most(target, 0) as i64, true)),
        s.sought(target).videos[i].player.frames.len() == 0,
        !s.playing ==> s.sought(target).videos[i].pending,
{
    reveal(AppState::sought);
}

/// Pause stops the clock, whatever time passes.
pub proof fn pause_stops_the_clock(s: AppState, dt: int)
    requires
        s.wf(),
        !s.playing || !s.started,
    ensures
        s.clocked(dt).t == s.t,
        s.clocked(dt).looped() == s.clocked(dt),
{
    reveal(AppState::clocked);
    reveal(AppState::looped);
}

/// While playing, the clock advances by the time passed times the speed.
pub proof fn the_speed_scales_the_clock(s: AppState, dt: int)
    requires
        s.wf(),
        s.playing && s.started,
        0 <= dt <= 0xffff_ffff,
        s.t + scaled(dt, s.speed as int) <= TIME_LIMIT,
    ensures
        s.clocked(dt).t == s.t + scaled(dt, s.speed as int),
{
    reveal(AppState::clocked);
    crate::tick::lemma_step(dt, s.speed as int);
}

/// While paused, the delivered frame's true time is adopted as the clock, so
/// stepping can't accumulate drift; while playing, the clock is left alone.
pub proof fn a_paused_clock_adopts_the_delivered_frame(s: AppState, dt: int)
    requires
        s.wf(),
        s.is_ready(),
    ensures
        ({
            let got = s.videos[s.active as int].got(s.t as int);
            &&& !s.playing && got is Some ==> s.drained(dt).t == got->0.pts
            &&& !s.playing && got is Some ==> s.drained(dt).videos[s.active as int].shown_pts
                == s.drained(dt).t
            &&& s.playing || got is None ==> s.drained(dt).t == s.t
        }),
{
    reveal(AppState::drained);
}

/// Playback loops: where the clock reaches the end of the shortest stream,
/// every stream goes back to 0.
pub proof fn playback_loops(s: AppState, i: int)
    requires
        s.wf(),
        s.at_end(),
        0 <= i < s.videos.len(),
    ensures
        s.looped().t == 0,
        s.looped().videos[i].player.cmd == Some((0i64, true)),
{
    reveal(AppState::looped);
    reveal(AppState::sought);
}

/// A step aims half a frame period past the frame on screen, or one and a
/// half before it (to within one unit): strictly inside the neighbouring
/// frame, so rounding can't land on the same one. It also pauses.
pub proof fn a_step_aims_inside_the_neighbouring_frame(s: AppState)
    requires
        s.wf(),
        0 <= s.t,
        s.t + ONE <= TIME_LIMIT,
        s.fps <= ONE * ONE,
    ensures
        ({
            let (t, fps) = (s.t as int, s.fps as int);
            let on = s.step_target(true) - t;
            let back = t - s.step_target(false);
            &&& -1 <= 2 * on - (ONE * ONE) / fps <= 2
            &&& 0 < on
            &&& s.step_target(false) > 0 ==> -1 <= 2 * back - (3 * ONE * ONE) / fps <= 2
            &&& !s.stepped(true).playing && !s.stepped(false).playing
        }),
{
    reveal(AppState::stepped);
    reveal(AppState::sought);
    let fps = s.fps as int;
    let one = ONE as int;
    round_div_is_nearest(one * one, 2 * fps);
    round_div_is_nearest(3 * one * one, 2 * fps);
    round_div_sign(one * one, 2 * fps);
    round_div_sign(3 * one * one, 2 * fps);
    lemma_twice(one * one, fps);
    lemma_twice(3 * one * one, fps);
    let q = round_div(one * one, 2 * fps);
    assert(q >= 1 && q <= one) by (nonlinear_arith)
        requires
            2 * (2 * fps) * q <= 2 * (one * one) + 2 * fps,
            2 * (one * one) + 2 * fps < 2 * (2 * fps) * q + 2 * (2 * fps),
            one == 1_000_000_000,
            one < fps <= one * one,
    ;
}

/// Twice a half, rounded, is within two units of the whole.
proof fn lemma_twice(n: int, d: int)
    requires
        n >= 0,
        d > 0,
    ensures
        -1 <= 2 * round_div(n, 2 * d) - n / d <= 2,
{
    round_div_is_nearest(n, 2 * d);
    let q = round_div(n, 2 * d);
    vstd::arithmetic::div_mod::lemma_fundamental_div_mod(n, d);
    vstd::arithmetic::div_mod::lemma_mod_bound(n, d);
    let w = n / d;
    assert(2 * q - w >= -1) by (nonlinear_arith)
        requires
            2 * n + 2 * d < 2 * (2 * d) * q + 2 * (2 * d),
            d * w <= n,
            d > 0,
    ;
    assert(2 * q - w <= 2) by (nonlinear_arith)
        requires
            2 * (2 * d) * q <= 2 * n + 2 * d,
            n < d * w + d,
            d > 0,
    ;
}

/// Entering mask painting pauses and gives the focused clip a mask; leaving
/// it with `M` or Escape keeps every mask, the view and the pause.
pub proof fn mask_painting_leaves_the_comparison_as_it_was(s: AppState)
    requires
        s.wf(),
        s.is_ready(),
        !s.mask_mode,
    ensures
        ({
            let on = s.keyed(Key::Char('m'));
            let off = on.keyed(Key::Char('m'));
            let esc = on.keyed(Key::Escape);
            &&& on.mask_mode && !on.playing && on.masks[s.active as int] is Some
            &&& !off.mask_mode && off.mode == s.mode && off.masks == on.masks && !off.playing
            &&& !esc.mask_mode && esc.mode == s.mode && esc.masks == on.masks && !esc.playing
            &&& esc.cmds == s.cmds
            &&& off.videos == s.videos && off.t == s.t
            &&& s.masks[s.active as int] is Some ==> on.masks == s.masks
        }),
{
    reveal(AppState::mask_toggled);
    reveal(AppState::mask_keyed);
    reveal(AppState::with_mask);
}

/// Escape leaves fullscreen, and quits where there is none to leave.
pub proof fn escape_leaves_fullscreen_before_it_quits(s: AppState)
    requires
        s.wf(),
        !s.mask_mode,
    ensures
        s.fullscreen ==> !s.keyed(Key::Escape).fullscreen && s.keyed(Key::Escape).cmds
            == s.cmds.push(Cmd::ToggleFullscreen),
        !s.fullscreen ==> s.keyed(Key::Escape).cmds == s.cmds.push(Cmd::Quit),
{
    reveal(AppState::launch_keyed);
    reveal(AppState::compare_keyed);
    reveal(AppState::escaped);
    reveal(AppState::fullscreen_toggled);
}

/// A lone clip shows plain in every mode, and the mode is kept for when a
/// second one arrives.
pub proof fn a_lone_clip_shows_plain(s: AppState, new: VideoState)
    requires
        s.wf(),
        s.videos.len() == 1,
    ensures
        s.shown() == Mode::Overlay,
        s.joined(seq![new], false).shown() == s.mode,
{
    reveal(AppState::joined);
    reveal(AppState::joined_clips);
}

/// Clips of the same dimensions land on identical rects: position stays
/// synced.
pub proof fn equal_clips_share_one_rect(s: AppState, i: int, j: int)
    requires
        s.wf(),
        0 <= i < s.videos.len(),
        0 <= j < s.videos.len(),
        s.videos[i].dims() == s.videos[j].dims(),
    ensures
        s.content(i) == s.content(j),
{
    reveal(AppState::content);
}

/// `Z` resets the zoom, and the picture fits its window again.
pub proof fn z_resets_the_zoom(s: AppState, c: char, i: int)
    requires
        s.wf(),
        s.is_ready(),
        c == 'z' || c == 'Z',
        0 <= i < s.videos.len(),
    ensures
        s.keyed(Key::Char(c)).zoom == ONE,
        s.keyed(Key::Char(c)).center == (MIDDLE, MIDDLE),
        s.keyed(Key::Char(c)).content(i) == fit(s.videos[i].dims(), whole_window(s.vp)),
{
    reveal(AppState::compare_keyed);
    reveal(AppState::char_keyed);
    reveal(AppState::content);
    clip_ok(s.videos, s.masks, i);
    the_fit_stays_inside(s.videos[i].dims(), whole_window(s.vp));
    crate::geometry::at_fit_the_view_is_the_base(
        fit(s.videos[i].dims(), whole_window(s.vp)),
        0,
    );
}

/// A press on a transport button is that button's: the rects that are drawn
/// are the ones that act. (The transport is up after any press.)
pub proof fn a_press_on_a_button_acts(s: AppState, x: i32, y: i32)
    requires
        s.wf(),
        s.is_ready(),
        s.show_ui,
        !s.mask_mode,
    ensures
        hits(s.play_button(), x as int, y as int) ==> s.pressed(x, y) == (AppState {
            playing: !s.playing,
            since_pointer: 0,
            ..s
        }),
        hits(s.prev_button(), x as int, y as int) ==> s.pressed(x, y) == (AppState {
            since_pointer: 0,
            ..s
        }).stepped(false),
        hits(s.next_button(), x as int, y as int) ==> s.pressed(x, y) == (AppState {
            since_pointer: 0,
            ..s
        }).stepped(true),
{
    reveal(AppState::pressed);
    reveal(AppState::target);
    reveal(AppState::revealed);
}

/// A press on the seek band scrubs and never starts a pan.
pub proof fn a_seek_press_does_not_pan(s: AppState, x: i32, y: i32)
    requires
        s.wf(),
        !s.mask_mode,
        (AppState { since_pointer: 0, ..s }).target(x as int, y as int) == Target::Seek,
    ensures
        s.pressed(x, y).scrubbing,
        s.pressed(x, y).drag == s.drag,
{
    reveal(AppState::pressed);
    reveal(AppState::scrubbed);
    reveal(AppState::sought);
}

/// A save that is running is not disturbed by another request.
pub proof fn a_running_save_is_left_alone(s: AppState)
    requires
        s.saving,
    ensures
        s.saved() == s,
{
    reveal(AppState::saved);
}

/// The status line names what became of a save, and another may start.
pub proof fn a_finished_save_is_reported(s: AppState, reply: ReplyState)
    requires
        s.saving,
        !(reply is Empty),
    ensures
        !s.replied(reply).saving,
        s.replied(reply).mask_status == crate::tick::reply_text(reply, s.mask_status),
{
    reveal(AppState::replied);
}

/// Enlarging and shrinking undo each other, to within one unit.
pub proof fn resizing_is_undone(v: int)
    requires
        v >= 0,
    ensures
        -1 <= quarter_more(quarter_more(v, true), false) - v <= 1,
        -1 <= half_more(half_more(v, true), false) - v <= 1,
{
    let a = quarter_more(v, true);
    round_div_is_nearest(5 * v, 4);
    round_div_is_nearest(4 * a, 5);
    let b = half_more(v, true);
    round_div_is_nearest(3 * v, 2);
    round_div_is_nearest(2 * b, 3);
}

/// With the interface hidden and no mask being painted, only the pictures
/// and the letter flash are drawn; the status line stays while painting.
pub proof fn tab_hides_the_overlay(s: AppState)
    requires
        s.wf(),
        !s.show_ui,
    ensures
        !s.mask_mode ==> s.scene() == s.pictures() + s.badges(),
        s.mask_mode ==> s.scene() == s.pictures() + s.badges() + s.mask_layer() + s.status_line(),
        !s.mask_mode && s.badge_flash == 0 ==> s.scene() == s.pictures(),
{
    if s.badge_flash == 0 {
        round_div_bounds(0, 2, 0, 0);
        assert(s.pictures() + s.badges() =~= s.pictures());
    }
}

/// The picture that a gesture is anchored to lies in range.
proof fn lemma_gesture_base(s: AppState, x: int)
    requires
        s.wf(),
        s.is_ready(),
        x <= i32::MAX,
    ensures
        cell_ok(s.gesture_base(x)),
{
    reveal(AppState::gesture_base);
    let n = s.videos.len() as int;
    if s.mode == Mode::SideBySide && !s.mask_mode {
        let cw = most(cell_width(s.vp.0 as int, n), PX as int);
        let i = least(most(x / cw, 0), n - 1);
        lemma_cells(s.vp.0 as int, n, 0);
        lemma_cell_under(x, cw, n);
        clip_ok(s.videos, s.masks, i);
        the_fit_stays_inside(s.videos[i].dims(), rect(i * cw, 0, cw, s.vp.1 as int));
    } else {
        clip_ok(s.videos, s.masks, s.active as int);
        the_fit_stays_inside(s.videos[s.active as int].dims(), whole_window(s.vp));
    }
}

/// A pinch that the picture's edges don't stop keeps the content point under
/// the pointer where it is, also on the way out: that point lies under the
/// pointer again at the new zoom, but for rounding (two units, and one more
/// for each ten thousand pixels of picture).
pub proof fn an_unstopped_pinch_holds_the_point_under_the_pointer(s: AppState, delta: int)
    requires
        s.wf(),
        s.pinch_acts(delta),
        ({
            let (cx, cy) = (s.cursor.0 as int, s.cursor.1 as int);
            let base = s.gesture_base(cx);
            let new = s.pinch_zoom(delta);
            let r = zoomed(base, s.zoom as int, s.middle());
            let u = crate::geometry::spot(cx, r.x as int, r.w as int);
            let v = crate::geometry::spot(cy, r.y as int, r.h as int);
            let x = center_for(u, cx, base.x as int, base.w as int, new);
            let y = center_for(v, cy, base.y as int, base.h as int, new);
            &&& base.w > 0 && base.h > 0
            &&& half_view(new) <= x <= ONE - half_view(new)
            &&& half_view(new) <= y <= ONE - half_view(new)
        }),
    ensures
        ({
            let (cx, cy) = (s.cursor.0 as int, s.cursor.1 as int);
            let base = s.gesture_base(cx);
            let r = zoomed(base, s.zoom as int, s.middle());
            let u = crate::geometry::spot(cx, r.x as int, r.w as int);
            let v = crate::geometry::spot(cy, r.y as int, r.h as int);
            let after = s.pinched(delta);
            let q = zoomed(base, after.zoom as int, after.middle());
            let ex = 2 + q.w / ONE;
            let ey = 2 + q.h / ONE;
            &&& -ex <= q.x + scaled(q.w as int, u) - cx <= ex
            &&& -ey <= q.y + scaled(q.h as int, v) - cy <= ey
        }),
{
    reveal(AppState::pinched);
    reveal(AppState::pinch_center);
    let (cx, cy) = (s.cursor.0 as int, s.cursor.1 as int);
    let base = s.gesture_base(cx);
    let new = s.pinch_zoom(delta);
    let r = zoomed(base, s.zoom as int, s.middle());
    let u = crate::geometry::spot(cx, r.x as int, r.w as int);
    let v = crate::geometry::spot(cy, r.y as int, r.h as int);
    let after = s.pinched(delta);
    assert(zoom_ok(new));
    lemma_gesture_base(s, cx);
    lemma_half_view(new);
    lemma_zoomed_bounds(base, new, after.middle());
    a_zoom_holds_the_point_under_the_pointer(u, cx, base.x as int, base.w as int, new);
    a_zoom_holds_the_point_under_the_pointer(v, cy, base.y as int, base.h as int, new);
}

/// Pinching in keeps the content point under the pointer where it is: with
/// the pointer over the picture, whatever the view, that point lies under the
/// pointer again at the new zoom, but for rounding (six units, two more for
/// each time that the picture grew by, and three for each ten thousand pixels of
/// it).
pub proof fn a_pinch_holds_the_point_under_the_pointer(s: AppState, delta: int)
    requires
        s.wf(),
        s.pinch_acts(delta),
        s.pinch_zoom(delta) >= s.zoom,
        ({
            let (cx, cy) = (s.cursor.0 as int, s.cursor.1 as int);
            let base = s.gesture_base(cx);
            &&& base.w > 0 && base.h > 0
            &&& base.x <= cx <= base.x + base.w
            &&& base.y <= cy <= base.y + base.h
        }),
    ensures
        ({
            let (cx, cy) = (s.cursor.0 as int, s.cursor.1 as int);
            let base = s.gesture_base(cx);
            let r = zoomed(base, s.zoom as int, s.middle());
            let u = crate::geometry::spot(cx, r.x as int, r.w as int);
            let v = crate::geometry::spot(cy, r.y as int, r.h as int);
            let after = s.pinched(delta);
            let q = zoomed(base, after.zoom as int, after.middle());
            let ex = 6 + 3 * (q.w as int / ONE as int) + 2 * (q.w as int / r.w as int);
            let ey = 6 + 3 * (q.h as int / ONE as int) + 2 * (q.h as int / r.h as int);
            &&& -ex <= q.x + scaled(q.w as int, u) - cx <= ex
            &&& -ey <= q.y + scaled(q.h as int, v) - cy <= ey
        }),
{
    reveal(AppState::pinched);
    reveal(AppState::pinch_center);
    let (cx, cy) = (s.cursor.0 as int, s.cursor.1 as int);
    let base = s.gesture_base(cx);
    let new = s.pinch_zoom(delta);
    let after = s.pinched(delta);
    assert(zoom_ok(new));
    lemma_gesture_base(s, cx);
    lemma_half_view(new);
    lemma_half_view(s.zoom as int);
    lemma_zoomed_bounds(base, s.zoom as int, s.middle());
    lemma_zoomed_bounds(base, new, after.middle());
    a_zoom_in_holds_the_point_under_the_pointer(
        s.center.0 as int,
        cx,
        base.x as int,
        base.w as int,
        s.zoom as int,
        new,
    );
    a_zoom_in_holds_the_point_under_the_pointer(
        s.center.1 as int,
        cy,
        base.y as int,
        base.h as int,
        s.zoom as int,
        new,
    );
}

/// Whether a clip is part way through a stream of frame times: its queue
/// holds the frames from number `at` on, and it shows the one before.
pub open spec fn in_step(v: VideoState, stream: Seq<i64>, at: int) -> bool {
    &&& follows(v.player, stream, at)
    &&& at > 0 ==> v.shown_pts == stream[at - 1]
    &&& !v.pending
}

/// Frame lock: two clips of the same frame times, drained against the one
/// clock, show the same frame afterwards, and are in step for the next time;
/// it does not matter how far ahead either had read, nor what either showed
/// before. (Their queues reach past the clock, and the clock has reached the
/// first frame.)
pub proof fn the_streams_stay_frame_locked(
    s: AppState,
    i: int,
    j: int,
    stream: Seq<i64>,
    at_i: int,
    at_j: int,
    dt: int,
)
    requires
        s.wf(),
        0 <= i < s.videos.len(),
        0 <= j < s.videos.len(),
        forall|a: int, b: int| 0 <= a < b < stream.len() ==> stream[a] < stream[b],
        stream.len() > 0 && stream[0] <= s.t + DUE_SLACK,
        in_step(s.videos[i], stream, at_i),
        in_step(s.videos[j], stream, at_j),
        reaches(s.videos[i].player, s.t + DUE_SLACK),
        reaches(s.videos[j].player, s.t + DUE_SLACK),
        at_i == 0 || stream[at_i - 1] <= s.t + DUE_SLACK,
        at_j == 0 || stream[at_j - 1] <= s.t + DUE_SLACK,
    ensures
        ({
            let after = s.drained(dt);
            let at = at_i + due(s.videos[i].player.frames, s.t + DUE_SLACK);
            &&& after.videos[i].shown_pts == after.videos[j].shown_pts
            &&& after.videos[i].shown_pts <= s.t + DUE_SLACK
            &&& in_step(after.videos[i], stream, at)
            &&& in_step(after.videos[j], stream, at)
        }),
{
    reveal(AppState::drained);
    let t = s.t + DUE_SLACK;
    let (a, b) = (s.videos[i].player, s.videos[j].player);
    players_on_one_clock_show_the_same_frame(a, b, stream, at_i, at_j, t);
    let at = at_i + due(a.frames, t);
    due_frames_are_reached(a.frames, t);
    due_frames_are_reached(b.frames, t);
    assert(s.drained(dt).videos[i] == s.videos[i].taken(s.t as int));
    assert(s.drained(dt).videos[j] == s.videos[j].taken(s.t as int));
    assert(at > 0) by {
        if at == 0 {
            assert(a.frames[0].pts == stream[0]);
        }
    }
    if due(a.frames, t) > 0 {
        assert(a.frames[due(a.frames, t) - 1].pts == stream[at - 1]);
    }
    if due(b.frames, t) > 0 {
        assert(b.frames[due(b.frames, t) - 1].pts == stream[at - 1]);
    }
}

/// Showing another clip flashes its letter, so that one knows which it is
/// even with the interface hidden.
pub proof fn a_flip_flashes_the_letter(s: AppState, k: Key)
    requires
        s.wf(),
        s.is_ready(),
        is_flip(k),
        k matches Key::Char(c) ==> (c as int - '1' as int) < s.videos.len(),
    ensures
        s.keyed(k).badge_flash > 0,
{
    reveal(AppState::compare_keyed);
    reveal(AppState::char_keyed);
    let base = if s.mask_mode { AppState { stroke_last: None, ..s } } else { s };
    match k {
        Key::Char(c) => lemma_selecting_keeps_the_rest(base, c as int - '1' as int),
        _ => lemma_selecting_keeps_the_rest(
            base,
            following(base.active as int, base.videos.len() as int),
        ),
    }
}

/// Any motion of the pointer over the comparison brings the transport up.
pub proof fn motion_reveals_the_transport(s: AppState, x: i32, y: i32)
    requires
        s.wf(),
        !s.mask_mode,
    ensures
        s.moved(x, y).revealed() == ONE,
{
    reveal(AppState::moved);
    reveal(AppState::dragged);
    reveal(AppState::scrubbed);
    reveal(AppState::sought);
    reveal(AppState::revealed);
}

/// Half a frame period of a comparison.
pub open spec fn half_period(s: AppState) -> int {
    round_div(ONE * ONE, 2 * s.fps)
}

/// Whether a stream's frames lie one frame period apart, but for rounding.
pub open spec fn evenly_spaced(s: AppState, stream: Seq<i64>) -> bool {
    forall|i: int, j: int|
        #![trigger stream[i], stream[j]]
        0 <= i && j == i + 1 && j < stream.len() ==> -2 <= stream[j] - stream[i] - 2 * half_period(s)
            <= 2
}

/// A reader that was told of an exact seek to `target`.
pub open spec fn told(r: Reader, target: int) -> Reader {
    r.after(Event::Polled { closed: false, cmd: Some((target as i64, true)) })
}

/// A step moves one frame: every stream is sent where its reader drops all
/// the frames up to the one on screen and delivers the next; backwards it
/// drops all before the previous one and delivers that. (The frames are
/// evenly spaced, at fewer than five hundred a second.)
pub proof fn a_step_lands_on_the_neighbouring_frame(
    s: AppState,
    r: Reader,
    stream: Seq<i64>,
    k: int,
    i: int,
)
    requires
        s.wf(),
        forall|a: int, b: int| 0 <= a < b < stream.len() ==> stream[a] < stream[b],
        evenly_spaced(s, stream),
        half_period(s) > SEEK_SLACK + 6,
        0 <= k < stream.len(),
        s.t == stream[k],
        0 <= s.t <= TIME_LIMIT - ONE,
        0 <= i < s.videos.len(),
    ensures
        ({
            let on = s.step_target(true);
            &&& s.stepped(true).videos[i].player.cmd == Some((on as i64, true))
            &&& s.stepped(true).videos[i].pending
            &&& forall|f: int|
                0 <= f <= k ==> told(r, on).skips(Some(#[trigger] stream[f]))
            &&& k + 1 < stream.len() ==> !told(r, on).skips(Some(stream[k + 1]))
        }),
        ({
            let back = s.step_target(false);
            &&& s.stepped(false).videos[i].player.cmd == Some((back as i64, true))
            &&& s.stepped(false).videos[i].pending
            &&& k > 0 ==> {
                &&& forall|f: int|
                    0 <= f < k - 1 && stream[0] >= 0 ==> told(r, back).skips(
                        Some(#[trigger] stream[f]),
                    )
                &&& !told(r, back).skips(Some(stream[k - 1])) || stream[k - 1] < 0
            }
        }),
{
    reveal(AppState::stepped);
    reveal(AppState::sought);
    let fps = s.fps as int;
    let one = ONE as int;
    let q = half_period(s);
    round_div_is_nearest(one * one, 2 * fps);
    round_div_is_nearest(3 * one * one, 2 * fps);
    round_div_sign(one * one, 2 * fps);
    round_div_sign(3 * one * one, 2 * fps);
    let b = round_div(3 * one * one, 2 * fps);
    assert(-2 <= b - 3 * q <= 2) by (nonlinear_arith)
        requires
            2 * (2 * fps) * q <= 2 * (one * one) + 2 * fps,
            2 * (one * one) + 2 * fps < 2 * (2 * fps) * q + 2 * (2 * fps),
            2 * (2 * fps) * b <= 2 * (3 * one * one) + 2 * fps,
            2 * (3 * one * one) + 2 * fps < 2 * (2 * fps) * b + 2 * (2 * fps),
            fps > 0,
    ;
    assert(q <= one) by (nonlinear_arith)
        requires
            2 * (2 * fps) * q <= 2 * (one * one) + 2 * fps,
            one < fps,
            one == 1_000_000_000,
    ;
    if k + 1 < stream.len() {
        assert(stream[k] < stream[k + 1]);
    }
    assert forall|f: int| 0 <= f <= k implies told(r, s.step_target(true)).skips(
        Some(#[trigger] stream[f]),
    ) by {
        if f < k {
            assert(stream[f] < stream[k]);
        }
    }
    if k > 0 {
        assert(stream[k - 1] < stream[k]);
        assert forall|f: int| 0 <= f < k - 1 && stream[0] >= 0 implies told(
            r,
            s.step_target(false),
        ).skips(Some(#[trigger] stream[f])) by {
            assert(stream[k - 2] < stream[k - 1]);
            if f < k - 2 {
                assert(stream[f] < stream[k - 2]);
            }
        }
    }
}

/// A new mask gets the next id, and the next is another: no two masks of a
/// comparison share one, until the numbers run out. The masks that are there
/// stay as they are.
pub proof fn a_new_mask_has_a_new_id(s: AppState, i: int, j: int)
    requires
        s.wf(),
        s.is_ready(),
        s.next_mask_id < u64::MAX - 1,
        0 <= i < s.masks.len(),
        0 <= j < s.masks.len(),
        i != j,
    ensures
        ({
            let t = s.with_mask();
            let a = s.active as int;
            &&& s.masks[a] is None ==> t.masks[a] is Some && t.masks[a]->0.id == s.next_mask_id
                && t.next_mask_id > s.next_mask_id
            &&& s.masks[a] is Some ==> t == s
            &&& s.masks[i] is Some ==> t.masks[i] == s.masks[i]
            &&& t.masks[i] matches Some(m) ==> m.id < t.next_mask_id
            &&& t.masks[i] is Some && t.masks[j] is Some ==> t.masks[i]->0.id != t.masks[j]->0.id
        }),
{
    reveal(AppState::with_mask);
    reveal(ids_ok);
}

} // verus!
