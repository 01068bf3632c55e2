//! The keyboard, seen from outside: what each key changes, and that it changes
//! nothing else.

use crate::app::{half_more, quarter_more, AppState, Cmd, Key, Mode};
use crate::units::{round_div_bounds, round_div_is_nearest, TIME_LIMIT};
use vstd::prelude::*;

verus! {

/// What the comparison's keys act on: while a mask is painted, the stroke ends
/// first.
pub open spec fn at_hand(s: AppState) -> AppState {
    if s.mask_mode { AppState { stroke_last: None, ..s } } else { s }
}

/// Space pauses and plays, and a second one undoes the first; Tab hides the
/// interface and shows it. Neither changes anything else.
pub proof fn space_and_tab_toggle(s: AppState)
    requires
        s.wf(),
        s.videos.len() > 0,
    ensures
        s.keyed(Key::Space) == (AppState { playing: !s.playing, ..at_hand(s) }),
        s.keyed(Key::Tab) == (AppState { show_ui: !s.show_ui, ..at_hand(s) }),
        !s.mask_mode ==> s.keyed(Key::Space).keyed(Key::Space) == s,
        !s.mask_mode ==> s.keyed(Key::Tab).keyed(Key::Tab) == s,
{
    reveal(AppState::compare_keyed);
}

/// `F` goes in and out of fullscreen, with the window told each time; `Q` asks
/// to quit. So they do before a clip is there.
pub proof fn f_and_q_speak_to_the_window(s: AppState, c: char)
    requires
        s.wf(),
    ensures
        c == 'f' || c == 'F' ==> s.keyed(Key::Char(c)) == (AppState {
            fullscreen: !s.fullscreen,
            cmds: s.cmds.push(Cmd::ToggleFullscreen),
            ..at_hand(s)
        }),
        c == 'q' || c == 'Q' ==> s.keyed(Key::Char(c)) == (AppState {
            cmds: s.cmds.push(Cmd::Quit),
            ..at_hand(s)
        }),
{
    reveal(AppState::launch_keyed);
    reveal(AppState::compare_keyed);
    reveal(AppState::char_keyed);
    reveal(AppState::fullscreen_toggled);
}

/// `V` goes through the views: overlay, side by side, delta, split, checker,
/// blend and overlay again; with Shift it goes back. The view is all it changes.
pub proof fn v_goes_through_the_views(s: AppState)
    requires
        s.wf(),
        s.videos.len() > 0,
    ensures
        ({
            let (on, back) = (s.keyed(Key::Char('v')), s.keyed(Key::Char('V')));
            &&& on == (AppState { mode: on.mode, ..at_hand(s) })
            &&& back == (AppState { mode: back.mode, ..at_hand(s) })
            &&& on.mode == match s.mode {
                Mode::Overlay => Mode::SideBySide,
                Mode::SideBySide => Mode::Delta,
                Mode::Delta => Mode::Split,
                Mode::Split => Mode::Checker,
                Mode::Checker => Mode::Blend,
                Mode::Blend => Mode::Overlay,
            }
            &&& s.mode == match back.mode {
                Mode::Overlay => Mode::SideBySide,
                Mode::SideBySide => Mode::Delta,
                Mode::Delta => Mode::Split,
                Mode::Split => Mode::Checker,
                Mode::Checker => Mode::Blend,
                Mode::Blend => Mode::Overlay,
            }
        }),
{
    reveal(AppState::compare_keyed);
    reveal(AppState::char_keyed);
}

/// Whether `r` is `n / d` times `v`, to the nearest unit.
pub open spec fn is_times(r: int, v: int, n: int, d: int) -> bool {
    2 * (d * r - n * v) <= d && 2 * (n * v - d * r) <= d
}

proof fn lemma_times(v: int)
    requires
        v >= 0,
    ensures
        is_times(quarter_more(v, true), v, 5, 4),
        is_times(quarter_more(v, false), v, 4, 5),
        is_times(half_more(v, true), v, 3, 2),
        is_times(half_more(v, false), v, 2, 3),
        0 <= quarter_more(v, true) <= 2 * v,
        0 <= quarter_more(v, false) <= v,
        0 <= half_more(v, true) <= 2 * v,
        0 <= half_more(v, false) <= v,
{
    round_div_is_nearest(5 * v, 4);
    round_div_is_nearest(4 * v, 5);
    round_div_is_nearest(3 * v, 2);
    round_div_is_nearest(2 * v, 3);
    round_div_bounds(5 * v, 4, 0, 2 * v);
    round_div_bounds(4 * v, 5, 0, v);
    round_div_bounds(3 * v, 2, 0, 2 * v);
    round_div_bounds(2 * v, 3, 0, v);
}

/// `]` makes playback a quarter faster, up to four times as fast; `[` slower by
/// as much, down to a quarter; Backspace resets the speed. The speed is all they
/// change.
pub proof fn the_speed_keys_change_the_speed(s: AppState)
    requires
        s.wf(),
        s.videos.len() > 0,
    ensures
        ({
            let (up, down) = (s.keyed(Key::Char(']')), s.keyed(Key::Char('[')));
            &&& up == (AppState { speed: up.speed, ..at_hand(s) })
            &&& down == (AppState { speed: down.speed, ..at_hand(s) })
            &&& s.keyed(Key::Backspace) == (AppState { speed: 1_000_000_000, ..at_hand(s) })
            &&& 5 * s.speed <= 16_000_000_000 ==> is_times(up.speed as int, s.speed as int, 5, 4)
            &&& 5 * s.speed >= 16_000_000_000 ==> up.speed == 4_000_000_000
            &&& 4 * s.speed >= 1_250_000_000 ==> is_times(down.speed as int, s.speed as int, 4, 5)
            &&& 4 * s.speed <= 1_250_000_000 ==> down.speed == 250_000_000
        }),
{
    reveal(AppState::compare_keyed);
    reveal(AppState::char_keyed);
    lemma_times(s.speed as int);
}

/// `=` and `-` turn up and down what the view has to set: the mix of a blend by
/// a tenth, from 0 to 1; a checker's tile by half as much again, from 4 to 512
/// pixels; else the gain, from 1 to 64. That is all they change. (`+` does as
/// `=`.)
pub proof fn the_adjusting_keys_adjust_the_view(s: AppState)
    requires
        s.wf(),
        s.videos.len() > 0,
        !s.mask_mode,
    ensures
        ({
            let (up, down) = (s.keyed(Key::Char('=')), s.keyed(Key::Char('-')));
            &&& s.keyed(Key::Char('+')) == up
            &&& match s.mode {
                Mode::Blend => {
                    &&& up == (AppState { blend: up.blend, ..s })
                    &&& down == (AppState { blend: down.blend, ..s })
                    &&& up.blend == if s.blend <= 900_000_000 {
                        s.blend + 100_000_000
                    } else {
                        1_000_000_000
                    }
                    &&& down.blend == if s.blend >= 100_000_000 { s.blend - 100_000_000 } else { 0 }
                },
                Mode::Checker => {
                    let v = s.checker_px as int;
                    &&& up == (AppState { checker_px: up.checker_px, ..s })
                    &&& down == (AppState { checker_px: down.checker_px, ..s })
                    &&& 3 * v <= 102_400_000 ==> is_times(up.checker_px as int, v, 3, 2)
                    &&& 3 * v >= 102_400_000 ==> up.checker_px == 51_200_000
                    &&& 2 * v >= 1_200_000 ==> is_times(down.checker_px as int, v, 2, 3)
                    &&& 2 * v <= 1_200_000 ==> down.checker_px == 400_000
                },
                _ => {
                    let v = s.gain as int;
                    &&& up == (AppState { gain: up.gain, ..s })
                    &&& down == (AppState { gain: down.gain, ..s })
                    &&& 3 * v <= 128_000_000_000 ==> is_times(up.gain as int, v, 3, 2)
                    &&& 3 * v >= 128_000_000_000 ==> up.gain == 64_000_000_000
                    &&& 2 * v >= 3_000_000_000 ==> is_times(down.gain as int, v, 2, 3)
                    &&& 2 * v <= 3_000_000_000 ==> down.gain == 1_000_000_000
                },
            }
        }),
{
    reveal(AppState::compare_keyed);
    reveal(AppState::char_keyed);
    reveal(AppState::adjusted);
    lemma_times(s.checker_px as int);
    lemma_times(s.gain as int);
}

/// The arrows seek a second back or on, together: the clock and every stream go
/// to the same instant, not before the start and not past the loop point's
/// margin. What was queued is dropped. Playing stays playing, and what is paused
/// waits for the landing frame.
pub proof fn the_arrows_seek_by_a_second(s: AppState, i: int, right: bool)
    requires
        s.wf(),
        0 <= i < s.videos.len(),
    ensures
        ({
            let a = s.keyed(if right { Key::Right } else { Key::Left });
            let to = if right { s.t + 1_000_000_000 } else { s.t - 1_000_000_000 };
            &&& a.playing == s.playing && a.active == s.active && a.videos.len() == s.videos.len()
            &&& a.t >= 0
            &&& to <= 0 ==> a.t == 0
            &&& s.wrap matches Some(w) ==> {
                &&& 0 <= to <= w - 50_000_000 ==> a.t == to
                &&& to >= w - 50_000_000 >= 0 ==> a.t == w - 50_000_000
            }
            &&& s.wrap is None && 0 <= to <= TIME_LIMIT ==> a.t == to
            &&& a.videos[i].player.cmd == Some((a.t, true))
            &&& a.videos[i].player.frames.len() == 0
            &&& a.videos[i].pending == (s.videos[i].pending || !s.playing)
            &&& a.videos[i].info == s.videos[i].info
        }),
{
    reveal(AppState::compare_keyed);
    reveal(AppState::nudged);
    reveal(AppState::sought);
}

/// `<` and `>` step as `,` and `.` do.
pub proof fn the_step_keys_have_two_names(s: AppState)
    requires
        s.wf(),
        s.videos.len() > 0,
    ensures
        s.keyed(Key::Char('<')) == s.keyed(Key::Char(',')),
        s.keyed(Key::Char('>')) == s.keyed(Key::Char('.')),
{
    reveal(AppState::compare_keyed);
    reveal(AppState::char_keyed);
}

/// In mask painting `+` makes the brush a quarter larger, up to 4096 pixels, and
/// `-` smaller by as much, down to one; `=` does as `+`, `_` as `-`. The stroke
/// ends with it, and nothing else changes.
pub proof fn the_brush_keys_resize_the_brush(s: AppState)
    requires
        s.wf(),
        s.videos.len() > 0,
        s.mask_mode,
    ensures
        ({
            let (up, down) = (s.keyed(Key::Char('+')), s.keyed(Key::Char('-')));
            let v = s.brush_diameter as int;
            &&& s.keyed(Key::Char('=')) == up && s.keyed(Key::Char('_')) == down
            &&& up == (AppState { brush_diameter: up.brush_diameter, stroke_last: None, ..s })
            &&& down == (AppState { brush_diameter: down.brush_diameter, stroke_last: None, ..s })
            &&& 5 * v <= 1_638_400_000 ==> is_times(up.brush_diameter as int, v, 5, 4)
            &&& 5 * v >= 1_638_400_000 ==> up.brush_diameter == 409_600_000
            &&& 4 * v >= 500_000 ==> is_times(down.brush_diameter as int, v, 4, 5)
            &&& 4 * v <= 500_000 ==> down.brush_diameter == 100_000
        }),
{
    reveal(AppState::mask_keyed);
    reveal(AppState::brush_resized);
    lemma_times(s.brush_diameter as int);
}

/// `S` in mask painting hands the active clip's mask over to be saved, every
/// pixel of it, beside that clip; a save that runs is left to finish. The mask
/// stays as it is.
pub proof fn s_saves_the_active_mask(s: AppState, c: char)
    requires
        s.wf(),
        s.videos.len() > 0,
        s.mask_mode,
        c == 's' || c == 'S',
    ensures
        ({
            let a = s.keyed(Key::Char(c));
            let m = s.masks[s.active as int]->0;
            &&& s.saving ==> a == s
            &&& !s.saving ==> {
                &&& a.saving
                &&& a.masks == s.masks && a.videos == s.videos && a.mask_mode
                &&& a.save_job matches Some(job)
                &&& job.width == m.width && job.height == m.height && job.pixels == m.pixels
                &&& job.path == crate::paths::with_extension(
                    s.videos[s.active as int].info.path,
                    "mask.png"@,
                )
            }
        }),
{
    reveal(AppState::mask_keyed);
    reveal(AppState::saved);
}

/// A character that is no command does nothing to a comparison; on the launch
/// window only `F`, `Q` and Escape are live.
pub proof fn other_keys_do_nothing(s: AppState, k: Key)
    requires
        s.wf(),
    ensures
        s.videos.len() == 0 && k != Key::Escape && k != Key::Char('f') && k != Key::Char('F') && k
            != Key::Char('q') && k != Key::Char('Q') ==> s.keyed(k) == s,
        s.videos.len() > 0 && !s.mask_mode && (k == Key::Char('s') || k == Key::Char('S') || k
            == Key::Char('_') || k == Key::Char('0') || (k matches Key::Char(c) && (c > 'z' || c
            < '+' || ('g' <= c && c <= 'l') || ('n' <= c && c <= 'p') || ('r' <= c && c <= 'u')
            || ('w' <= c && c <= 'y') || ('a' <= c && c <= 'e')))) ==> s.keyed(k) == s,
{
    reveal(AppState::launch_keyed);
    reveal(AppState::compare_keyed);
    reveal(AppState::char_keyed);
}

/// `M` alone goes in and out of mask painting, and `m` too: with a comparison
/// loaded it turns the painting on or off, and letting go of whatever the
/// pointer was at.
pub proof fn m_toggles_mask_painting(s: AppState, c: char)
    requires
        s.wf(),
        s.videos.len() > 0,
        c == 'm' || c == 'M',
    ensures
        ({
            let a = s.keyed(Key::Char(c));
            &&& a.mask_mode == !s.mask_mode
            &&& !a.painting && a.drag is None && !a.scrubbing && a.stroke_last is None
            &&& a.active == s.active && a.videos == s.videos && a.t == s.t && a.mode == s.mode
            &&& a.zoom == s.zoom && a.center == s.center
            &&& s.mask_mode ==> a.masks == s.masks && a.playing == s.playing
            &&& !s.mask_mode ==> !a.playing
        }),
{
    reveal(AppState::mask_toggled);
    reveal(AppState::with_mask);
}

/// A new mask is black, as large as the displayed picture, and for the active
/// clip alone.
pub proof fn a_new_mask_is_blank(s: AppState, i: int)
    requires
        s.wf(),
        s.videos.len() > 0,
        !s.mask_mode,
        0 <= i < s.videos.len(),
    ensures
        ({
            let a = s.keyed(Key::Char('m'));
            let (w, h) = (s.videos[i].player.w, s.videos[i].player.h);
            &&& i != s.active || s.masks[i] is Some ==> a.masks[i] == s.masks[i]
            &&& i == s.active && s.masks[i] is None ==> {
                &&& a.masks[i] matches Some(m)
                &&& m.width == w && m.height == h && m.revision == 0
                &&& m.pixels.len() == w * h
                &&& forall|k: int| 0 <= k < m.pixels.len() ==> m.pixels[k] == 0u8
            }
        }),
{
    reveal(AppState::mask_toggled);
    reveal(AppState::with_mask);
    crate::app::clip_ok(s.videos, s.masks, i);
    assert(0 <= s.videos[i].player.w * s.videos[i].player.h) by (nonlinear_arith);
}

/// Letting the button go ends whatever the pointer was at; so does leaving the
/// window.
pub proof fn a_release_ends_every_gesture(s: AppState)
    ensures
        s.released() == (AppState {
            painting: false,
            stroke_last: None,
            drag: None,
            scrubbing: false,
            ..s
        }),
{
}

/// Showing another clip in mask painting gives it a mask where it has none, and
/// leaves every other clip's mask as it is.
pub proof fn a_flip_in_mask_painting_keeps_every_mask(s: AppState, i: int)
    requires
        s.wf(),
        s.videos.len() > 0,
        s.mask_mode,
        0 <= i < s.masks.len(),
    ensures
        ({
            let a = s.keyed(Key::Enter);
            &&& a.mask_mode
            &&& s.masks[i] is Some ==> a.masks[i] == s.masks[i]
            &&& i != a.active ==> a.masks[i] == s.masks[i]
            &&& i == a.active ==> a.masks[i] is Some
            &&& !a.painting && a.stroke_last is None
        }),
{
    reveal(AppState::compare_keyed);
    reveal(AppState::selected);
    reveal(AppState::with_mask);
}

/// A flip while a mask is painted takes back what was said of the mask before.
pub proof fn a_flip_clears_the_status(s: AppState, c: char)
    requires
        s.wf(),
        s.videos.len() > 0,
        s.mask_mode,
        '1' <= c && c <= '9',
        (c as int) - ('1' as int) < s.videos.len(),
    ensures
        s.keyed(Key::Enter).mask_status.len() == 0,
        s.keyed(Key::Char(c)).mask_status.len() == 0,
{
    reveal(AppState::compare_keyed);
    reveal(AppState::char_keyed);
    reveal(AppState::selected);
}

} // verus!
